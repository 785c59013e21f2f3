use vstd::prelude::*;
use vstd::string::StrSliceExecFns;
use vstd::string::StringExecFns;

use crate::cli::PackageManager;
use crate::paths::{join_of, join_path};
use crate::errors::CliError;
use crate::text::text_starts_with;
use crate::watch::{contains_text, views};

verus! {

/// The branch of resolution a specifier takes.
#[derive(Debug, Clone, Copy, PartialEq, Eq)]
pub enum SpecKind {
    /// Listed as external: left alone.
    External,
    /// The empty specifier, an error.
    Empty,
    /// Starts with `./`, `../` or `/`: a path from the referrer's folder.
    Path,
    /// Anything else: a package looked up in the package folders.
    Bare,
}

pub open spec fn is_path_spec(s: Seq<char>) -> bool {
    (s.len() >= 2 && s.subrange(0, 2) == "./"@) || (s.len() >= 3 && s.subrange(0, 3) == "../"@) || (
    s.len() >= 1 && s[0] == '/')
}

pub open spec fn kind_of_spec(s: Seq<char>, external: Seq<Seq<char>>) -> SpecKind {
    if external.contains(s) {
        SpecKind::External
    } else if s.len() == 0 {
        SpecKind::Empty
    } else if is_path_spec(s) {
        SpecKind::Path
    } else {
        SpecKind::Bare
    }
}

/// Which branch of resolution `name` takes, given the external list.
pub fn classify(name: &str, external: &Vec<String>) -> (r: SpecKind)
    ensures
        r == kind_of_spec(name@, views(external@)),
{
    if contains_text(external, name) {
        return SpecKind::External;
    }
    if name.unicode_len() == 0 {
        return SpecKind::Empty;
    }
    let slash = name.get_char(0) == '/';
    proof {
        reveal_strlit("./");
        reveal_strlit("../");
    }
    if text_starts_with(name, "./") || text_starts_with(name, "../") || slash {
        SpecKind::Path
    } else {
        SpecKind::Bare
    }
}

/// The files tried for a path, in order: itself, then with `.js`, then
/// with `.json`.
pub open spec fn file_probes(base: Seq<char>) -> Seq<Seq<char>> {
    seq![base, base + ".js"@, base + ".json"@]
}

pub fn file_candidates(base: &str) -> (r: Vec<String>)
    ensures
        views(r@) == file_probes(base@),
{
    let mut r: Vec<String> = Vec::new();
    r.push(String::from_str(base));
    let mut js = String::from_str(base);
    js.append(".js");
    r.push(js);
    let mut json = String::from_str(base);
    json.append(".json");
    r.push(json);
    assert(views(r@) =~= file_probes(base@));
    r
}

/// The files tried in a folder without a usable manifest: `index.js`, then
/// `index.json`.
pub open spec fn index_probes(dir: Seq<char>) -> Seq<Seq<char>> {
    seq![join_of(dir, "index.js"@), join_of(dir, "index.json"@)]
}

pub fn index_candidates(dir: &str) -> (r: Vec<String>)
    ensures
        views(r@) == index_probes(dir@),
{
    let mut r: Vec<String> = Vec::new();
    r.push(join_path(dir, "index.js"));
    r.push(join_path(dir, "index.json"));
    assert(views(r@) =~= index_probes(dir@));
    r
}

/// The package part of a bare specifier: everything before its first `/`.
pub open spec fn package_of(s: Seq<char>) -> Seq<char>
    decreases s.len(),
{
    if s.len() == 0 || s[0] == '/' {
        Seq::empty()
    } else {
        seq![s[0]] + package_of(s.drop_first())
    }
}

proof fn lemma_package_prefix(s: Seq<char>, i: int)
    requires
        0 <= i <= s.len(),
        forall|j: int| 0 <= j < i ==> s[j] != '/',
        i == s.len() || s[i] == '/',
    ensures
        package_of(s) == s.subrange(0, i),
    decreases s.len(),
{
    if s.len() > 0 && s[0] != '/' {
        lemma_package_prefix(s.drop_first(), i - 1);
        assert(s.subrange(0, i) =~= seq![s[0]] + s.drop_first().subrange(0, i - 1));
    } else {
        assert(s.subrange(0, i) =~= Seq::<char>::empty());
    }
}

pub fn package_name(s: &str) -> (r: String)
    ensures
        r@ == package_of(s@),
{
    let n = s.unicode_len();
    let mut i: usize = 0;
    while i < n
        invariant
            n == s@.len(),
            i <= n,
            forall|j: int| 0 <= j < i ==> s@[j] != '/',
        ensures
            i <= n,
            forall|j: int| 0 <= j < i ==> s@[j] != '/',
            i == n || s@[i as int] == '/',
        decreases n - i,
    {
        if s.get_char(i) == '/' {
            break;
        }
        i = i + 1;
    }
    proof {
        lemma_package_prefix(s@, i as int);
    }
    String::from_str(s.substring_char(0, i))
}

/// The folder that holds packages: `bower_components` under Bower, except
/// for the packages forced through npm; `node_modules` otherwise.
pub open spec fn package_folder_of(pm: PackageManager, forced: Seq<Seq<char>>, package: Seq<char>) -> Seq<char> {
    if pm == PackageManager::Bower && !forced.contains(package) {
        "bower_components"@
    } else {
        "node_modules"@
    }
}

pub fn package_folder(pm: PackageManager, forced: &Vec<String>, package: &str) -> (r: String)
    ensures
        r@ == package_folder_of(pm, views(forced@), package@),
{
    if pm == PackageManager::Bower && !contains_text(forced, package) {
        String::from_str("bower_components")
    } else {
        String::from_str("node_modules")
    }
}

/// The manifest's file name for a package manager.
pub open spec fn manifest_name_of(pm: PackageManager) -> Seq<char> {
    if pm == PackageManager::Bower {
        "bower.json"@
    } else {
        "package.json"@
    }
}

pub fn manifest_name(pm: PackageManager) -> (r: String)
    ensures
        r@ == manifest_name_of(pm),
{
    if pm == PackageManager::Bower {
        String::from_str("bower.json")
    } else {
        String::from_str("package.json")
    }
}

/// What a `browser` mapping says of one key.
pub enum BrowserTarget {
    /// `false`: the module is replaced by the empty module.
    Off,
    /// A replacement specifier, resolved in its place.
    Replace(String),
}

pub open spec fn keys_of(entries: Seq<(String, BrowserTarget)>) -> Seq<Seq<char>> {
    entries.map_values(|e: (String, BrowserTarget)| e.0@)
}

/// The first entry of a `browser` mapping for `key`, by index.
pub fn browser_lookup(entries: &Vec<(String, BrowserTarget)>, key: &str) -> (r: Option<usize>)
    ensures
        r is None <==> !keys_of(entries@).contains(key@),
        r matches Some(i) ==> i < entries@.len() && entries@[i as int].0@ == key@ && forall|j: int|
            0 <= j < i ==> entries@[j].0@ != key@,
{
    let mut i: usize = 0;
    while i < entries.len()
        invariant
            i <= entries@.len(),
            forall|j: int| 0 <= j < i ==> entries@[j].0@ != key@,
        decreases entries@.len() - i,
    {
        if crate::text::text_eq(entries[i].0.as_str(), key) {
            assert(keys_of(entries@)[i as int] == key@);
            return Some(i);
        }
        i = i + 1;
    }
    assert forall|j: int| 0 <= j < keys_of(entries@).len() implies keys_of(entries@)[j] != key@ by {
        assert(keys_of(entries@)[j] == entries@[j].0@);
    }
    None
}

/// What the `browser` field makes of a resolved file.
pub enum BrowserVerdict {
    /// No entry applies: the file stands.
    Keep,
    /// Mapped to `false`: the empty module.
    Ignore,
    /// Mapped to another specifier, resolved in its place from the
    /// package root.
    Replace(String),
}

/// The entry that applies: the one keyed by the file's `./`-relative path,
/// else the one keyed by the specifier as written.
pub open spec fn browser_entry(entries: Seq<(String, BrowserTarget)>, rel: Seq<char>, name: Seq<char>) -> Option<
    int,
> {
    if keys_of(entries).contains(rel) {
        Some(choose_first(entries, rel))
    } else if keys_of(entries).contains(name) {
        Some(choose_first(entries, name))
    } else {
        None
    }
}

/// The index of the first entry keyed by `key`.
pub open spec fn choose_first(entries: Seq<(String, BrowserTarget)>, key: Seq<char>) -> int {
    choose|i: int|
        0 <= i < entries.len() && entries[i].0@ == key && forall|j: int|
            0 <= j < i ==> entries[j].0@ != key
}

/// Decides what the `browser` entries of the nearest manifest make of a
/// file reached by `name`, whose path from the manifest's folder is `rel`
/// (written `./...`).
pub fn browser_verdict(entries: &Vec<(String, BrowserTarget)>, rel: &str, name: &str) -> (r:
    BrowserVerdict)
    ensures
        match browser_entry(entries@, rel@, name@) {
            None => r is Keep,
            Some(i) => match entries@[i].1 {
                BrowserTarget::Off => r is Ignore,
                BrowserTarget::Replace(t) => r matches BrowserVerdict::Replace(u) && u@ == t@,
            },
        },
{
    let hit = match browser_lookup(entries, rel) {
        Some(i) => Some(i),
        None => browser_lookup(entries, name),
    };
    match hit {
        None => BrowserVerdict::Keep,
        Some(i) => {
            proof {
                let key = if keys_of(entries@).contains(rel@) {
                    rel@
                } else {
                    name@
                };
                let c = choose_first(entries@, key);
                assert(0 <= c < entries@.len() && entries@[c].0@ == key && forall|j: int|
                    0 <= j < c ==> entries@[j].0@ != key);
                assert(c == i as int) by {
                    if c < i {
                        assert(entries@[c].0@ != key);
                    }
                    if c > i {
                        assert(entries@[i as int].0@ != key);
                    }
                }
            }
            match &entries[i].1 {
                BrowserTarget::Off => BrowserVerdict::Ignore,
                BrowserTarget::Replace(t) => BrowserVerdict::Replace(t.clone()),
            }
        },
    }
}

/// A file mapped to `false` under its own path is ignored, whatever the
/// specifier that reached it.
pub proof fn lemma_browser_false_ignores(entries: Seq<(String, BrowserTarget)>, rel: Seq<char>, name: Seq<char>, i: int)
    requires
        0 <= i < entries.len(),
        entries[i].0@ == rel,
        entries[i].1 is Off,
        forall|j: int| 0 <= j < i ==> entries[j].0@ != rel,
    ensures
        browser_entry(entries, rel, name) == Some(i),
{
    assert(keys_of(entries)[i] == rel);
    let c = choose_first(entries, rel);
    assert(0 <= c < entries.len() && entries[c].0@ == rel && forall|j: int| 0 <= j < c ==> entries[j].0@ != rel);
    if c < i {
        assert(entries[c].0@ != rel);
    }
    if c > i {
        assert(entries[i].0@ != rel);
    }
}

/// The name a missing module is reported under: the specifier without a
/// leading `./`.
pub open spec fn reported_name(name: Seq<char>) -> Seq<char> {
    if name.len() >= 2 && name.subrange(0, 2) == "./"@ {
        name.subrange(2, name.len() as int)
    } else {
        name
    }
}

/// The error for a specifier that no probe found, from the folder `context`.
pub fn module_not_found(context: &str, name: &str) -> (r: CliError)
    ensures
        r matches CliError::ModuleNotFound { context: c, name: n } && c@ == context@ && n@
            == reported_name(name@),
{
    proof {
        reveal_strlit("./");
    }
    let n = name.unicode_len();
    let shown = if text_starts_with(name, "./") {
        String::from_str(name.substring_char(2, n))
    } else {
        String::from_str(name)
    };
    CliError::ModuleNotFound { context: String::from_str(context), name: shown }
}

/// What to do with one dependency of a package while the dependencies of
/// the development dependencies are gathered.
pub enum DepAction {
    /// Nothing: already gathered, or optional and missing.
    Skip,
    /// Read the package found at this folder next.
    Visit(String),
    /// A required package is missing.
    Fail(CliError),
}

/// Decides one dependency `key` of the package at `root`, given the folder
/// where it was found, if it was, and whether it is optional. A key seen
/// before is skipped (this ends cycles); a new one is recorded before it is
/// followed.
pub fn dep_step(names: &mut Vec<String>, key: &str, found: Option<String>, optional: bool, root: &str) -> (r: DepAction)
    ensures
        views(old(names)@).contains(key@) ==> r is Skip && final(names)@ == old(names)@,
        !views(old(names)@).contains(key@) ==> {
            &&& views(final(names)@) == views(old(names)@).push(key@)
            &&& match found {
                Some(p) => r matches DepAction::Visit(q) && q@ == p@,
                None => if optional {
                    r is Skip
                } else {
                    r matches DepAction::Fail(CliError::ModuleNotFound { context: c, name: n }) && c@
                        == root@ && n@ == key@
                },
            }
        },
{
    if contains_text(names, key) {
        return DepAction::Skip;
    }
    let ghost before = views(names@);
    names.push(String::from_str(key));
    assert(views(names@) =~= before.push(key@));
    match found {
        Some(p) => DepAction::Visit(p),
        None => if optional {
            DepAction::Skip
        } else {
            DepAction::Fail(CliError::ModuleNotFound { context: String::from_str(root), name: String::from_str(key) })
        },
    }
}

} // verus!
