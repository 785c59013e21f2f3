use vstd::prelude::*;
use vstd::string::StrSliceExecFns;
use vstd::string::StringExecFns;

use crate::cli::PackageManager;
use crate::errors::CliError;
use crate::paths::{join_of, join_path, normalize, normalize_of, parent_dir, parent_of};
use crate::resolve::{
    browser_entry, browser_verdict, classify, file_candidates, file_probes, index_candidates,
    index_probes, kind_of_spec, package_folder, package_folder_of, package_name, package_of,
    reported_name, BrowserTarget, BrowserVerdict, SpecKind,
};
use crate::rewrite::Resolved;
use crate::text::text_starts_with;
use crate::watch::{contains_text, views};

verus! {

/// Which probes the resolver is working through.
#[derive(Debug, Clone, Copy, PartialEq, Eq, Structural)]
pub enum Stage {
    /// The path itself, then with `.js`, then with `.json`.
    Files,
    /// The folder's manifest, for its entry file.
    Manifest,
    /// The manifest's entry file, probed like a path.
    MainFiles,
    /// `index.js`, then `index.json`.
    Index,
    /// The `browser` field that applies to the file found.
    Browser,
}

/// A question for the file system.
pub enum Probe {
    /// Is there a file at this path?
    IsFile(String),
    /// The manifest of this folder, if it has one.
    Manifest(String),
    /// The `browser` mapping of the nearest manifest above this file.
    Browser(String),
}

/// The file system's reply to a probe.
pub enum ProbeAnswer {
    Exists(bool),
    /// The manifest's `main`, and its `browser` field where that is a
    /// string (it then replaces `main`).
    Manifest { main: Option<String>, browser_main: Option<String> },
    /// The folder of the nearest manifest and its `browser` mapping, if any.
    Browser(Option<(String, Vec<(String, BrowserTarget)>)>),
}

/// One resolution under way: the stage, the index of the next probe in it,
/// the path probed, the manifest entry's path, the file found, the folder
/// the specifier is resolved from, the specifier, the folder reached by
/// the walk up for a package, and the `browser` replacements followed.
pub struct ResolveState {
    pub stage: Stage,
    pub k: usize,
    pub base: String,
    pub main_base: String,
    pub file: String,
    pub dir: String,
    pub name: String,
    pub walk: Option<String>,
    pub seen: Vec<String>,
}

/// The options that resolution reads.
pub struct ResolveOptions {
    pub package_manager: PackageManager,
    pub external: Vec<String>,
    pub forced_npm_deps: Vec<String>,
}

/// What the resolver does next: ask a probe, or give its verdict.
pub enum ResolveStep {
    Ask(Probe),
    Done(Result<Resolved, CliError>),
}

pub struct StateV {
    pub stage: Stage,
    pub k: int,
    pub base: Seq<char>,
    pub main_base: Seq<char>,
    pub file: Seq<char>,
    pub dir: Seq<char>,
    pub name: Seq<char>,
    pub walk: Option<Seq<char>>,
    pub seen: Seq<Seq<char>>,
}

pub enum ProbeV {
    IsFile(Seq<char>),
    Manifest(Seq<char>),
    Browser(Seq<char>),
}

pub enum AnswerV {
    Exists(bool),
    Manifest { main: Option<Seq<char>>, browser_main: Option<Seq<char>> },
    Browser(Option<(Seq<char>, Seq<(String, BrowserTarget)>)>),
}

pub enum ResolvedV {
    Normal(Seq<char>),
    External,
    Ignore,
}

pub enum FailV {
    EmptyModuleName(Seq<char>),
    RequireRoot(Seq<char>, Seq<char>),
    ModuleNotFound(Seq<char>, Seq<char>),
    Other,
}

pub enum StepV {
    Ask(ProbeV),
    Done(Result<ResolvedV, FailV>),
}

pub struct OptsV {
    pub pm: PackageManager,
    pub external: Seq<Seq<char>>,
    pub forced: Seq<Seq<char>>,
}

pub open spec fn sview(o: Option<String>) -> Option<Seq<char>> {
    match o {
        Some(s) => Some(s@),
        None => None,
    }
}

impl View for ResolveState {
    type V = StateV;

    open spec fn view(&self) -> StateV {
        StateV {
            stage: self.stage,
            k: self.k as int,
            base: self.base@,
            main_base: self.main_base@,
            file: self.file@,
            dir: self.dir@,
            name: self.name@,
            walk: sview(self.walk),
            seen: views(self.seen@),
        }
    }
}

impl View for ProbeAnswer {
    type V = AnswerV;

    open spec fn view(&self) -> AnswerV {
        match self {
            ProbeAnswer::Exists(b) => AnswerV::Exists(*b),
            ProbeAnswer::Manifest { main, browser_main } => AnswerV::Manifest {
                main: sview(*main),
                browser_main: sview(*browser_main),
            },
            ProbeAnswer::Browser(b) => AnswerV::Browser(
                match b {
                    Some(p) => Some((p.0@, p.1@)),
                    None => None,
                },
            ),
        }
    }
}

impl View for ResolveOptions {
    type V = OptsV;

    open spec fn view(&self) -> OptsV {
        OptsV {
            pm: self.package_manager,
            external: views(self.external@),
            forced: views(self.forced_npm_deps@),
        }
    }
}

pub open spec fn fail_view(e: CliError) -> FailV {
    match e {
        CliError::EmptyModuleName { context } => FailV::EmptyModuleName(context@),
        CliError::RequireRoot { context: Some(c), path } => FailV::RequireRoot(c@, path@),
        CliError::ModuleNotFound { context, name } => FailV::ModuleNotFound(context@, name@),
        _ => FailV::Other,
    }
}

impl View for ResolveStep {
    type V = StepV;

    open spec fn view(&self) -> StepV {
        match self {
            ResolveStep::Ask(Probe::IsFile(p)) => StepV::Ask(ProbeV::IsFile(p@)),
            ResolveStep::Ask(Probe::Manifest(p)) => StepV::Ask(ProbeV::Manifest(p@)),
            ResolveStep::Ask(Probe::Browser(p)) => StepV::Ask(ProbeV::Browser(p@)),
            ResolveStep::Done(Ok(Resolved::Normal(p))) => StepV::Done(Ok(ResolvedV::Normal(p@))),
            ResolveStep::Done(Ok(Resolved::External)) => StepV::Done(Ok(ResolvedV::External)),
            ResolveStep::Done(Ok(Resolved::Ignore)) => StepV::Done(Ok(ResolvedV::Ignore)),
            ResolveStep::Done(Err(e)) => StepV::Done(Err(fail_view(*e))),
        }
    }
}

impl ResolveState {
    /// The probe index stays within its stage's list.
    pub open spec fn wf(&self) -> bool {
        match self.stage {
            Stage::Files | Stage::MainFiles => self.k <= 2,
            Stage::Index => self.k <= 1,
            _ => true,
        }
    }

    pub fn is_wf(&self) -> (r: bool)
        ensures
            r == self.wf(),
    {
        match self.stage {
            Stage::Files | Stage::MainFiles => self.k <= 2,
            Stage::Index => self.k <= 1,
            _ => true,
        }
    }
}

/// Where a package is looked for from folder `w`.
pub open spec fn walk_cand(w: Seq<char>, name: Seq<char>, o: OptsV) -> Seq<char> {
    join_of(join_of(w, package_folder_of(o.pm, o.forced, package_of(name))), name)
}

/// The key a file has in a `browser` mapping of the manifest at `root`.
pub open spec fn rel_key_of(root: Seq<char>, file: Seq<char>) -> Seq<char> {
    if root.len() < file.len() && file.subrange(0, root.len() as int) == root && file[root.len() as int]
        == '/' {
        "./"@ + file.subrange(root.len() as int + 1, file.len() as int)
    } else {
        file
    }
}

pub open spec fn fail_nf(s: StateV) -> StepV {
    StepV::Done(Err(FailV::ModuleNotFound(s.dir, reported_name(s.name))))
}

pub open spec fn at_files(s: StateV, base: Seq<char>) -> (StateV, StepV) {
    (StateV { stage: Stage::Files, k: 0, base, ..s }, StepV::Ask(ProbeV::IsFile(file_probes(base)[0])))
}

pub open spec fn found(s: StateV, f: Seq<char>) -> (StateV, StepV) {
    (StateV { stage: Stage::Browser, k: 0, file: f, ..s }, StepV::Ask(ProbeV::Browser(f)))
}

/// Resolution of `name` from folder `dir`, having followed the `browser`
/// replacements `seen`: its first state and step.
pub open spec fn start_spec(dir: Seq<char>, name: Seq<char>, seen: Seq<Seq<char>>, o: OptsV) -> (
    StateV,
    StepV,
) {
    let s0 = StateV {
        stage: Stage::Files,
        k: 0,
        base: Seq::empty(),
        main_base: Seq::empty(),
        file: Seq::empty(),
        dir,
        name,
        walk: None,
        seen,
    };
    match kind_of_spec(name, o.external) {
        SpecKind::External => (s0, StepV::Done(Ok(ResolvedV::External))),
        SpecKind::Empty => (s0, StepV::Done(Err(FailV::EmptyModuleName(dir)))),
        SpecKind::Path => {
            let target = if name[0] == '/' {
                name
            } else {
                join_of(dir, name)
            };
            match normalize_of(target) {
                None => (s0, StepV::Done(Err(FailV::RequireRoot(dir, target)))),
                Some(b) => at_files(s0, b),
            }
        },
        SpecKind::Bare => at_files(StateV { walk: Some(dir), ..s0 }, walk_cand(dir, name, o)),
    }
}

/// After every probe of one place failed: the next folder up for a
/// package, else "not found".
pub open spec fn not_found(s: StateV, o: OptsV) -> (StateV, StepV) {
    match s.walk {
        None => (s, fail_nf(s)),
        Some(w) => match parent_of(w) {
            None => (s, fail_nf(s)),
            Some(p) => at_files(StateV { walk: Some(p), ..s }, walk_cand(p, s.name, o)),
        },
    }
}

pub open spec fn says_exists(a: AnswerV) -> bool {
    a matches AnswerV::Exists(true)
}

pub open spec fn entry_of(a: AnswerV) -> Option<Seq<char>> {
    match a {
        AnswerV::Manifest { main, browser_main } => if browser_main is Some {
            browser_main
        } else {
            main
        },
        _ => None,
    }
}

pub open spec fn index_start(s: StateV) -> (StateV, StepV) {
    (StateV { stage: Stage::Index, k: 0, ..s }, StepV::Ask(ProbeV::IsFile(index_probes(s.base)[0])))
}

/// One step of resolution: the state after the answer `a` to the probe the
/// state asked, and what to do next.
pub open spec fn step_spec(s: StateV, a: AnswerV, o: OptsV) -> (StateV, StepV) {
    match s.stage {
        Stage::Files => if says_exists(a) {
            found(s, file_probes(s.base)[s.k])
        } else if s.k < 2 {
            (StateV { k: s.k + 1, ..s }, StepV::Ask(ProbeV::IsFile(file_probes(s.base)[s.k + 1])))
        } else {
            (StateV { stage: Stage::Manifest, k: 0, ..s }, StepV::Ask(ProbeV::Manifest(s.base)))
        },
        Stage::Manifest => match entry_of(a) {
            Some(m) => {
                let mb = join_of(s.base, m);
                (
                    StateV { stage: Stage::MainFiles, k: 0, main_base: mb, ..s },
                    StepV::Ask(ProbeV::IsFile(file_probes(mb)[0])),
                )
            },
            None => index_start(s),
        },
        Stage::MainFiles => if says_exists(a) {
            found(s, file_probes(s.main_base)[s.k])
        } else if s.k < 2 {
            (StateV { k: s.k + 1, ..s }, StepV::Ask(ProbeV::IsFile(file_probes(s.main_base)[s.k + 1])))
        } else {
            index_start(s)
        },
        Stage::Index => if says_exists(a) {
            found(s, index_probes(s.base)[s.k])
        } else if s.k < 1 {
            (StateV { k: s.k + 1, ..s }, StepV::Ask(ProbeV::IsFile(index_probes(s.base)[s.k + 1])))
        } else {
            not_found(s, o)
        },
        Stage::Browser => match a {
            AnswerV::Browser(Some(m)) => match browser_entry(m.1, rel_key_of(m.0, s.file), s.name) {
                None => (s, StepV::Done(Ok(ResolvedV::Normal(s.file)))),
                Some(i) => match m.1[i].1 {
                    BrowserTarget::Off => (s, StepV::Done(Ok(ResolvedV::Ignore))),
                    BrowserTarget::Replace(t) => if s.seen.contains(t@) {
                        (s, fail_nf(s))
                    } else {
                        start_spec(m.0, t@, s.seen.push(t@), o)
                    },
                },
            },
            _ => (s, StepV::Done(Ok(ResolvedV::Normal(s.file)))),
        },
    }
}

/// A file system as resolution sees it: the files, each folder's manifest
/// entry fields (`main`, and a string `browser`), and for each file the
/// folder and `browser` mapping of its nearest manifest.
pub struct FsModel {
    pub files: Set<Seq<char>>,
    pub manifests: Map<Seq<char>, (Option<Seq<char>>, Option<Seq<char>>)>,
    pub browsers: Map<Seq<char>, (Seq<char>, Seq<(String, BrowserTarget)>)>,
}

/// The answer `fs` gives to a probe.
pub open spec fn answer_of(fs: FsModel, p: ProbeV) -> AnswerV {
    match p {
        ProbeV::IsFile(f) => AnswerV::Exists(fs.files.contains(f)),
        ProbeV::Manifest(d) => if fs.manifests.dom().contains(d) {
            AnswerV::Manifest { main: fs.manifests[d].0, browser_main: fs.manifests[d].1 }
        } else {
            AnswerV::Manifest { main: None, browser_main: None }
        },
        ProbeV::Browser(f) => AnswerV::Browser(
            if fs.browsers.dom().contains(f) {
                Some(fs.browsers[f])
            } else {
                None
            },
        ),
    }
}

/// Runs resolution from state `s` and step `t`, answering every probe from
/// `fs`, for at most `fuel` probes.
pub open spec fn drive(fs: FsModel, s: StateV, t: StepV, o: OptsV, fuel: nat) -> Option<
    Result<ResolvedV, FailV>,
>
    decreases fuel,
{
    match t {
        StepV::Done(r) => Some(r),
        StepV::Ask(p) => if fuel == 0 {
            None
        } else {
            let n = step_spec(s, answer_of(fs, p), o);
            drive(fs, n.0, n.1, o, (fuel - 1) as nat)
        },
    }
}

/// What resolving `name` from folder `dir` gives on `fs`, within `fuel`
/// probes.
pub open spec fn resolves(fs: FsModel, dir: Seq<char>, name: Seq<char>, o: OptsV, fuel: nat) -> Option<
    Result<ResolvedV, FailV>,
> {
    let b = start_spec(dir, name, Seq::empty(), o);
    drive(fs, b.0, b.1, o, fuel)
}

/// Answering each probe from `fs` moves `drive` one step along.
pub proof fn lemma_drive_step(fs: FsModel, s: StateV, p: ProbeV, o: OptsV, fuel: nat)
    ensures
        drive(fs, s, StepV::Ask(p), o, fuel + 1) == ({
            let n = step_spec(s, answer_of(fs, p), o);
            drive(fs, n.0, n.1, o, fuel)
        }),
{
}

/// A relative specifier that names an existing file, which the nearest
/// manifest's `browser` mapping sets to `false` under its own path,
/// resolves to the empty module.
pub proof fn lemma_browser_false_resolves_ignore(
    fs: FsModel,
    dir: Seq<char>,
    name: Seq<char>,
    o: OptsV,
    file: Seq<char>,
    i: int,
)
    requires
        kind_of_spec(name, o.external) == SpecKind::Path,
        name[0] != '/',
        normalize_of(join_of(dir, name)) == Some(file),
        fs.files.contains(file),
        fs.browsers.dom().contains(file),
        0 <= i < fs.browsers[file].1.len(),
        fs.browsers[file].1[i].0@ == rel_key_of(fs.browsers[file].0, file),
        fs.browsers[file].1[i].1 is Off,
        forall|j: int|
            0 <= j < i ==> fs.browsers[file].1[j].0@ != rel_key_of(fs.browsers[file].0, file),
    ensures
        resolves(fs, dir, name, o, 2) == Some(Result::<ResolvedV, FailV>::Ok(ResolvedV::Ignore)),
{
    let m = fs.browsers[file];
    crate::resolve::lemma_browser_false_ignores(m.1, rel_key_of(m.0, file), name, i);
    let b = start_spec(dir, name, Seq::empty(), o);
    assert(b.1 == StepV::Ask(ProbeV::IsFile(file_probes(file)[0])));
    assert(file_probes(file)[0] == file);
    let n1 = step_spec(b.0, answer_of(fs, ProbeV::IsFile(file)), o);
    assert(n1.1 == StepV::Ask(ProbeV::Browser(file)));
    let n2 = step_spec(n1.0, answer_of(fs, ProbeV::Browser(file)), o);
    assert(n2.1 == StepV::Done(Result::<ResolvedV, FailV>::Ok(ResolvedV::Ignore)));
    lemma_drive_step(fs, b.0, ProbeV::IsFile(file), o, 1);
    lemma_drive_step(fs, n1.0, ProbeV::Browser(file), o, 0);
}

fn probe_at(cands: &Vec<String>, k: usize) -> (r: String)
    requires
        k < views(cands@).len(),
    ensures
        r@ == views(cands@)[k as int],
{
    cands[k].clone()
}

fn fail_nf_exec(st: &ResolveState) -> (r: ResolveStep)
    ensures
        r@ == fail_nf(st@),
{
    ResolveStep::Done(Err(crate::resolve::module_not_found(st.dir.as_str(), st.name.as_str())))
}

fn at_files_exec(st: ResolveState, base: String) -> (r: (ResolveState, ResolveStep))
    ensures
        (r.0@, r.1@) == at_files(st@, base@),
        r.0.wf(),
{
    let c = file_candidates(base.as_str());
    let first = probe_at(&c, 0);
    (ResolveState { stage: Stage::Files, k: 0, base, ..st }, ResolveStep::Ask(Probe::IsFile(first)))
}

fn walk_cand_exec(w: &str, name: &str, o: &ResolveOptions) -> (r: String)
    ensures
        r@ == walk_cand(w@, name@, o@),
{
    let folder = package_folder(o.package_manager, &o.forced_npm_deps, package_name(name).as_str());
    let nm = join_path(w, folder.as_str());
    join_path(nm.as_str(), name)
}

/// Starts resolving `name` from folder `dir`, having followed the
/// `browser` replacements `seen`.
pub fn resolve_start(dir: String, name: String, seen: Vec<String>, o: &ResolveOptions) -> (r: (
    ResolveState,
    ResolveStep,
))
    ensures
        (r.0@, r.1@) == start_spec(dir@, name@, views(seen@), o@),
        r.0.wf(),
{
    let kind = classify(name.as_str(), &o.external);
    let s0 = ResolveState {
        stage: Stage::Files,
        k: 0,
        base: String::new(),
        main_base: String::new(),
        file: String::new(),
        dir,
        name,
        walk: None,
        seen,
    };
    match kind {
        SpecKind::External => (s0, ResolveStep::Done(Ok(Resolved::External))),
        SpecKind::Empty => {
            let d = s0.dir.clone();
            (s0, ResolveStep::Done(Err(CliError::EmptyModuleName { context: d })))
        },
        SpecKind::Path => {
            let target = if s0.name.get_char(0) == '/' {
                s0.name.clone()
            } else {
                join_path(s0.dir.as_str(), s0.name.as_str())
            };
            match normalize(target.as_str()) {
                None => {
                    let d = s0.dir.clone();
                    (s0, ResolveStep::Done(Err(CliError::RequireRoot { context: Some(d), path: target })))
                },
                Some(b) => at_files_exec(s0, b),
            }
        },
        SpecKind::Bare => {
            let cand = walk_cand_exec(s0.dir.as_str(), s0.name.as_str(), o);
            let w = s0.dir.clone();
            at_files_exec(ResolveState { walk: Some(w), ..s0 }, cand)
        },
    }
}

fn not_found_exec(st: ResolveState, o: &ResolveOptions) -> (r: (ResolveState, ResolveStep))
    requires
        st.wf(),
    ensures
        (r.0@, r.1@) == not_found(st@, o@),
        r.0.wf(),
{
    match &st.walk {
        None => {
            let f = fail_nf_exec(&st);
            (st, f)
        },
        Some(w) => match parent_dir(w.as_str()) {
            None => {
                let f = fail_nf_exec(&st);
                (st, f)
            },
            Some(p) => {
                let cand = walk_cand_exec(p.as_str(), st.name.as_str(), o);
                at_files_exec(ResolveState { walk: Some(p), ..st }, cand)
            },
        },
    }
}

fn index_start_exec(st: ResolveState) -> (r: (ResolveState, ResolveStep))
    ensures
        (r.0@, r.1@) == index_start(st@),
        r.0.wf(),
{
    let c = index_candidates(st.base.as_str());
    let first = probe_at(&c, 0);
    (ResolveState { stage: Stage::Index, k: 0, ..st }, ResolveStep::Ask(Probe::IsFile(first)))
}

fn found_exec(st: ResolveState, f: String) -> (r: (ResolveState, ResolveStep))
    ensures
        (r.0@, r.1@) == found(st@, f@),
        r.0.wf(),
{
    let g = f.clone();
    (ResolveState { stage: Stage::Browser, k: 0, file: f, ..st }, ResolveStep::Ask(Probe::Browser(g)))
}

fn rel_key(root: &str, file: &str) -> (r: String)
    ensures
        r@ == rel_key_of(root@, file@),
{
    let n = root.unicode_len();
    let m = file.unicode_len();
    if n < m && text_starts_with(file, root) && file.get_char(n) == '/' {
        let mut r = String::from_str("./");
        r.append(file.substring_char(n + 1, m));
        r
    } else {
        String::from_str(file)
    }
}

/// Takes the answer to the probe that `st` asked, and gives the next state
/// and what to do next.
pub fn resolve_step(st: ResolveState, answer: &ProbeAnswer, o: &ResolveOptions) -> (r: (
    ResolveState,
    ResolveStep,
))
    requires
        st.wf(),
    ensures
        (r.0@, r.1@) == step_spec(st@, answer@, o@),
        r.0.wf(),
{
    let exists = match answer {
        ProbeAnswer::Exists(b) => *b,
        _ => false,
    };
    match st.stage {
        Stage::Files => {
            let c = file_candidates(st.base.as_str());
            if exists {
                let f = probe_at(&c, st.k);
                found_exec(st, f)
            } else if st.k < 2 {
                let next = probe_at(&c, st.k + 1);
                let k = st.k + 1;
                (ResolveState { k, ..st }, ResolveStep::Ask(Probe::IsFile(next)))
            } else {
                let b = st.base.clone();
                (ResolveState { stage: Stage::Manifest, k: 0, ..st }, ResolveStep::Ask(Probe::Manifest(b)))
            }
        },
        Stage::Manifest => {
            let entry = match answer {
                ProbeAnswer::Manifest { main, browser_main } => match browser_main {
                    Some(b) => Some(b.clone()),
                    None => match main {
                        Some(m) => Some(m.clone()),
                        None => None,
                    },
                },
                _ => None,
            };
            match entry {
                Some(m) => {
                    let mb = join_path(st.base.as_str(), m.as_str());
                    let c = file_candidates(mb.as_str());
                    let first = probe_at(&c, 0);
                    (
                        ResolveState { stage: Stage::MainFiles, k: 0, main_base: mb, ..st },
                        ResolveStep::Ask(Probe::IsFile(first)),
                    )
                },
                None => index_start_exec(st),
            }
        },
        Stage::MainFiles => {
            let c = file_candidates(st.main_base.as_str());
            if exists {
                let f = probe_at(&c, st.k);
                found_exec(st, f)
            } else if st.k < 2 {
                let next = probe_at(&c, st.k + 1);
                let k = st.k + 1;
                (ResolveState { k, ..st }, ResolveStep::Ask(Probe::IsFile(next)))
            } else {
                index_start_exec(st)
            }
        },
        Stage::Index => {
            let c = index_candidates(st.base.as_str());
            if exists {
                let f = probe_at(&c, st.k);
                found_exec(st, f)
            } else if st.k < 1 {
                let next = probe_at(&c, st.k + 1);
                let k = st.k + 1;
                (ResolveState { k, ..st }, ResolveStep::Ask(Probe::IsFile(next)))
            } else {
                not_found_exec(st, o)
            }
        },
        Stage::Browser => match answer {
            ProbeAnswer::Browser(Some(m)) => {
                let key = rel_key(m.0.as_str(), st.file.as_str());
                match browser_verdict(&m.1, key.as_str(), st.name.as_str()) {
                    BrowserVerdict::Keep => {
                        let f = st.file.clone();
                        (st, ResolveStep::Done(Ok(Resolved::Normal(f))))
                    },
                    BrowserVerdict::Ignore => (st, ResolveStep::Done(Ok(Resolved::Ignore))),
                    BrowserVerdict::Replace(t) => {
                        if contains_text(&st.seen, t.as_str()) {
                            let f = fail_nf_exec(&st);
                            (st, f)
                        } else {
                            let mut seen = st.seen.clone();
                            let ghost before = views(st.seen@);
                            seen.push(t.clone());
                            assert(views(seen@) =~= before.push(t@));
                            resolve_start(m.0.clone(), t, seen, o)
                        }
                    },
                }
            },
            _ => {
                let f = st.file.clone();
                (st, ResolveStep::Done(Ok(Resolved::Normal(f))))
            },
        },
    }
}

} // verus!
