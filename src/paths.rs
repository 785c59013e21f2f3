use vstd::prelude::*;
use vstd::string::StrSliceExecFns;
use vstd::string::StringExecFns;

use crate::text::text_eq;

verus! {

/// The index of the last `/` in `s`, if any.
pub open spec fn last_slash(s: Seq<char>) -> Option<int>
    decreases s.len(),
{
    if s.len() == 0 {
        None
    } else if s.last() == '/' {
        Some(s.len() - 1)
    } else {
        last_slash(s.drop_last())
    }
}

/// The directory that holds `s`: everything before its last `/`, the root
/// for a child of the root, the empty path for a bare name, and nothing for
/// the root or the empty path.
pub open spec fn parent_of(s: Seq<char>) -> Option<Seq<char>> {
    if s.len() == 0 || s == seq!['/'] {
        None
    } else {
        match last_slash(s) {
            None => Some(Seq::empty()),
            Some(k) => if k == 0 {
                Some(seq!['/'])
            } else {
                Some(s.subrange(0, k))
            },
        }
    }
}

proof fn lemma_last_slash(s: Seq<char>)
    ensures
        match last_slash(s) {
            None => forall|j: int| 0 <= j < s.len() ==> s[j] != '/',
            Some(k) => 0 <= k < s.len() && s[k] == '/' && forall|j: int|
                k < j < s.len() ==> s[j] != '/',
        },
    decreases s.len(),
{
    if s.len() > 0 && s.last() != '/' {
        lemma_last_slash(s.drop_last());
        assert forall|j: int| 0 <= j < s.len() - 1 implies s.drop_last()[j] == s[j] by {}
    }
}

/// The parent directory of a path, or `None` at the root.
pub fn parent_dir(s: &str) -> (r: Option<String>)
    ensures
        match parent_of(s@) {
            None => r is None,
            Some(p) => r is Some && r->0@ == p,
        },
{
    let n = s.unicode_len();
    if n == 0 || (n == 1 && s.get_char(0) == '/') {
        proof {
            if n == 1 {
                assert(s@ =~= seq!['/']);
            }
        }
        return None;
    }
    proof {
        assert(s@ != seq!['/']) by {
            if n == 1 {
                assert(s@[0] != '/');
            }
        }
        lemma_last_slash(s@);
    }
    let mut k: usize = n;
    while k > 0
        invariant
            k <= n == s@.len(),
            forall|j: int| k <= j < n ==> s@[j] != '/',
        ensures
            k <= n,
            forall|j: int| k <= j < n ==> s@[j] != '/',
            k > 0 ==> s@[k - 1] == '/',
        decreases k,
    {
        if s.get_char(k - 1) == '/' {
            break;
        }
        k = k - 1;
    }
    if k == 0 {
        assert(last_slash(s@) is None);
        return Some(String::new());
    }
    let slash: usize = k - 1;
    assert(last_slash(s@) == Some(slash as int));
    if slash == 0 {
        proof {
            reveal_strlit("/");
        }
        assert("/"@ =~= seq!['/']);
        return Some(String::from_str("/"));
    }
    Some(String::from_str(s.substring_char(0, slash)))
}

/// `a` and `b` joined by one `/`; `b` alone where `a` is empty.
pub open spec fn join_of(a: Seq<char>, b: Seq<char>) -> Seq<char> {
    if a.len() == 0 {
        b
    } else if a.last() == '/' {
        a + b
    } else {
        a + seq!['/'] + b
    }
}

/// Joins a directory and a relative path.
pub fn join_path(a: &str, b: &str) -> (r: String)
    ensures
        r@ == join_of(a@, b@),
{
    let n = a.unicode_len();
    if n == 0 {
        return String::from_str(b);
    }
    let mut r = String::from_str(a);
    if a.get_char(n - 1) != '/' {
        r.append("/");
        proof {
            reveal_strlit("/");
        }
    }
    r.append(b);
    r
}

/// One path component applied to the folders so far: empty and `.` change
/// nothing, `..` leaves the last folder (and fails at the root), any other
/// name enters it.
pub open spec fn apply_component(st: Option<Seq<Seq<char>>>, c: Seq<char>) -> Option<Seq<Seq<char>>> {
    match st {
        None => None,
        Some(v) => if c.len() == 0 || c == "."@ {
            Some(v)
        } else if c == ".."@ {
            if v.len() == 0 {
                None
            } else {
                Some(v.drop_last())
            }
        } else {
            Some(v.push(c))
        },
    }
}

/// The folders reached reading `s` from `i`, the current component having
/// started at `start`.
pub open spec fn norm_walk(s: Seq<char>, i: int, start: int, st: Option<Seq<Seq<char>>>) -> Option<
    Seq<Seq<char>>,
>
    decreases s.len() - i,
{
    if i < 0 || start < 0 || start > i || i >= s.len() {
        apply_component(st, s.subrange(start, s.len() as int))
    } else if s[i] == '/' {
        norm_walk(s, i + 1, i + 1, apply_component(st, s.subrange(start, i)))
    } else {
        norm_walk(s, i + 1, start, st)
    }
}

/// `/` followed by the folders joined by `/`.
pub open spec fn rooted(v: Seq<Seq<char>>) -> Seq<char>
    decreases v.len(),
{
    if v.len() == 0 {
        seq!['/']
    } else if v.len() == 1 {
        seq!['/'] + v[0]
    } else {
        rooted(v.drop_last()) + seq!['/'] + v.last()
    }
}

/// The normal form of a path taken from the root: `.` and empty components
/// dropped, each `..` undoing the folder before it. `None` where a `..`
/// would climb above the root.
pub open spec fn normalize_of(s: Seq<char>) -> Option<Seq<char>> {
    match norm_walk(s, 0, 0, Some(Seq::empty())) {
        None => None,
        Some(v) => Some(rooted(v)),
    }
}

fn apply_exec(st: &mut Vec<String>, c: &str) -> (ok: bool)
    ensures
        match apply_component(Some(old(st)@.map_values(|x: String| x@)), c@) {
            None => !ok,
            Some(v) => ok && final(st)@.map_values(|x: String| x@) == v,
        },
{
    proof {
        reveal_strlit(".");
        reveal_strlit("..");
    }
    let ghost v0 = st@.map_values(|x: String| x@);
    if c.unicode_len() == 0 || text_eq(c, ".") {
        return true;
    }
    if text_eq(c, "..") {
        if st.len() == 0 {
            return false;
        }
        st.pop();
        assert(st@.map_values(|x: String| x@) =~= v0.drop_last());
        return true;
    }
    st.push(String::from_str(c));
    assert(st@.map_values(|x: String| x@) =~= v0.push(c@));
    true
}

/// The normal form of an absolute path, or `None` where it climbs above
/// the root.
pub fn normalize(s: &str) -> (r: Option<String>)
    ensures
        match normalize_of(s@) {
            None => r is None,
            Some(p) => r is Some && r->0@ == p,
        },
{
    let n = s.unicode_len();
    let mut st: Vec<String> = Vec::new();
    let mut i: usize = 0;
    let mut start: usize = 0;
    assert(st@.map_values(|x: String| x@) =~= Seq::<Seq<char>>::empty());
    while i < n
        invariant
            n == s@.len(),
            start <= i <= n,
            norm_walk(s@, i as int, start as int, Some(st@.map_values(|x: String| x@)))
                == norm_walk(s@, 0, 0, Some(Seq::empty())),
        decreases n - i,
    {
        if s.get_char(i) == '/' {
            let c = s.substring_char(start, i);
            let ghost v0 = st@.map_values(|x: String| x@);
            if !apply_exec(&mut st, c) {
                assert(apply_component(Some(v0), s@.subrange(start as int, i as int)) is None);
                assert(norm_walk(s@, i as int, start as int, Some(v0)) == norm_walk(
                    s@,
                    i + 1,
                    i + 1,
                    None,
                ));
                proof {
                    lemma_walk_none(s@, i + 1, i + 1);
                }
                return None;
            }
            i = i + 1;
            start = i;
        } else {
            i = i + 1;
        }
    }
    let c = s.substring_char(start, n);
    if !apply_exec(&mut st, c) {
        return None;
    }
    let mut out = String::from_str("/");
    proof {
        reveal_strlit("/");
    }
    let mut k: usize = 0;
    while k < st.len()
        invariant
            k <= st@.len(),
            out@ == if k == 0 {
                seq!['/']
            } else {
                rooted(st@.map_values(|x: String| x@).subrange(0, k as int))
            },
        decreases st@.len() - k,
    {
        let ghost v = st@.map_values(|x: String| x@);
        if k > 0 {
            out.append("/");
        }
        out.append(st[k].as_str());
        proof {
            assert(v.subrange(0, k + 1).drop_last() =~= v.subrange(0, k as int));
            assert(v[k as int] == st@[k as int]@);
            if k == 0 {
                assert(out@ =~= rooted(v.subrange(0, 1)));
            } else {
                let w = v.subrange(0, k + 1);
                assert(w.last() == v[k as int]);
                assert(rooted(w) == rooted(w.drop_last()) + seq!['/'] + w.last());
                reveal_strlit("/");
                assert("/"@ =~= seq!['/']);
                assert(out@ =~= rooted(w));
            }
        }
        k = k + 1;
    }
    assert(st@.map_values(|x: String| x@).subrange(0, st@.len() as int) =~= st@.map_values(
        |x: String| x@,
    ));
    Some(out)
}

proof fn lemma_walk_none(s: Seq<char>, i: int, start: int)
    ensures
        norm_walk(s, i, start, None) is None,
    decreases s.len() - i,
{
    if !(i < 0 || start < 0 || start > i || i >= s.len()) {
        if s[i] == '/' {
            lemma_walk_none(s, i + 1, i + 1);
        } else {
            lemma_walk_none(s, i + 1, start);
        }
    }
}

/// The directories from `dir` up to the root, nearest first.
pub open spec fn ancestors(dir: Seq<char>) -> Seq<Seq<char>>
    decreases dir.len(),
{
    match parent_of(dir) {
        None => seq![dir],
        Some(p) => if p.len() < dir.len() {
            seq![dir] + ancestors(p)
        } else {
            seq![dir]
        },
    }
}

/// Where a package named `name` may stand for code in `dir`: its
/// `node_modules` folder and that of each ancestor, nearest first.
pub open spec fn node_module_candidates_of(dir: Seq<char>, name: Seq<char>) -> Seq<Seq<char>> {
    ancestors(dir).map_values(|a: Seq<char>| join_of(join_of(a, "node_modules"@), name))
}

/// The places to look for package `name` from `dir`, nearest first; the
/// first that exists is the package.
pub fn node_module_candidates(dir: &str, name: &str) -> (r: Vec<String>)
    ensures
        r@.map_values(|p: String| p@) == node_module_candidates_of(dir@, name@),
{
    let mut r: Vec<String> = Vec::new();
    let mut cur = String::from_str(dir);
    loop
        invariant
            r@.map_values(|p: String| p@) + node_module_candidates_of(cur@, name@)
                == node_module_candidates_of(dir@, name@),
        decreases cur@.len(),
    {
        let nm = join_path(cur.as_str(), "node_modules");
        let c = join_path(nm.as_str(), name);
        let ghost before = r@.map_values(|p: String| p@);
        r.push(c);
        assert(r@.map_values(|p: String| p@) =~= before.push(join_of(join_of(cur@, "node_modules"@), name@)));
        match parent_dir(cur.as_str()) {
            None => {
                assert(node_module_candidates_of(cur@, name@) =~= seq![join_of(join_of(cur@, "node_modules"@), name@)]);
                assert(r@.map_values(|p: String| p@) =~= before + node_module_candidates_of(cur@, name@));
                return r;
            },
            Some(p) => {
                if p.unicode_len() >= cur.unicode_len() {
                    assert(node_module_candidates_of(cur@, name@) =~= seq![join_of(join_of(cur@, "node_modules"@), name@)]);
                    assert(r@.map_values(|p: String| p@) =~= before + node_module_candidates_of(cur@, name@));
                    return r;
                }
                assert(node_module_candidates_of(cur@, name@) =~= seq![join_of(join_of(cur@, "node_modules"@), name@)] + node_module_candidates_of(p@, name@));
                assert(r@.map_values(|p: String| p@) + node_module_candidates_of(p@, name@) =~= before + node_module_candidates_of(cur@, name@));
                cur = p;
            },
        }
    }
}

} // verus!
