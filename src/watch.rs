use vstd::prelude::*;

use crate::text::text_eq;

verus! {

/// The texts of a list of paths.
pub open spec fn views(v: Seq<String>) -> Seq<Seq<char>> {
    v.map_values(|s: String| s@)
}

/// What to start and stop watching when the module table goes from `old` to
/// `new`: `watch` holds the paths of `new` missing from `old`, `unwatch` those
/// of `old` missing from `new`, each once.
pub open spec fn reconciled(
    old: Seq<Seq<char>>,
    new: Seq<Seq<char>>,
    watch: Seq<Seq<char>>,
    unwatch: Seq<Seq<char>>,
) -> bool {
    &&& forall|p: Seq<char>| watch.contains(p) <==> (new.contains(p) && !old.contains(p))
    &&& forall|p: Seq<char>| unwatch.contains(p) <==> (old.contains(p) && !new.contains(p))
    &&& watch.no_duplicates()
    &&& unwatch.no_duplicates()
}

/// Whether `v` holds a path with the text of `s`.
pub fn contains_text(v: &Vec<String>, s: &str) -> (r: bool)
    ensures
        r == views(v@).contains(s@),
{
    let mut i: usize = 0;
    while i < v.len()
        invariant
            i <= v@.len(),
            forall|j: int| 0 <= j < i ==> v@[j]@ != s@,
        decreases v@.len() - i,
    {
        if text_eq(v[i].as_str(), s) {
            assert(views(v@)[i as int] == s@);
            return true;
        }
        i = i + 1;
    }
    assert forall|j: int| 0 <= j < views(v@).len() implies views(v@)[j] != s@ by {
        assert(views(v@)[j] == v@[j]@);
    }
    false
}

/// The paths of `a` that `b` lacks, in order.
fn missing_from(a: &Vec<String>, b: &Vec<String>) -> (r: Vec<String>)
    requires
        views(a@).no_duplicates(),
    ensures
        forall|p: Seq<char>|
            views(r@).contains(p) <==> (views(a@).contains(p) && !views(b@).contains(p)),
        views(r@).no_duplicates(),
{
    let mut r: Vec<String> = Vec::new();
    let mut i: usize = 0;
    while i < a.len()
        invariant
            i <= a@.len(),
            views(a@).no_duplicates(),
            forall|p: Seq<char>|
                views(r@).contains(p) <==> (views(a@).subrange(0, i as int).contains(p)
                    && !views(b@).contains(p)),
            views(r@).no_duplicates(),
        decreases a@.len() - i,
    {
        let ghost before = views(a@).subrange(0, i as int);
        let ghost after = views(a@).subrange(0, i + 1);
        assert(after =~= before.push(a@[i as int]@));
        if !contains_text(b, a[i].as_str()) {
            let ghost old_r = views(r@);
            let c = a[i].clone();
            r.push(c);
            assert(views(r@) =~= old_r.push(a@[i as int]@));
            assert forall|p: Seq<char>| #[trigger] views(r@).contains(p) <==> (old_r.contains(p)
                || p == a@[i as int]@) by {
                if views(r@).contains(p) {
                    let k = choose|k: int| 0 <= k < views(r@).len() && views(r@)[k] == p;
                    if k < old_r.len() {
                        assert(old_r[k] == p);
                    }
                }
                if old_r.contains(p) {
                    let k = choose|k: int| 0 <= k < old_r.len() && old_r[k] == p;
                    assert(views(r@)[k] == p);
                }
                if p == a@[i as int]@ {
                    assert(views(r@)[old_r.len() as int] == p);
                }
            }
            assert(!before.contains(a@[i as int]@)) by {
                if before.contains(a@[i as int]@) {
                    let k = choose|k: int| 0 <= k < before.len() && before[k] == a@[i as int]@;
                    assert(views(a@)[k] == views(a@)[i as int]);
                }
            }
        }
        assert forall|p: Seq<char>| #[trigger] after.contains(p) <==> (before.contains(p) || p
            == a@[i as int]@) by {
            if after.contains(p) {
                let k = choose|k: int| 0 <= k < after.len() && after[k] == p;
                if k < before.len() {
                    assert(before[k] == p);
                }
            }
            if before.contains(p) {
                let k = choose|k: int| 0 <= k < before.len() && before[k] == p;
                assert(after[k] == p);
            }
            if p == a@[i as int]@ {
                assert(after[i as int] == p);
            }
        }
        i = i + 1;
    }
    assert(views(a@).subrange(0, a@.len() as int) =~= views(a@));
    r
}

/// The paths to start watching and to stop watching, in that order, when
/// the module table goes from `old` to `new`.
pub fn reconcile(old: &Vec<String>, new: &Vec<String>) -> (r: (Vec<String>, Vec<String>))
    requires
        views(old@).no_duplicates(),
        views(new@).no_duplicates(),
    ensures
        reconciled(views(old@), views(new@), views(r.0@), views(r.1@)),
{
    let w = missing_from(new, old);
    let u = missing_from(old, new);
    (w, u)
}

/// Starting from a watched set equal to the old table, watching `watch` and
/// unwatching `unwatch` leaves exactly the new table watched, and no path is
/// both watched and unwatched.
pub proof fn lemma_reconcile_watched_set(
    old: Seq<Seq<char>>,
    new: Seq<Seq<char>>,
    watch: Seq<Seq<char>>,
    unwatch: Seq<Seq<char>>,
)
    requires
        reconciled(old, new, watch, unwatch),
    ensures
        old.to_set().difference(unwatch.to_set()).union(watch.to_set()) == new.to_set(),
        watch.to_set().disjoint(unwatch.to_set()),
        watch.to_set().disjoint(old.to_set()),
        unwatch.to_set().subset_of(old.to_set()),
{
    assert(old.to_set().difference(unwatch.to_set()).union(watch.to_set()) =~= new.to_set());
}

} // verus!
