use vstd::prelude::*;
use vstd::set_lib::lemma_subset_equality;

use crate::rewrite::Resolved;
use crate::watch::{contains_text, views};

verus! {

/// A module of the table: its canonical path, what each of its specifiers
/// resolved to, and its rewritten body.
pub struct ModuleEntry {
    pub path: String,
    pub deps: Vec<Resolved>,
    pub body: Vec<u8>,
}

/// The path a resolution names, for a `Normal` one.
pub open spec fn target(r: Resolved) -> Option<Seq<char>> {
    match r {
        Resolved::Normal(p) => Some(p@),
        _ => None,
    }
}

/// Every `Normal` target among `deps` is in `known`.
pub open spec fn targets_in(deps: Seq<Resolved>, known: Seq<Seq<char>>) -> bool {
    forall|k: int|
        0 <= k < deps.len() && (#[trigger] target(deps[k])) is Some ==> known.contains(
            target(deps[k])->0,
        )
}

/// The paths of the modules of a table.
pub open spec fn paths_of(mods: Seq<ModuleEntry>) -> Seq<Seq<char>> {
    mods.map_values(|m: ModuleEntry| m.path@)
}

/// The orchestrator's bookkeeping while a bundle is built: the finished
/// modules, and every path handed out for loading so far. The paths handed
/// out and not finished are in flight.
pub struct BundleState {
    pub modules: Vec<ModuleEntry>,
    pub seen: Vec<String>,
}

impl BundleState {
    /// No path is handed out or finished twice; each finished module was
    /// handed out; every `Normal` target of a finished module was handed out.
    pub open spec fn wf(&self) -> bool {
        &&& views(self.seen@).no_duplicates()
        &&& paths_of(self.modules@).no_duplicates()
        &&& forall|i: int|
            0 <= i < self.modules@.len() ==> views(self.seen@).contains(
                #[trigger] paths_of(self.modules@)[i],
            )
        &&& forall|i: int|
            0 <= i < self.modules@.len() ==> targets_in(
                #[trigger] self.modules@[i].deps@,
                views(self.seen@),
            )
    }

    /// Starts a bundle from its entry: nothing finished, the entry in flight.
    pub fn new(entry: String) -> (r: Self)
        ensures
            r.wf(),
            r.modules@.len() == 0,
            views(r.seen@) == seq![entry@],
    {
        let mut seen: Vec<String> = Vec::new();
        seen.push(entry);
        let r = BundleState { modules: Vec::new(), seen };
        assert(views(r.seen@) =~= seq![entry@]);
        r
    }

    /// Whether every path handed out has been finished.
    pub fn is_done(&self) -> (r: bool)
        requires
            self.wf(),
        ensures
            r <==> forall|p: Seq<char>| views(self.seen@).contains(p) ==> paths_of(
                self.modules@,
            ).contains(p),
    {
        proof {
            self.lemma_done();
        }
        self.modules.len() == self.seen.len()
    }

    proof fn lemma_done(&self)
        requires
            self.wf(),
        ensures
            (self.modules@.len() == self.seen@.len()) <==> forall|p: Seq<char>|
                views(self.seen@).contains(p) ==> paths_of(self.modules@).contains(p),
    {
        let a = paths_of(self.modules@);
        let b = views(self.seen@);
        a.unique_seq_to_set();
        b.unique_seq_to_set();
        assert(a.to_set().subset_of(b.to_set())) by {
            assert forall|p: Seq<char>| a.to_set().contains(p) implies b.to_set().contains(p) by {
                let i = choose|i: int| 0 <= i < a.len() && a[i] == p;
                assert(b.contains(a[i]));
            }
        }
        if self.modules@.len() == self.seen@.len() {
            lemma_subset_equality(a.to_set(), b.to_set());
            assert forall|p: Seq<char>| b.contains(p) implies a.contains(p) by {
                assert(b.to_set().contains(p));
            }
        }
        if forall|p: Seq<char>| b.contains(p) ==> a.contains(p) {
            assert(b.to_set() =~= a.to_set());
        }
    }

    /// Whether a module with this path is finished.
    pub fn has_module(&self, p: &str) -> (r: bool)
        ensures
            r == paths_of(self.modules@).contains(p@),
    {
        let mut i: usize = 0;
        while i < self.modules.len()
            invariant
                i <= self.modules@.len(),
                forall|j: int| 0 <= j < i ==> self.modules@[j].path@ != p@,
            decreases self.modules@.len() - i,
        {
            if crate::text::text_eq(self.modules[i].path.as_str(), p) {
                assert(paths_of(self.modules@)[i as int] == p@);
                return true;
            }
            i = i + 1;
        }
        assert forall|j: int| 0 <= j < paths_of(self.modules@).len() implies paths_of(
            self.modules@,
        )[j] != p@ by {
            assert(paths_of(self.modules@)[j] == self.modules@[j].path@);
        }
        false
    }

    /// Records the finished module at `path`, handed out before and not
    /// finished yet. Returns the `Normal` targets of `deps` never handed out
    /// before, each once: they are handed out now, and are to be loaded.
    pub fn complete(&mut self, path: String, deps: Vec<Resolved>, body: Vec<u8>) -> (r: Vec<String>)
        requires
            old(self).wf(),
            views(old(self).seen@).contains(path@),
            !paths_of(old(self).modules@).contains(path@),
        ensures
            final(self).wf(),
            paths_of(final(self).modules@) == paths_of(old(self).modules@).push(path@),
            final(self).modules@.len() == old(self).modules@.len() + 1,
            forall|i: int|
                0 <= i < old(self).modules@.len() ==> final(self).modules@[i] == old(self).modules@[i],
            final(self).modules@.last().deps@ == deps@,
            final(self).modules@.last().body@ == body@,
            views(final(self).seen@) == views(old(self).seen@) + views(r@),
            forall|p: Seq<char>|
                views(r@).contains(p) <==> (!views(old(self).seen@).contains(p) && exists|k: int|
                    0 <= k < deps@.len() && #[trigger] target(deps@[k]) == Some(p)),
    {
        let ghost seen0 = views(self.seen@);
        let ghost mods0 = self.modules@;
        let mut fresh: Vec<String> = Vec::new();
        let mut k: usize = 0;
        while k < deps.len()
            invariant
                k <= deps@.len(),
                self.modules@ == mods0,
                views(self.seen@) == seen0 + views(fresh@),
                views(self.seen@).no_duplicates(),
                forall|p: Seq<char>| views(fresh@).contains(p) ==> !seen0.contains(p),
                targets_in(deps@.subrange(0, k as int), views(self.seen@)),
                forall|p: Seq<char>|
                    views(fresh@).contains(p) <==> (!seen0.contains(p) && exists|j: int|
                        0 <= j < k && #[trigger] target(deps@[j]) == Some(p)),
            decreases deps@.len() - k,
        {
            let ghost before = views(self.seen@);
            let ghost fr0 = views(fresh@);
            assert(forall|p: Seq<char>|
                #[trigger] fr0.contains(p) ==> (!seen0.contains(p) && exists|j: int|
                    0 <= j < k && #[trigger] target(deps@[j]) == Some(p)));
            assert(forall|p: Seq<char>|
                (!seen0.contains(p) && exists|j: int|
                    0 <= j < k && #[trigger] target(deps@[j]) == Some(p)) ==> #[trigger] fr0.contains(p));
            let ghost mut pushed = false;
            match &deps[k] {
                Resolved::Normal(p) => {
                    if !contains_text(&self.seen, p.as_str()) {
                        proof {
                            pushed = true;
                        }
                        let c = p.clone();
                        fresh.push(c.clone());
                        self.seen.push(c);
                        proof {
                            assert(views(fresh@) =~= fr0.push(p@));
                            assert(views(self.seen@) =~= before.push(p@));
                            assert(views(self.seen@) =~= seen0 + views(fresh@));
                            assert(views(self.seen@)[before.len() as int] == p@);
                            assert forall|i: int, j: int|
                                0 <= i < j < views(self.seen@).len() implies views(self.seen@)[i]
                                != views(self.seen@)[j] by {
                                if j == before.len() {
                                    assert(before[i] == views(self.seen@)[i]);
                                }
                            }
                        }
                    }
                },
                _ => {},
            }
            proof {
                let s = views(self.seen@);
                let sub = deps@.subrange(0, k + 1);
                assert forall|j: int| 0 <= j < sub.len() && (#[trigger] target(sub[j])) is Some
                    implies s.contains(target(sub[j])->0) by {
                    let q = target(sub[j])->0;
                    if j < k {
                        assert(deps@.subrange(0, k as int)[j] == sub[j]);
                        let t = choose|t: int| 0 <= t < before.len() && before[t] == q;
                        assert(s[t] == q);
                    } else {
                        if before.contains(q) {
                            let t = choose|t: int| 0 <= t < before.len() && before[t] == q;
                            assert(s[t] == q);
                        } else {
                            assert(s[before.len() as int] == q);
                        }
                    }
                }
                let fr1 = views(fresh@);
                assert(!pushed ==> fr1 == fr0);
                assert forall|p: Seq<char>| fr1.contains(p) implies (!seen0.contains(p) && exists|
                    j: int,
                | 0 <= j < k + 1 && #[trigger] target(deps@[j]) == Some(p)) by {
                    let t = choose|t: int| 0 <= t < fr1.len() && fr1[t] == p;
                    if t < fr0.len() {
                        assert(fr0[t] == p);
                        assert(fr0.contains(p));
                        let j = choose|j: int| 0 <= j < k && #[trigger] target(deps@[j]) == Some(p);
                        assert(target(deps@[j]) == Some(p));
                    } else {
                        assert(pushed);
                        assert(fr1 =~= fr0.push(target(deps@[k as int])->0));
                        assert(target(deps@[k as int]) == Some(p));
                        assert(!before.contains(p));
                        assert(!seen0.contains(p)) by {
                            if seen0.contains(p) {
                                let u = choose|u: int| 0 <= u < seen0.len() && seen0[u] == p;
                                assert(before[u] == p);
                            }
                        }
                    }
                }
                assert forall|p: Seq<char>|
                    (!seen0.contains(p) && exists|j: int|
                        0 <= j < k + 1 && #[trigger] target(deps@[j]) == Some(p)) implies fr1.contains(
                    p,
                ) by {
                    let j = choose|j: int| 0 <= j < k + 1 && #[trigger] target(deps@[j]) == Some(p);
                    if j < k {
                        assert(fr0.contains(p));
                        let t = choose|t: int| 0 <= t < fr0.len() && fr0[t] == p;
                        assert(fr1[t] == p);
                    } else if before.contains(p) {
                        let t = choose|t: int| 0 <= t < before.len() && before[t] == p;
                        assert(t >= seen0.len()) by {
                            if t < seen0.len() {
                                assert(seen0[t] == p);
                            }
                        }
                        assert(fr0[t - seen0.len()] == p);
                        assert(fr1[t - seen0.len()] == p);
                    } else {
                        assert(fr1[fr0.len() as int] == p);
                    }
                }
            }
            k = k + 1;
        }
        assert(deps@.subrange(0, deps@.len() as int) =~= deps@);
        let ghost seen1 = views(self.seen@);
        self.modules.push(ModuleEntry { path, deps, body });
        proof {
            assert(paths_of(self.modules@) =~= paths_of(mods0).push(path@));
            assert forall|i: int| 0 <= i < self.modules@.len() implies seen1.contains(
                #[trigger] paths_of(self.modules@)[i],
            ) by {
                if i < mods0.len() {
                    assert(paths_of(mods0)[i] == paths_of(self.modules@)[i]);
                    let t = choose|t: int| 0 <= t < seen0.len() && seen0[t] == paths_of(mods0)[i];
                    assert(seen1[t] == seen0[t]);
                } else {
                    let t = choose|t: int| 0 <= t < seen0.len() && seen0[t] == path@;
                    assert(seen1[t] == path@);
                }
            }
            assert forall|i: int| 0 <= i < self.modules@.len() implies targets_in(
                #[trigger] self.modules@[i].deps@,
                seen1,
            ) by {
                if i < mods0.len() {
                    assert(self.modules@[i] == mods0[i]);
                    let d = mods0[i].deps@;
                    assert(targets_in(d, seen0));
                    assert forall|j: int| 0 <= j < d.len() && (#[trigger] target(d[j])) is Some
                        implies seen1.contains(target(d[j])->0) by {
                        let q = target(d[j])->0;
                        let t2 = choose|t2: int| 0 <= t2 < seen0.len() && seen0[t2] == q;
                        assert(seen1[t2] == q);
                    }
                }
            }
            assert(paths_of(self.modules@).no_duplicates()) by {
                assert forall|i: int, j: int|
                    0 <= i < j < paths_of(self.modules@).len() implies paths_of(self.modules@)[i]
                    != paths_of(self.modules@)[j] by {
                    if j == mods0.len() {
                        assert(paths_of(mods0)[i] == paths_of(self.modules@)[i]);
                    } else {
                        assert(paths_of(mods0)[i] == paths_of(self.modules@)[i]);
                        assert(paths_of(mods0)[j] == paths_of(self.modules@)[j]);
                    }
                }
            }
        }
        fresh
    }
}

/// Once no path is in flight, the table is closed: every `Normal` target of
/// every module is itself a module of the table.
pub proof fn lemma_done_table_closed(st: BundleState)
    requires
        st.wf(),
        st.modules@.len() == st.seen@.len(),
    ensures
        forall|i: int, k: int|
            0 <= i < st.modules@.len() && 0 <= k < st.modules@[i].deps@.len() && (#[trigger] target(
                st.modules@[i].deps@[k],
            )) is Some ==> paths_of(st.modules@).contains(target(st.modules@[i].deps@[k])->0),
{
    st.lemma_done();
    assert forall|i: int, k: int|
        0 <= i < st.modules@.len() && 0 <= k < st.modules@[i].deps@.len() && (#[trigger] target(
            st.modules@[i].deps@[k],
        )) is Some implies paths_of(st.modules@).contains(target(st.modules@[i].deps@[k])->0) by {
        assert(targets_in(st.modules@[i].deps@, views(st.seen@)));
        assert(views(st.seen@).contains(target(st.modules@[i].deps@[k])->0));
    }
}

} // verus!
