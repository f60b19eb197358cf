//! The order in which lifecycle scripts run: the script of a package waits
//! for the scripts of the packages it depends on, directly or not, among
//! those that have scripts to run.

use vstd::prelude::*;

use crate::graph::{reaches, Graph, GraphView};
use crate::spec::opt_string_view;

verus! {

/// A step of rebuilding installed packages.
#[derive(Debug, Clone, Copy, PartialEq, Eq)]
pub enum RebuildStep {
    /// Run the `preinstall` scripts.
    Preinstall,
    /// Link the packages' executables.
    LinkBins,
    /// Run the `install` scripts.
    Install,
    /// Run the `postinstall` scripts.
    Postinstall,
}

/// The steps of a rebuild: the `preinstall` scripts,
/// linking executables, then the `install` and `postinstall` scripts;
/// with scripts ignored, only the linking.
pub open spec fn rebuild_plan(ignore_scripts: bool) -> Seq<RebuildStep> {
    if ignore_scripts {
        seq![RebuildStep::LinkBins]
    } else {
        seq![RebuildStep::Preinstall, RebuildStep::LinkBins, RebuildStep::Install, RebuildStep::Postinstall]
    }
}

/// The steps of a rebuild, in order (see [`rebuild_plan`]).
pub fn rebuild_steps(ignore_scripts: bool) -> (res: Vec<RebuildStep>)
    ensures
        res@ == rebuild_plan(ignore_scripts),
{
    let mut out: Vec<RebuildStep> = Vec::new();
    if !ignore_scripts {
        out.push(RebuildStep::Preinstall);
    }
    out.push(RebuildStep::LinkBins);
    if !ignore_scripts {
        out.push(RebuildStep::Install);
        out.push(RebuildStep::Postinstall);
    }
    assert(out@ =~= rebuild_plan(ignore_scripts));
    out
}

impl RebuildStep {
    /// The lifecycle event whose scripts the step runs, if it runs any.
    pub fn event(&self) -> (res: Option<String>)
        ensures
            opt_string_view(res) == match *self {
                RebuildStep::Preinstall => Some("preinstall"@),
                RebuildStep::LinkBins => None,
                RebuildStep::Install => Some("install"@),
                RebuildStep::Postinstall => Some("postinstall"@),
            },
    {
        match self {
            RebuildStep::Preinstall => Some(String::from_str("preinstall")),
            RebuildStep::LinkBins => None,
            RebuildStep::Install => Some(String::from_str("install")),
            RebuildStep::Postinstall => Some(String::from_str("postinstall")),
        }
    }
}

/// Package `d` is one whose script `p` waits for: another pending package
/// that `p` depends on, directly or not.
pub open spec fn waits_for(g: GraphView, pending: Seq<usize>, p: usize, d: usize) -> bool {
    pending.contains(d) && d != p && reaches(g.edges, p, d)
}

/// A waiting package `e.0` is pending and not finished, and `e.1` lists
/// exactly the packages it waits for that have not finished, at least one.
pub open spec fn entry_ok(g: GraphView, pending: Seq<usize>, fin: Set<usize>, e: (usize, Vec<usize>)) -> bool {
    &&& pending.contains(e.0)
    &&& !fin.contains(e.0)
    &&& e.1@.len() > 0
    &&& forall|d: usize| #![trigger e.1@.contains(d)] e.1@.contains(d) <==> waits_for(g, pending, e.0, d) && !fin.contains(d)
}

/// Scripts waiting to run, each with the scripts it still waits for.
pub struct ScriptSchedule {
    /// Waiting packages, in the order they were pending, each with the
    /// packages it still waits for.
    pub waiting: Vec<(usize, Vec<usize>)>,
    /// The graph and the pending packages the schedule was made for.
    pub graph: Ghost<GraphView>,
    pub pending: Ghost<Seq<usize>>,
    /// Packages whose scripts have finished.
    pub finished: Ghost<Set<usize>>,
}

impl ScriptSchedule {
    /// Each waiting package is pending, not finished, and listed once; it
    /// waits exactly for the packages it waits for that have not finished,
    /// and for at least one.
    pub open spec fn wf(&self) -> bool {
        let w = self.waiting@;
        &&& forall|k: int| 0 <= k < w.len() ==> #[trigger] entry_ok(self.graph@, self.pending@, self.finished@, w[k])
        &&& forall|a: int, b: int| 0 <= a < b < w.len() ==> #[trigger] w[a].0 != #[trigger] w[b].0
        &&& self.finished@.subset_of(self.pending@.to_set())
    }

    /// Whether a package's script is still waiting.
    pub open spec fn is_waiting(&self, p: usize) -> bool {
        exists|k: int| 0 <= k < self.waiting@.len() && #[trigger] self.waiting@[k].0 == p
    }

    /// Whether no script waits any longer.
    pub fn idle(&self) -> (res: bool)
        ensures
            res == (self.waiting@.len() == 0),
    {
        self.waiting.len() == 0
    }
}

fn waits_list(graph: &Graph, pending: &Vec<usize>, p: usize) -> (res: Vec<usize>)
    requires
        graph@.wf(),
        forall|k: int| 0 <= k < pending@.len() ==> graph@.has(#[trigger] pending@[k]),
        graph@.has(p),
    ensures
        forall|d: usize| res@.contains(d) <==> waits_for(graph@, pending@, p, d),
{
    let mut out: Vec<usize> = Vec::new();
    let mut k: usize = 0;
    while k < pending.len()
        invariant
            graph@.wf(),
            graph@.has(p),
            forall|q: int| 0 <= q < pending@.len() ==> graph@.has(#[trigger] pending@[q]),
            k <= pending.len(),
            forall|d: usize| #![trigger out@.contains(d)] out@.contains(d) <==> (pending@.take(k as int).contains(d) && d != p && reaches(graph@.edges, p, d)),
        decreases pending.len() - k,
    {
        let d = pending[k];
        assert(graph@.has(pending@[k as int]));
        let ghost before = out@;
        let connects = if d != p {
            graph.has_path(p, d)
        } else {
            false
        };
        if connects {
            out.push(d);
        }
        proof {
            let t0 = pending@.take(k as int);
            let t1 = pending@.take(k + 1);
            assert(t1 =~= t0.push(d));
            assert(connects == (d != p && reaches(graph@.edges, p, d)));
            assert forall|x: usize| out@.contains(x) implies (t1.contains(x) && x != p && reaches(graph@.edges, p, x)) by {
                if before.contains(x) {
                    assert(t0.contains(x));
                    let j = choose|j: int| 0 <= j < t0.len() && t0[j] == x;
                    assert(t1[j] == x);
                } else {
                    let j = choose|j: int| 0 <= j < out@.len() && out@[j] == x;
                    assert(j == before.len());
                    assert(x == d);
                    assert(t1[k as int] == d);
                }
            }
            assert forall|x: usize| (t1.contains(x) && x != p && reaches(graph@.edges, p, x)) implies #[trigger] out@.contains(x) by {
                let j = choose|j: int| 0 <= j < t1.len() && t1[j] == x;
                if j < k {
                    assert(t0[j] == x);
                    assert(t0.contains(x));
                    assert(before.contains(x));
                    let i2 = choose|i2: int| 0 <= i2 < before.len() && before[i2] == x;
                    assert(out@[i2] == x);
                } else {
                    assert(x == d);
                    assert(connects);
                    assert(out@[before.len() as int] == d);
                }
            }
            assert forall|x: usize| #![trigger out@.contains(x)] out@.contains(x) <==> (t1.contains(x) && x != p && reaches(graph@.edges, p, x)) by {}
        }
        k = k + 1;
    }
    assert(pending@.take(k as int) =~= pending@);
    out
}

impl ScriptSchedule {
    /// The schedule for the packages in `pending`:
    /// returns it with the packages whose scripts can start at once, those
    /// that wait for no other pending package, in pending order.
    pub fn new(graph: &Graph, pending: &Vec<usize>) -> (res: (ScriptSchedule, Vec<usize>))
        requires
            graph@.wf(),
            forall|k: int| 0 <= k < pending@.len() ==> graph@.has(#[trigger] pending@[k]),
            pending@.no_duplicates(),
        ensures
            res.0.wf(),
            res.0.graph@ == graph@,
            res.0.pending@ == pending@,
            res.0.finished@ == Set::<usize>::empty(),
            forall|p: usize| pending@.contains(p) ==> (res.1@.contains(p) <==> forall|d: usize|
                !waits_for(graph@, pending@, p, d)),
            forall|p: usize| pending@.contains(p) ==> (res.0.is_waiting(p) <==> !res.1@.contains(p)),
            forall|p: usize| res.1@.contains(p) ==> pending@.contains(p),
    {
        let ghost g = graph@;
        let mut waiting: Vec<(usize, Vec<usize>)> = Vec::new();
        let mut ready: Vec<usize> = Vec::new();
        let mut k: usize = 0;
        while k < pending.len()
            invariant
                g == graph@,
                g.wf(),
                forall|q: int| 0 <= q < pending@.len() ==> g.has(#[trigger] pending@[q]),
                pending@.no_duplicates(),
                k <= pending.len(),
                forall|j: int| #![trigger waiting@[j]] 0 <= j < waiting@.len() ==> {
                    &&& pending@.take(k as int).contains(waiting@[j].0)
                    &&& waiting@[j].1@.len() > 0
                    &&& forall|d: usize| waiting@[j].1@.contains(d) <==> waits_for(g, pending@, waiting@[j].0, d)
                },
                forall|a: int, b: int| 0 <= a < b < waiting@.len() ==> #[trigger] waiting@[a].0 != #[trigger] waiting@[b].0,
                forall|p: usize| pending@.take(k as int).contains(p) ==> (ready@.contains(p) <==> forall|d: usize|
                    !waits_for(g, pending@, p, d)),
                forall|p: usize| pending@.take(k as int).contains(p) ==> ((exists|j: int| 0 <= j < waiting@.len() && #[trigger] waiting@[j].0 == p)
                    <==> !ready@.contains(p)),
                forall|p: usize| ready@.contains(p) ==> pending@.take(k as int).contains(p),
                forall|j: int| 0 <= j < waiting@.len() ==> pending@.take(k as int).contains(#[trigger] waiting@[j].0),
            decreases pending.len() - k,
        {
            let p = pending[k];
            assert(g.has(pending@[k as int]));
            let deps = waits_list(graph, pending, p);
            let ghost wb = waiting@;
            let ghost rb = ready@;
            proof {
                assert(pending@.take(k + 1) =~= pending@.take(k as int).push(p));
                assert(!pending@.take(k as int).contains(p)) by {
                    if pending@.take(k as int).contains(p) {
                        let j = choose|j: int| 0 <= j < k && pending@.take(k as int)[j] == p;
                        assert(pending@[j] == pending@[k as int]);
                    }
                }
            }
            if deps.len() == 0 {
                ready.push(p);
                proof {
                    assert forall|d: usize| !waits_for(g, pending@, p, d) by {
                        if waits_for(g, pending@, p, d) {
                            assert(deps@.contains(d));
                        }
                    }
                }
            } else {
                proof {
                    assert(deps@.contains(deps@[0]));
                }
                waiting.push((p, deps));
            }
            proof {
                let tk = pending@.take(k + 1);
                assert forall|p2: usize| tk.contains(p2) implies (ready@.contains(p2) <==> forall|d: usize|
                    !waits_for(g, pending@, p2, d)) by {
                    if p2 != p {
                        assert(pending@.take(k as int).contains(p2)) by {
                            let j = choose|j: int| 0 <= j < k + 1 && tk[j] == p2;
                            assert(j < k);
                            assert(pending@.take(k as int)[j] == p2);
                        }
                        if ready@.contains(p2) && !rb.contains(p2) {
                            assert(p2 == p);
                        }
                        if rb.contains(p2) {
                            let j = choose|j: int| 0 <= j < rb.len() && rb[j] == p2;
                            assert(ready@[j] == p2);
                        }
                    } else {
                        if deps@.len() == 0 {
                            assert(ready@[ready@.len() - 1] == p);
                        } else {
                            assert(!rb.contains(p));
                            assert(ready@ == rb);
                            assert(deps@.contains(deps@[0]));
                        }
                    }
                }
                assert forall|p2: usize| tk.contains(p2) implies ((exists|j: int| 0 <= j < waiting@.len() && #[trigger] waiting@[j].0 == p2)
                    <==> !ready@.contains(p2)) by {
                    if p2 != p {
                        assert(pending@.take(k as int).contains(p2)) by {
                            let j = choose|j: int| 0 <= j < k + 1 && tk[j] == p2;
                            assert(j < k);
                            assert(pending@.take(k as int)[j] == p2);
                        }
                        if exists|j: int| 0 <= j < waiting@.len() && #[trigger] waiting@[j].0 == p2 {
                            let j = choose|j: int| 0 <= j < waiting@.len() && #[trigger] waiting@[j].0 == p2;
                            if j < wb.len() {
                                assert(wb[j].0 == p2);
                            }
                        }
                        if exists|j: int| 0 <= j < wb.len() && #[trigger] wb[j].0 == p2 {
                            let j = choose|j: int| 0 <= j < wb.len() && #[trigger] wb[j].0 == p2;
                            assert(waiting@[j].0 == p2);
                        }
                        if ready@.contains(p2) && !rb.contains(p2) {
                            assert(p2 == p);
                        }
                        if rb.contains(p2) {
                            let j = choose|j: int| 0 <= j < rb.len() && rb[j] == p2;
                            assert(ready@[j] == p2);
                        }
                    } else {
                        if deps@.len() == 0 {
                            assert(ready@[ready@.len() - 1] == p);
                            assert(waiting@ == wb);
                            if exists|j: int| 0 <= j < waiting@.len() && #[trigger] waiting@[j].0 == p2 {
                                let j = choose|j: int| 0 <= j < waiting@.len() && #[trigger] waiting@[j].0 == p2;
                                assert(pending@.take(k as int).contains(wb[j].0));
                            }
                        } else {
                            assert(waiting@[waiting@.len() - 1].0 == p);
                            assert(ready@ == rb);
                        }
                    }
                }
                assert forall|p2: usize| ready@.contains(p2) implies tk.contains(p2) by {
                    if rb.contains(p2) {
                        let j = choose|j: int| 0 <= j < k && pending@.take(k as int)[j] == p2;
                        assert(tk[j] == p2);
                    } else {
                        assert(tk[k as int] == p);
                    }
                }
                assert forall|j: int| 0 <= j < waiting@.len() implies tk.contains(#[trigger] waiting@[j].0) by {
                    if j < wb.len() {
                        assert(pending@.take(k as int).contains(wb[j].0));
                        let q = choose|q: int| 0 <= q < k && pending@.take(k as int)[q] == wb[j].0;
                        assert(tk[q] == wb[j].0);
                    } else {
                        assert(tk[k as int] == p);
                    }
                }
                assert forall|j: int| #![trigger waiting@[j]] 0 <= j < waiting@.len() implies pending@.take(k + 1).contains(waiting@[j].0) by {
                    assert(tk.contains(waiting@[j].0));
                }
                assert forall|a: int, b: int| 0 <= a < b < waiting@.len() implies #[trigger] waiting@[a].0 != #[trigger] waiting@[b].0 by {
                    if b == wb.len() && deps@.len() > 0 {
                        assert(pending@.take(k as int).contains(wb[a].0));
                    }
                }
            }
            k = k + 1;
        }
        assert(pending@.take(k as int) =~= pending@);
        let sched = ScriptSchedule {
            waiting,
            graph: Ghost(g),
            pending: Ghost(pending@),
            finished: Ghost(Set::empty()),
        };
        proof {
            assert forall|k2: int| 0 <= k2 < sched.waiting@.len() implies #[trigger] entry_ok(g, pending@, Set::empty(), sched.waiting@[k2]) by {
                assert(sched.waiting@[k2] == waiting@[k2]);
                let q = choose|q: int| 0 <= q < pending@.len() && pending@.take(pending@.len() as int)[q] == sched.waiting@[k2].0;
                assert(pending@[q] == sched.waiting@[k2].0);
            }
        }
        (sched, ready)
    }
}

fn without(v: &Vec<usize>, x: usize) -> (res: Vec<usize>)
    ensures
        forall|d: usize| res@.contains(d) <==> (v@.contains(d) && d != x),
{
    let mut out: Vec<usize> = Vec::new();
    let mut k: usize = 0;
    while k < v.len()
        invariant
            k <= v.len(),
            forall|d: usize| out@.contains(d) <==> (v@.take(k as int).contains(d) && d != x),
        decreases v.len() - k,
    {
        let ghost before = out@;
        let y = v[k];
        if y != x {
            out.push(y);
        }
        proof {
            let t0 = v@.take(k as int);
            let t1 = v@.take(k + 1);
            assert(t1 =~= t0.push(y));
            assert forall|d: usize| out@.contains(d) implies (t1.contains(d) && d != x) by {
                if before.contains(d) {
                    let j = choose|j: int| 0 <= j < t0.len() && t0[j] == d;
                    assert(t1[j] == d);
                } else {
                    let j = choose|j: int| 0 <= j < out@.len() && out@[j] == d;
                    assert(j == before.len());
                    assert(t1[k as int] == y);
                }
            }
            assert forall|d: usize| (t1.contains(d) && d != x) implies out@.contains(d) by {
                let j = choose|j: int| 0 <= j < t1.len() && t1[j] == d;
                if j < k {
                    assert(t0[j] == d);
                    assert(t0.contains(d));
                    assert(before.contains(d));
                    let i2 = choose|i2: int| 0 <= i2 < before.len() && before[i2] == d;
                    assert(out@[i2] == d);
                } else {
                    assert(y == d);
                    assert(out@[before.len() as int] == d);
                }
            }
        }
        k = k + 1;
    }
    assert(v@.take(k as int) =~= v@);
    out
}

/// Whether some of the first `k` entries of `w` is that of package `x`.
pub open spec fn listed_upto(w: Seq<(usize, Vec<usize>)>, x: usize, k: int) -> bool {
    exists|q: int| 0 <= q < k && #[trigger] w[q].0 == x
}

/// Among the first `k` waiting scripts, those every one of whose waits has
/// finished, in the order they wait.
pub open spec fn released_upto(
    g: GraphView,
    pending: Seq<usize>,
    fin: Set<usize>,
    w: Seq<(usize, Vec<usize>)>,
    k: int,
) -> Seq<usize>
    decreases k,
{
    if k <= 0 || k > w.len() {
        Seq::empty()
    } else {
        let r = released_upto(g, pending, fin, w, k - 1);
        if all_finished(g, pending, fin, w[k - 1].0) {
            r.push(w[k - 1].0)
        } else {
            r
        }
    }
}

/// Whether every package that `x` waits for has finished.
pub open spec fn all_finished(g: GraphView, pending: Seq<usize>, fin: Set<usize>, x: usize) -> bool {
    forall|d: usize| waits_for(g, pending, x, d) ==> #[trigger] fin.contains(d)
}

impl ScriptSchedule {
    /// The script of `idx` finished (it was not waiting): every waiting
    /// script stops waiting for it, and those that waited for nothing else
    /// are returned, in the order they were waiting (see
    /// [`released_upto`]), to be started.
    pub fn finish(&mut self, idx: usize) -> (res: Vec<usize>)
        requires
            old(self).wf(),
            old(self).pending@.contains(idx),
            !old(self).is_waiting(idx),
        ensures
            final(self).wf(),
            final(self).graph@ == old(self).graph@,
            final(self).pending@ == old(self).pending@,
            final(self).finished@ == old(self).finished@.insert(idx),
            forall|x: usize| res@.contains(x) <==> old(self).is_waiting(x) && all_finished(
                old(self).graph@,
                old(self).pending@,
                final(self).finished@,
                x,
            ),
            forall|x: usize| final(self).is_waiting(x) <==> old(self).is_waiting(x) && !res@.contains(x),
            res@ == released_upto(
                old(self).graph@,
                old(self).pending@,
                final(self).finished@,
                old(self).waiting@,
                old(self).waiting@.len() as int,
            ),
    {
        let ghost g = self.graph@;
        let ghost pending = self.pending@;
        let ghost fin = self.finished@.insert(idx);
        let ghost w0 = self.waiting@;
        assert forall|q: int| 0 <= q < w0.len() implies #[trigger] w0[q].0 != idx by {
            if w0[q].0 == idx {
                assert(self.is_waiting(idx));
            }
        }
        let mut kept: Vec<(usize, Vec<usize>)> = Vec::new();
        let mut released: Vec<usize> = Vec::new();
        let mut k: usize = 0;
        while k < self.waiting.len()
            invariant
                g == self.graph@,
                pending == self.pending@,
                w0 == self.waiting@,
                fin == self.finished@.insert(idx),
                self.wf(),
                k <= w0.len(),
                forall|q: int| 0 <= q < w0.len() ==> #[trigger] w0[q].0 != idx,
                forall|j: int| 0 <= j < kept@.len() ==> #[trigger] entry_ok(g, pending, fin, kept@[j]),
                forall|j: int| #![trigger kept@[j]] 0 <= j < kept@.len() ==> listed_upto(w0, kept@[j].0, k as int)
                    && !all_finished(g, pending, fin, kept@[j].0),
                forall|a: int, b: int| 0 <= a < b < kept@.len() ==> #[trigger] kept@[a].0 != #[trigger] kept@[b].0,
                forall|x: usize| listed_upto(w0, x, k as int) ==> (listed_upto(kept@, x, kept@.len() as int) || released@.contains(x)),
                forall|x: usize| released@.contains(x) <==> listed_upto(w0, x, k as int) && all_finished(g, pending, fin, x),
                released@ == released_upto(g, pending, fin, w0, k as int),
            decreases w0.len() - k,
        {
            let p = self.waiting[k].0;
            let rest = without(&self.waiting[k].1, idx);
            let ghost kb = kept@;
            let ghost rb = released@;
            proof {
                let e = w0[k as int];
                assert(e.0 == p);
                assert(entry_ok(g, pending, self.finished@, self.waiting@[k as int]));
                assert(self.waiting@[k as int] == e);
                assert forall|d: usize| rest@.contains(d) <==> waits_for(g, pending, p, d) && !fin.contains(d) by {
                    assert(rest@.contains(d) <==> (self.waiting@[k as int].1@.contains(d) && d != idx));
                    assert(self.waiting@[k as int].1@.contains(d) <==> waits_for(g, pending, p, d)
                        && !self.finished@.contains(d));
                }
                assert(!listed_upto(w0, p, k as int)) by {
                    if listed_upto(w0, p, k as int) {
                        let q = choose|q: int| 0 <= q < k && #[trigger] w0[q].0 == p;
                        assert(w0[q].0 != w0[k as int].0);
                    }
                }
                assert forall|x: usize| listed_upto(w0, x, k + 1) <==> listed_upto(w0, x, k as int) || x == p by {
                    if listed_upto(w0, x, k + 1) && !listed_upto(w0, x, k as int) {
                        let q = choose|q: int| 0 <= q < k + 1 && #[trigger] w0[q].0 == x;
                        assert(q == k);
                    }
                    if x == p {
                        assert(w0[k as int].0 == x);
                    }
                    if listed_upto(w0, x, k as int) {
                        let q = choose|q: int| 0 <= q < k && #[trigger] w0[q].0 == x;
                        assert(w0[q].0 == x);
                    }
                }
                assert(all_finished(g, pending, fin, p) <==> rest@.len() == 0) by {
                    if rest@.len() > 0 {
                        let d0 = rest@[0];
                        assert(rest@.contains(d0));
                        assert(waits_for(g, pending, p, d0) && !fin.contains(d0));
                        assert(!all_finished(g, pending, fin, p));
                    } else {
                        assert forall|d: usize| waits_for(g, pending, p, d) implies #[trigger] fin.contains(d) by {
                            if !fin.contains(d) {
                                assert(rest@.contains(d));
                            }
                        }
                    }
                }
            }
            if rest.len() == 0 {
                released.push(p);
            } else {
                proof {
                    assert(rest@.contains(rest@[0]));
                    assert(!fin.contains(p)) by {
                        assert(entry_ok(g, pending, self.finished@, self.waiting@[k as int]));
                        if p == idx {
                            assert(self.waiting@[k as int].0 == idx);
                        }
                    }
                    assert(entry_ok(g, pending, fin, (p, rest)));
                }
                kept.push((p, rest));
            }
            proof {
                assert forall|j: int| #![trigger kept@[j]] 0 <= j < kept@.len() implies listed_upto(w0, kept@[j].0, k + 1) by {
                    if j < kb.len() {
                        assert(kept@[j] == kb[j]);
                        assert(listed_upto(w0, kb[j].0, k as int));
                    }
                }
                assert forall|a: int, b: int| 0 <= a < b < kept@.len() implies #[trigger] kept@[a].0 != #[trigger] kept@[b].0 by {
                    if b == kb.len() {
                        assert(kept@[a] == kb[a]);
                        assert(listed_upto(w0, kb[a].0, k as int));
                    }
                }
                assert forall|x: usize| listed_upto(w0, x, k + 1) implies (listed_upto(kept@, x, kept@.len() as int) || released@.contains(x)) by {
                    if x == p {
                        if rest@.len() == 0 {
                            assert(released@[rb.len() as int] == p);
                        } else {
                            assert(kept@[kb.len() as int].0 == p);
                        }
                    } else {
                        assert(listed_upto(w0, x, k as int));
                        if listed_upto(kb, x, kb.len() as int) {
                            let j = choose|j: int| 0 <= j < kb.len() && #[trigger] kb[j].0 == x;
                            assert(kept@[j].0 == x);
                        } else {
                            assert(rb.contains(x));
                            let i2 = choose|i2: int| 0 <= i2 < rb.len() && rb[i2] == x;
                            assert(released@[i2] == x);
                        }
                    }
                }
                assert forall|x: usize| released@.contains(x) <==> listed_upto(w0, x, k + 1) && all_finished(g, pending, fin, x) by {
                    if released@.contains(x) && !rb.contains(x) {
                        let i2 = choose|i2: int| 0 <= i2 < released@.len() && released@[i2] == x;
                        assert(i2 == rb.len());
                    }
                    if rb.contains(x) {
                        let i2 = choose|i2: int| 0 <= i2 < rb.len() && rb[i2] == x;
                        assert(released@[i2] == x);
                    }
                    if x == p && all_finished(g, pending, fin, x) {
                        assert(released@[rb.len() as int] == p);
                    }
                }
            }
            k = k + 1;
        }
        self.waiting = kept;
        self.finished = Ghost(fin);
        proof {
            assert forall|j: int| 0 <= j < self.waiting@.len() implies #[trigger] entry_ok(g, pending, fin, self.waiting@[j]) by {
                assert(self.waiting@[j] == kept@[j]);
            }
            assert(fin.subset_of(pending.to_set())) by {
                assert forall|x: usize| fin.contains(x) implies pending.to_set().contains(x) by {
                    if x == idx {
                        assert(pending.contains(idx));
                    }
                }
            }
            assert forall|x: usize| self.is_waiting(x) <==> listed_upto(w0, x, w0.len() as int) && !released@.contains(x) by {
                if self.is_waiting(x) {
                    let j = choose|j: int| 0 <= j < self.waiting@.len() && #[trigger] self.waiting@[j].0 == x;
                    assert(listed_upto(w0, self.waiting@[j].0, k as int));
                }
            }
        }
        released
    }
}

} // verus!
