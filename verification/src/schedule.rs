//! The job scheduler: drives the unit graph through the per-unit state
//! machine Waiting, Ready, Running, Finished, with bounded concurrency,
//! deterministic dispatch order, and a fail-fast switch.

use vstd::prelude::*;
use crate::fingerprint::{Freshness, Work};
use crate::unit::{UnitGraph, graph_wf};
use crate::ident::PackageId;

verus! {

/// The life of one unit under the scheduler.
#[derive(Clone, Copy, PartialEq, Eq, Structural, Debug)]
pub enum UnitState {
    /// Some dependency has not finished yet.
    Waiting,
    /// Every dependency finished successfully; not yet started.
    Ready,
    /// A worker is executing the unit.
    Running,
    /// Finished, successfully or not.
    Finished(bool),
    /// Never run: a dependency failed.
    Cancelled,
}

/// Chooses between a unit's dirty and fresh work: a fresh unit gets
/// its fresh work, so it never invokes the compiler.
pub fn select_work(freshness: Freshness, dirty: Work, fresh: Work) -> (r: Work)
    ensures
        freshness is Fresh ==> r == fresh,
        freshness is Dirty ==> r == dirty,
{
    match freshness {
        Freshness::Fresh => fresh,
        Freshness::Dirty => dirty,
    }
}

/// Law: a fresh unit prepared by the fingerprint engine performs no
/// work at execution; in particular it does not run the compiler.
pub proof fn lemma_fresh_unit_skips(prep: crate::fingerprint::Preparation, r: Work)
    requires
        prep.fresh is Noop,
        prep.freshness is Fresh,
        prep.freshness is Fresh ==> r == prep.fresh,
    ensures
        !(r is RunCompiler),
{
}

/// The scheduler's view of a build in progress.
pub struct Scheduler {
    pub states: Vec<UnitState>,
    /// Stop dispatching new units after the first failure.
    pub fail_fast: bool,
    /// Whether any unit has failed.
    pub failed: bool,
    /// Worker slots in total.
    pub capacity: usize,
    /// Units currently running.
    pub running: usize,
}

/// How one pass may move a unit: a Waiting unit may become Ready or
/// Cancelled, every other unit keeps its state.
pub open spec fn state_evolves(before: UnitState, after: UnitState) -> bool {
    if before is Waiting {
        after is Waiting || after is Ready || after is Cancelled
    } else {
        after == before
    }
}

/// What one readiness pass guarantees of unit `i`: its state evolved;
/// it is Ready exactly on dependencies that had all finished
/// successfully, except that a dependency failed or cancelled (in the
/// pass's outcome) makes it Cancelled instead.
pub open spec fn refreshed(orig: Seq<UnitState>, cur: Seq<UnitState>, g: UnitGraph,
    i: int) -> bool {
    &&& state_evolves(orig[i], cur[i])
    &&& (orig[i] is Waiting && (forall|d: int| 0 <= d < g.deps@[i]@.len()
            ==> orig[(#[trigger] g.deps@[i]@[d]).unit_index as int]
                == UnitState::Finished(true))
        ==> cur[i] is Ready)
    &&& (orig[i] is Waiting && cur[i] is Ready
        ==> forall|d: int| 0 <= d < g.deps@[i]@.len()
            ==> orig[(#[trigger] g.deps@[i]@[d]).unit_index as int]
                == UnitState::Finished(true))
    &&& (orig[i] is Waiting ==> (cur[i] is Cancelled
        <==> exists|d: int| 0 <= d < g.deps@[i]@.len()
            && dep_bad(cur[(#[trigger] g.deps@[i]@[d]).unit_index as int])))
}

/// A state that dooms every dependent: a failure or a cancellation.
pub open spec fn dep_bad(s: UnitState) -> bool {
    s == UnitState::Finished(false) || s is Cancelled
}

/// One state per unit, and the running count within capacity.
pub open spec fn sched_wf(s: Scheduler, g: UnitGraph) -> bool {
    &&& s.states@.len() == g.units@.len()
    &&& s.running <= s.capacity
}

impl Scheduler {
    /// A scheduler over `g` with `capacity` worker slots: every unit
    /// starts out Waiting.
    pub fn new(g: &UnitGraph, capacity: usize, fail_fast: bool) -> (r: Scheduler)
        requires
            graph_wf(*g),
        ensures
            sched_wf(r, *g),
            forall|i: int| 0 <= i < r.states@.len() ==> r.states@[i] is Waiting,
            r.fail_fast == fail_fast,
            !r.failed,
            r.capacity == capacity,
            r.running == 0,
    {
        let mut states: Vec<UnitState> = Vec::new();
        let mut i: usize = 0;
        while i < g.units.len()
            invariant
                0 <= i <= g.units@.len(),
                states@.len() == i,
                forall|j: int| 0 <= j < i ==> states@[j] is Waiting,
            decreases g.units.len() - i,
        {
            states.push(UnitState::Waiting);
            i += 1;
        }
        Scheduler { states, fail_fast, failed: false, capacity, running: 0 }
    }

    /// Promotes to Ready every Waiting unit whose dependencies all
    /// finished successfully, and cancels every Waiting unit that
    /// depends on a failed or cancelled one. Other units keep their
    /// state; cancellation cascades within one pass.
    pub fn update_ready(&mut self, g: &UnitGraph)
        requires
            graph_wf(*g),
            sched_wf(*old(self), *g),
        ensures
            sched_wf(*final(self), *g),
            final(self).states@.len() == old(self).states@.len(),
            forall|i: int| 0 <= i < old(self).states@.len()
                ==> refreshed(old(self).states@, final(self).states@, *g, i),
            final(self).fail_fast == old(self).fail_fast,
            final(self).failed == old(self).failed,
            final(self).running == old(self).running,
            final(self).capacity == old(self).capacity,
    {
        let ghost orig = self.states@;
        let mut i: usize = 0;
        while i < self.states.len()
            invariant
                graph_wf(*g),
                self.states@.len() == orig.len(),
                orig.len() == g.units@.len(),
                self.running <= self.capacity,
                0 <= i <= orig.len(),
                forall|j: int| i <= j < orig.len() ==> self.states@[j] == orig[j],
                forall|j: int| 0 <= j < i
                    ==> refreshed(orig, self.states@, *g, j),
                self.fail_fast == old(self).fail_fast,
                self.failed == old(self).failed,
                self.running == old(self).running,
                self.capacity == old(self).capacity,
            decreases self.states.len() - i,
        {
            let ghost pre = self.states@;
            proof {
                assert forall|j: int| 0 <= j < orig.len()
                    implies state_evolves(orig[j], #[trigger] self.states@[j]) by {
                    if j < i {
                        assert(refreshed(orig, self.states@, *g, j));
                    } else {
                        assert(self.states@[j] == orig[j]);
                    }
                }
            }
            self.refresh_unit(g, i, Ghost(orig));
            proof {
                assert forall|j: int| 0 <= j < i + 1
                    implies refreshed(orig, self.states@, *g, j) by {
                    if j < i {
                        assert(refreshed(orig, pre, *g, j));
                        assert(forall|k: int| 0 <= k < orig.len() && k != i
                            ==> self.states@[k] == pre[k]);
                    }
                }
            }
            i += 1;
        }
    }

    /// Re-derives the state of unit `i` from its dependencies' states.
    fn refresh_unit(&mut self, g: &UnitGraph, i: usize, Ghost(orig): Ghost<Seq<UnitState>>)
        requires
            graph_wf(*g),
            old(self).states@.len() == orig.len(),
            orig.len() == g.units@.len(),
            i < orig.len(),
            old(self).states@[i as int] == orig[i as int],
            forall|j: int| 0 <= j < orig.len()
                ==> state_evolves(orig[j], #[trigger] old(self).states@[j]),
        ensures
            final(self).states@.len() == orig.len(),
            forall|j: int| 0 <= j < orig.len() && j != i
                ==> final(self).states@[j] == old(self).states@[j],
            refreshed(orig, final(self).states@, *g, i as int),
            final(self).fail_fast == old(self).fail_fast,
            final(self).failed == old(self).failed,
            final(self).running == old(self).running,
            final(self).capacity == old(self).capacity,
    {
        if !matches!(self.states[i], UnitState::Waiting) {
            return;
        }
        let edges = &g.deps[i];
        let mut all_ok = true;
        let mut any_bad = false;
        let mut d: usize = 0;
        while d < edges.len()
            invariant
                graph_wf(*g),
                self.states@.len() == orig.len(),
                orig.len() == g.units@.len(),
                0 <= i < orig.len(),
                edges@ == g.deps@[i as int]@,
                0 <= d <= edges@.len(),
                *self == *old(self),
                forall|j: int| 0 <= j < orig.len()
                    ==> state_evolves(orig[j], #[trigger] self.states@[j]),
                all_ok ==> forall|e: int| 0 <= e < d
                    ==> orig[(#[trigger] edges@[e]).unit_index as int]
                        == UnitState::Finished(true),
                !all_ok ==> exists|e: int| 0 <= e < d
                    && orig[(#[trigger] edges@[e]).unit_index as int]
                        != UnitState::Finished(true),
                any_bad ==> exists|e: int| 0 <= e < d
                    && dep_bad(self.states@[(#[trigger] edges@[e]).unit_index as int]),
                !any_bad ==> forall|e: int| 0 <= e < d
                    ==> !dep_bad(self.states@[(#[trigger] edges@[e]).unit_index as int]),
            decreases edges.len() - d,
        {
            let t = edges[d].unit_index;
            assert(t < i);
            let st = self.states[t];
            proof {
                assert(state_evolves(orig[t as int], self.states@[t as int]));
            }
            match st {
                UnitState::Finished(ok) => {
                    proof {
                        assert(orig[t as int] == UnitState::Finished(ok));
                    }
                    if !ok {
                        any_bad = true;
                        all_ok = false;
                    }
                }
                UnitState::Cancelled => {
                    any_bad = true;
                    all_ok = false;
                }
                _ => {
                    all_ok = false;
                }
            }
            d += 1;
        }
        proof {
            // A unit whose dependencies all finished successfully sees
            // no bad one: finished dependencies keep their state.
            if (forall|e: int| 0 <= e < g.deps@[i as int]@.len()
                ==> orig[(#[trigger] g.deps@[i as int]@[e]).unit_index as int]
                    == UnitState::Finished(true)) {
                assert(all_ok);
                if any_bad {
                    let e = choose|e: int| 0 <= e < g.deps@[i as int]@.len()
                        && dep_bad(self.states@[
                            (#[trigger] g.deps@[i as int]@[e]).unit_index as int]);
                    assert(orig[g.deps@[i as int]@[e].unit_index as int]
                        == UnitState::Finished(true));
                    assert(state_evolves(orig[g.deps@[i as int]@[e].unit_index as int],
                        self.states@[g.deps@[i as int]@[e].unit_index as int]));
                    assert(false);
                }
            }
        }
        if any_bad {
            self.states.set(i, UnitState::Cancelled);
        } else if all_ok {
            self.states.set(i, UnitState::Ready);
        }
    }

    /// The next unit to dispatch: the Ready unit whose package id
    /// orders first by name then version, the lowest index among
    /// order-equal ones, so dispatch is deterministic. After a failure
    /// in fail-fast mode nothing more is dispatched; nothing is
    /// dispatched either without a free worker slot; otherwise a
    /// Ready unit is always dispatched.
    pub fn next_ready(&self, g: &UnitGraph) -> (r: Option<usize>)
        requires
            graph_wf(*g),
            sched_wf(*self, *g),
        ensures
            self.failed && self.fail_fast ==> r is None,
            self.running >= self.capacity ==> r is None,
            !(self.failed && self.fail_fast) && self.running < self.capacity
                && (exists|i: int| 0 <= i < self.states@.len()
                    && (#[trigger] self.states@[i]) is Ready)
                ==> r is Some,
            r matches Some(i) ==> i < self.states@.len()
                && self.states@[i as int] is Ready
                && (forall|j: int| 0 <= j < self.states@.len()
                    && (#[trigger] self.states@[j]) is Ready
                    ==> !spec_pkg_before(g.units@[j].pkg@,
                        g.units@[i as int].pkg@))
                && (forall|j: int| 0 <= j < i
                    && (#[trigger] self.states@[j]) is Ready
                    ==> spec_pkg_before(g.units@[i as int].pkg@,
                        g.units@[j].pkg@)),
    {
        if self.failed && self.fail_fast {
            return None;
        }
        if self.running >= self.capacity {
            return None;
        }
        let mut best: Option<usize> = None;
        let mut i: usize = 0;
        while i < self.states.len()
            invariant
                self.states@.len() == g.units@.len(),
                0 <= i <= self.states@.len(),
                best is None ==> forall|j: int| 0 <= j < i
                    ==> !((#[trigger] self.states@[j]) is Ready),
                best matches Some(b) ==> b < i
                    && self.states@[b as int] is Ready
                    && (forall|j: int| 0 <= j < i
                        && (#[trigger] self.states@[j]) is Ready
                        ==> !spec_pkg_before(g.units@[j].pkg@,
                            g.units@[b as int].pkg@))
                    && (forall|j: int| 0 <= j < b
                        && (#[trigger] self.states@[j]) is Ready
                        ==> spec_pkg_before(g.units@[b as int].pkg@,
                            g.units@[j].pkg@)),
            decreases self.states.len() - i,
        {
            if matches!(self.states[i], UnitState::Ready) {
                proof {
                    lemma_lex_irrefl(crate::buildout::bytes_of(
                        g.units@[i as int].pkg@.name));
                    assert(!spec_pkg_before(g.units@[i as int].pkg@,
                        g.units@[i as int].pkg@));
                }
                match best {
                    None => {
                        best = Some(i);
                    }
                    Some(b) => {
                        if pkg_before(&g.units[i].pkg, &g.units[b].pkg) {
                            proof {
                                // Earlier Ready units do not precede the
                                // old choice, so none precedes, and all
                                // strictly follow, the new one.
                                assert forall|j: int| 0 <= j < i
                                    && (#[trigger] self.states@[j]) is Ready
                                    implies spec_pkg_before(g.units@[i as int].pkg@,
                                        g.units@[j].pkg@) by {
                                    if spec_pkg_before(g.units@[j].pkg@,
                                        g.units@[i as int].pkg@) {
                                        lemma_pkg_before_trans(g.units@[j].pkg@,
                                            g.units@[i as int].pkg@,
                                            g.units@[b as int].pkg@);
                                    } else if !spec_pkg_before(g.units@[i as int].pkg@,
                                        g.units@[j].pkg@) {
                                        // Order-equal keys would make the
                                        // earlier unit precede the old
                                        // choice too, which it does not.
                                        lemma_order_eq_key(g.units@[i as int].pkg@,
                                            g.units@[j].pkg@);
                                        assert(g.units@[j].pkg@.name
                                            == g.units@[i as int].pkg@.name);
                                        assert(spec_pkg_before(g.units@[j].pkg@,
                                            g.units@[b as int].pkg@));
                                        assert(false);
                                    }
                                }
                                // And so none of them precedes the new
                                // choice either.
                                assert forall|j: int| 0 <= j < i
                                    && (#[trigger] self.states@[j]) is Ready
                                    implies !spec_pkg_before(g.units@[j].pkg@,
                                        g.units@[i as int].pkg@) by {
                                    if spec_pkg_before(g.units@[j].pkg@,
                                        g.units@[i as int].pkg@) {
                                        lemma_pkg_before_trans(g.units@[j].pkg@,
                                            g.units@[i as int].pkg@,
                                            g.units@[j].pkg@);
                                        lemma_lex_irrefl(crate::buildout::bytes_of(
                                            g.units@[j].pkg@.name));
                                    }
                                }
                            }
                            best = Some(i);
                        }
                    }
                }
            }
            i += 1;
        }
        proof {
            if best is None {
                assert(forall|j: int| 0 <= j < self.states@.len()
                    ==> !((#[trigger] self.states@[j]) is Ready));
            }
        }
        best
    }

    /// Starts a dispatched unit on a free worker.
    pub fn start(&mut self, i: usize)
        requires
            i < old(self).states@.len(),
            old(self).states@[i as int] is Ready,
            old(self).running < old(self).capacity,
        ensures
            final(self).states@ == old(self).states@.update(i as int,
                UnitState::Running),
            final(self).running == old(self).running + 1,
            final(self).capacity == old(self).capacity,
            final(self).failed == old(self).failed,
            final(self).fail_fast == old(self).fail_fast,
    {
        self.states.set(i, UnitState::Running);
        self.running = self.running + 1;
    }

    /// Records a unit's completion, freeing its worker; a failure
    /// raises the shared failure flag, so in fail-fast mode nothing
    /// new is dispatched afterwards.
    pub fn finish(&mut self, i: usize, ok: bool)
        requires
            i < old(self).states@.len(),
            old(self).states@[i as int] is Running,
            old(self).running >= 1,
        ensures
            final(self).states@ == old(self).states@.update(i as int,
                UnitState::Finished(ok)),
            final(self).running == old(self).running - 1,
            final(self).failed == (old(self).failed || !ok),
            final(self).fail_fast == old(self).fail_fast,
            final(self).capacity == old(self).capacity,
    {
        self.states.set(i, UnitState::Finished(ok));
        self.running = self.running - 1;
        if !ok {
            self.failed = true;
        }
    }

    /// True when no unit can make progress any more.
    pub fn done(&self) -> (r: bool)
        ensures
            r == !(exists|i: int| 0 <= i < self.states@.len()
                && ((#[trigger] self.states@[i]) is Ready
                    || self.states@[i] is Running)),
    {
        let mut i: usize = 0;
        while i < self.states.len()
            invariant
                0 <= i <= self.states@.len(),
                forall|j: int| 0 <= j < i ==> !((#[trigger] self.states@[j]) is Ready
                    || self.states@[j] is Running),
            decreases self.states.len() - i,
        {
            match self.states[i] {
                UnitState::Ready | UnitState::Running => {
                    assert((self.states@[i as int]) is Ready
                        || self.states@[i as int] is Running);
                    return false;
                }
                _ => {}
            }
            i += 1;
        }
        true
    }

    /// The indices of the failed units, ascending.
    pub fn failures(&self) -> (r: Vec<usize>)
        ensures
            forall|k: int| 0 <= k < r@.len()
                ==> (#[trigger] r@[k]) < self.states@.len()
                    && self.states@[r@[k] as int] == UnitState::Finished(false),
            forall|i: int| 0 <= i < self.states@.len()
                && (#[trigger] self.states@[i]) == UnitState::Finished(false)
                ==> exists|k: int| 0 <= k < r@.len() && (#[trigger] r@[k]) == i,
    {
        let mut r: Vec<usize> = Vec::new();
        let mut i: usize = 0;
        while i < self.states.len()
            invariant
                0 <= i <= self.states@.len(),
                forall|k: int| 0 <= k < r@.len()
                    ==> (#[trigger] r@[k]) < self.states@.len()
                        && self.states@[r@[k] as int] == UnitState::Finished(false),
                forall|j: int| 0 <= j < i
                    && (#[trigger] self.states@[j]) == UnitState::Finished(false)
                    ==> exists|k: int| 0 <= k < r@.len() && (#[trigger] r@[k]) == j,
            decreases self.states.len() - i,
        {
            if matches!(self.states[i], UnitState::Finished(false)) {
                let ghost before = r@;
                r.push(i);
                proof {
                    assert(r@[before.len() as int] == i as usize);
                    assert forall|j: int| 0 <= j < i + 1
                        && (#[trigger] self.states@[j]) == UnitState::Finished(false)
                        implies exists|k: int| 0 <= k < r@.len()
                            && (#[trigger] r@[k]) == j by {
                        if j < i {
                            let k = choose|k: int| 0 <= k < before.len()
                                && (#[trigger] before[k]) == j;
                            assert(r@[k] == j);
                        } else {
                            assert(r@[before.len() as int] == j);
                        }
                    }
                }
            }
            i += 1;
        }
        r
    }
}

/// Strict order on package ids for dispatch: by the bytes of the
/// name, then by version.
pub open spec fn spec_pkg_before(a: crate::ident::PackageIdV,
    b: crate::ident::PackageIdV) -> bool {
    lex_lt_bytes(crate::buildout::bytes_of(a.name), crate::buildout::bytes_of(b.name))
        || (a.name == b.name && a.version.spec_lt(b.version))
}

/// Lexicographic strict order on byte sequences.
pub open spec fn lex_lt_bytes(a: Seq<u8>, b: Seq<u8>) -> bool
    decreases a.len(),
{
    if b.len() == 0 {
        false
    } else if a.len() == 0 {
        true
    } else if a[0] != b[0] {
        a[0] < b[0]
    } else {
        lex_lt_bytes(a.drop_first(), b.drop_first())
    }
}

/// The byte order is transitive.
pub proof fn lemma_lex_trans(a: Seq<u8>, b: Seq<u8>, c: Seq<u8>)
    requires
        lex_lt_bytes(a, b),
        lex_lt_bytes(b, c),
    ensures
        lex_lt_bytes(a, c),
    decreases a.len(),
{
    if b.len() == 0 {
    } else if a.len() == 0 {
    } else if c.len() == 0 {
    } else if a[0] != b[0] {
        if b[0] != c[0] {
        } else {
        }
    } else if b[0] != c[0] {
    } else {
        lemma_lex_trans(a.drop_first(), b.drop_first(), c.drop_first());
    }
}

/// Nothing precedes itself in the byte order.
pub proof fn lemma_lex_irrefl(a: Seq<u8>)
    ensures
        !lex_lt_bytes(a, a),
    decreases a.len(),
{
    if a.len() > 0 {
        lemma_lex_irrefl(a.drop_first());
    }
}

/// The byte order is total: unordered sequences are equal.
pub proof fn lemma_lex_total(a: Seq<u8>, b: Seq<u8>)
    requires
        !lex_lt_bytes(a, b),
        !lex_lt_bytes(b, a),
    ensures
        a == b,
    decreases a.len(),
{
    if a.len() == 0 && b.len() == 0 {
        assert(a =~= b);
    } else if a.len() == 0 {
        assert(lex_lt_bytes(a, b));
    } else if b.len() == 0 {
        assert(lex_lt_bytes(b, a));
    } else {
        assert(a[0] == b[0]);
        lemma_lex_total(a.drop_first(), b.drop_first());
        assert(a.drop_first() == b.drop_first());
        assert(a.len() == b.len());
        assert forall|k: int| 0 <= k < a.len() implies a[k] == b[k] by {
            if k > 0 {
                assert(a[k] == a.drop_first()[k - 1]);
                assert(b[k] == b.drop_first()[k - 1]);
            }
        }
        assert(a =~= b);
    }
}

/// Two ids unordered by dispatch order share their order key: equal
/// name bytes and equal version.
pub proof fn lemma_order_eq_key(a: crate::ident::PackageIdV, b: crate::ident::PackageIdV)
    requires
        !spec_pkg_before(a, b),
        !spec_pkg_before(b, a),
    ensures
        a.name == b.name,
        a.version == b.version,
{
    lemma_lex_total(crate::buildout::bytes_of(a.name), crate::buildout::bytes_of(b.name));
    vstd::utf8::encode_utf8_decode_utf8(a.name);
    vstd::utf8::encode_utf8_decode_utf8(b.name);
    assert(a.name == b.name);
    if a.version != b.version {
        assert(a.version.spec_lt(b.version) || b.version.spec_lt(a.version));
    }
}

/// The dispatch order is transitive.
pub proof fn lemma_pkg_before_trans(a: crate::ident::PackageIdV,
    b: crate::ident::PackageIdV, c: crate::ident::PackageIdV)
    requires
        spec_pkg_before(a, b),
        spec_pkg_before(b, c),
    ensures
        spec_pkg_before(a, c),
{
    let ab = crate::buildout::bytes_of(a.name);
    let bb = crate::buildout::bytes_of(b.name);
    let cb = crate::buildout::bytes_of(c.name);
    if lex_lt_bytes(ab, bb) && lex_lt_bytes(bb, cb) {
        lemma_lex_trans(ab, bb, cb);
    } else if lex_lt_bytes(ab, bb) {
        assert(b.name == c.name);
    } else {
        assert(a.name == b.name);
    }
}

proof fn lemma_lex_skip(a: Seq<u8>, b: Seq<u8>, i: int)
    requires
        0 <= i <= a.len(),
        i <= b.len(),
        forall|j: int| 0 <= j < i ==> a[j] == b[j],
    ensures
        lex_lt_bytes(a, b) == lex_lt_bytes(a.skip(i), b.skip(i)),
    decreases i,
{
    if i > 0 {
        assert(a.len() > 0 && b.len() > 0 && a[0] == b[0]);
        lemma_lex_skip(a.drop_first(), b.drop_first(), i - 1);
        assert(a.drop_first().skip(i - 1) =~= a.skip(i));
        assert(b.drop_first().skip(i - 1) =~= b.skip(i));
    } else {
        assert(a.skip(0) =~= a);
        assert(b.skip(0) =~= b);
    }
}

/// Executable dispatch order on package ids.
pub fn pkg_before(a: &PackageId, b: &PackageId) -> (r: bool)
    ensures
        r == spec_pkg_before(a@, b@),
{
    let an = a.name();
    let bn = b.name();
    if lex_lt(an.as_str(), bn.as_str()) {
        true
    } else if crate::text::str_eq(an.as_str(), bn.as_str()) {
        a.version().lt(b.version())
    } else {
        false
    }
}

/// Executable lexicographic order on the bytes of two strings.
fn lex_lt(a: &str, b: &str) -> (r: bool)
    ensures
        r == lex_lt_bytes(crate::buildout::bytes_of(a@), crate::buildout::bytes_of(b@)),
{
    let ab = a.as_bytes();
    let bb = b.as_bytes();
    let mut i: usize = 0;
    while i < ab.len() && i < bb.len()
        invariant
            0 <= i,
            i <= ab@.len(),
            i <= bb@.len(),
            ab@ == crate::buildout::bytes_of(a@),
            bb@ == crate::buildout::bytes_of(b@),
            forall|j: int| 0 <= j < i ==> ab@[j] == bb@[j],
        decreases ab.len() - i,
    {
        if ab[i] != bb[i] {
            proof {
                lemma_lex_skip(ab@, bb@, i as int);
                assert(ab@.skip(i as int)[0] == ab@[i as int]);
                assert(bb@.skip(i as int)[0] == bb@[i as int]);
            }
            return ab[i] < bb[i];
        }
        i += 1;
    }
    proof {
        let n: int = if ab@.len() <= bb@.len() { ab@.len() as int } else {
            bb@.len() as int };
        lemma_lex_skip(ab@, bb@, n);
    }
    ab.len() < bb.len()
}

} // verus!
