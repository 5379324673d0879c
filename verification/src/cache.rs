//! The windowed cache: per-index entry states and the reconciliation pass
//! that evicts entries outside the active window, schedules background
//! decodes for neighbours, and guarantees a realized entry at the current
//! index. The cache owns only the bookkeeping; the caller performs the
//! planned work (decode, upload, join) and aborts on a failed current-index
//! decode, exactly as the plan directs.

use vstd::prelude::*;

verus! {

/// Radius of the active window around the current index.
pub const WINDOW_RADIUS: usize = 2;

/// The lifecycle state of one page index.
#[derive(Clone, Copy, PartialEq, Eq, Structural, Debug)]
pub enum EntryState {
    /// No resource and no worker.
    Absent,
    /// A background decode is in flight and unclaimed.
    Pending,
    /// A display resource is installed and ready to paint.
    Realized,
}

/// What the caller must do for the current index after a reconciliation.
#[derive(Clone, Copy, PartialEq, Eq, Structural, Debug)]
pub enum CurrentAction {
    /// A resource is already installed; nothing to do.
    AlreadyRealized,
    /// A worker was in flight: join it and install its result
    /// (its failure becomes fatal here).
    ClaimPending,
    /// Nothing was in flight: decode synchronously and install
    /// (failure is fatal to the operation).
    DecodeSync,
}

/// The outside work that one reconciliation pass schedules. Eviction and
/// joining come first, then the current index, then the spawns.
pub struct Plan {
    /// Indices whose installed resources must be released, in increasing order.
    pub evict: Vec<usize>,
    /// Indices whose in-flight workers must be joined and their results
    /// discarded (a deferred worker error surfaces here), in increasing order.
    pub join_discard: Vec<usize>,
    /// Indices to start a background decode for, in increasing order.
    pub spawn: Vec<usize>,
    /// How to realize the current index.
    pub current_action: CurrentAction,
}

/// Index `i` lies in the active window around `current`, clamped to the
/// sequence bounds.
pub open spec fn in_window(current: int, len: int, i: int) -> bool {
    &&& 0 <= i < len
    &&& current - WINDOW_RADIUS <= i <= current + WINDOW_RADIUS
}

/// The state an entry moves to in one reconciliation pass.
pub open spec fn step(pre: EntryState, current: int, len: int, i: int) -> EntryState {
    if !in_window(current, len, i) {
        EntryState::Absent
    } else if i == current {
        EntryState::Realized
    } else if pre is Absent {
        EntryState::Pending
    } else {
        pre
    }
}

/// `post` is the entry sequence after one reconciliation pass over `pre`.
pub open spec fn reconciled(pre: Seq<EntryState>, post: Seq<EntryState>, current: int) -> bool {
    &&& post.len() == pre.len()
    &&& forall|i: int| 0 <= i < pre.len() ==> post[i] == step(#[trigger] pre[i], current, pre.len() as int, i)
}

/// `v` lists exactly the indices of `pre` satisfying `picked`, in strictly
/// increasing order.
pub open spec fn lists_exactly(v: Seq<usize>, len: int, picked: spec_fn(int) -> bool) -> bool {
    &&& forall|k: int| 0 <= k < v.len() ==> 0 <= #[trigger] v[k] < len && picked(v[k] as int)
    &&& forall|i: int| 0 <= i < len && #[trigger] picked(i) ==> v.contains(i as usize)
    &&& forall|k1: int, k2: int| 0 <= k1 < k2 < v.len() ==> v[k1] < v[k2]
}

/// An index outside the window holding an installed resource: to evict.
pub open spec fn must_evict(pre: Seq<EntryState>, current: int, i: int) -> bool {
    !in_window(current, pre.len() as int, i) && pre[i] is Realized
}

/// An index outside the window with a worker in flight: to join and discard.
pub open spec fn must_join(pre: Seq<EntryState>, current: int, i: int) -> bool {
    !in_window(current, pre.len() as int, i) && pre[i] is Pending
}

/// A neighbour in the window with neither resource nor worker: to spawn.
pub open spec fn must_spawn(pre: Seq<EntryState>, current: int, i: int) -> bool {
    in_window(current, pre.len() as int, i) && i != current && pre[i] is Absent
}

/// The plan that one reconciliation pass over `pre` produces.
pub open spec fn plan_for(pre: Seq<EntryState>, plan: Plan, current: int) -> bool {
    &&& lists_exactly(plan.evict@, pre.len() as int, |i: int| must_evict(pre, current, i))
    &&& lists_exactly(plan.join_discard@, pre.len() as int, |i: int| must_join(pre, current, i))
    &&& lists_exactly(plan.spawn@, pre.len() as int, |i: int| must_spawn(pre, current, i))
    &&& plan.current_action == (match pre[current] {
        EntryState::Realized => CurrentAction::AlreadyRealized,
        EntryState::Pending => CurrentAction::ClaimPending,
        EntryState::Absent => CurrentAction::DecodeSync,
    })
}

/// The window invariant: an entry is realized or pending exactly on the
/// active window, and the current index is realized.
pub open spec fn window_invariant(entries: Seq<EntryState>, current: int) -> bool {
    &&& forall|i: int| 0 <= i < entries.len() ==> ((#[trigger] entries[i] is Realized
        || entries[i] is Pending) <==> in_window(current, entries.len() as int, i))
    &&& 0 <= current < entries.len()
    &&& entries[current] is Realized
}

/// The per-index cache bookkeeping for one immutable page sequence.
pub struct Cache {
    pub entries: Vec<EntryState>,
}

impl Cache {
    /// A fresh cache: one absent entry per page.
    pub fn new(len: usize) -> (r: Cache)
        ensures
            r.entries@.len() == len,
            forall|i: int| 0 <= i < len ==> r.entries@[i] is Absent,
    {
        let mut entries: Vec<EntryState> = Vec::new();
        let mut i: usize = 0;
        while i < len
            invariant
                0 <= i <= len,
                entries@.len() == i,
                forall|j: int| 0 <= j < i ==> entries@[j] is Absent,
            decreases len - i,
        {
            entries.push(EntryState::Absent);
            i = i + 1;
        }
        Cache { entries }
    }

    /// One reconciliation pass: evictions and joins are listed for every
    /// index that left the window, the current index becomes realized, and
    /// each absent neighbour in the window gets exactly one spawned worker
    /// (never a second one for an index already pending).
    pub fn reconcile(&mut self, current: usize) -> (plan: Plan)
        requires
            current < old(self).entries@.len(),
        ensures
            reconciled(old(self).entries@, final(self).entries@, current as int),
            plan_for(old(self).entries@, plan, current as int),
            window_invariant(final(self).entries@, current as int),
    {
        broadcast use vstd::seq_lib::lemma_seq_contains_after_push;

        let ghost pre = self.entries@;
        let len = self.entries.len();
        let current_action = match self.entries[current] {
            EntryState::Realized => CurrentAction::AlreadyRealized,
            EntryState::Pending => CurrentAction::ClaimPending,
            EntryState::Absent => CurrentAction::DecodeSync,
        };
        let mut evict: Vec<usize> = Vec::new();
        let mut join_discard: Vec<usize> = Vec::new();
        let mut spawn: Vec<usize> = Vec::new();
        let mut i: usize = 0;
        while i < len
            invariant
                0 <= i <= len,
                len == pre.len(),
                current < len,
                self.entries@.len() == len,
                forall|j: int| i <= j < len ==> self.entries@[j] == pre[j],
                forall|j: int|
                    0 <= j < i ==> self.entries@[j] == step(
                        #[trigger] pre[j],
                        current as int,
                        len as int,
                        j,
                    ),
                forall|k: int| 0 <= k < evict@.len() ==> 0 <= #[trigger] evict@[k] < i
                    && must_evict(pre, current as int, evict@[k] as int),
                forall|j: int|
                    0 <= j < i && must_evict(pre, current as int, j) ==> evict@.contains(
                        j as usize,
                    ),
                forall|k1: int, k2: int| 0 <= k1 < k2 < evict@.len() ==> evict@[k1] < evict@[k2],
                forall|k: int| 0 <= k < join_discard@.len() ==> 0 <= #[trigger] join_discard@[k]
                    < i && must_join(pre, current as int, join_discard@[k] as int),
                forall|j: int|
                    0 <= j < i && must_join(pre, current as int, j) ==> join_discard@.contains(
                        j as usize,
                    ),
                forall|k1: int, k2: int|
                    0 <= k1 < k2 < join_discard@.len() ==> join_discard@[k1] < join_discard@[k2],
                forall|k: int| 0 <= k < spawn@.len() ==> 0 <= #[trigger] spawn@[k] < i
                    && must_spawn(pre, current as int, spawn@[k] as int),
                forall|j: int|
                    0 <= j < i && must_spawn(pre, current as int, j) ==> spawn@.contains(
                        j as usize,
                    ),
                forall|k1: int, k2: int| 0 <= k1 < k2 < spawn@.len() ==> spawn@[k1] < spawn@[k2],
            decreases len - i,
        {
            let inside = i < len && (i <= current || i - current <= WINDOW_RADIUS) && (current <= i
                || current - i <= WINDOW_RADIUS);
            proof {
                assert(inside == in_window(current as int, len as int, i as int));
            }
            let st = self.entries[i];
            if !inside {
                match st {
                    EntryState::Realized => {
                        let ghost ev0 = evict@;
                        evict.push(i);
                        proof {
                            assert forall|j: int|
                                0 <= j <= i as int && must_evict(pre, current as int, j)
                                    implies evict@.contains(j as usize) by {
                                if j == i as int {
                                    assert(evict@[ev0.len() as int] == i);
                                } else {
                                    assert(ev0.contains(j as usize));
                                    let k = choose|k: int|
                                        0 <= k < ev0.len() && ev0[k] == j as usize;
                                    assert(evict@[k] == j as usize);
                                }
                            }
                        }
                    },
                    EntryState::Pending => {
                        let ghost jd0 = join_discard@;
                        join_discard.push(i);
                        proof {
                            assert forall|j: int|
                                0 <= j <= i as int && must_join(pre, current as int, j)
                                    implies join_discard@.contains(j as usize) by {
                                if j == i as int {
                                    assert(join_discard@[jd0.len() as int] == i);
                                } else {
                                    assert(jd0.contains(j as usize));
                                    let k = choose|k: int|
                                        0 <= k < jd0.len() && jd0[k] == j as usize;
                                    assert(join_discard@[k] == j as usize);
                                }
                            }
                        }
                    },
                    EntryState::Absent => {},
                }
                self.entries[i] = EntryState::Absent;
            } else if i == current {
                self.entries[i] = EntryState::Realized;
            } else {
                match st {
                    EntryState::Absent => {
                        let ghost sp0 = spawn@;
                        spawn.push(i);
                        self.entries[i] = EntryState::Pending;
                        proof {
                            assert forall|j: int|
                                0 <= j <= i as int && must_spawn(pre, current as int, j)
                                    implies spawn@.contains(j as usize) by {
                                if j == i as int {
                                    assert(spawn@[sp0.len() as int] == i);
                                } else {
                                    assert(sp0.contains(j as usize));
                                    let k = choose|k: int|
                                        0 <= k < sp0.len() && sp0[k] == j as usize;
                                    assert(spawn@[k] == j as usize);
                                }
                            }
                        }
                    },
                    _ => {},
                }
            }
            proof {
                assert(self.entries@[i as int] == step(
                    pre[i as int],
                    current as int,
                    len as int,
                    i as int,
                ));
            }
            i = i + 1;
        }
        let plan = Plan { evict, join_discard, spawn, current_action };
        proof {
            lemma_reconcile_window(pre, self.entries@, plan, current as int);
        }
        plan
    }
}

/// Reconciliation is idempotent: a pass over a state that already satisfies
/// the window invariant for the same `current` changes nothing, schedules no
/// eviction, no join and no spawn, and leaves the current index alone.
/// (Reconciliation never persists the reading position either: persistence
/// is triggered only by navigation.)
pub proof fn lemma_reconcile_idempotent(
    pre: Seq<EntryState>,
    post: Seq<EntryState>,
    plan: Plan,
    current: int,
)
    requires
        window_invariant(pre, current),
        reconciled(pre, post, current),
        plan_for(pre, plan, current),
    ensures
        post =~= pre,
        plan.evict@.len() == 0,
        plan.join_discard@.len() == 0,
        plan.spawn@.len() == 0,
        plan.current_action is AlreadyRealized,
{
    assert forall|i: int| 0 <= i < pre.len() implies post[i] == pre[i] by {
        assert(post[i] == step(pre[i], current, pre.len() as int, i));
    }
    if plan.evict@.len() > 0 {
        let j = plan.evict@[0] as int;
        assert(must_evict(pre, current, j));
        assert(false);
    }
    if plan.join_discard@.len() > 0 {
        let j = plan.join_discard@[0] as int;
        assert(must_join(pre, current, j));
        assert(false);
    }
    if plan.spawn@.len() > 0 {
        let j = plan.spawn@[0] as int;
        assert(must_spawn(pre, current, j));
        assert(false);
    }
}

/// After any reconciliation the realized-or-pending set is exactly the
/// clamped window, no index is both (an entry has one state), the current
/// index is realized, and no spawn is scheduled for an index that already
/// had a pending worker.
pub proof fn lemma_reconcile_window(
    pre: Seq<EntryState>,
    post: Seq<EntryState>,
    plan: Plan,
    current: int,
)
    requires
        0 <= current < pre.len(),
        reconciled(pre, post, current),
        plan_for(pre, plan, current),
    ensures
        window_invariant(post, current),
        forall|k: int| 0 <= k < plan.spawn@.len() ==> !(pre[#[trigger] plan.spawn@[k] as int]
            is Pending),
{
    assert forall|i: int| 0 <= i < post.len() implies ((#[trigger] post[i] is Realized || post[i]
        is Pending) <==> in_window(current, post.len() as int, i)) by {
        assert(post[i] == step(pre[i], current, pre.len() as int, i));
    }
    assert(post[current] == step(pre[current], current, pre.len() as int, current));
    assert forall|k: int| 0 <= k < plan.spawn@.len() implies !(pre[#[trigger] plan.spawn@[k]
        as int] is Pending) by {
        assert(must_spawn(pre, current, plan.spawn@[k] as int));
    }
}

} // verus!
