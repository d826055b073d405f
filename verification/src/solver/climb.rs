use vstd::prelude::*;

use crate::solver::decomp::MoveKey;

verus! {

/// A move in the lazy climb's queue or parked list: never scored yet (a
/// sentinel), or scored against the plan of the given version.
#[derive(Clone, Copy, Debug, PartialEq, Eq, Structural)]
pub struct QueuedMove {
    pub key: MoveKey,
    pub sentinel: bool,
    pub version: u32,
}

/// What the climb does with the move it takes from the queue.
#[derive(Clone, Copy, Debug, PartialEq, Eq, Structural)]
pub enum PoppedMove {
    /// The move no longer applies to the current plan: forget it.
    Discard,
    /// The move was never scored, or was scored against an older plan: score
    /// it against the current one.
    Rescore,
    /// The move was scored against the current plan, and only moves that beat
    /// the plan are queued so: take it.
    Accept,
}

pub open spec fn popped_move_spec(applies: bool, m: QueuedMove, version: u32) -> PoppedMove {
    if !applies {
        PoppedMove::Discard
    } else if m.sentinel || m.version != version {
        PoppedMove::Rescore
    } else {
        PoppedMove::Accept
    }
}

/// The decision for a popped move, given whether it still applies to the
/// current plan (of version `version`).
pub fn popped_move(applies: bool, m: &QueuedMove, version: u32) -> (d: PoppedMove)
    ensures
        d == popped_move_spec(applies, *m, version),
{
    if !applies {
        PoppedMove::Discard
    } else if m.sentinel || m.version != version {
        PoppedMove::Rescore
    } else {
        PoppedMove::Accept
    }
}

/// A move just scored against the plan of version `version`: the entry to
/// keep, and whether it goes back into the queue (it beats the plan) rather
/// than to the parked list.
pub fn rescored_move(key: MoveKey, version: u32, better: bool) -> (r: (QueuedMove, bool))
    ensures
        r.0 == (QueuedMove { key, sentinel: false, version }),
        r.1 == better,
{
    (QueuedMove { key, sentinel: false, version }, better)
}

/// The climb ends once the node budget is spent or time is up.
pub fn climb_out_of_budget(nodes_searched: u32, node_budget: u32, time_up: bool) -> (stop: bool)
    ensures
        stop == (nodes_searched >= node_budget || time_up),
{
    nodes_searched >= node_budget || time_up
}

/// How many verification sweeps over the parked moves the climb makes, since
/// its last accept, before it settles.
pub const MAX_VERIFICATION_SWEEPS: u32 = 20;

/// The climb's counters: the current plan's version, the accepts so far and
/// the verification sweeps since the last accept.
#[derive(Clone, Copy, Debug, PartialEq, Eq, Structural)]
pub struct ClimbCounters {
    pub version: u32,
    pub accepts: u32,
    pub verification_sweeps: u32,
}

impl ClimbCounters {
    pub fn new() -> (c: Self)
        ensures
            c == (ClimbCounters { version: 0, accepts: 0, verification_sweeps: 0 }),
    {
        ClimbCounters { version: 0, accepts: 0, verification_sweeps: 0 }
    }

    /// Take an accepted move: the plan gets a new version, the accepts grow
    /// by one and the sweeps start over. Returns whether every parked move is
    /// to be queued again (on every fourth accept, or always in quality
    /// mode) rather than only those the move touches.
    pub fn accept(&mut self, quality_mode: bool) -> (full_refresh: bool)
        requires
            old(self).version < u32::MAX,
            old(self).accepts < u32::MAX,
        ensures
            final(self).version == old(self).version + 1,
            final(self).accepts == old(self).accepts + 1,
            final(self).verification_sweeps == 0,
            full_refresh == (quality_mode || (old(self).accepts + 1) % 4 == 0),
    {
        self.version = self.version + 1;
        self.accepts = self.accepts + 1;
        self.verification_sweeps = 0;
        quality_mode || self.accepts % 4 == 0
    }

    /// The queue ran dry: start another sweep over the parked moves (`true`),
    /// unless the sweeps since the last accept are used up (`false`, and
    /// nothing changes): the plan is then a local optimum.
    pub fn start_sweep(&mut self) -> (go: bool)
        ensures
            go == (old(self).verification_sweeps < MAX_VERIFICATION_SWEEPS),
            go ==> *final(self) == (ClimbCounters {
                verification_sweeps: (old(self).verification_sweeps + 1) as u32,
                ..*old(self)
            }),
            !go ==> *final(self) == *old(self),
    {
        if self.verification_sweeps >= MAX_VERIFICATION_SWEEPS {
            false
        } else {
            self.verification_sweeps = self.verification_sweeps + 1;
            true
        }
    }
}

/// The queue and parked list are sound for the plan of version `version`,
/// where `better` holds the moves scored better than that plan: no entry was
/// scored against a later plan, and every queued entry scored against this
/// plan is one of the better moves.
pub open spec fn queue_sound(
    heap: Seq<QueuedMove>,
    parked: Seq<QueuedMove>,
    version: u32,
    better: Set<MoveKey>,
) -> bool {
    &&& forall|i: int| 0 <= i < heap.len() ==> (#[trigger] heap[i]).version <= version
    &&& forall|i: int| 0 <= i < parked.len() ==> (#[trigger] parked[i]).version <= version
    &&& forall|i: int|
        0 <= i < heap.len() && !heap[i].sentinel && heap[i].version == version ==> better.contains(
            (#[trigger] heap[i]).key,
        )
}

/// Law: in a sound queue, a move the climb accepts is one that was scored
/// better than the current plan, so the climb never trades its plan for a
/// worse one.
pub proof fn lemma_sound_queue_accepts_only_better(
    heap: Seq<QueuedMove>,
    parked: Seq<QueuedMove>,
    version: u32,
    better: Set<MoveKey>,
    i: int,
    applies: bool,
)
    requires
        queue_sound(heap, parked, version, better),
        0 <= i < heap.len(),
        popped_move_spec(applies, heap[i], version) == PoppedMove::Accept,
    ensures
        better.contains(heap[i].key),
{
}

/// Law: the queue stays sound when the climb queues a fresh sentinel, drops
/// a popped move, or scores a move against the current plan (queueing it and
/// counting it better exactly when it beats the plan, parking it otherwise).
pub proof fn lemma_queue_sound_kept(
    heap: Seq<QueuedMove>,
    parked: Seq<QueuedMove>,
    version: u32,
    better: Set<MoveKey>,
    key: MoveKey,
    i: int,
    is_better: bool,
)
    requires
        queue_sound(heap, parked, version, better),
        0 <= i < heap.len(),
    ensures
        queue_sound(heap.push(QueuedMove { key, sentinel: true, version }), parked, version, better),
        queue_sound(heap.remove(i), parked, version, better),
        ({
            let m = QueuedMove { key, sentinel: false, version };
            if is_better {
                queue_sound(heap.remove(i).push(m), parked, version, better.insert(key))
            } else {
                queue_sound(heap.remove(i), parked.push(m), version, better)
            }
        }),
{
    let h = heap.remove(i);
    assert forall|k: int| 0 <= k < h.len() implies h[k] == heap[if k < i { k } else { k + 1 }] by {}
}

/// Law: a parked move re-scored in a verification sweep keeps the queue
/// sound: it is queued and counted better when it beats the plan, and stays
/// parked otherwise.
pub proof fn lemma_sweep_keeps_queue_sound(
    heap: Seq<QueuedMove>,
    parked: Seq<QueuedMove>,
    version: u32,
    better: Set<MoveKey>,
    j: int,
    is_better: bool,
)
    requires
        queue_sound(heap, parked, version, better),
        0 <= j < parked.len(),
    ensures
        ({
            let m = QueuedMove { key: parked[j].key, sentinel: false, version };
            if is_better {
                queue_sound(heap.push(m), parked.remove(j), version, better.insert(m.key))
            } else {
                queue_sound(heap, parked.update(j, m), version, better)
            }
        }),
{
    let p = parked.remove(j);
    assert forall|k: int| 0 <= k < p.len() implies p[k] == parked[if k < j { k } else { k + 1 }] by {}
}

/// Law: after an accept the plan has a new version that no entry was scored
/// against, so whatever entries of the old queue and parked list are kept,
/// woken or re-queued, the queue is sound for the new plan with no move yet
/// counted better.
pub proof fn lemma_accept_resets_queue(
    heap: Seq<QueuedMove>,
    parked: Seq<QueuedMove>,
    version: u32,
    better: Set<MoveKey>,
    new_heap: Seq<QueuedMove>,
    new_parked: Seq<QueuedMove>,
)
    requires
        queue_sound(heap, parked, version, better),
        version < u32::MAX,
        forall|k: int| 0 <= k < new_heap.len() ==> heap.contains(#[trigger] new_heap[k]) || parked.contains(new_heap[k]),
        forall|k: int| 0 <= k < new_parked.len() ==> heap.contains(#[trigger] new_parked[k]) || parked.contains(new_parked[k]),
    ensures
        queue_sound(new_heap, new_parked, (version + 1) as u32, Set::empty()),
{
    assert forall|k: int| 0 <= k < new_heap.len() implies (#[trigger] new_heap[k]).version <= version by {
        if heap.contains(new_heap[k]) {
            let a = choose|a: int| 0 <= a < heap.len() && heap[a] == new_heap[k];
            assert(heap[a].version <= version);
        } else {
            let a = choose|a: int| 0 <= a < parked.len() && parked[a] == new_heap[k];
            assert(parked[a].version <= version);
        }
    }
    assert forall|k: int| 0 <= k < new_parked.len() implies (#[trigger] new_parked[k]).version <= version by {
        if heap.contains(new_parked[k]) {
            let a = choose|a: int| 0 <= a < heap.len() && heap[a] == new_parked[k];
            assert(heap[a].version <= version);
        } else {
            let a = choose|a: int| 0 <= a < parked.len() && parked[a] == new_parked[k];
            assert(parked[a].version <= version);
        }
    }
}

} // verus!
