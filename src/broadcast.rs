//! The periodic coordinator that decides, tick by tick, whether a complete
//! sweep is sent, under which sequence id, and to which connections.

use vstd::prelude::*;
use crate::registry::{first_two, ConnectionRegistry};

verus! {

/// The coordinator's memory between ticks.
pub struct BroadcastCoordinator {
    /// How many connections were ready at the previous tick.
    pub last_ready_count: usize,
    /// The sequence id of the last sweep sent, or zero after a resync.
    pub sequence_counter: u64,
}

/// What one tick decides.
pub enum TickAction {
    /// Fewer than two connections are ready: nothing is generated or sent.
    Wait,
    /// Generate one complete sweep with `sequence_id`, and send portion `p`
    /// of it to `recipients[p]`.
    Broadcast { sequence_id: u64, recipients: Vec<usize> },
}

/// Whether a tick that sees `ready_count` ready connections starts a fresh
/// ready pair, which sets the sequence numbering back to zero.
pub open spec fn resyncs(s: BroadcastCoordinator, ready_count: usize) -> bool {
    ready_count == 2 && s.last_ready_count < 2
}

/// Whether a tick with `ready_count` ready connections sends a sweep.
pub open spec fn sends(ready_count: usize) -> bool {
    ready_count >= 2
}

/// Whether the tick can number its sweep without running out of ids.
pub open spec fn can_tick(s: BroadcastCoordinator, ready_count: usize) -> bool {
    !sends(ready_count) || resyncs(s, ready_count) || s.sequence_counter < u64::MAX
}

/// The coordinator after one tick that saw `ready_count` ready connections.
pub open spec fn step(s: BroadcastCoordinator, ready_count: usize) -> BroadcastCoordinator {
    BroadcastCoordinator {
        last_ready_count: ready_count,
        sequence_counter: if !sends(ready_count) {
            s.sequence_counter
        } else if resyncs(s, ready_count) {
            1
        } else {
            (s.sequence_counter + 1) as u64
        },
    }
}

/// The coordinator after a run of ticks that saw `counts` ready connections.
pub open spec fn run(s: BroadcastCoordinator, counts: Seq<usize>) -> BroadcastCoordinator
    decreases counts.len(),
{
    if counts.len() == 0 {
        s
    } else {
        step(run(s, counts.drop_last()), counts.last())
    }
}

impl BroadcastCoordinator {
    /// A coordinator that has seen no ready connection and sent nothing.
    pub fn new() -> (r: Self)
        ensures
            r.last_ready_count == 0,
            r.sequence_counter == 0,
    {
        BroadcastCoordinator { last_ready_count: 0, sequence_counter: 0 }
    }

    /// Decides one tick from the number of ready connections, and gives the
    /// sequence id of the sweep to send, if any.
    pub fn tick(&mut self, ready_count: usize) -> (r: Option<u64>)
        requires
            can_tick(*old(self), ready_count),
        ensures
            *final(self) == step(*old(self), ready_count),
            r is None <==> !sends(ready_count),
            r matches Some(id) ==> id == final(self).sequence_counter,
    {
        if ready_count == 2 && self.last_ready_count < 2 {
            self.sequence_counter = 0;
        }
        self.last_ready_count = ready_count;
        if ready_count < 2 {
            return None;
        }
        self.sequence_counter = self.sequence_counter + 1;
        Some(self.sequence_counter)
    }

    /// One tick over the registry: counts its ready connections, decides, and
    /// on a send picks the two live ready connections with the lowest ids.
    pub fn on_tick<W>(&mut self, registry: &ConnectionRegistry<W>) -> (r: TickAction)
        requires
            registry.wf(),
            can_tick(*old(self), registry.ready_ids().len() as usize),
        ensures
            *final(self) == step(*old(self), registry.ready_ids().len() as usize),
            r is Wait <==> !sends(registry.ready_ids().len() as usize),
            r matches TickAction::Broadcast { sequence_id, recipients } ==> sequence_id
                == final(self).sequence_counter && recipients@ == first_two(
                registry.live_ready_ids(),
            ),
    {
        let count = registry.ready_count();
        match self.tick(count) {
            None => TickAction::Wait,
            Some(sequence_id) => TickAction::Broadcast {
                sequence_id,
                recipients: registry.recipients(),
            },
        }
    }
}

/// Ends a round: each connection whose send failed is removed, readiness and
/// write handle together, after all sends of the round were tried.
pub fn remove_failed<W>(registry: &mut ConnectionRegistry<W>, failed: &Vec<usize>)
    requires
        old(registry).wf(),
    ensures
        final(registry).wf(),
        final(registry).next_id() == old(registry).next_id(),
        final(registry)@ == old(registry)@.remove_keys(failed@.to_set()),
{
    let mut k: usize = 0;
    while k < failed.len()
        invariant
            registry.wf(),
            registry.next_id() == old(registry).next_id(),
            k <= failed@.len(),
            registry@ == old(registry)@.remove_keys(failed@.subrange(0, k as int).to_set()),
        decreases failed@.len() - k,
    {
        let ghost before = registry@;
        registry.remove(failed[k]);
        proof {
            let done = failed@.subrange(0, k as int);
            let next = failed@.subrange(0, k as int + 1);
            assert(next =~= done.push(failed@[k as int]));
            assert(next.to_set() =~= done.to_set().insert(failed@[k as int])) by {
                done.lemma_push_to_set_commute(failed@[k as int]);
            }
            assert(registry@ =~= old(registry)@.remove_keys(next.to_set()));
        }
        k = k + 1;
    }
    assert(failed@.subrange(0, failed@.len() as int) =~= failed@);
}

/// While the ready count stays at two, each sweep's sequence id is one more
/// than the last one's.
pub proof fn lemma_sequence_increases(s: BroadcastCoordinator)
    requires
        s.last_ready_count == 2,
        s.sequence_counter < u64::MAX,
    ensures
        !resyncs(s, 2),
        step(s, 2).sequence_counter == s.sequence_counter + 1,
        step(s, 2).sequence_counter > s.sequence_counter,
        step(s, 2).last_ready_count == 2,
{
}

/// A tick that brings the ready count from below two to two sets the
/// numbering back to zero, so its sweep is number one whatever came before;
/// a tick that finds two ready and already had two does not.
pub proof fn lemma_resync_on_transition(s: BroadcastCoordinator, ready_count: usize)
    requires
        sends(ready_count),
        can_tick(s, ready_count),
    ensures
        resyncs(s, ready_count) <==> (s.last_ready_count < 2 && ready_count == 2),
        resyncs(s, ready_count) ==> step(s, ready_count).sequence_counter == 1,
        !resyncs(s, ready_count) ==> step(s, ready_count).sequence_counter == s.sequence_counter
            + 1,
{
}

/// Over a run of ticks that starts with fewer than two ready and then sees
/// exactly two ready at every tick, the numbering is reset once, at the
/// first tick, and the sweep of tick `i` is number `i + 1`.
pub proof fn lemma_run_numbering(s: BroadcastCoordinator, counts: Seq<usize>)
    requires
        s.last_ready_count < 2,
        counts.len() >= 1,
        counts.len() < u64::MAX,
        forall|i: int| 0 <= i < counts.len() ==> counts[i] == 2,
    ensures
        forall|i: int|
            0 <= i < counts.len() ==> #[trigger] run(s, counts.subrange(0, i + 1)).sequence_counter
                == i + 1,
        forall|i: int|
            0 <= i < counts.len() ==> (resyncs(run(s, counts.subrange(0, i)), counts[i]) <==> i
                == 0),
    decreases counts.len(),
{
    let n = counts.len() as int;
    if n == 1 {
        let sub = counts.subrange(0, 1);
        assert(counts.subrange(0, 0) =~= Seq::<usize>::empty());
        assert(sub.drop_last() =~= Seq::<usize>::empty());
        assert(run(s, Seq::<usize>::empty()) == s);
        assert(sub.last() == 2);
        assert(run(s, sub) == step(s, 2));
    } else {
        let shorter = counts.drop_last();
        lemma_run_numbering(s, shorter);
        assert forall|i: int| 0 <= i < n implies #[trigger] run(
            s,
            counts.subrange(0, i + 1),
        ).sequence_counter == i + 1 && (resyncs(run(s, counts.subrange(0, i)), counts[i]) <==> i
            == 0) by {
            if i < n - 1 {
                assert(counts.subrange(0, i + 1) =~= shorter.subrange(0, i + 1));
                assert(counts.subrange(0, i) =~= shorter.subrange(0, i));
            } else {
                let sub = counts.subrange(0, i + 1);
                assert(sub.drop_last() =~= shorter.subrange(0, i));
                assert(sub.last() == 2);
                assert(counts.subrange(0, i) =~= shorter.subrange(0, i));
                let prev_counts = shorter.subrange(0, (i - 1) + 1);
                assert(prev_counts =~= shorter.subrange(0, i));
                let prev = run(s, prev_counts);
                assert(prev.sequence_counter == i);
                assert(prev_counts.last() == 2);
                assert(prev.last_ready_count == 2);
                assert(run(s, sub) == step(prev, 2));
            }
        };
    }
}

/// A connection that is not registered, such as one removed after a failed
/// send, is neither counted as ready nor picked as a recipient.
pub proof fn lemma_unregistered_never_sent<W>(registry: &ConnectionRegistry<W>, id: usize)
    requires
        registry.wf(),
        !registry@.contains_key(id),
    ensures
        !registry.ready_ids().contains(id),
        !registry.live_ready_ids().contains(id),
        !first_two(registry.live_ready_ids()).contains(id),
{
    registry.lemma_ready_ids();
    let live = registry.live_ready_ids();
    if first_two(live).contains(id) {
        let j = choose|j: int| 0 <= j < first_two(live).len() && first_two(live)[j] == id;
        assert(live[j] == id);
        assert(live.contains(id));
    }
}

} // verus!
