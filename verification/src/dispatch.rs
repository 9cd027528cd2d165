//! Which handlers a drained message is handed to, and in which order.

use std::any::TypeId;
use std::time::Duration;

use vstd::prelude::*;

use crate::clock::{as_nanos, duration_nanos};
use crate::handler::HandlerType;

verus! {

/// What a drain reads of one message when it reaches it: the identifier `send`
/// returned, the type identifier the message reports, its time-to-live, and the wait
/// the drain measured. The wait comes from the clock; no contract ties it to the
/// instant the message was sent.
#[derive(Clone, Copy)]
pub struct Reading {
    pub id: u64,
    pub type_id: TypeId,
    pub ttl: Option<Duration>,
    pub waited: Duration,
}

impl Reading {
    /// Whether the message had outlived its time-to-live: it has one, and it waited
    /// strictly longer. A message without a time-to-live never expires.
    pub open spec fn expired(self) -> bool {
        match self.ttl {
            Some(d) => duration_nanos(self.waited) > duration_nanos(d),
            None => false,
        }
    }
}

/// The positions, in registration order, of the handlers among `filters` that fire
/// for a message of type `t`.
pub open spec fn targets(filters: Seq<HandlerType>, t: TypeId) -> Seq<int>
    decreases filters.len(),
{
    if filters.len() == 0 {
        seq![]
    } else {
        let earlier = targets(filters.drop_last(), t);
        if filters.last().admits(t) {
            earlier.push(filters.len() - 1)
        } else {
            earlier
        }
    }
}

/// Pairs each of `positions` with the message identifier `id`.
pub open spec fn tagged(id: u64, positions: Seq<int>) -> Seq<(u64, int)> {
    positions.map_values(|j: int| (id, j))
}

/// The handler calls one message causes: one `(message id, handler position)` pair
/// for each handler that fires for it, in registration order.
pub open spec fn calls_for(reading: Reading, filters: Seq<HandlerType>) -> Seq<(u64, int)> {
    tagged(reading.id, targets(filters, reading.type_id))
}

/// The handler calls that draining messages read as `readings` causes, message by
/// message in queue order; a message that had expired is skipped.
pub open spec fn dispatched(readings: Seq<Reading>, filters: Seq<HandlerType>) -> Seq<(u64, int)>
    decreases readings.len(),
{
    if readings.len() == 0 {
        seq![]
    } else {
        let earlier = dispatched(readings.drop_last(), filters);
        if readings.last().expired() {
            earlier
        } else {
            earlier + calls_for(readings.last(), filters)
        }
    }
}

/// The identifiers of the messages that a handler with `filter` is handed by a drain
/// that read its messages as `readings`: those that had not expired and whose type the
/// filter admits, in queue order.
pub open spec fn received_by(readings: Seq<Reading>, filter: HandlerType) -> Seq<u64>
    decreases readings.len(),
{
    if readings.len() == 0 {
        seq![]
    } else {
        let earlier = received_by(readings.drop_last(), filter);
        let r = readings.last();
        if !r.expired() && filter.admits(r.type_id) {
            earlier.push(r.id)
        } else {
            earlier
        }
    }
}

/// Reading one more message hands it to a handler exactly when it had not expired and
/// the handler's filter admits it.
pub proof fn lemma_received_by_push(readings: Seq<Reading>, r: Reading, filter: HandlerType)
    ensures
        received_by(readings.push(r), filter) == if !r.expired() && filter.admits(r.type_id) {
            received_by(readings, filter).push(r.id)
        } else {
            received_by(readings, filter)
        },
{
    assert(readings.push(r).drop_last() =~= readings);
}

/// How many messages a drain with `limit` takes from a queue of `queued` messages.
pub open spec fn drain_count(limit: Option<usize>, queued: nat) -> nat {
    match limit {
        Some(n) => if n < queued { n as nat } else { queued },
        None => queued,
    }
}

/// Tagging one more position adds one more pair.
pub proof fn lemma_tagged_push(id: u64, positions: Seq<int>, j: int)
    ensures
        tagged(id, positions.push(j)) == tagged(id, positions).push((id, j)),
{
    assert(tagged(id, positions.push(j)) =~= tagged(id, positions).push((id, j)));
}

/// Reading one more message adds the calls for it, unless it had expired.
pub proof fn lemma_dispatched_push(readings: Seq<Reading>, r: Reading, filters: Seq<HandlerType>)
    ensures
        dispatched(readings.push(r), filters) == dispatched(readings, filters) + (if r.expired() {
            Seq::<(u64, int)>::empty()
        } else {
            calls_for(r, filters)
        }),
{
    assert(readings.push(r).drop_last() =~= readings);
    if r.expired() {
        assert(dispatched(readings, filters) + Seq::<(u64, int)>::empty() =~= dispatched(
            readings,
            filters,
        ));
    }
}

/// Looking at one more registered handler adds its position when it fires.
pub proof fn lemma_targets_step(filters: Seq<HandlerType>, t: TypeId, j: int)
    requires
        0 <= j < filters.len(),
    ensures
        targets(filters.take(j + 1), t) == if filters[j].admits(t) {
            targets(filters.take(j), t).push(j)
        } else {
            targets(filters.take(j), t)
        },
{
    assert(filters.take(j + 1).drop_last() =~= filters.take(j));
    assert(filters.take(j + 1).last() == filters[j]);
}

/// Whether a message that has waited `elapsed` has outlived a time-to-live of `ttl`:
/// it has when it waited strictly longer.
pub fn outlived(elapsed: &Duration, ttl: &Duration) -> (outlived: bool)
    ensures
        outlived == (duration_nanos(*elapsed) > duration_nanos(*ttl)),
{
    as_nanos(elapsed) > as_nanos(ttl)
}

} // verus!
