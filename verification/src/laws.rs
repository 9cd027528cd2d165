//! What holds of every drain, stated over the spec functions that the contracts of
//! [`MessageBus`](crate::MessageBus) use: the record of handler calls a drain keeps
//! (`dispatched`), and what the drain read (`Reading`, `drain_read`).
//!
//! That a handler is actually called only for messages its filter admits is not a law
//! here but a property of the code: a handler object can be called only through
//! [`Handler::deliver`](crate::Handler::deliver), whose precondition is that its filter
//! admits the type the message reported.

use std::any::TypeId;

use vstd::prelude::*;

use crate::bus::{drain_read, following, read_from, was_called, MessageBus};
use crate::clock::{duration_nanos, elapsed_since};
use crate::dispatch::{
    calls_for, dispatched, drain_count, received_by, tagged, targets, Reading,
};
use crate::handler::{Handler, HandlerType, MessageHandler};
use crate::message::{Envelope, Message};

verus! {

/// The record of one message's calls lists a handler exactly when its filter admits
/// the message's type: a typed handler only for messages of its type, a generic one
/// for every message. Each entry carries the message's identifier.
pub proof fn law_filter_decides(message: Reading, filters: Seq<HandlerType>, j: int)
    ensures
        calls_for(message, filters).contains((message.id, j)) <==> (0 <= j < filters.len()
            && filters[j].admits(message.type_id)),
        forall|k: int|
            0 <= k < calls_for(message, filters).len() ==> #[trigger] calls_for(
                message,
                filters,
            )[k].0 == message.id,
{
    lemma_targets_members(filters, message.type_id);
    let positions = targets(filters, message.type_id);
    let calls = calls_for(message, filters);
    assert(calls == tagged(message.id, positions));
    if 0 <= j < filters.len() && filters[j].admits(message.type_id) {
        assert(positions.contains(j));
        let k = choose|k: int| 0 <= k < positions.len() && positions[k] == j;
        assert(calls[k] == (message.id, j));
        assert(calls.contains((message.id, j)));
    }
    if calls.contains((message.id, j)) {
        let k = choose|k: int| 0 <= k < calls.len() && calls[k] == (message.id, j);
        assert(positions[k] == j);
        assert(positions.contains(j));
    }
}

/// The record of a message's calls lists every generic handler (one registered with
/// `None`).
pub proof fn law_generic_handler_sees_every_message(
    message: Reading,
    filters: Seq<HandlerType>,
    j: int,
)
    requires
        0 <= j < filters.len(),
        filters[j] == HandlerType::Generic,
    ensures
        calls_for(message, filters).contains((message.id, j)),
{
    law_filter_decides(message, filters, j);
}

/// The record of a message's calls never lists a typed handler of another type.
pub proof fn law_typed_handler_sees_only_its_type(
    message: Reading,
    filters: Seq<HandlerType>,
    j: int,
    t: TypeId,
)
    requires
        0 <= j < filters.len(),
        filters[j] == HandlerType::Typed(t),
        message.type_id != t,
    ensures
        !calls_for(message, filters).contains((message.id, j)),
{
    law_filter_decides(message, filters, j);
}

/// The record of one message's calls lists its handlers in registration order, each
/// at most once.
pub proof fn law_registration_order(message: Reading, filters: Seq<HandlerType>)
    ensures
        forall|a: int, b: int|
            0 <= a < b < calls_for(message, filters).len() ==> #[trigger] calls_for(
                message,
                filters,
            )[a].1 < #[trigger] calls_for(message, filters)[b].1,
{
    lemma_targets_members(filters, message.type_id);
}

/// Draining a queue in two parts, the first `k` messages and then the rest, records
/// the same calls in the same order as draining it at once, for the same readings.
pub proof fn law_split_drain(readings: Seq<Reading>, filters: Seq<HandlerType>, k: int)
    requires
        0 <= k <= readings.len(),
    ensures
        dispatched(readings, filters) == dispatched(readings.take(k), filters) + dispatched(
            readings.skip(k),
            filters,
        ),
    decreases readings.len(),
{
    if k == readings.len() {
        assert(readings.take(k) =~= readings);
        assert(readings.skip(k) =~= Seq::<Reading>::empty());
        assert(dispatched(readings, filters) + Seq::<(u64, int)>::empty() =~= dispatched(
            readings,
            filters,
        ));
    } else {
        let last = readings.len() - 1;
        law_split_drain(readings.drop_last(), filters, k);
        assert(readings.drop_last().take(k) =~= readings.take(k));
        assert(readings.skip(k).drop_last() =~= readings.drop_last().skip(k));
        assert(readings.skip(k).last() == readings.last());
        let a = dispatched(readings.take(k), filters);
        let b = dispatched(readings.drop_last().skip(k), filters);
        if !readings.last().expired() {
            assert(a + b + calls_for(readings.last(), filters) =~= a + (b + calls_for(
                readings.last(),
                filters,
            )));
        }
    }
}

/// Two drains one after the other read their messages as one drain of both parts
/// would: what the first read of the first part and the second of the rest, together,
/// is a reading of the whole.
pub proof fn law_consecutive_drains_read_as_one<M: ?Sized + Message, H: ?Sized + MessageHandler<M>>(
    first: Seq<Envelope<M>>,
    rest: Seq<Envelope<M>>,
    registry: Seq<Handler<H>>,
    first_readings: Seq<Reading>,
    rest_readings: Seq<Reading>,
)
    requires
        drain_read(first, registry, first_readings),
        drain_read(rest, registry, rest_readings),
    ensures
        drain_read(first + rest, registry, first_readings + rest_readings),
{
    let all = first + rest;
    let readings = first_readings + rest_readings;
    assert forall|i: int| 0 <= i < all.len() implies read_from(#[trigger] readings[i], all[i]) by {
        if i < first.len() {
            assert(read_from(first_readings[i], first[i]));
        } else {
            assert(read_from(rest_readings[i - first.len()], rest[i - first.len()]));
        }
    }
    assert forall|i: int, j: int|
        0 <= i < all.len() && 0 <= j < registry.len() && !readings[i].expired()
            && registry[j].routing().admits(readings[i].type_id) implies #[trigger] was_called(
        registry[j],
        all[i],
    ) by {
        if i < first.len() {
            assert(readings[i] == first_readings[i]);
            assert(was_called(registry[j], first[i]));
        } else {
            assert(readings[i] == rest_readings[i - first.len()]);
            assert(was_called(registry[j], rest[i - first.len()]));
        }
    }
}

/// A message without a time-to-live is never skipped.
pub proof fn law_no_ttl_never_expires(reading: Reading)
    requires
        reading.ttl is None,
    ensures
        !reading.expired(),
{
}

/// The record of a drain lists, for every message that had not expired, every handler
/// whose filter admits it.
pub proof fn law_unexpired_message_reaches_admitting_handlers(
    readings: Seq<Reading>,
    filters: Seq<HandlerType>,
    i: int,
    j: int,
)
    requires
        0 <= i < readings.len(),
        0 <= j < filters.len(),
        !readings[i].expired(),
        filters[j].admits(readings[i].type_id),
    ensures
        dispatched(readings, filters).contains((readings[i].id, j)),
    decreases readings.len(),
{
    let last = readings.len() - 1;
    let earlier = dispatched(readings.drop_last(), filters);
    let calls = dispatched(readings, filters);
    if i < last {
        assert(readings.drop_last()[i] == readings[i]);
        law_unexpired_message_reaches_admitting_handlers(readings.drop_last(), filters, i, j);
        let k = choose|k: int| 0 <= k < earlier.len() && earlier[k] == (readings[i].id, j);
        assert(calls[k] == earlier[k]);
    } else {
        law_filter_decides(readings[i], filters, j);
        let own = calls_for(readings[i], filters);
        let k = choose|k: int| 0 <= k < own.len() && own[k] == (readings[i].id, j);
        assert(calls[earlier.len() + k] == own[k]);
    }
}

/// A message that had expired when the drain reached it appears in no entry of the
/// record, when the drained identifiers are distinct.
pub proof fn law_expired_message_is_skipped(
    readings: Seq<Reading>,
    filters: Seq<HandlerType>,
    i: int,
)
    requires
        0 <= i < readings.len(),
        readings[i].expired(),
        forall|a: int, b: int|
            0 <= a < b < readings.len() ==> #[trigger] readings[a].id != #[trigger] readings[b].id,
    ensures
        forall|k: int|
            0 <= k < dispatched(readings, filters).len() ==> #[trigger] dispatched(
                readings,
                filters,
            )[k].0 != readings[i].id,
    decreases readings.len(),
{
    let last = readings.len() - 1;
    let calls = dispatched(readings, filters);
    let earlier = dispatched(readings.drop_last(), filters);
    if i < last {
        assert(readings.drop_last()[i] == readings[i]);
        law_expired_message_is_skipped(readings.drop_last(), filters, i);
        if !readings.last().expired() {
            law_filter_decides(readings.last(), filters, 0);
            assert forall|k: int| 0 <= k < calls.len() implies #[trigger] calls[k].0
                != readings[i].id by {
                if k >= earlier.len() {
                    assert(calls[k] == calls_for(readings.last(), filters)[k - earlier.len()]);
                } else {
                    assert(calls[k] == earlier[k]);
                }
            }
        }
    } else {
        lemma_only_drained_ids(readings.drop_last(), filters, readings[i].id);
    }
}

/// On a bus whose pending identifiers increase, as every bus's do until its counter
/// wraps, a message a drain found expired appears in no entry of the drain's record
/// of handler calls.
pub proof fn law_drain_skips_expired_messages<M: ?Sized + Message, H: ?Sized + MessageHandler<M>>(
    bus: MessageBus<M, H>,
    n: int,
    readings: Seq<Reading>,
    i: int,
)
    requires
        bus.ids_increasing(),
        0 <= n <= bus.queued().len(),
        drain_read(bus.queued().take(n), bus.registry(), readings),
        0 <= i < n,
        readings[i].expired(),
    ensures
        forall|k: int|
            0 <= k < dispatched(readings, bus.filters()).len() ==> #[trigger] dispatched(
                readings,
                bus.filters(),
            )[k].0 != readings[i].id,
{
    let drained = bus.queued().take(n);
    assert forall|a: int, b: int| 0 <= a < b < readings.len() implies #[trigger] readings[a].id
        != #[trigger] readings[b].id by {
        assert(read_from(readings[a], drained[a]));
        assert(read_from(readings[b], drained[b]));
        assert(bus.queued()[a].id < bus.queued()[b].id);
    }
    law_expired_message_is_skipped(readings, bus.filters(), i);
}

/// Two drains one after the other add to the record of handler calls what one drain
/// of both parts, read the same way, would add.
pub proof fn law_two_drains_record_as_one(
    start: Seq<(u64, int)>,
    middle: Seq<(u64, int)>,
    end: Seq<(u64, int)>,
    first: Seq<Reading>,
    rest: Seq<Reading>,
    filters: Seq<HandlerType>,
)
    requires
        middle == start + dispatched(first, filters),
        end == middle + dispatched(rest, filters),
    ensures
        end == start + dispatched(first + rest, filters),
{
    let all = first + rest;
    law_split_drain(all, filters, first.len() as int);
    assert(all.take(first.len() as int) =~= first);
    assert(all.skip(first.len() as int) =~= rest);
    assert(start + dispatched(first, filters) + dispatched(rest, filters) =~= start + (dispatched(
        first,
        filters,
    ) + dispatched(rest, filters)));
}

/// The record stays empty when no handler is registered.
pub proof fn law_no_handlers_no_calls(readings: Seq<Reading>)
    ensures
        dispatched(readings, Seq::<HandlerType>::empty()) == Seq::<(u64, int)>::empty(),
    decreases readings.len(),
{
    if readings.len() > 0 {
        law_no_handlers_no_calls(readings.drop_last());
        assert(targets(Seq::<HandlerType>::empty(), readings.last().type_id) == Seq::<int>::empty());
        assert(Seq::<(u64, int)>::empty() + tagged(readings.last().id, Seq::<int>::empty())
            =~= Seq::<(u64, int)>::empty());
    }
}

/// A drain with `limit = Some(n)` takes at most `n` messages, and fewer only when
/// fewer are queued: it takes `n` of them or all of them.
pub proof fn law_limited_drain_takes_at_most_limit(n: usize, queued: nat)
    ensures
        drain_count(Some(n), queued) <= n,
        drain_count(Some(n), queued) <= queued,
        drain_count(Some(n), queued) == n || drain_count(Some(n), queued) == queued,
{
}

/// After a drain with `limit = Some(n)`, the bus holds the messages beyond the first
/// `n`, in the same order: it removed `n` messages, or all of them when fewer were
/// queued.
pub proof fn law_limited_drain_leaves_the_rest<M: ?Sized + Message, H: ?Sized + MessageHandler<M>>(
    before: MessageBus<M, H>,
    after: MessageBus<M, H>,
    n: usize,
)
    requires
        after.queued() == before.queued().skip(drain_count(Some(n), before.queued().len()) as int),
    ensures
        before.queued().len() - after.queued().len() <= n,
        n <= before.queued().len() ==> after.queued().len() == before.queued().len() - n,
        n >= before.queued().len() ==> after.queued().len() == 0,
        forall|k: int|
            0 <= k < after.queued().len() ==> #[trigger] after.queued()[k] == before.queued()[k
                + before.queued().len() - after.queued().len()],
{
}

/// A bounded bus takes a message exactly while it holds fewer pending messages than
/// its capacity; an unbounded bus always takes one.
pub proof fn law_room_is_capacity<M: ?Sized + Message, H: ?Sized + MessageHandler<M>>(
    bus: MessageBus<M, H>,
)
    ensures
        bus.capacity_limit() is None ==> bus.has_room(),
        forall|c: usize|
            bus.capacity_limit() == Some(c) ==> (bus.has_room() <==> bus.queued().len() < c),
{
}

/// A drain decides that a message with a time-to-live `d` expired exactly when the
/// wait measured from that message's own timestamp, by `elapsed_since`, exceeds `d`.
pub proof fn law_expiry_measured_from_own_timestamp<
    M: ?Sized + Message,
    H: ?Sized + MessageHandler<M>,
>(
    drained: Seq<Envelope<M>>,
    registry: Seq<Handler<H>>,
    readings: Seq<Reading>,
    i: int,
    d: std::time::Duration,
)
    requires
        drain_read(drained, registry, readings),
        0 <= i < drained.len(),
        readings[i].ttl == Some(d),
    ensures
        call_ensures(elapsed_since, (&drained[i].timestamp,), readings[i].waited),
        readings[i].expired() <==> duration_nanos(readings[i].waited) > duration_nanos(d),
        call_ensures(<M as Message>::ttl, (&*drained[i].message,), Some(d)),
{
    assert(read_from(readings[i], drained[i]));
}

/// When the drained identifiers increase in queue order, a handler is handed its
/// messages in queue order, each at most once.
pub proof fn law_handler_receives_in_queue_order(readings: Seq<Reading>, filter: HandlerType)
    requires
        forall|a: int, b: int|
            0 <= a < b < readings.len() ==> #[trigger] readings[a].id < #[trigger] readings[b].id,
    ensures
        forall|a: int, b: int|
            0 <= a < b < received_by(readings, filter).len() ==> #[trigger] received_by(
                readings,
                filter,
            )[a] < #[trigger] received_by(readings, filter)[b],
        forall|k: int|
            0 <= k < received_by(readings, filter).len() ==> exists|i: int|
                0 <= i < readings.len() && #[trigger] received_by(readings, filter)[k]
                    == readings[i].id,
    decreases readings.len(),
{
    if readings.len() > 0 {
        let rest = readings.drop_last();
        assert forall|a: int, b: int| 0 <= a < b < rest.len() implies #[trigger] rest[a].id
            < #[trigger] rest[b].id by {
            assert(rest[a] == readings[a]);
            assert(rest[b] == readings[b]);
        }
        law_handler_receives_in_queue_order(rest, filter);
        let earlier = received_by(rest, filter);
        let got = received_by(readings, filter);
        let last = readings.len() - 1;
        assert forall|k: int| 0 <= k < earlier.len() implies earlier[k] < readings[last].id by {
            let i = choose|i: int| 0 <= i < rest.len() && earlier[k] == rest[i].id;
            assert(rest[i] == readings[i]);
        }
        assert forall|k: int| 0 <= k < got.len() implies exists|i: int|
            0 <= i < readings.len() && #[trigger] got[k] == readings[i].id by {
            if k < earlier.len() {
                let i = choose|i: int| 0 <= i < rest.len() && earlier[k] == rest[i].id;
                assert(rest[i] == readings[i]);
                assert(got[k] == earlier[k]);
            } else {
                assert(got[k] == readings[last].id);
            }
        }
    }
}

/// A handler is handed every message that had not expired and whose type its filter
/// admits.
pub proof fn law_handler_receives_every_admitted_message(
    readings: Seq<Reading>,
    filter: HandlerType,
    i: int,
)
    requires
        0 <= i < readings.len(),
        !readings[i].expired(),
        filter.admits(readings[i].type_id),
    ensures
        received_by(readings, filter).contains(readings[i].id),
    decreases readings.len(),
{
    let last = readings.len() - 1;
    if i < last {
        assert(readings.drop_last()[i] == readings[i]);
        law_handler_receives_every_admitted_message(readings.drop_last(), filter, i);
        let earlier = received_by(readings.drop_last(), filter);
        let k = choose|k: int| 0 <= k < earlier.len() && earlier[k] == readings[i].id;
        assert(received_by(readings, filter)[k] == earlier[k]);
    } else {
        let got = received_by(readings, filter);
        assert(got[got.len() - 1] == readings[i].id);
    }
}

/// On a bus whose pending identifiers increase, every handler is handed the messages
/// of a drain in queue order, each at most once.
pub proof fn law_drain_hands_each_handler_its_messages_in_order<
    M: ?Sized + Message,
    H: ?Sized + MessageHandler<M>,
>(bus: MessageBus<M, H>, n: int, readings: Seq<Reading>, filter: HandlerType)
    requires
        bus.ids_increasing(),
        0 <= n <= bus.queued().len(),
        drain_read(bus.queued().take(n), bus.registry(), readings),
    ensures
        forall|a: int, b: int|
            0 <= a < b < received_by(readings, filter).len() ==> #[trigger] received_by(
                readings,
                filter,
            )[a] < #[trigger] received_by(readings, filter)[b],
{
    let drained = bus.queued().take(n);
    assert forall|a: int, b: int| 0 <= a < b < readings.len() implies #[trigger] readings[a].id
        < #[trigger] readings[b].id by {
        assert(read_from(readings[a], drained[a]));
        assert(read_from(readings[b], drained[b]));
        assert(bus.queued()[a].id < bus.queued()[b].id);
    }
    law_handler_receives_in_queue_order(readings, filter);
}

/// A drain without a limit takes every pending message.
pub proof fn law_unlimited_drain_takes_all<T>(pending: Seq<T>)
    ensures
        drain_count(None, pending.len()) == pending.len(),
        pending.skip(drain_count(None, pending.len()) as int) == Seq::<T>::empty(),
        pending.take(drain_count(None, pending.len()) as int) == pending,
{
    assert(pending.skip(pending.len() as int) =~= Seq::<T>::empty());
    assert(pending.take(pending.len() as int) =~= pending);
}

/// A drain records at most one call per drained message and registered handler.
pub proof fn law_calls_per_drain_bounded(readings: Seq<Reading>, filters: Seq<HandlerType>)
    ensures
        dispatched(readings, filters).len() <= readings.len() * filters.len(),
    decreases readings.len(),
{
    if readings.len() > 0 {
        law_calls_per_drain_bounded(readings.drop_last(), filters);
        lemma_targets_members(filters, readings.last().type_id);
        lemma_targets_len(filters, readings.last().type_id);
        let n = readings.len();
        let m = filters.len();
        assert((n - 1) * m + m == n * m) by (nonlinear_arith);
    }
}

/// Each send hands out a larger identifier than the one before, until the counter
/// wraps after `u64::MAX`.
pub proof fn law_ids_increase(id: u64)
    requires
        id < u64::MAX,
    ensures
        following(id) > id,
{
}

/// After a drain without a limit, a bounded bus of positive capacity takes a message
/// again.
pub proof fn law_full_drain_makes_room<M: ?Sized + Message, H: ?Sized + MessageHandler<M>>(
    before: MessageBus<M, H>,
    after: MessageBus<M, H>,
)
    requires
        after.queued() == before.queued().skip(
            drain_count(None, before.queued().len()) as int,
        ),
        after.capacity_limit() == before.capacity_limit(),
        before.capacity_limit() != Some(0usize),
    ensures
        after.has_room(),
{
    assert(after.queued().len() == 0);
}

/// The positions `targets` lists are exactly the admitting ones, strictly increasing.
proof fn lemma_targets_members(filters: Seq<HandlerType>, t: TypeId)
    ensures
        forall|j: int|
            targets(filters, t).contains(j) <==> (0 <= j < filters.len() && filters[j].admits(t)),
        forall|a: int, b: int|
            0 <= a < b < targets(filters, t).len() ==> #[trigger] targets(filters, t)[a]
                < #[trigger] targets(filters, t)[b],
        forall|a: int|
            0 <= a < targets(filters, t).len() ==> 0 <= #[trigger] targets(filters, t)[a]
                < filters.len(),
    decreases filters.len(),
{
    if filters.len() > 0 {
        let rest = filters.drop_last();
        lemma_targets_members(rest, t);
        let last = filters.len() - 1;
        assert forall|j: int| 0 <= j < rest.len() implies rest[j] == filters[j] by {}
        let positions = targets(filters, t);
        if filters.last().admits(t) {
            assert(positions == targets(rest, t).push(last));
            let earlier = targets(rest, t);
            assert forall|j: int|
                positions.contains(j) <==> (0 <= j < filters.len() && filters[j].admits(t)) by {
                assert(earlier.contains(j) <==> (0 <= j < rest.len() && rest[j].admits(t)));
                if 0 <= j < last {
                    assert(rest[j] == filters[j]);
                }
                assert(filters.last() == filters[last]);
                if positions.contains(j) {
                    let k = choose|k: int| 0 <= k < positions.len() && positions[k] == j;
                    if k < earlier.len() {
                        assert(earlier[k] == j);
                        assert(earlier.contains(j));
                    }
                }
                if 0 <= j < last && filters[j].admits(t) {
                    let k = choose|k: int| 0 <= k < earlier.len() && earlier[k] == j;
                    assert(positions[k] == j);
                }
                if j == last {
                    assert(positions[positions.len() - 1] == last);
                }
            }
        } else {
            assert(positions == targets(rest, t));
            assert forall|j: int|
                positions.contains(j) <==> (0 <= j < filters.len() && filters[j].admits(t)) by {
                assert(targets(rest, t).contains(j) <==> (0 <= j < rest.len() && rest[j].admits(t)));
                if 0 <= j < last {
                    assert(rest[j] == filters[j]);
                }
                assert(filters.last() == filters[last]);
            }
        }
    }
}

/// No more positions than filters fire.
proof fn lemma_targets_len(filters: Seq<HandlerType>, t: TypeId)
    ensures
        targets(filters, t).len() <= filters.len(),
    decreases filters.len(),
{
    if filters.len() > 0 {
        lemma_targets_len(filters.drop_last(), t);
    }
}

/// Every entry a drain records carries the identifier of one of the drained messages.
proof fn lemma_only_drained_ids(readings: Seq<Reading>, filters: Seq<HandlerType>, id: u64)
    requires
        forall|a: int| 0 <= a < readings.len() ==> #[trigger] readings[a].id != id,
    ensures
        forall|k: int|
            0 <= k < dispatched(readings, filters).len() ==> #[trigger] dispatched(
                readings,
                filters,
            )[k].0 != id,
    decreases readings.len(),
{
    if readings.len() > 0 {
        let last = readings.len() - 1;
        assert forall|a: int| 0 <= a < readings.drop_last().len() implies #[trigger] readings.drop_last()[a].id != id by {
            assert(readings.drop_last()[a] == readings[a]);
        }
        lemma_only_drained_ids(readings.drop_last(), filters, id);
        let calls = dispatched(readings, filters);
        let earlier = dispatched(readings.drop_last(), filters);
        if !readings.last().expired() {
            law_filter_decides(readings.last(), filters, 0);
            assert forall|k: int| 0 <= k < calls.len() implies #[trigger] calls[k].0 != id by {
                if k >= earlier.len() {
                    assert(calls[k] == calls_for(readings.last(), filters)[k - earlier.len()]);
                } else {
                    assert(calls[k] == earlier[k]);
                }
            }
        }
    }
}

} // verus!
