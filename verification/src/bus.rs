//! The [`MessageBus`]: a queue of pending messages and a registry of handlers.

use std::any::TypeId;
use std::collections::VecDeque;

use vstd::prelude::*;

use crate::clock::elapsed_since;
use crate::dispatch::{
    dispatched, drain_count, lemma_dispatched_push, lemma_received_by_push, lemma_tagged_push, lemma_targets_step, received_by,
    outlived, tagged, targets, Reading,
};
use crate::error::BarkerError;
use crate::handler::{Handler, HandlerType, MessageHandler};
use crate::message::{Envelope, Message};

verus! {

/// The identifier that follows `id`: one more, wrapping around after `u64::MAX`.
pub open spec fn following(id: u64) -> u64 {
    if id == u64::MAX {
        0
    } else {
        (id + 1) as u64
    }
}

/// The filters of `registry`, in registration order.
pub open spec fn filters_of<H: ?Sized>(registry: Seq<Handler<H>>) -> Seq<HandlerType> {
    registry.map_values(|h: Handler<H>| h.routing())
}

/// Whether `reading` is what a drain read of `envelope`: the envelope's identifier,
/// the time-to-live its message's [`ttl`](Message::ttl) returned, for a message with
/// a time-to-live the wait that `elapsed_since` measured from the envelope's own
/// timestamp, and, unless the message had expired, the type identifier its
/// [`message_type_id`](Message::message_type_id) returned.
pub open spec fn read_from<M: ?Sized + Message>(reading: Reading, envelope: Envelope<M>) -> bool {
    &&& reading.id == envelope.id
    &&& call_ensures(<M as Message>::ttl, (&*envelope.message,), reading.ttl)
    &&& reading.ttl is Some ==> call_ensures(elapsed_since, (&envelope.timestamp,), reading.waited)
    &&& !reading.expired() ==> call_ensures(
        <M as Message>::message_type_id,
        (&*envelope.message,),
        reading.type_id,
    )
}

/// Whether `handler`'s [`call`](MessageHandler::call) was made with the message of
/// `envelope`.
pub open spec fn was_called<M: ?Sized, H: ?Sized + MessageHandler<M>>(
    handler: Handler<H>,
    envelope: Envelope<M>,
) -> bool {
    call_ensures(<H as MessageHandler<M>>::call, (&*handler.object(), &*envelope.message), ())
}

/// Whether `readings` are what a drain of `drained` read, and every handler of
/// `registry` whose filter admits a message that had not expired was called with it.
pub open spec fn drain_read<M: ?Sized + Message, H: ?Sized + MessageHandler<M>>(
    drained: Seq<Envelope<M>>,
    registry: Seq<Handler<H>>,
    readings: Seq<Reading>,
) -> bool {
    &&& readings.len() == drained.len()
    &&& forall|i: int| 0 <= i < drained.len() ==> read_from(#[trigger] readings[i], drained[i])
    &&& forall|i: int, j: int|
        0 <= i < drained.len() && 0 <= j < registry.len() && !readings[i].expired()
            && registry[j].routing().admits(readings[i].type_id) ==> #[trigger] was_called(
            registry[j],
            drained[i],
        )
}

/// A buffered, synchronous event bus that routes messages to registered handlers.
///
/// - **Buffered send, explicit drain.** [`send`](MessageBus::send) enqueues the message
///   and returns its identifier; no handler runs until
///   [`process_messages`](MessageBus::process_messages) is called.
/// - **Filtering.** A handler registered with `Some(type_id)` fires only for messages
///   whose [`message_type_id`](Message::message_type_id) is `type_id`; one registered
///   with `None` fires for every message.
/// - **Time-to-live.** A message whose [`ttl`](Message::ttl) is `Some(d)` and that has
///   waited longer than `d` when the drain reaches it is skipped.
/// - **Dispatch order.** Messages are drained in the order they were sent, and each
///   is handed to its handlers in the order they were registered.
/// - **Capacity.** A bus made by [`bounded`](MessageBus::bounded) refuses a message
///   while it already holds `capacity` pending ones.
#[verifier::reject_recursive_types(M)]
#[verifier::reject_recursive_types(H)]
pub struct MessageBus<
    M: ?Sized + Message = dyn Message,
    H: ?Sized + MessageHandler<M> = dyn MessageHandler<M>,
> {
    queue: VecDeque<Envelope<M>>,
    capacity: Option<usize>,
    handlers: Vec<Handler<H>>,
    next_message_id: u64,
    calls: Ghost<Seq<(u64, int)>>,
}

impl<M: ?Sized + Message, H: ?Sized + MessageHandler<M>> MessageBus<M, H> {
    /// The pending messages, oldest first.
    pub closed spec fn queued(&self) -> Seq<Envelope<M>> {
        self.queue@
    }

    /// The registered handlers (their objects and filters), in registration order.
    pub closed spec fn registry(&self) -> Seq<Handler<H>> {
        self.handlers@.map_values(|h: Handler<H>| h.bare())
    }

    /// For each registered handler, in registration order, the identifiers of the
    /// messages it has been handed, one per call, in the order of the calls.
    pub closed spec fn records(&self) -> Seq<Seq<u64>> {
        self.handlers@.map_values(|h: Handler<H>| h.received())
    }

    /// The filters of the registered handlers, in registration order.
    pub open spec fn filters(&self) -> Seq<HandlerType> {
        filters_of(self.registry())
    }

    /// The identifier the next [`send`](MessageBus::send) hands out.
    pub closed spec fn next_id(&self) -> u64 {
        self.next_message_id
    }

    /// The most messages the bus holds at once; `None` when it is unbounded.
    pub closed spec fn capacity_limit(&self) -> Option<usize> {
        self.capacity
    }

    /// The record the bus keeps of the handler calls it makes, in order, as
    /// `(message id, handler position)` pairs. That each recorded call was made is
    /// stated by [`process_messages`](MessageBus::process_messages) through
    /// [`was_called`].
    pub closed spec fn handled(&self) -> Seq<(u64, int)> {
        self.calls@
    }

    /// Whether the bus can take one more message.
    pub open spec fn has_room(&self) -> bool {
        match self.capacity_limit() {
            Some(c) => self.queued().len() < c,
            None => true,
        }
    }

    /// Whether the identifiers of the pending messages increase from oldest to newest
    /// and lie below the identifier the next send hands out.
    pub open spec fn ids_increasing(&self) -> bool {
        &&& forall|a: int, b: int|
            0 <= a < b < self.queued().len() ==> #[trigger] self.queued()[a].id
                < #[trigger] self.queued()[b].id
        &&& forall|a: int| 0 <= a < self.queued().len() ==> #[trigger] self.queued()[a].id < self.next_id()
    }

    /// Whether the bus holds no more pending messages than its capacity.
    pub open spec fn within_capacity(&self) -> bool {
        match self.capacity_limit() {
            Some(c) => self.queued().len() <= c,
            None => true,
        }
    }

    /// A bus with no pending messages, no handlers, and no capacity limit.
    pub fn new() -> (bus: Self)
        ensures
            bus.queued() == Seq::<Envelope<M>>::empty(),
            bus.registry() == Seq::<Handler<H>>::empty(),
            bus.records() == Seq::<Seq<u64>>::empty(),
            bus.next_id() == 0,
            bus.capacity_limit() is None,
            bus.handled() == Seq::<(u64, int)>::empty(),
            bus.ids_increasing(),
    {
        let bus = MessageBus {
            queue: VecDeque::new(),
            capacity: None,
            handlers: Vec::new(),
            next_message_id: 0,
            calls: Ghost(Seq::empty()),
        };
        assert(bus.registry() =~= Seq::<Handler<H>>::empty());
        assert(bus.records() =~= Seq::<Seq<u64>>::empty());
        bus
    }

    /// A bus with no pending messages and no handlers that holds at most `capacity`
    /// pending messages: once that many are queued, [`send`](MessageBus::send) fails
    /// until [`process_messages`](MessageBus::process_messages) drains some.
    pub fn bounded(capacity: usize) -> (bus: Self)
        ensures
            bus.queued() == Seq::<Envelope<M>>::empty(),
            bus.registry() == Seq::<Handler<H>>::empty(),
            bus.records() == Seq::<Seq<u64>>::empty(),
            bus.next_id() == 0,
            bus.capacity_limit() == Some(capacity),
            bus.handled() == Seq::<(u64, int)>::empty(),
            bus.ids_increasing(),
    {
        let bus = MessageBus {
            queue: VecDeque::new(),
            capacity: Some(capacity),
            handlers: Vec::new(),
            next_message_id: 0,
            calls: Ghost(Seq::empty()),
        };
        assert(bus.registry() =~= Seq::<Handler<H>>::empty());
        assert(bus.records() =~= Seq::<Seq<u64>>::empty());
        bus
    }

    /// Enqueues `message`, stamped with the current instant, and returns its
    /// identifier; no handler runs.
    ///
    /// Every call takes the next identifier, whether or not the message is taken, so the
    /// identifiers of accepted messages increase from `0` (wrapping after `u64::MAX`).
    ///
    /// # Errors
    ///
    /// [`BarkerError::Send`] when the bus is bounded and already holds `capacity`
    /// pending messages; the message is then dropped.
    pub fn send(&mut self, message: Box<M>) -> (result: Result<u64, BarkerError>)
        ensures
            final(self).next_id() == following(old(self).next_id()),
            final(self).registry() == old(self).registry(),
            final(self).records() == old(self).records(),
            final(self).capacity_limit() == old(self).capacity_limit(),
            final(self).handled() == old(self).handled(),
            old(self).has_room() ==> {
                &&& result == Ok::<u64, BarkerError>(old(self).next_id())
                &&& final(self).queued().len() == old(self).queued().len() + 1
                &&& final(self).queued().drop_last() == old(self).queued()
                &&& final(self).queued().last().id == old(self).next_id()
                &&& final(self).queued().last().message == message
            },
            !old(self).has_room() ==> {
                &&& result == Err::<u64, BarkerError>(BarkerError::Send)
                &&& final(self).queued() == old(self).queued()
            },
            old(self).within_capacity() ==> final(self).within_capacity(),
            old(self).ids_increasing() && old(self).next_id() < u64::MAX
                ==> final(self).ids_increasing(),
    {
        let id = self.next_message_id;
        self.next_message_id = id.wrapping_add(1);
        let room = match self.capacity {
            Some(c) => self.queue.len() < c,
            None => true,
        };
        if !room {
            return Err(BarkerError::Send);
        }
        let envelope = Envelope::wrap(message, id);
        let ghost before = self.queue@;
        self.queue.push_back(envelope);
        assert(self.queued().drop_last() =~= before);
        Ok(id)
    }

    /// Registers `handler` behind the filter `msg_type`: `Some(type_id)` for a typed
    /// handler, `None` for a generic one. Handlers are kept in registration order and
    /// are never removed.
    pub fn register_handler(&mut self, handler: Box<H>, msg_type: Option<TypeId>) -> (result:
        Result<(), BarkerError>)
        ensures
            result is Ok,
            final(self).registry().len() == old(self).registry().len() + 1,
            final(self).registry().drop_last() == old(self).registry(),
            final(self).registry().last().object() == handler,
            final(self).registry().last().routing() == HandlerType::from_filter(msg_type),
            final(self).records() == old(self).records().push(Seq::<u64>::empty()),
            final(self).queued() == old(self).queued(),
            final(self).next_id() == old(self).next_id(),
            final(self).capacity_limit() == old(self).capacity_limit(),
            final(self).handled() == old(self).handled(),
            old(self).ids_increasing() ==> final(self).ids_increasing(),
    {
        let filter = HandlerType::new(msg_type);
        let ghost before = self.handlers@;
        let ghost old_registry = self.registry();
        let ghost old_records = self.records();
        let entry = Handler::new(handler, filter);
        proof {
            entry.lemma_bare();
        }
        self.handlers.push(entry);
        assert(self.registry().drop_last() =~= old_registry);
        assert(self.records() =~= old_records.push(Seq::<u64>::empty()));
        assert(self.queued() == old(self).queued());
        assert(old(self).ids_increasing() ==> self.ids_increasing()) by {
            if old(self).ids_increasing() {
                assert forall|a: int, b: int|
                    0 <= a < b < self.queued().len() implies #[trigger] self.queued()[a].id
                        < #[trigger] self.queued()[b].id by {
                    assert(old(self).queued()[a].id < old(self).queued()[b].id);
                }
                assert forall|a: int| 0 <= a < self.queued().len() implies #[trigger] self.queued()[a].id
                    < self.next_id() by {
                    assert(old(self).queued()[a].id < old(self).next_id());
                }
            }
        }
        Ok(())
    }

    /// Drains at most `limit` pending messages (all of them for `None`), oldest first.
    /// For each it reads [`ttl`](Message::ttl); a message with `Some(d)` that has waited
    /// longer than `d` is skipped. Any other message is handed, by its
    /// [`message_type_id`](Message::message_type_id), to every handler whose filter
    /// admits it, in registration order. Messages beyond `limit` stay queued for a later
    /// call; messages sent meanwhile wait for the next one.
    ///
    /// How long a message waited depends on the time at which the drain reaches it.
    pub fn process_messages(&mut self, limit: Option<usize>) -> (result: Result<(), BarkerError>)
        ensures
            result is Ok,
            final(self).queued() == old(self).queued().skip(
                drain_count(limit, old(self).queued().len()) as int,
            ),
            final(self).registry() == old(self).registry(),
            final(self).next_id() == old(self).next_id(),
            final(self).capacity_limit() == old(self).capacity_limit(),
            exists|readings: Seq<Reading>|
                {
                    &&& #[trigger] drain_read(
                        old(self).queued().take(drain_count(limit, old(self).queued().len()) as int),
                        old(self).registry(),
                        readings,
                    )
                    &&& final(self).handled() == old(self).handled() + dispatched(
                        readings,
                        old(self).filters(),
                    )
                    &&& final(self).records().len() == old(self).records().len()
                    &&& forall|j: int|
                        0 <= j < old(self).records().len() ==> #[trigger] final(self).records()[j]
                            == old(self).records()[j] + received_by(readings, old(self).filters()[j])
                },
            old(self).within_capacity() ==> final(self).within_capacity(),
            old(self).ids_increasing() ==> final(self).ids_increasing(),
    {
        let ghost start_records = self.records();
        let ghost start = self.queued();
        let ghost start_calls = self.handled();
        let ghost registry = self.registry();
        let ghost filters = self.filters();
        let queued = self.queue.len();
        let count = match limit {
            Some(n) => if n < queued { n } else { queued },
            None => queued,
        };
        let ghost n = count as int;
        let mut mail: Vec<Envelope<M>> = Vec::new();
        let mut taken: usize = 0;
        while taken < count
            invariant
                taken <= count,
                count <= start.len(),
                n == count,
                mail@ == start.take(taken as int),
                self.queued() == start.skip(taken as int),
                self.registry() == registry,
                self.records() == start_records,
                self.handled() == start_calls,
                self.next_id() == old(self).next_id(),
                self.capacity_limit() == old(self).capacity_limit(),
            decreases count - taken,
        {
            let ghost before = self.queue@;
            match self.queue.pop_front() {
                Some(envelope) => {
                    mail.push(envelope);
                    assert(self.queued() =~= start.skip(taken + 1));
                    assert(mail@ =~= start.take(taken + 1));
                },
                None => {
                    assert(false);
                },
            }
            taken = taken + 1;
        }
        let ghost drained = start.take(n);
        let ghost mut readings: Seq<Reading> = Seq::empty();
        let mut i: usize = 0;
        while i < mail.len()
            invariant
                i <= mail@.len(),
                mail@ == drained,
                drained.len() == n,
                readings.len() == i,
                self.queued() == start.skip(n),
                self.registry() == registry,
                filters == filters_of(registry),
                self.next_id() == old(self).next_id(),
                self.capacity_limit() == old(self).capacity_limit(),
                self.handled() == start_calls + dispatched(readings, filters),
                self.records().len() == start_records.len(),
                start_records.len() == registry.len(),
                forall|j: int|
                    0 <= j < start_records.len() ==> #[trigger] self.records()[j] == start_records[j]
                        + received_by(readings, filters[j]),
                forall|k: int| 0 <= k < i ==> read_from(#[trigger] readings[k], drained[k]),
                forall|k: int, j: int|
                    0 <= k < i && 0 <= j < registry.len() && !readings[k].expired()
                        && registry[j].routing().admits(readings[k].type_id) ==> #[trigger] was_called(
                        registry[j],
                        drained[k],
                    ),
            decreases mail@.len() - i,
        {
            let envelope = &mail[i];
            let ttl = envelope.message.ttl();
            let ghost mut waited: std::time::Duration = vstd::pervasive::arbitrary();
            let gone = match &ttl {
                Some(d) => {
                    let w = elapsed_since(&envelope.timestamp);
                    proof {
                        waited = w;
                    }
                    outlived(&w, d)
                },
                None => false,
            };
            let ghost mut seen: TypeId = vstd::pervasive::arbitrary();
            if !gone {
                let type_id = envelope.message.message_type_id();
                proof {
                    seen = type_id;
                }
                assert(call_ensures(<M as Message>::message_type_id, (&*envelope.message,), type_id));
                self.deliver(envelope, &type_id, Ghost(registry));
            }
            let ghost r = Reading { id: envelope.id, type_id: seen, ttl, waited };
            assert(r.expired() == gone);
            proof {
                lemma_dispatched_push(readings, r, filters);
                assert forall|j: int| 0 <= j < start_records.len() implies #[trigger] self.records()[j]
                    == start_records[j] + received_by(readings.push(r), filters[j]) by {
                    lemma_received_by_push(readings, r, filters[j]);
                }
                readings = readings.push(r);
            }
            i = i + 1;
        }
        assert(drained =~= start.take(drain_count(limit, start.len()) as int));
        assert(old(self).ids_increasing() ==> self.ids_increasing()) by {
            if old(self).ids_increasing() {
                assert forall|a: int, b: int|
                    0 <= a < b < self.queued().len() implies #[trigger] self.queued()[a].id
                        < #[trigger] self.queued()[b].id by {
                    assert(self.queued()[a] == start[a + n]);
                    assert(self.queued()[b] == start[b + n]);
                }
                assert forall|a: int| 0 <= a < self.queued().len() implies #[trigger] self.queued()[a].id
                    < self.next_id() by {
                    assert(self.queued()[a] == start[a + n]);
                }
            }
        }
        assert(drain_read(drained, registry, readings));
        Ok(())
    }

    /// Hands one drained message to every registered handler whose filter admits
    /// `type_id`, in registration order.
    fn deliver(
        &mut self,
        envelope: &Envelope<M>,
        type_id: &TypeId,
        Ghost(registry): Ghost<Seq<Handler<H>>>,
    )
        requires
            old(self).registry() == registry,
            call_ensures(<M as Message>::message_type_id, (&*envelope.message,), *type_id),
        ensures
            final(self).handled() == old(self).handled() + tagged(
                envelope.id,
                targets(filters_of(registry), *type_id),
            ),
            forall|j: int|
                0 <= j < registry.len() && registry[j].routing().admits(*type_id)
                    ==> #[trigger] was_called(registry[j], *envelope),
            final(self).records().len() == old(self).records().len(),
            forall|j: int|
                0 <= j < old(self).records().len() ==> #[trigger] final(self).records()[j] == (if registry[j].routing().admits(*type_id) {
                    old(self).records()[j].push(envelope.id)
                } else {
                    old(self).records()[j]
                }),
            final(self).queued() == old(self).queued(),
            final(self).registry() == old(self).registry(),
            final(self).next_id() == old(self).next_id(),
            final(self).capacity_limit() == old(self).capacity_limit(),
    {
        let ghost start_calls = self.handled();
        let ghost start_records = self.records();
        let ghost filters = filters_of(registry);
        let ghost t = *type_id;
        let mut j: usize = 0;
        while j < self.handlers.len()
            invariant
                j <= self.handlers@.len(),
                t == *type_id,
                call_ensures(<M as Message>::message_type_id, (&*envelope.message,), t),
                self.handlers@.len() == registry.len(),
                self.registry() == registry,
                start_records.len() == registry.len(),
                filters == filters_of(registry),
                self.queued() == old(self).queued(),
                self.next_id() == old(self).next_id(),
                self.capacity_limit() == old(self).capacity_limit(),
                self.handled() == start_calls + tagged(envelope.id, targets(filters.take(j as int), t)),
                forall|k: int|
                    0 <= k < j && registry[k].routing().admits(t) ==> #[trigger] was_called(
                        registry[k],
                        *envelope,
                    ),
                forall|k: int|
                    0 <= k < registry.len() ==> #[trigger] self.records()[k] == (if k < j
                        && registry[k].routing().admits(t) {
                        start_records[k].push(envelope.id)
                    } else {
                        start_records[k]
                    }),
            decreases self.handlers@.len() - j,
        {
            proof {
                lemma_targets_step(filters, t, j as int);
                self.handlers@[j as int].lemma_bare();
            }
            assert(self.registry()[j as int] == self.handlers@[j as int].bare());
            assert(filters[j as int] == registry[j as int].routing());
            if self.handlers[j].filter().fires(type_id) {
                let ghost before = self.handlers@;
                let ghost before_records = self.records();
                assert(self.handlers@[j as int].routing().admits(t));
                self.handlers[j].deliver(envelope, Ghost(t));
                let ghost earlier = self.calls@;
                proof {
                    before[j as int].lemma_bare();
                    self.calls = Ghost(self.calls@.push((envelope.id, j as int)));
                    lemma_tagged_push(envelope.id, targets(filters.take(j as int), t), j as int);
                    assert(earlier.push((envelope.id, j as int)) =~= start_calls + tagged(
                        envelope.id,
                        targets(filters.take(j as int), t),
                    ).push((envelope.id, j as int)));
                    assert(self.registry() =~= registry);
                    assert forall|k: int| 0 <= k < registry.len() implies #[trigger] self.records()[k]
                        == (if k < j + 1 && registry[k].routing().admits(t) {
                        start_records[k].push(envelope.id)
                    } else {
                        start_records[k]
                    }) by {
                        assert(self.records()[k] == self.handlers@[k].received());
                        assert(before_records[k] == before[k].received());
                        assert(before_records[k] == (if k < j && registry[k].routing().admits(t) {
                            start_records[k].push(envelope.id)
                        } else {
                            start_records[k]
                        }));
                        if k != j {
                            assert(self.handlers@[k] == before[k]);
                        } else {
                            assert(registry[k] == before[k].bare());
                        }
                    }
                }
            }
            j = j + 1;
        }
        assert(filters.take(j as int) =~= filters);
    }
}

impl<M: ?Sized + Message, H: ?Sized + MessageHandler<M>> Default for MessageBus<M, H> {
    /// The same bus as [`MessageBus::new`].
    fn default() -> (bus: Self)
        ensures
            bus.queued() == Seq::<Envelope<M>>::empty(),
            bus.registry() == Seq::<Handler<H>>::empty(),
            bus.records() == Seq::<Seq<u64>>::empty(),
            bus.next_id() == 0,
            bus.capacity_limit() is None,
            bus.handled() == Seq::<(u64, int)>::empty(),
            bus.ids_increasing(),
    {
        Self::new()
    }
}

} // verus!
