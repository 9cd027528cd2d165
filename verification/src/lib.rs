//! `barker` is a small, synchronous event bus: anyone can send a message onto a
//! [`MessageBus`]; handlers registered for the message's type (or for every type) run
//! when the bus is drained with [`MessageBus::process_messages`].
//!
//! - **Messages** implement [`Message`]; a bus carries them boxed as some
//!   `M: ?Sized + Message`, by default `dyn Message`, so that messages of many types
//!   share one queue. Choose a trait object of your own (with a downcasting method, say)
//!   to give handlers access to the concrete message. Handlers are boxed as some
//!   `H: ?Sized + MessageHandler<M>`, by default `dyn MessageHandler<M>`.
//! - **Filtering.** A handler registered with `Some(TypeId::of::<T>())` fires only for
//!   messages of type `T`; one registered with `None` fires for every message.
//! - **Buffered send, explicit drain.** Sending only enqueues; handlers run when the bus
//!   is drained, messages in the order they were sent, handlers in the order they were
//!   registered.
//! - **Time-to-live.** A message that has outlived its [`Message::ttl`] when the drain
//!   reaches it is skipped.
//!
//! The functions [`send`], [`register_handler`] and [`process_messages`] act on the bus
//! they are given; an application that wants one process-wide bus keeps it in a
//! static of its own and hands it to them.

use std::any::TypeId;

use vstd::prelude::*;

mod bus;
mod clock;
pub mod dispatch;
pub mod laws;
mod error;
mod handler;
mod message;

pub use bus::{drain_read, filters_of, following, read_from, was_called, MessageBus};
pub use error::{BarkerError, Result};
pub use handler::{Handler, HandlerType, MessageHandler};
pub use message::{Envelope, Message};

use dispatch::{dispatched, drain_count, received_by, Reading};

verus! {

/// Enqueues `message` on `bus`; see [`MessageBus::send`].
pub fn send<M: ?Sized + Message, H: ?Sized + MessageHandler<M>>(
    bus: &mut MessageBus<M, H>,
    message: Box<M>,
) -> (result: Result<u64>)
    ensures
        final(bus).next_id() == following(old(bus).next_id()),
        final(bus).registry() == old(bus).registry(),
        final(bus).records() == old(bus).records(),
        final(bus).capacity_limit() == old(bus).capacity_limit(),
        final(bus).handled() == old(bus).handled(),
        old(bus).has_room() ==> {
            &&& result == Ok::<u64, BarkerError>(old(bus).next_id())
            &&& final(bus).queued().len() == old(bus).queued().len() + 1
            &&& final(bus).queued().drop_last() == old(bus).queued()
            &&& final(bus).queued().last().id == old(bus).next_id()
            &&& final(bus).queued().last().message == message
        },
        !old(bus).has_room() ==> {
            &&& result == Err::<u64, BarkerError>(BarkerError::Send)
            &&& final(bus).queued() == old(bus).queued()
        },
        old(bus).within_capacity() ==> final(bus).within_capacity(),
        old(bus).ids_increasing() && old(bus).next_id() < u64::MAX
            ==> final(bus).ids_increasing(),
{
    bus.send(message)
}

/// Registers `handler` on `bus` behind the filter `msg_type`; see
/// [`MessageBus::register_handler`].
pub fn register_handler<M: ?Sized + Message, H: ?Sized + MessageHandler<M>>(
    bus: &mut MessageBus<M, H>,
    handler: Box<H>,
    msg_type: Option<TypeId>,
) -> (result: Result<()>)
    ensures
        result is Ok,
        final(bus).registry().len() == old(bus).registry().len() + 1,
        final(bus).registry().drop_last() == old(bus).registry(),
        final(bus).registry().last().object() == handler,
        final(bus).registry().last().routing() == HandlerType::from_filter(msg_type),
        final(bus).records() == old(bus).records().push(Seq::<u64>::empty()),
        final(bus).queued() == old(bus).queued(),
        final(bus).next_id() == old(bus).next_id(),
        final(bus).capacity_limit() == old(bus).capacity_limit(),
        final(bus).handled() == old(bus).handled(),
        old(bus).ids_increasing() ==> final(bus).ids_increasing(),
{
    bus.register_handler(handler, msg_type)
}

/// Drains at most `limit` messages from `bus` and dispatches them; see
/// [`MessageBus::process_messages`].
pub fn process_messages<M: ?Sized + Message, H: ?Sized + MessageHandler<M>>(
    bus: &mut MessageBus<M, H>,
    limit: Option<usize>,
) -> (result: Result<()>)
    ensures
        result is Ok,
        final(bus).queued() == old(bus).queued().skip(
            drain_count(limit, old(bus).queued().len()) as int,
        ),
        final(bus).registry() == old(bus).registry(),
        final(bus).next_id() == old(bus).next_id(),
        final(bus).capacity_limit() == old(bus).capacity_limit(),
        exists|readings: Seq<Reading>|
            {
                &&& #[trigger] drain_read(
                    old(bus).queued().take(drain_count(limit, old(bus).queued().len()) as int),
                    old(bus).registry(),
                    readings,
                )
                &&& final(bus).handled() == old(bus).handled() + dispatched(
                    readings,
                    old(bus).filters(),
                )
                &&& final(bus).records().len() == old(bus).records().len()
                &&& forall|j: int|
                    0 <= j < old(bus).records().len() ==> #[trigger] final(bus).records()[j]
                        == old(bus).records()[j] + received_by(readings, old(bus).filters()[j])
            },
        old(bus).within_capacity() ==> final(bus).within_capacity(),
        old(bus).ids_increasing() ==> final(bus).ids_increasing(),
{
    bus.process_messages(limit)
}

} // verus!
