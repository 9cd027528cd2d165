//! The [`Message`] trait, the type identifiers that route messages, and the envelope
//! in which a bus keeps a pending message.

use std::any::TypeId;
use std::time::{Duration, Instant};

use vstd::prelude::*;

use crate::clock::current_instant;

verus! {

#[verifier::external_type_specification]
#[verifier::external_body]
pub struct ExTypeId(TypeId);

/// The identifier of the type `T` (`std::any::TypeId::of`).
///
/// Nothing is claimed of the value: it depends on the type argument only, which no
/// spec function of this crate can take.
#[verifier::external_body]
pub fn type_id_of<T: ?Sized + 'static>() -> TypeId {
    TypeId::of::<T>()
}

/// Whether two type identifiers are equal (`TypeId`'s `==`).
///
/// Claims that `==` on `TypeId` holds exactly when the two identifiers are the same
/// value, which std documents as "the same type".
#[verifier::external_body]
pub fn same_type(a: &TypeId, b: &TypeId) -> (same: bool)
    ensures
        same == (*a == *b),
{
    *a == *b
}

/// Any value that can flow through a [`MessageBus`](crate::MessageBus).
///
/// A bus carries messages as `Box<M>` for some `M: ?Sized + Message`, usually a trait
/// object, so that messages of many types share one queue. The methods below carry the
/// routing metadata; all of them have defaults.
pub trait Message where Self: 'static + Send + Sync {
    /// Identifier of the concrete type, used by the bus to route typed handlers.
    ///
    /// Defaults to the `TypeId` of `Self`; it should not normally be overridden.
    fn message_type_id(&self) -> TypeId {
        type_id_of::<Self>()
    }

    /// Priority hint, higher = more important. The bus does not consult it.
    fn priority(&self) -> (priority: u32)
        default_ensures
            priority == 0,
    {
        0
    }

    /// Whether this message should be acknowledged. The bus does not consult it.
    fn requires_ack(&self) -> (ack: bool)
        default_ensures
            !ack,
    {
        false
    }

    /// Time-to-live of the message; `None` means it never expires.
    fn ttl(&self) -> (ttl: Option<Duration>)
        default_ensures
            ttl is None,
    {
        None
    }

    /// Optional category for grouping in user code; the bus does not consult it.
    fn category(&self) -> (category: Option<&str>)
        default_ensures
            category is None,
    {
        None
    }
}

/// A pending message, the instant at which it was sent, and the identifier `send`
/// returned for it.
#[verifier::reject_recursive_types(M)]
pub struct Envelope<M: ?Sized> {
    pub message: Box<M>,
    pub timestamp: Instant,
    pub id: u64,
}

impl<M: ?Sized> Envelope<M> {
    /// Wraps `message` with `id`, stamping it with the current instant.
    pub fn wrap(message: Box<M>, id: u64) -> (envelope: Self)
        ensures
            envelope.message == message,
            envelope.id == id,
    {
        Envelope { message, timestamp: current_instant(), id }
    }
}

} // verus!
