//! The [`MessageHandler`] trait and the routing filter a handler is registered with.

use std::any::TypeId;

use vstd::prelude::*;

use crate::message::{same_type, Envelope, Message};

verus! {

/// A subscriber that reacts to messages drained from a [`MessageBus`](crate::MessageBus).
///
/// `M` is the type the bus carries its messages as, by default `dyn Message`. A handler
/// is registered with a type filter: `Some(type_id)` restricts it to messages whose
/// [`message_type_id`](Message::message_type_id) is `type_id`, while `None` makes it a
/// generic handler that fires for every message.
pub trait MessageHandler<M: ?Sized = dyn Message>: Send + Sync {
    /// Invoked by the bus for every message that matches this handler's type filter.
    fn call(&self, msg: &M);
}

/// The routing filter of a registered handler.
#[derive(Clone, Copy)]
pub enum HandlerType {
    /// Fires for every message.
    Generic,
    /// Fires only for messages whose type identifier is this one.
    Typed(TypeId),
}

impl HandlerType {
    /// The filter a registration with `msg_type` installs.
    pub open spec fn from_filter(msg_type: Option<TypeId>) -> HandlerType {
        match msg_type {
            Some(t) => HandlerType::Typed(t),
            None => HandlerType::Generic,
        }
    }

    /// Whether a handler with this filter fires for a message of type `t`.
    pub open spec fn admits(self, t: TypeId) -> bool {
        match self {
            HandlerType::Generic => true,
            HandlerType::Typed(u) => u == t,
        }
    }

    /// The filter a registration with `msg_type` installs.
    pub fn new(msg_type: Option<TypeId>) -> (filter: HandlerType)
        ensures
            filter == HandlerType::from_filter(msg_type),
    {
        match msg_type {
            Some(t) => HandlerType::Typed(t),
            None => HandlerType::Generic,
        }
    }

    /// Whether a handler with this filter fires for a message of type `t`.
    pub fn fires(&self, t: &TypeId) -> (fires: bool)
        ensures
            fires == self.admits(*t),
    {
        match self {
            HandlerType::Generic => true,
            HandlerType::Typed(u) => same_type(u, t),
        }
    }
}

/// A registered handler, its routing filter, and the record of the messages it was
/// handed.
///
/// The handler object is private to this module: the only way to call it is
/// [`deliver`](Handler::deliver), which requires the filter to admit the message and
/// adds the message's identifier to the record with each call.
#[verifier::reject_recursive_types(H)]
pub struct Handler<H: ?Sized> {
    inner: Box<H>,
    filter: HandlerType,
    received: Ghost<Seq<u64>>,
}

impl<H: ?Sized> Handler<H> {
    /// The handler object.
    pub closed spec fn object(self) -> Box<H> {
        self.inner
    }

    /// The routing filter.
    pub closed spec fn routing(self) -> HandlerType {
        self.filter
    }

    /// The identifiers of the messages the handler was handed, one per call of its
    /// [`call`](MessageHandler::call), in the order of the calls.
    pub closed spec fn received(self) -> Seq<u64> {
        self.received@
    }

    /// The handler without its record: its object and filter only.
    pub closed spec fn bare(self) -> Handler<H> {
        Handler { inner: self.inner, filter: self.filter, received: Ghost(Seq::empty()) }
    }

    /// Leaving out the record keeps the object and the filter.
    pub proof fn lemma_bare(self)
        ensures
            self.bare().object() == self.object(),
            self.bare().routing() == self.routing(),
            self.bare().bare() == self.bare(),
    {
    }

    /// Pairs `inner` with its routing filter; the record starts empty.
    pub fn new(inner: Box<H>, filter: HandlerType) -> (handler: Self)
        ensures
            handler.object() == inner,
            handler.routing() == filter,
            handler.received() == Seq::<u64>::empty(),
    {
        Handler { inner, filter, received: Ghost(Seq::empty()) }
    }

    /// The routing filter.
    pub fn filter(&self) -> (filter: HandlerType)
        ensures
            filter == self.routing(),
    {
        self.filter
    }

    /// Hands the message of `envelope`, whose
    /// [`message_type_id`](Message::message_type_id) returned `t`, to the handler: one
    /// call of its [`call`](MessageHandler::call), and the envelope's identifier added
    /// to the record. The filter must admit `t`.
    pub fn deliver<M: ?Sized + Message>(&mut self, envelope: &Envelope<M>, Ghost(t): Ghost<TypeId>)
        where H: MessageHandler<M>,
        requires
            old(self).routing().admits(t),
            call_ensures(<M as Message>::message_type_id, (&*envelope.message,), t),
        ensures
            call_ensures(<H as MessageHandler<M>>::call, (&*old(self).object(), &*envelope.message), ()),
            final(self).bare() == old(self).bare(),
            final(self).received() == old(self).received().push(envelope.id),
    {
        self.inner.call(&*envelope.message);
        proof {
            self.received = Ghost(self.received@.push(envelope.id));
        }
    }
}

} // verus!
