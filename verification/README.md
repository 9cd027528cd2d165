# barker

A small, synchronous event bus, verified with Verus.

Messages are sent onto a `MessageBus` and wait there; handlers run only when the bus
is drained. A handler registered with `Some(TypeId::of::<T>())` fires only for
messages of type `T`, one registered with `None` for every message. A drain takes
messages in the order they were sent, skips those that have outlived their
time-to-live, and hands each remaining message to its handlers in registration order.

## Layout

- `src/` — the verified library.
  - `bus.rs`: `MessageBus<M, H>` (queue, capacity, handler registry, identifiers)
    and the contracts of `new`, `bounded`, `send`, `register_handler`,
    `process_messages`. A drain's contract says what it read of each message (its
    `ttl()` and `message_type_id()`, through `call_ensures`), which messages that
    makes expired, and that each admitting handler's `call` was made with each
    message that had not expired (`was_called`). A handler can be called only
    through `Handler::deliver` (handler.rs), which requires its filter to admit the
    message's type.
  - `dispatch.rs`: the specification of a drain (`Reading`, `targets`, `calls_for`,
    `dispatched`, `drain_count`) and the time-to-live comparison.
  - `laws.rs`: proofs about the record of handler calls a drain keeps (filtering,
    registration order, splitting a drain, skipped messages, the bound on calls) and
    about capacity and identifiers.
  - `message.rs`, `handler.rs`: the `Message` and `MessageHandler` traits and the
    routing filter.
  - `clock.rs`: the clock and `Duration` readings the time-to-live needs.
  - `error.rs`: `BarkerError`.
- `tests/` — tests of the library.
- `app/` — the interface for applications: a `Message` trait with `as_any`
  downcasting and a type name, a `MessageBus` that can be shared by reference, and the
  process-wide bus behind the free functions `send`, `register_handler`,
  `process_messages`.

The bus of the library takes `&mut self`: a shared bus lives behind a lock, as in
`app/`. A handler must not call back into the bus that is running it.
