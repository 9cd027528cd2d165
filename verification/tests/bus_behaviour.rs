//! Identifiers, capacity, limits, ordering and routing details of the bus.

use std::any::{Any, TypeId};
use std::sync::atomic::{AtomicUsize, Ordering};
use std::sync::{Arc, Mutex};
use std::time::Duration;

use barker::dispatch::outlived;
use barker::{BarkerError, HandlerType, Message, MessageBus, MessageHandler};

struct Tally(Arc<AtomicUsize>);
impl MessageHandler for Tally {
    fn call(&self, _: &dyn Message) {
        self.0.fetch_add(1, Ordering::SeqCst);
    }
}

trait Numbered: Message {
    fn as_any(&self) -> &dyn Any;
}

#[derive(Debug)]
struct Numbered1(u32);
impl Message for Numbered1 {}
impl Numbered for Numbered1 {
    fn as_any(&self) -> &dyn Any {
        self
    }
}

#[derive(Debug)]
struct Numbered2(u32);
impl Message for Numbered2 {}
impl Numbered for Numbered2 {
    fn as_any(&self) -> &dyn Any {
        self
    }
}

/// Logs `(handler name, number carried by the message)` for every call.
struct Log {
    name: &'static str,
    log: Arc<Mutex<Vec<(&'static str, u32)>>>,
}
impl MessageHandler<dyn Numbered> for Log {
    fn call(&self, msg: &dyn Numbered) {
        let n = if let Some(m) = msg.as_any().downcast_ref::<Numbered1>() {
            m.0
        } else if let Some(m) = msg.as_any().downcast_ref::<Numbered2>() {
            m.0
        } else {
            u32::MAX
        };
        self.log.lock().unwrap().push((self.name, n));
    }
}

#[derive(Debug)]
struct Ping;
impl Message for Ping {}

#[derive(Debug)]
struct Pong;
impl Message for Pong {}

#[test]
fn send_returns_increasing_ids_from_zero() {
    let mut bus: MessageBus = MessageBus::new();
    assert_eq!(bus.send(Box::new(Ping)), Ok(0));
    assert_eq!(bus.send(Box::new(Pong)), Ok(1));
    bus.process_messages(None).unwrap();
    assert_eq!(bus.send(Box::new(Ping)), Ok(2));
}

#[test]
fn bounded_bus_refuses_when_full_and_accepts_after_drain() {
    let mut bus: MessageBus = MessageBus::bounded(2);
    let count = Arc::new(AtomicUsize::new(0));
    bus.register_handler(Box::new(Tally(count.clone())), None).unwrap();

    assert_eq!(bus.send(Box::new(Ping)), Ok(0));
    assert_eq!(bus.send(Box::new(Ping)), Ok(1));
    assert_eq!(bus.send(Box::new(Ping)), Err(BarkerError::Send));
    bus.process_messages(None).unwrap();
    assert_eq!(count.load(Ordering::SeqCst), 2);
    // The refused send took an identifier too.
    assert_eq!(bus.send(Box::new(Ping)), Ok(3));
}

#[test]
fn bounded_bus_of_capacity_zero_refuses_every_message() {
    let mut bus: MessageBus = MessageBus::bounded(0);
    assert_eq!(bus.send(Box::new(Ping)), Err(BarkerError::Send));
    assert_eq!(bus.send(Box::new(Ping)), Err(BarkerError::Send));
}

#[test]
fn limit_drains_at_most_that_many_and_keeps_the_rest() {
    let mut bus: MessageBus = MessageBus::new();
    let count = Arc::new(AtomicUsize::new(0));
    bus.register_handler(Box::new(Tally(count.clone())), None).unwrap();
    for _ in 0..3 {
        bus.send(Box::new(Ping)).unwrap();
    }

    bus.process_messages(Some(1)).unwrap();
    assert_eq!(count.load(Ordering::SeqCst), 1);
    bus.process_messages(Some(0)).unwrap();
    assert_eq!(count.load(Ordering::SeqCst), 1);
    bus.process_messages(Some(10)).unwrap();
    assert_eq!(count.load(Ordering::SeqCst), 3);
    bus.process_messages(None).unwrap();
    assert_eq!(count.load(Ordering::SeqCst), 3);
}

#[test]
fn messages_in_send_order_handlers_in_registration_order() {
    let mut bus: MessageBus<dyn Numbered> = MessageBus::new();
    let log = Arc::new(Mutex::new(Vec::new()));
    bus.register_handler(Box::new(Log { name: "all", log: log.clone() }), None).unwrap();
    bus.register_handler(
        Box::new(Log { name: "twos", log: log.clone() }),
        Some(TypeId::of::<Numbered2>()),
    )
    .unwrap();
    bus.register_handler(
        Box::new(Log { name: "ones", log: log.clone() }),
        Some(TypeId::of::<Numbered1>()),
    )
    .unwrap();

    bus.send(Box::new(Numbered1(10))).unwrap();
    bus.send(Box::new(Numbered2(20))).unwrap();
    bus.send(Box::new(Numbered1(30))).unwrap();
    bus.process_messages(None).unwrap();

    assert_eq!(
        *log.lock().unwrap(),
        vec![
            ("all", 10),
            ("ones", 10),
            ("all", 20),
            ("twos", 20),
            ("all", 30),
            ("ones", 30),
        ]
    );
}

#[test]
fn handler_registered_after_send_sees_the_message_at_the_drain() {
    let mut bus: MessageBus = MessageBus::new();
    let count = Arc::new(AtomicUsize::new(0));
    bus.send(Box::new(Ping)).unwrap();
    bus.register_handler(Box::new(Tally(count.clone())), Some(TypeId::of::<Ping>()))
        .unwrap();
    assert_eq!(count.load(Ordering::SeqCst), 0);
    bus.process_messages(None).unwrap();
    assert_eq!(count.load(Ordering::SeqCst), 1);
}

#[test]
fn send_runs_no_handler_until_the_drain() {
    let mut bus: MessageBus = MessageBus::default();
    let count = Arc::new(AtomicUsize::new(0));
    bus.register_handler(Box::new(Tally(count.clone())), None).unwrap();
    bus.send(Box::new(Ping)).unwrap();
    bus.send(Box::new(Pong)).unwrap();
    assert_eq!(count.load(Ordering::SeqCst), 0);
    bus.process_messages(None).unwrap();
    assert_eq!(count.load(Ordering::SeqCst), 2);
}

#[test]
fn each_message_is_handled_once() {
    let mut bus: MessageBus = MessageBus::new();
    let count = Arc::new(AtomicUsize::new(0));
    bus.register_handler(Box::new(Tally(count.clone())), Some(TypeId::of::<Pong>()))
        .unwrap();
    bus.send(Box::new(Pong)).unwrap();
    bus.process_messages(None).unwrap();
    bus.process_messages(None).unwrap();
    assert_eq!(count.load(Ordering::SeqCst), 1);
}

#[derive(Debug)]
struct Urgent;
impl Message for Urgent {
    fn priority(&self) -> u32 {
        99
    }
    fn requires_ack(&self) -> bool {
        true
    }
    fn category(&self) -> Option<&str> {
        Some("alerts")
    }
}

#[test]
fn priority_does_not_reorder_dispatch() {
    let mut bus: MessageBus<dyn Numbered> = MessageBus::new();
    let log = Arc::new(Mutex::new(Vec::new()));
    bus.register_handler(Box::new(Log { name: "all", log: log.clone() }), None).unwrap();
    bus.send(Box::new(Numbered1(1))).unwrap();
    bus.send(Box::new(Numbered2(2))).unwrap();
    bus.process_messages(None).unwrap();
    assert_eq!(*log.lock().unwrap(), vec![("all", 1), ("all", 2)]);

    let u = Urgent;
    assert_eq!(u.priority(), 99);
    assert!(u.requires_ack());
    assert_eq!(u.category(), Some("alerts"));
    assert_eq!(u.message_type_id(), TypeId::of::<Urgent>());
}

#[test]
fn free_functions_act_like_the_methods() {
    let mut bus: MessageBus = MessageBus::bounded(1);
    let count = Arc::new(AtomicUsize::new(0));
    barker::register_handler(&mut bus, Box::new(Tally(count.clone())), None).unwrap();
    assert_eq!(barker::send(&mut bus, Box::new(Ping)), Ok(0));
    assert_eq!(barker::send(&mut bus, Box::new(Ping)), Err(BarkerError::Send));
    barker::process_messages(&mut bus, Some(5)).unwrap();
    assert_eq!(count.load(Ordering::SeqCst), 1);
}

#[test]
fn handler_filters_admit_the_right_types() {
    let ping = TypeId::of::<Ping>();
    let pong = TypeId::of::<Pong>();
    assert!(HandlerType::new(None).fires(&ping));
    assert!(HandlerType::new(None).fires(&pong));
    assert!(HandlerType::new(Some(ping)).fires(&ping));
    assert!(!HandlerType::new(Some(ping)).fires(&pong));
}

#[test]
fn outlived_means_strictly_longer() {
    let ten = Duration::from_millis(10);
    assert!(outlived(&Duration::from_millis(11), &ten));
    assert!(outlived(&Duration::new(1, 0), &Duration::new(0, 999_999_999)));
    assert!(!outlived(&ten, &ten));
    assert!(!outlived(&Duration::from_nanos(9_999_999), &ten));
    assert!(!outlived(&Duration::ZERO, &Duration::from_secs(60)));
}

#[test]
fn error_descriptions() {
    assert_eq!(
        BarkerError::Send.message(),
        "failed to enqueue message: bus channel disconnected"
    );
    assert_eq!(
        BarkerError::HandlerLockPoisoned.message(),
        "handler registry lock poisoned"
    );
}

#[derive(Debug)]
struct Instant0;
impl Message for Instant0 {
    fn ttl(&self) -> Option<Duration> {
        Some(Duration::ZERO)
    }
}

#[test]
fn ttl_applies_per_message_in_one_drain() {
    let mut bus: MessageBus = MessageBus::new();
    let count = Arc::new(AtomicUsize::new(0));
    bus.register_handler(Box::new(Tally(count.clone())), None).unwrap();
    bus.send(Box::new(Instant0)).unwrap();
    bus.send(Box::new(Ping)).unwrap();
    let start = std::time::Instant::now();
    while start.elapsed() < Duration::from_millis(5) {
        std::hint::spin_loop();
    }
    bus.process_messages(None).unwrap();
    assert_eq!(count.load(Ordering::SeqCst), 1);
}
