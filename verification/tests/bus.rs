use burge::event::{Locked, Sender, Unlocked};

#[test]
fn broadcast_reaches_every_receiver_exactly_once() {
    let mut bus: Sender<u32> = Sender::new();
    let a = bus.new_receiver();
    let b = bus.new_receiver();
    bus.send(7);
    let c = bus.new_receiver();
    bus.send(9);
    assert_eq!(bus.poll_receiver(a), vec![7, 9]);
    assert_eq!(bus.poll_receiver(b), vec![7, 9]);
    // a receiver created after a send never sees that event
    assert_eq!(bus.poll_receiver(c), vec![9]);
}

#[test]
fn second_consecutive_poll_is_empty() {
    let mut bus: Sender<u32> = Sender::new();
    let a = bus.new_receiver();
    bus.send(1);
    bus.send(2);
    assert_eq!(bus.poll_receiver(a), vec![1, 2]);
    assert_eq!(bus.poll_receiver(a), Vec::<u32>::new());
}

#[test]
fn routed_delivery_reaches_only_the_target() {
    let mut bus: Sender<u32> = Sender::new();
    let a = bus.new_routed_receiver(Some(10));
    let b = bus.new_routed_receiver(Some(20));
    assert_eq!(a, 10);
    assert_eq!(b, 20);
    bus.route(10, 111);
    bus.route(10, 112);
    bus.route(20, 222);
    assert_eq!(bus.poll_routed(10), vec![111, 112]);
    assert_eq!(bus.poll_routed(20), vec![222]);
    assert_eq!(bus.poll_routed(10), Vec::<u32>::new());
}

#[test]
fn route_to_unregistered_identifier_is_dropped() {
    let mut bus: Sender<u32> = Sender::new();
    let a = bus.new_routed_receiver(Some(10));
    bus.route(999, 5);
    assert_eq!(bus.poll_routed(a), Vec::<u32>::new());
    assert_eq!(bus.poll_routed(999), Vec::<u32>::new());
}

#[test]
fn broadcast_does_not_touch_routed_queues_and_back() {
    let mut bus: Sender<u32> = Sender::new();
    let sub = bus.new_receiver();
    let routed = bus.new_routed_receiver(None);
    bus.send(1);
    bus.route(routed, 2);
    assert_eq!(bus.poll_receiver(sub), vec![1]);
    assert_eq!(bus.poll_routed(routed), vec![2]);
}

#[test]
fn locking_keeps_queues_and_registrations() {
    let mut bus: Sender<u32> = Sender::new();
    let sub = bus.new_receiver();
    let routed = bus.new_routed_receiver(Some(3));
    bus.send(41);
    bus.route(3, 43);
    let mut locked: Sender<u32, Locked> = bus.lock();
    // the locked view still registers and polls, but cannot send or route
    let late = locked.new_receiver();
    assert_eq!(locked.poll_receiver(sub), vec![41]);
    assert_eq!(locked.poll_routed(routed), vec![43]);
    assert_eq!(locked.poll_receiver(late), Vec::<u32>::new());
}

#[test]
fn receiver_is_a_fifo_queue() {
    let mut r: burge::event::Receiver<u32> = burge::event::Receiver::new();
    r.receive(1);
    r.receive(2);
    r.receive(3);
    assert_eq!(r.poll(), vec![1, 2, 3]);
    assert_eq!(r.poll(), Vec::<u32>::new());
    let _unused: Sender<u32, Unlocked> = Sender::new();
}
