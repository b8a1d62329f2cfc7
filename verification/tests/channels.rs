use atomics_and_locks::chapter5::blocking_channel;
use atomics_and_locks::chapter5::no_allocation_channel;
use atomics_and_locks::chapter5::one_shot_channel_checked;
use atomics_and_locks::chapter5::simple_mutex_channel;
use atomics_and_locks::chapter5::type_safe_channel;
use atomics_and_locks::chapter5::unsafe_one_shot_channel;

#[test]
fn simple_mutex_channel_is_fifo() {
    let mut channel = simple_mutex_channel::Channel::<i32>::new();
    let r = channel.add_receiver();
    for i in 0..10 {
        // Nobody waits: the notification wakes nobody.
        assert_eq!(channel.first_waiter(), None);
        channel.send(i, None);
    }
    for i in 0..10 {
        assert_eq!(channel.receive(r), Some(i));
    }
    // Empty: the receiver waits on the condition variable.
    assert_eq!(channel.receive(r), None);
    assert_eq!(channel.receiver_step(r), simple_mutex_channel::RecvStep::Waiting);
}

#[test]
fn simple_mutex_channel_send_wakes_a_waiting_receiver() {
    let mut channel = simple_mutex_channel::Channel::new();
    let a = channel.add_receiver();
    let b = channel.add_receiver();
    assert_eq!(channel.receive(a), None);
    assert_eq!(channel.receive(b), None);
    // One send wakes one waiter, here the first.
    assert_eq!(channel.first_waiter(), Some(a));
    channel.send("m", Some(a));
    assert_eq!(channel.receiver_step(a), simple_mutex_channel::RecvStep::Woken);
    assert_eq!(channel.receiver_step(b), simple_mutex_channel::RecvStep::Waiting);
    assert_eq!(channel.receive(a), Some("m"));
    assert_eq!(channel.first_waiter(), Some(b));
    channel.send("n", Some(b));
    assert_eq!(channel.receive(b), Some("n"));
    assert_eq!(channel.first_waiter(), None);
}

#[test]
fn simple_mutex_channel_send_may_wake_any_waiter() {
    let mut channel = simple_mutex_channel::Channel::new();
    let a = channel.add_receiver();
    let b = channel.add_receiver();
    assert_eq!(channel.receive(a), None);
    assert_eq!(channel.receive(b), None);
    // notify_one may wake the second waiter rather than the first.
    channel.send(7u8, Some(b));
    assert_eq!(channel.receiver_step(a), simple_mutex_channel::RecvStep::Waiting);
    assert_eq!(channel.receiver_step(b), simple_mutex_channel::RecvStep::Woken);
    assert_eq!(channel.receive(b), Some(7));
    assert_eq!(channel.receiver_step(b), simple_mutex_channel::RecvStep::Idle);
}

#[test]
fn simple_mutex_channel_waiter_gets_a_later_message() {
    let mut channel = simple_mutex_channel::Channel::new();
    let r = channel.add_receiver();
    channel.send(1, None);
    channel.send(2, None);
    assert_eq!(channel.receive(r), Some(1));
    assert_eq!(channel.receive(r), Some(2));
    assert_eq!(channel.receive(r), None);
    channel.send(3, Some(r));
    assert_eq!(channel.receive(r), Some(3));
}

#[test]
fn simple_mutex_channel_spurious_wakeup_waits_again() {
    let mut channel = simple_mutex_channel::Channel::<u8>::new();
    let a = channel.add_receiver();
    assert_eq!(channel.receive(a), None);
    channel.wake_spuriously(a);
    assert_eq!(channel.receive(a), None);
    assert_eq!(channel.receiver_step(a), simple_mutex_channel::RecvStep::Waiting);
}

#[test]
fn unsafe_one_shot_channel_delivers() {
    let mut channel = unsafe_one_shot_channel::Channel::new();
    assert!(!channel.is_ready());
    channel.send("Hello, world!!");
    assert!(channel.is_ready());
    assert_eq!(channel.receive(), "Hello, world!!");
    // The flag is never cleared.
    assert!(channel.is_ready());
}

#[test]
fn one_shot_channel_checked_delivers_once() {
    let mut channel = one_shot_channel_checked::Channel::new();
    assert!(!channel.is_ready());
    channel.send("Hello, world!!");
    assert!(channel.is_ready());
    let message = channel.receive();
    assert_eq!(message, "Hello, world!!");
    assert!(!channel.is_ready());
}

#[test]
fn type_safe_channel_delivers() {
    let (sender, mut receiver) = type_safe_channel::channel();
    assert!(!receiver.is_ready());
    sender.send(&mut receiver, "Hello, world!!");
    assert!(receiver.is_ready());
    assert_eq!(receiver.receive(), "Hello, world!!");
}

#[test]
fn no_allocation_channel_delivers() {
    let mut channel = no_allocation_channel::Channel::new();
    let (sender, receiver, _) = channel.split();
    assert!(!receiver.is_ready(&channel));
    sender.send(&mut channel, "Hello, world!!");
    assert!(receiver.is_ready(&channel));
    assert_eq!(receiver.receive(&mut channel), "Hello, world!!");
}

#[test]
fn no_allocation_channel_split_starts_afresh() {
    let mut channel = no_allocation_channel::Channel::new();
    let (sender, _receiver, dropped) = channel.split();
    assert_eq!(dropped, None);
    sender.send(&mut channel, 1);
    // A second split drops the unreceived message and starts over.
    let (sender, receiver, dropped) = channel.split();
    assert_eq!(dropped, Some(1));
    assert!(!receiver.is_ready(&channel));
    sender.send(&mut channel, 2);
    assert_eq!(receiver.receive(&mut channel), 2);
}

#[test]
fn blocking_channel_waits_then_delivers() {
    let mut channel = blocking_channel::Channel::new();
    let (sender, receiver, _) = channel.split();
    // Nothing sent yet: the receiver comes back and its thread parks.
    let receiver = match receiver.receive(&mut channel) {
        Ok(_) => panic!("no message was sent"),
        Err(r) => r,
    };
    receiver.park(&mut channel);
    assert_eq!(channel_recv_step(&channel), blocking_channel::RecvStep::Sleeping);
    sender.send(&mut channel, "Hello, world!!");
    assert!(receiver.is_ready(&channel));
    // The unpark wakes the sleeping receiver.
    channel.unpark_receiver();
    match receiver.receive(&mut channel) {
        Ok(message) => assert_eq!(message, "Hello, world!!"),
        Err(_) => panic!("the message was sent"),
    }
}

#[test]
fn blocking_channel_unpark_before_park_is_kept() {
    let mut channel = blocking_channel::Channel::new();
    let (sender, receiver, _) = channel.split();
    let receiver = match receiver.receive(&mut channel) {
        Ok(_) => panic!("no message was sent"),
        Err(r) => r,
    };
    // The sender sends and unparks before the receiver parks.
    sender.send(&mut channel, 7);
    channel.unpark_receiver();
    // The token makes the park return at once.
    receiver.park(&mut channel);
    assert_eq!(channel_recv_step(&channel), blocking_channel::RecvStep::Receiving);
    match receiver.receive(&mut channel) {
        Ok(message) => assert_eq!(message, 7),
        Err(_) => panic!("the message was sent"),
    }
}

#[test]
fn blocking_channel_spurious_wakeup_parks_again() {
    let mut channel = blocking_channel::Channel::<u8>::new();
    let (_sender, receiver, _) = channel.split();
    let receiver = match receiver.receive(&mut channel) {
        Ok(_) => panic!("no message was sent"),
        Err(r) => r,
    };
    receiver.park(&mut channel);
    receiver.wake_spuriously(&mut channel);
    let receiver = match receiver.receive(&mut channel) {
        Ok(_) => panic!("no message was sent"),
        Err(r) => r,
    };
    receiver.park(&mut channel);
    assert_eq!(channel_recv_step(&channel), blocking_channel::RecvStep::Sleeping);
}

fn channel_recv_step<T>(channel: &blocking_channel::Channel<T>) -> blocking_channel::RecvStep {
    channel.receiver_step()
}

#[test]
fn no_allocation_channel_drop_takes_only_the_unreceived_message() {
    // Never sent: nothing to drop.
    let mut channel = no_allocation_channel::Channel::<String>::new();
    let (_sender, _receiver, _) = channel.split();
    assert_eq!(channel.into_unreceived(), None);
    // Sent, not received: the message is dropped with the channel.
    let mut channel = no_allocation_channel::Channel::new();
    let (sender, _receiver, _) = channel.split();
    sender.send(&mut channel, String::from("left"));
    assert_eq!(channel.into_unreceived(), Some(String::from("left")));
    // Received: the receiver owns it, the channel drops nothing.
    let mut channel = no_allocation_channel::Channel::new();
    let (sender, receiver, _) = channel.split();
    sender.send(&mut channel, String::from("taken"));
    assert_eq!(receiver.receive(&mut channel), "taken");
    assert_eq!(channel.into_unreceived(), None);
}

#[test]
fn blocking_channel_split_hands_back_the_unreceived_message() {
    let mut channel = blocking_channel::Channel::new();
    let (sender, _receiver, dropped) = channel.split();
    assert_eq!(dropped, None);
    sender.send(&mut channel, String::from("left"));
    channel.unpark_receiver();
    let (_sender, receiver, dropped) = channel.split();
    assert_eq!(dropped, Some(String::from("left")));
    assert!(!receiver.is_ready(&channel));
}

#[test]
fn no_allocation_channel_split_after_receive_drops_nothing() {
    let mut channel = no_allocation_channel::Channel::new();
    let (sender, receiver, _) = channel.split();
    sender.send(&mut channel, 5);
    assert_eq!(receiver.receive(&mut channel), 5);
    let (_sender, _receiver, dropped) = channel.split();
    assert_eq!(dropped, None);
}

#[test]
fn one_shot_channel_checked_drop_takes_only_the_unreceived_message() {
    let channel = one_shot_channel_checked::Channel::<String>::new();
    assert_eq!(channel.into_unreceived(), None);
    let mut channel = one_shot_channel_checked::Channel::new();
    channel.send(String::from("left"));
    assert_eq!(channel.into_unreceived(), Some(String::from("left")));
    let mut channel = one_shot_channel_checked::Channel::new();
    channel.send(String::from("taken"));
    assert_eq!(channel.receive(), "taken");
    assert_eq!(channel.into_unreceived(), None);
}
