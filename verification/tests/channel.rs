use std::sync::atomic::{AtomicUsize, Ordering};
use std::sync::Arc;
use std::task::{Wake, Waker};

use veloq_runtime::local::mpsc::{new_bounded, new_unbounded, PollResult, SendError, WaiterKind};
use veloq_runtime::poll::Poll;

struct Count(AtomicUsize);

impl Wake for Count {
    fn wake(self: Arc<Self>) {
        self.0.fetch_add(1, Ordering::Relaxed);
    }
}

fn counter() -> (Arc<Count>, Waker) {
    let count = Arc::new(Count(AtomicUsize::new(0)));
    (count.clone(), Waker::from(count))
}

#[test]
fn messages_come_out_in_order() {
    let mut channel = new_unbounded();
    for i in 0..5 {
        assert!(channel.push(i).is_ok());
    }
    assert_eq!(channel.len(), 5);
    assert!(!channel.is_full());
    for i in 0..5 {
        match channel.recv_one() {
            PollResult::Ready(Some((message, _))) => assert_eq!(message, i),
            _ => panic!("there is a message"),
        }
    }
    assert!(channel.is_empty());
    assert!(matches!(channel.recv_one(), PollResult::Pending(WaiterKind::Receiver)));
}

#[test]
fn a_bounded_channel_is_full() {
    let mut channel = new_bounded(1);
    assert!(matches!(channel.wait_for_room(), PollResult::Ready(())));
    assert!(channel.push('a').is_ok());
    assert!(channel.is_full());
    match channel.push('b') {
        Err(SendError::Full(message)) => assert_eq!(message, 'b'),
        _ => panic!("there is no room"),
    }
    assert!(matches!(channel.wait_for_room(), PollResult::Pending(WaiterKind::Sender)));
    assert_eq!(SendError::Full('b').message(), "SendError::Full(..)");
}

#[test]
fn a_message_wakes_a_receiver() {
    let mut channel = new_unbounded();
    let (count, waker) = counter();
    assert!(matches!(channel.poll_recv(1, waker.clone()), Poll::Pending));
    assert!(matches!(channel.poll_recv(1, waker.clone()), Poll::Pending));
    assert_eq!(channel.recv_waiters.len(), 1);
    match channel.push(9) {
        Ok(Some(waker)) => waker.wake(),
        _ => panic!("somebody waits"),
    }
    assert_eq!(count.0.load(Ordering::Relaxed), 1);
    assert!(matches!(channel.poll_recv(1, waker), Poll::Ready(Some((9, None)))));
}

#[test]
fn room_wakes_a_sender() {
    let mut channel = new_bounded(1);
    let (count, waker) = counter();
    assert!(channel.push(1).is_ok());
    assert!(matches!(channel.poll_room(7, waker.clone()), Poll::Pending));
    match channel.recv_one() {
        PollResult::Ready(Some((1, Some(waker)))) => waker.wake(),
        _ => panic!("a sender waits"),
    }
    assert_eq!(count.0.load(Ordering::Relaxed), 1);
    assert!(matches!(channel.poll_room(7, waker), Poll::Ready(())));
}

#[test]
fn a_wait_can_be_given_up() {
    let mut channel = new_unbounded::<u8>();
    let (_, waker) = counter();
    channel.register_into_waiting_queue(WaiterKind::Receiver, 1, waker.clone());
    channel.register_into_waiting_queue(WaiterKind::Receiver, 2, waker);
    channel.remove_from_the_waiting_queue(WaiterKind::Receiver, 1);
    channel.remove_from_the_waiting_queue(WaiterKind::Receiver, 9);
    assert_eq!(channel.recv_waiters.len(), 1);
    assert_eq!(channel.recv_waiters[0].id, 2);
}

#[test]
fn the_last_sender_ends_the_channel() {
    let mut channel = new_unbounded::<u8>();
    let (_, waker) = counter();
    channel.add_sender();
    assert!(matches!(channel.poll_recv(1, waker.clone()), Poll::Pending));
    let mut woken = Vec::new();
    channel.drop_sender(&mut woken);
    assert!(woken.is_empty());
    assert!(channel.push(4).is_ok());
    channel.drop_sender(&mut woken);
    assert!(matches!(channel.poll_recv(1, waker.clone()), Poll::Ready(Some((4, _)))));
    assert!(matches!(channel.poll_recv(1, waker), Poll::Ready(None)));
}

#[test]
fn nobody_sends_to_a_closed_channel() {
    let mut channel = new_bounded(1);
    let (_, waker) = counter();
    assert!(channel.push(1).is_ok());
    assert!(matches!(channel.poll_room(3, waker), Poll::Pending));
    let mut woken = Vec::new();
    channel.drop_receiver(&mut woken);
    assert_eq!(woken.len(), 1);
    assert!(matches!(channel.push(2), Err(SendError::Closed(2))));
    assert_eq!(SendError::Closed(2).message(), "SendError::Closed(..)");
}
