use async_study::oneshot::oneshot;
use async_study::oneshot::OneshotData;
use async_study::poll::Poll;

#[test]
fn send_then_poll_receives() {
    let mut d: OneshotData<u32, &str> = OneshotData::new();
    assert_eq!(d.send(7), None);
    assert_eq!(d.poll("w"), Poll::Ready(7));
}

#[test]
fn pending_poll_is_woken_by_send() {
    let mut d: OneshotData<u32, &str> = OneshotData::new();
    assert_eq!(d.poll("w1"), Poll::Pending);
    assert_eq!(d.poll("w2"), Poll::Pending);
    assert_eq!(d.send(8), Some("w2"));
    assert_eq!(d.poll("w3"), Poll::Ready(8));
}

#[test]
fn value_is_received_once() {
    let mut d: OneshotData<&str, u8> = OneshotData::new();
    d.send("hello");
    assert_eq!(d.poll(1), Poll::Ready("hello"));
    assert_eq!(d.poll(2), Poll::Pending);
}

#[test]
fn channel_ends_share_state() {
    let (tx, rx) = oneshot::<String, u8>();
    assert_eq!(rx.poll(1), Poll::Pending);
    assert_eq!(tx.send("Hello!".to_string()), Some(1));
    assert_eq!(rx.poll(2), Poll::Ready("Hello!".to_string()));
    assert_eq!(rx.poll(3), Poll::Pending);
}

#[test]
fn send_before_poll_wakes_nobody() {
    let (tx, rx) = oneshot::<u64, u8>();
    assert_eq!(tx.send(42), None);
    assert_eq!(rx.poll(1), Poll::Ready(42));
}

#[test]
fn only_the_first_poll_after_the_send_receives() {
    let mut d: OneshotData<u32, u8> = OneshotData::new();
    assert_eq!(d.poll(1), Poll::Pending);
    assert_eq!(d.poll(2), Poll::Pending);
    assert_eq!(d.send(10), Some(2));
    assert_eq!(d.poll(3), Poll::Ready(10));
    assert_eq!(d.poll(4), Poll::Pending);
    assert_eq!(d.poll(5), Poll::Pending);
}
