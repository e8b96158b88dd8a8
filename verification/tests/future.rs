use async_study::future::NPollsOutcome;
use async_study::future::NPollsToBeReady;

#[test]
fn ready_after_n_awake_polls() {
    let mut f = NPollsToBeReady::new(2);
    assert_eq!(f.left(), 2);
    assert_eq!(f.poll(true), NPollsOutcome::Rearm { remaining: 2 });
    assert_eq!(f.poll(false), NPollsOutcome::Asleep);
    assert_eq!(f.left(), 1);
    assert_eq!(f.poll(true), NPollsOutcome::Rearm { remaining: 1 });
    assert_eq!(f.poll(true), NPollsOutcome::Ready);
    assert_eq!(f.left(), 0);
}

#[test]
fn zero_polls_is_ready_at_once() {
    let mut f = NPollsToBeReady::new(0);
    assert_eq!(f.poll(true), NPollsOutcome::Ready);
}

#[test]
fn asleep_poll_changes_nothing() {
    let mut f = NPollsToBeReady::new(5);
    assert_eq!(f.poll(false), NPollsOutcome::Asleep);
    assert_eq!(f.left(), 5);
}
