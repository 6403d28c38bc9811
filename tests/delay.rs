use mini_tokio::delay::{Delay, DelayPoll, DONE};

const MS: u64 = 1_000_000;

#[test]
fn past_deadline_completes_at_once() {
    let d = Delay::new(5 * MS);
    assert_eq!(d.poll(7 * MS), DelayPoll::Ready("done"));
    assert_eq!(DONE, "done");
}

#[test]
fn deadline_reached_exactly_completes() {
    let d = Delay::new(5 * MS);
    assert_eq!(d.poll(5 * MS), DelayPoll::Ready("done"));
}

#[test]
fn future_deadline_asks_for_the_time_left() {
    let d = Delay::new(10 * MS);
    assert_eq!(d.poll(0), DelayPoll::Pending { wait: 10 * MS });
    assert_eq!(d.poll(4 * MS), DelayPoll::Pending { wait: 6 * MS });
    assert_eq!(d.poll(10 * MS - 1), DelayPoll::Pending { wait: 1 });
}

#[test]
fn waiting_thread_sleeps_until_the_deadline() {
    let d = Delay::new(10 * MS);
    let start = 3 * MS;
    let slept = d.remaining(start);
    assert_eq!(slept, 7 * MS);
    assert!(start + slept >= 10 * MS);
    assert_eq!(d.poll(start + slept), DelayPoll::Ready("done"));
}

#[test]
fn waiting_thread_started_late_does_not_sleep() {
    let d = Delay::new(10 * MS);
    assert_eq!(d.remaining(10 * MS), 0);
    assert_eq!(d.remaining(12 * MS), 0);
}

#[test]
fn spurious_attempt_asks_again() {
    let d = Delay::new(10 * MS);
    assert_eq!(d.poll(2 * MS), DelayPoll::Pending { wait: 8 * MS });
    assert_eq!(d.poll(9 * MS), DelayPoll::Pending { wait: MS });
    assert_eq!(d.poll(11 * MS), DelayPoll::Ready("done"));
}

#[test]
fn largest_deadline() {
    let d = Delay::new(u64::MAX);
    assert_eq!(d.poll(0), DelayPoll::Pending { wait: u64::MAX });
    assert_eq!(d.poll(u64::MAX), DelayPoll::Ready("done"));
    assert_eq!(Delay::new(0).poll(0), DelayPoll::Ready("done"));
}
