use wgpu_async::future_poll::{PollOutcome, PollTokenHolder, TokenChange};
use wgpu_async::poll_loop::{
    apply_token_change, loop_accepts_event, loop_begin, loop_next, LoopAction, LoopEvent,
    LoopState,
};

#[test]
fn token_changes_move_count() {
    assert_eq!(apply_token_change(0, TokenChange::Acquire), Some(1));
    assert_eq!(apply_token_change(3, TokenChange::Release), Some(2));
    assert_eq!(apply_token_change(5, TokenChange::Keep), Some(5));
}

#[test]
fn token_change_overflow_and_underflow_are_reported() {
    assert_eq!(apply_token_change(usize::MAX, TokenChange::Acquire), None);
    assert_eq!(apply_token_change(0, TokenChange::Release), None);
    assert_eq!(apply_token_change(0, TokenChange::Keep), Some(0));
}

#[test]
fn acquire_then_release_restores_count() {
    let up = apply_token_change(41, TokenChange::Acquire).unwrap();
    assert_eq!(apply_token_change(up, TokenChange::Release), Some(41));
}

#[test]
fn count_follows_pending_futures() {
    // three futures share one loop; the count moves with their token changes
    let mut holders = [PollTokenHolder::new(), PollTokenHolder::new(), PollTokenHolder::new()];
    let mut count: usize = 0;
    let polls: [(usize, Option<u8>); 6] =
        [(0, None), (1, None), (0, None), (2, Some(1)), (1, Some(2)), (0, Some(3))];
    let expected_counts = [1usize, 2, 2, 2, 1, 0];
    for (step, (i, taken)) in polls.iter().enumerate() {
        let (_, change) = holders[*i].on_poll(*taken);
        count = apply_token_change(count, change).unwrap();
        assert_eq!(count, expected_counts[step]);
        let held = holders.iter().filter(|h| h.holds_token()).count();
        assert_eq!(count, held);
    }
}

#[test]
fn loop_starts_by_reading_done_flag() {
    assert_eq!(loop_begin(), (LoopState::CheckDone, LoopAction::ReadDoneFlag));
}

#[test]
fn loop_polls_while_work_remains_then_parks() {
    let (s, a) = loop_begin();
    assert_eq!(a, LoopAction::ReadDoneFlag);
    let (s, a) = loop_next(s, LoopEvent::DoneFlag(false));
    assert_eq!(a, LoopAction::ReadWorkCount);
    let (s, a) = loop_next(s, LoopEvent::WorkCount(2));
    assert_eq!(a, LoopAction::UpgradeDevice);
    let (s, a) = loop_next(s, LoopEvent::DeviceUpgraded(true));
    assert_eq!(a, LoopAction::PollWait);
    let (s, a) = loop_next(s, LoopEvent::Polled);
    // after a poll the shutdown flag is read before the count
    assert_eq!(a, LoopAction::ReadDoneFlag);
    let (s, a) = loop_next(s, LoopEvent::DoneFlag(false));
    assert_eq!(a, LoopAction::ReadWorkCount);
    let (s, a) = loop_next(s, LoopEvent::WorkCount(1));
    assert_eq!(a, LoopAction::UpgradeDevice);
    let (s, a) = loop_next(s, LoopEvent::DeviceUpgraded(true));
    assert_eq!(a, LoopAction::PollWait);
    let (s, a) = loop_next(s, LoopEvent::Polled);
    assert_eq!(a, LoopAction::ReadDoneFlag);
    let (s, a) = loop_next(s, LoopEvent::DoneFlag(false));
    assert_eq!(a, LoopAction::ReadWorkCount);
    let (s, a) = loop_next(s, LoopEvent::WorkCount(0));
    assert_eq!((s, a), (LoopState::Parked, LoopAction::Park));
    let (s, a) = loop_next(s, LoopEvent::Unparked);
    assert_eq!((s, a), (LoopState::CheckDone, LoopAction::ReadDoneFlag));
}

#[test]
fn loop_stops_on_shutdown_flag() {
    let (s, _) = loop_begin();
    let (s, a) = loop_next(s, LoopEvent::DoneFlag(true));
    assert_eq!((s, a), (LoopState::Stopped, LoopAction::ReleaseDeviceAndStop));
}

#[test]
fn loop_stops_and_marks_done_when_device_is_gone() {
    let (s, _) = loop_begin();
    let (s, _) = loop_next(s, LoopEvent::DoneFlag(false));
    let (s, _) = loop_next(s, LoopEvent::WorkCount(1));
    let (s, a) = loop_next(s, LoopEvent::DeviceUpgraded(false));
    assert_eq!((s, a), (LoopState::Stopped, LoopAction::MarkDoneAndStop));
}

#[test]
fn loop_accepts_only_awaited_events() {
    assert!(loop_accepts_event(LoopState::CheckDone, LoopEvent::DoneFlag(false)));
    assert!(loop_accepts_event(LoopState::CheckWork, LoopEvent::WorkCount(0)));
    assert!(loop_accepts_event(LoopState::AwaitDevice, LoopEvent::DeviceUpgraded(true)));
    assert!(loop_accepts_event(LoopState::Polling, LoopEvent::Polled));
    assert!(loop_accepts_event(LoopState::Parked, LoopEvent::Unparked));
    assert!(!loop_accepts_event(LoopState::CheckDone, LoopEvent::WorkCount(1)));
    assert!(!loop_accepts_event(LoopState::Polling, LoopEvent::DeviceUpgraded(true)));
    assert!(!loop_accepts_event(LoopState::Stopped, LoopEvent::Unparked));
    assert!(!loop_accepts_event(LoopState::Stopped, LoopEvent::DoneFlag(true)));
}

#[test]
fn ready_outcome_carries_value() {
    let mut h = PollTokenHolder::new();
    let (o, _) = h.on_poll(Some("v"));
    assert!(matches!(o, PollOutcome::Ready("v")));
}

#[test]
fn loop_honours_shutdown_while_work_is_outstanding() {
    let (s, _) = loop_begin();
    let (s, _) = loop_next(s, LoopEvent::DoneFlag(false));
    let (s, _) = loop_next(s, LoopEvent::WorkCount(1));
    let (s, _) = loop_next(s, LoopEvent::DeviceUpgraded(true));
    // shutdown is asked for while polling with a token still out: the
    // thread reads the flag right after the poll and ends
    let (s, a) = loop_next(s, LoopEvent::Polled);
    assert_eq!(a, LoopAction::ReadDoneFlag);
    let (s, a) = loop_next(s, LoopEvent::DoneFlag(true));
    assert_eq!((s, a), (LoopState::Stopped, LoopAction::ReleaseDeviceAndStop));
}

#[test]
fn loop_honours_shutdown_once_idle_and_woken() {
    let (s, _) = loop_begin();
    let (s, _) = loop_next(s, LoopEvent::DoneFlag(false));
    let (s, a) = loop_next(s, LoopEvent::WorkCount(0));
    assert_eq!(a, LoopAction::Park);
    let (s, a) = loop_next(s, LoopEvent::Unparked);
    assert_eq!(a, LoopAction::ReadDoneFlag);
    let (s, a) = loop_next(s, LoopEvent::DoneFlag(true));
    assert_eq!((s, a), (LoopState::Stopped, LoopAction::ReleaseDeviceAndStop));
}

#[test]
fn loop_busy_cycle_polls_every_fourth_action() {
    let (mut s, _) = loop_begin();
    let events = [
        LoopEvent::DoneFlag(false),
        LoopEvent::WorkCount(3),
        LoopEvent::DeviceUpgraded(true),
        LoopEvent::Polled,
    ];
    for i in 0..12usize {
        let (next, a) = loop_next(s, events[i % 4]);
        assert_eq!(a == LoopAction::PollWait, i % 4 == 2);
        assert_ne!(a, LoopAction::Park);
        s = next;
    }
}

#[test]
fn count_follows_pending_futures_across_drops() {
    let mut holders = [PollTokenHolder::new(), PollTokenHolder::new()];
    let mut count: usize = 0;
    let (_, c) = holders[0].on_poll::<u8>(None);
    count = apply_token_change(count, c).unwrap();
    let (_, c) = holders[1].on_poll::<u8>(None);
    count = apply_token_change(count, c).unwrap();
    assert_eq!(count, 2);
    // a pending future is dropped: its token goes back
    let c = holders[0].release();
    assert_eq!(c, TokenChange::Release);
    count = apply_token_change(count, c).unwrap();
    assert_eq!(count, 1);
    // dropping a future that holds no token changes nothing
    let c = holders[0].release();
    assert_eq!(c, TokenChange::Keep);
    count = apply_token_change(count, c).unwrap();
    assert_eq!(count, 1);
    let (_, c) = holders[1].on_poll(Some(4u8));
    count = apply_token_change(count, c).unwrap();
    assert_eq!(count, 0);
    assert!(!holders[1].holds_token());
}

#[test]
fn loop_woken_from_park_polls_again() {
    let (s, _) = loop_begin();
    let (s, _) = loop_next(s, LoopEvent::DoneFlag(false));
    let (s, a) = loop_next(s, LoopEvent::WorkCount(0));
    assert_eq!(a, LoopAction::Park);
    // work arrives and the thread is woken
    let (mut s, a) = loop_next(s, LoopEvent::Unparked);
    assert_eq!(a, LoopAction::ReadDoneFlag);
    let events = [
        LoopEvent::DoneFlag(false),
        LoopEvent::WorkCount(1),
        LoopEvent::DeviceUpgraded(true),
        LoopEvent::Polled,
    ];
    let mut polls = 0;
    for i in 0..8usize {
        let (next, a) = loop_next(s, events[i % 4]);
        assert_ne!(a, LoopAction::Park);
        if a == LoopAction::PollWait {
            polls += 1;
        }
        s = next;
    }
    assert_eq!(polls, 2);
}
