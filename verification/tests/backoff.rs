use ephyr::backoff::{Backoff, BackoffAction, BackoffEvent, Phase};
use ephyr::vod::meta::state::{State, Versioned};

#[test]
fn backoff_doubles_and_resets() {
    let mut b = Backoff::new();
    assert_eq!(b.step(BackoffEvent::Failed { permanent: false }), BackoffAction::Delay(100));
    assert_eq!(b.phase, Phase::Delayed);
    assert_eq!(b.step(BackoffEvent::Read(3)), BackoffAction::Ignore);
    assert_eq!(b.step(BackoffEvent::DelayElapsed), BackoffAction::Restart);
    assert_eq!(b.step(BackoffEvent::Failed { permanent: false }), BackoffAction::Delay(200));
    assert_eq!(b.step(BackoffEvent::DelayElapsed), BackoffAction::Restart);
    assert_eq!(b.step(BackoffEvent::Read(5)), BackoffAction::Yield(5));
    assert_eq!(b.duration_millis, 100);
    assert_eq!(b.step(BackoffEvent::Failed { permanent: true }), BackoffAction::Fail);
}

#[test]
fn backoff_stops_doubling_at_a_minute() {
    let mut d = 51_200;
    Backoff::increase_duration(&mut d);
    assert_eq!(d, 102_400);
    Backoff::increase_duration(&mut d);
    assert_eq!(d, 102_400);
    Backoff::reset_duration(&mut d);
    assert_eq!(d, 100);
}

#[test]
fn versions_refuse_outdated_changes() {
    let mut v = Versioned::new(State::new());
    assert!(v.accepts(None));
    assert!(v.set_state(State::new(), Some(0)));
    assert_eq!(v.version, 1);
    assert!(!v.set_state(State::new(), Some(0)));
    assert_eq!(v.version, 1);
    assert!(v.set_state(State::new(), None));
    assert_eq!(v.version, 2);
}
