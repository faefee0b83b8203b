use pomorust::context::Context;
use pomorust::errors::{IdentificationError, ParseError};
use pomorust::time::{current_timestamp, MAX_TIMESTAMP_MS};

const MIN: i64 = 60000;

fn fresh_context() -> Context {
    Context {
        use_notification: false,
        use_sound: false,
        tasks: vec![],
        last_pomodoro: None,
        pomodori_count: 0,
        timer: None,
        pause: false,
    }
}

#[test]
fn test_pomodoro_count() {
    let mut context = fresh_context();
    let now: i64 = 1_000_000_000;
    // First pomodoro of a session
    context.increment_pomodoro_count(now);
    // Counter should have been incremented
    assert_eq!(context.pomodori_count, 1);
    // Last pomodoro should be recent
    assert_eq!(true, context.last_pomodoro_was_recent(now));
    // There should be only a brief pause
    assert_eq!(false, context.should_be_long_pause(now));
    // Second pomodoro of a session
    context.increment_pomodoro_count(now + 10 * MIN);
    // Third pomodoro of a session
    context.increment_pomodoro_count(now + 20 * MIN);
    assert_eq!(false, context.should_be_long_pause(now + 20 * MIN));
}

#[test]
fn streak_reaches_long_break_then_wraps() {
    let mut context = fresh_context();
    let start: i64 = 1_000_000_000;
    context.increment_pomodoro_count(start);
    assert_eq!(context.pomodori_count, 1);
    assert!(!context.should_be_long_pause(start));
    context.increment_pomodoro_count(start + 10 * MIN);
    assert_eq!(context.pomodori_count, 2);
    assert!(!context.should_be_long_pause(start + 10 * MIN));
    context.increment_pomodoro_count(start + 20 * MIN);
    assert_eq!(context.pomodori_count, 3);
    context.increment_pomodoro_count(start + 30 * MIN);
    assert_eq!(context.pomodori_count, 4);
    // the fourth consecutive pomodoro earns the long break
    assert!(context.should_be_long_pause(start + 30 * MIN));
    // a fifth completion soon after wraps the streak past four to zero
    context.increment_pomodoro_count(start + 40 * MIN);
    assert_eq!(context.pomodori_count, 0);
    assert!(!context.should_be_long_pause(start + 40 * MIN));
}

#[test]
fn stale_completion_resets_streak() {
    let mut context = fresh_context();
    let start: i64 = 2_000_000_000;
    context.pomodori_count = 3;
    context.last_pomodoro = Some(start);
    context.increment_pomodoro_count(start + 42 * MIN);
    assert_eq!(context.pomodori_count, 1);
}

#[test]
fn recency_window_boundary() {
    let mut context = fresh_context();
    let start: i64 = 3_000_000_000;
    context.last_pomodoro = Some(start);
    // 40 minutes and 59.999 seconds later: still 40 whole minutes, recent
    assert!(context.last_pomodoro_was_recent(start + 41 * MIN - 1));
    // 41 whole minutes later: no longer recent
    assert!(!context.last_pomodoro_was_recent(start + 41 * MIN));
    // exactly 40 minutes later: recent
    assert!(context.last_pomodoro_was_recent(start + 40 * MIN));
    context.pomodori_count = 2;
    context.increment_pomodoro_count(start + 41 * MIN - 1);
    assert_eq!(context.pomodori_count, 3);
    let mut other = fresh_context();
    other.pomodori_count = 2;
    other.last_pomodoro = Some(start);
    other.increment_pomodoro_count(start + 41 * MIN);
    assert_eq!(other.pomodori_count, 1);
}

#[test]
fn current_timestamp_is_in_store_range() {
    let t = current_timestamp();
    assert!(t >= 0);
    assert!(t <= MAX_TIMESTAMP_MS);
    // the clock feeds the streak rule without complaint
    let mut context = fresh_context();
    context.increment_pomodoro_count(t);
    assert_eq!(context.pomodori_count, 1);
    assert!(context.last_pomodoro_was_recent(current_timestamp()));
}

#[test]
fn error_messages_name_the_failure() {
    assert_eq!(
        IdentificationError::NoMatch.message(),
        "no task matches this identifier"
    );
    assert_eq!(
        IdentificationError::AmbiguousMatch.message(),
        "several tasks match this identifier"
    );
    assert_eq!(
        ParseError::BadUuid.message(),
        "task file is corrupt: uuid not parsable"
    );
    assert_eq!(
        ParseError::MissingField.message(),
        "task file is corrupt: a field is missing"
    );
    assert_eq!(
        ParseError::BadNumber.message(),
        "task file is corrupt: pomodori count not parsable"
    );
    assert_eq!(
        ParseError::BadDate.message(),
        "task file is corrupt: date not parsable"
    );
}

#[test]
fn no_last_pomodoro_is_never_recent() {
    let context = fresh_context();
    assert!(!context.last_pomodoro_was_recent(5_000_000));
    assert!(!context.should_be_long_pause(5_000_000));
}
