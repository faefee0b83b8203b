use pomorust::context::{Context, Status};
use pomorust::errors::{IdentificationError, StartError};
use pomorust::tasks::Task;

const MIN: i64 = 60000;
const ID_A: &str = "aaa4f8b2-1111-4111-8111-000000000001";
const ID_B: &str = "bbb4f8b2-2222-4222-8222-000000000002";

fn task_with_id(id: &str, desc: &str) -> Task {
    Task {
        description: desc.to_string(),
        uuid: id.to_string(),
        pomodori_count: 0,
        pomodori_estimate: 0,
        is_ongoing: false,
        comment: String::new(),
        kind: None,
        start_date: None,
        end_date: None,
    }
}

fn context_with(tasks: Vec<Task>) -> Context {
    Context {
        use_notification: false,
        use_sound: false,
        tasks,
        last_pomodoro: None,
        pomodori_count: 0,
        timer: None,
        pause: false,
    }
}

#[test]
fn start_task_marks_it_ongoing() {
    let mut context = context_with(vec![task_with_id(ID_A, "write spec")]);
    let now: i64 = 1_000_000_000;
    let i = context.start_task("aaa", now).unwrap();
    assert_eq!(i, 0);
    assert!(context.tasks[0].is_ongoing);
    assert_eq!(context.tasks[0].start_date, Some(now));
    assert_eq!(context.timer, Some(now));
}

#[test]
fn start_preserves_first_start_date() {
    let mut task = task_with_id(ID_A, "write spec");
    task.start_date = Some(5);
    let mut context = context_with(vec![task]);
    context.start_task("aaa", 1_000_000_000).unwrap();
    assert_eq!(context.tasks[0].start_date, Some(5));
}

#[test]
fn starting_a_second_task_fails_and_mutates_nothing() {
    let mut context = context_with(vec![
        task_with_id(ID_A, "write spec"),
        task_with_id(ID_B, "review PR"),
    ]);
    let now: i64 = 1_000_000_000;
    context.start_task("aaa", now).unwrap();
    let r = context.start_task("bbb", now + MIN);
    assert_eq!(r, Err(StartError::AlreadyWorking));
    assert!(context.tasks[0].is_ongoing);
    assert!(!context.tasks[1].is_ongoing);
    assert_eq!(context.tasks[1].start_date, None);
    assert_eq!(context.timer, Some(now));
}

#[test]
fn start_task_fails_on_unknown_or_ambiguous_identifier() {
    let mut context = context_with(vec![
        task_with_id(ID_A, "write spec"),
        task_with_id(ID_B, "review PR"),
    ]);
    assert_eq!(
        context.start_task("zzz", 1_000_000),
        Err(StartError::Identification(IdentificationError::NoMatch))
    );
    let mut shared = context_with(vec![
        task_with_id("aaa4f8b2-1111-4111-8111-000000000001", "one"),
        task_with_id("aaa4f8b2-1111-4111-8111-000000000002", "two"),
    ]);
    assert_eq!(
        shared.start_task("aaa", 1_000_000),
        Err(StartError::Identification(IdentificationError::AmbiguousMatch))
    );
    assert!(!context.tasks[0].is_ongoing);
    assert!(!shared.tasks[0].is_ongoing);
}

#[test]
fn complete_pomodoro_updates_task_and_streak() {
    let mut context = context_with(vec![task_with_id(ID_A, "write spec")]);
    let now: i64 = 1_000_000_000;
    context.start_task("aaa", now).unwrap();
    let is_long = context.complete_pomodoro("aaa", now + 25 * MIN).unwrap();
    assert!(!is_long);
    assert_eq!(context.tasks[0].pomodori_count, 1);
    assert!(!context.tasks[0].is_ongoing);
    assert_eq!(context.pomodori_count, 1);
    assert_eq!(context.last_pomodoro, Some(now + 25 * MIN));
    assert_eq!(context.timer, Some(now + 25 * MIN));
    assert!(context.pause);
}

#[test]
fn fourth_consecutive_completion_earns_long_break() {
    let mut context = context_with(vec![task_with_id(ID_A, "write spec")]);
    let now: i64 = 1_000_000_000;
    context.pomodori_count = 3;
    context.last_pomodoro = Some(now - 10 * MIN);
    let is_long = context.complete_pomodoro("aaa", now).unwrap();
    assert!(is_long);
    assert_eq!(context.pomodori_count, 4);
}

#[test]
fn complete_pomodoro_without_match_changes_nothing() {
    let mut context = context_with(vec![task_with_id(ID_A, "write spec")]);
    assert_eq!(
        context.complete_pomodoro("zzz", 1_000_000),
        Err(IdentificationError::NoMatch)
    );
    assert_eq!(context.tasks[0].pomodori_count, 0);
    assert_eq!(context.pomodori_count, 0);
}

#[test]
fn finished_task_leaves_default_listing_but_stays_stored() {
    let mut context = context_with(vec![
        task_with_id(ID_A, "write spec"),
        task_with_id(ID_B, "review PR"),
    ]);
    let now: i64 = 1_000_000_000;
    let i = context.mark_as_done("aaa", now).unwrap();
    assert_eq!(i, 0);
    assert_eq!(context.tasks[0].end_date, Some(now));
    assert!(context.tasks[0].is_finished());
    let current = context.get_current_tasks();
    assert_eq!(current, vec![1]);
    // the full store still holds both tasks
    assert_eq!(context.tasks.len(), 2);
}

#[test]
fn mark_as_done_needs_an_unambiguous_identifier() {
    let mut context = context_with(vec![
        task_with_id("aaa4f8b2-1111-4111-8111-000000000001", "one"),
        task_with_id("aaa4f8b2-1111-4111-8111-000000000002", "two"),
    ]);
    assert_eq!(
        context.mark_as_done("aaa", 1_000_000),
        Err(IdentificationError::AmbiguousMatch)
    );
    assert_eq!(context.tasks[0].end_date, None);
    assert_eq!(
        context.mark_as_done("zzz", 1_000_000),
        Err(IdentificationError::NoMatch)
    );
}

#[test]
fn status_reports_idle_working_and_break() {
    let mut context = context_with(vec![task_with_id(ID_A, "write spec")]);
    let now: i64 = 1_000_000_000;
    match context.status(now) {
        Status::Idle => {}
        _ => panic!("expected an idle session"),
    }
    context.start_task("aaa", now).unwrap();
    match context.status(now + 5 * MIN + 30_000) {
        Status::Working { description, minutes } => {
            assert_eq!(description, "write spec");
            assert_eq!(minutes, 5);
        }
        _ => panic!("expected a working session"),
    }
    context.complete_pomodoro("aaa", now + 25 * MIN).unwrap();
    match context.status(now + 27 * MIN) {
        Status::OnBreak { minutes } => {
            assert_eq!(minutes, 2);
        }
        _ => panic!("expected a session on break"),
    }
    context.end_break();
    assert_eq!(context.timer, None);
    assert!(!context.pause);
    match context.status(now + 31 * MIN) {
        Status::Idle => {}
        _ => panic!("expected an idle session after the break"),
    }
}

#[test]
fn add_task_appends_in_listing_order() {
    let mut context = Context::default();
    context.add_task(Task::new("first", 2, None));
    context.add_task(Task::new("second", 3, Some("chores".to_string())));
    assert_eq!(context.tasks.len(), 2);
    assert_eq!(context.tasks[0].description, "first");
    assert_eq!(context.tasks[1].description, "second");
    assert_eq!(context.tasks[1].pomodori_estimate, 3);
    assert_eq!(context.tasks[1].kind, Some("chores".to_string()));
}

#[test]
fn task_lifecycle_direct_operations() {
    let mut task = Task::new("unit of work", 4, None);
    assert!(!task.is_finished());
    task.start(100);
    assert!(task.is_ongoing);
    assert_eq!(task.start_date, Some(100));
    task.do_one_pomodoro();
    assert_eq!(task.pomodori_count, 1);
    assert!(!task.is_ongoing);
    task.start(200);
    assert_eq!(task.start_date, Some(100));
    task.finish(300);
    assert_eq!(task.end_date, Some(300));
    assert!(task.is_finished());
}
