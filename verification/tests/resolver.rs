use pomorust::context::Context;
use pomorust::errors::IdentificationError;
use pomorust::tasks::Task;

fn task_with_id(id: &str, desc: &str) -> Task {
    Task {
        description: desc.to_string(),
        uuid: id.to_string(),
        pomodori_count: 0,
        pomodori_estimate: 0,
        is_ongoing: false,
        comment: String::new(),
        kind: None,
        start_date: None,
        end_date: None,
    }
}

fn context_with(tasks: Vec<Task>) -> Context {
    Context {
        use_notification: false,
        use_sound: false,
        tasks,
        last_pomodoro: None,
        pomodori_count: 0,
        timer: None,
        pause: false,
    }
}

const ID_A: &str = "aaa4f8b2-1111-4111-8111-000000000001";
const ID_B: &str = "aab4f8b2-2222-4222-8222-000000000002";
const ID_C: &str = "ccc4f8b2-3333-4333-8333-000000000003";

#[test]
fn unique_prefix_resolves_to_that_task() {
    let context = context_with(vec![
        task_with_id(ID_A, "write spec"),
        task_with_id(ID_C, "other work"),
    ]);
    assert!(context.is_valid_identifier("aaa").is_ok());
    assert_eq!(context.get_task("aaa"), Some(0));
    assert!(context.is_valid_identifier("ccc").is_ok());
    assert_eq!(context.get_task("ccc"), Some(1));
}

#[test]
fn full_id_resolves_to_its_task() {
    let context = context_with(vec![
        task_with_id(ID_A, "write spec"),
        task_with_id(ID_B, "review"),
    ]);
    assert!(context.is_valid_identifier(ID_B).is_ok());
    assert_eq!(context.get_task(ID_B), Some(1));
}

#[test]
fn no_match_fails() {
    let context = context_with(vec![task_with_id(ID_A, "write spec")]);
    assert_eq!(
        context.is_valid_identifier("zzz"),
        Err(IdentificationError::NoMatch)
    );
    assert_eq!(context.get_task("zzz"), None);
}

#[test]
fn ambiguous_match_fails() {
    let context = context_with(vec![
        task_with_id(ID_A, "write spec"),
        task_with_id(ID_B, "review PR"),
    ]);
    assert_eq!(
        context.is_valid_identifier("aa"),
        Err(IdentificationError::AmbiguousMatch)
    );
}

#[test]
fn shared_prefix_scenario() {
    let context = context_with(vec![
        task_with_id(ID_A, "write spec"),
        task_with_id(ID_B, "review PR"),
    ]);
    // "aa" starts both ids: the resolver must not guess
    assert_eq!(
        context.is_valid_identifier("aa"),
        Err(IdentificationError::AmbiguousMatch)
    );
    // "aaa" starts only the first id: the resolver yields the first task
    assert!(context.is_valid_identifier("aaa").is_ok());
    let i = context.get_task("aaa").unwrap();
    assert_eq!(i, 0);
    assert_eq!(context.tasks[i].description, "write spec");
}

#[test]
fn empty_collection_never_matches() {
    let context = context_with(vec![]);
    assert_eq!(
        context.is_valid_identifier("a"),
        Err(IdentificationError::NoMatch)
    );
}

#[test]
fn task_prefix_matching_is_case_sensitive() {
    let task = task_with_id(ID_A, "x");
    assert!(task.can_be_identified_by("aaa4"));
    assert!(!task.can_be_identified_by("AAA4"));
    assert!(task.can_be_identified_by(""));
    assert!(!task.can_be_identified_by("aaa5"));
}
