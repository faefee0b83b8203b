use pomorust::context::Context;
use pomorust::errors::ParseError;
use pomorust::tasks::{check_uuid_text, Task};
use pomorust::time::parse_maybe_local_date;

const ID_A: &str = "aaa4f8b2-1111-4111-8111-000000000001";
const ID_B: &str = "aab4f8b2-2222-4222-8222-000000000002";

fn task_with_id(id: &str, desc: &str) -> Task {
    Task {
        description: desc.to_string(),
        uuid: id.to_string(),
        pomodori_count: 0,
        pomodori_estimate: 0,
        is_ongoing: false,
        comment: String::new(),
        kind: None,
        start_date: None,
        end_date: None,
    }
}

#[test]
fn task_line_round_trip_full() {
    let task = Task {
        description: "write spec".to_string(),
        uuid: ID_A.to_string(),
        pomodori_count: 7,
        pomodori_estimate: 12,
        is_ongoing: true,
        comment: "tricky one".to_string(),
        kind: Some("writing".to_string()),
        start_date: Some(1462104000000),
        end_date: Some(1462110000000),
    };
    let line = task.to_csv();
    assert_eq!(line.chars().last(), Some('\n'));
    let body = &line[..line.len() - 1];
    let back = Task::from_csv(body).unwrap();
    assert_eq!(back.description, task.description);
    assert_eq!(back.uuid, task.uuid);
    assert_eq!(back.pomodori_count, task.pomodori_count);
    assert_eq!(back.pomodori_estimate, task.pomodori_estimate);
    assert_eq!(back.is_ongoing, task.is_ongoing);
    assert_eq!(back.comment, task.comment);
    assert_eq!(back.kind, task.kind);
    assert_eq!(back.start_date, task.start_date);
    assert_eq!(back.end_date, task.end_date);
}

#[test]
fn task_line_round_trip_empty_optionals() {
    let task = task_with_id(ID_A, "bare");
    let line = task.to_csv();
    let body = &line[..line.len() - 1];
    let back = Task::from_csv(body).unwrap();
    assert_eq!(back.kind, None);
    assert_eq!(back.start_date, None);
    assert_eq!(back.end_date, None);
    assert_eq!(back.is_ongoing, false);
}

#[test]
fn task_line_exact_format_without_dates() {
    let mut task = task_with_id(ID_A, "desc");
    task.pomodori_count = 3;
    task.pomodori_estimate = 5;
    task.comment = "note".to_string();
    let line = task.to_csv();
    let expected = format!("desc;{};3;5;note;false;;;\n", ID_A);
    assert_eq!(line, expected);
}

#[test]
fn session_file_round_trip() {
    let mut t1 = task_with_id(ID_A, "write spec");
    t1.pomodori_count = 2;
    t1.pomodori_estimate = 4;
    t1.start_date = Some(1462104000000);
    let mut t2 = task_with_id(ID_B, "review PR");
    t2.is_ongoing = true;
    t2.kind = Some("review".to_string());
    let context = Context {
        use_notification: true,
        use_sound: true,
        tasks: vec![t1, t2],
        last_pomodoro: Some(1462104000123),
        pomodori_count: 3,
        timer: Some(1462107000456),
        pause: true,
    };
    let text = context.to_file_string();
    let back = Context::from_file_string(&text).unwrap();
    assert_eq!(back.last_pomodoro, context.last_pomodoro);
    assert_eq!(back.pomodori_count, context.pomodori_count);
    assert_eq!(back.timer, context.timer);
    assert_eq!(back.pause, context.pause);
    assert!(back.use_notification);
    assert!(back.use_sound);
    assert_eq!(back.tasks.len(), 2);
    assert_eq!(back.tasks[0].description, "write spec");
    assert_eq!(back.tasks[0].pomodori_count, 2);
    assert_eq!(back.tasks[0].start_date, Some(1462104000000));
    assert_eq!(back.tasks[1].uuid, ID_B);
    assert_eq!(back.tasks[1].is_ongoing, true);
    assert_eq!(back.tasks[1].kind, Some("review".to_string()));
}

#[test]
fn default_session_round_trip() {
    let context = Context::default();
    let text = context.to_file_string();
    let back = Context::from_file_string(&text).unwrap();
    assert_eq!(back.last_pomodoro, None);
    assert_eq!(back.pomodori_count, 0);
    assert_eq!(back.timer, None);
    assert_eq!(back.pause, false);
    assert_eq!(back.tasks.len(), 0);
}

#[test]
fn header_line_round_trip() {
    let context = Context {
        use_notification: false,
        use_sound: false,
        tasks: vec![],
        last_pomodoro: Some(1462104000000),
        pomodori_count: 4,
        timer: None,
        pause: false,
    };
    let line = context.metadata_to_csv_line();
    assert_eq!(line.chars().last(), Some('\n'));
    let back = Context::from_csv_line(&line[..line.len() - 1]).unwrap();
    assert_eq!(back.last_pomodoro, Some(1462104000000));
    assert_eq!(back.pomodori_count, 4);
    assert_eq!(back.timer, None);
    assert_eq!(back.pause, false);
    // the flags come from configuration, not from the store
    assert!(back.use_notification);
    assert!(back.use_sound);
}

#[test]
fn empty_store_text_is_corrupt() {
    assert!(matches!(Context::from_file_string(""), Err(ParseError::MissingField)));
    assert!(matches!(Context::from_csv_line(""), Err(ParseError::MissingField)));
}

#[test]
fn task_line_with_missing_fields_is_corrupt() {
    assert!(matches!(Task::from_csv("only;three;fields"), Err(ParseError::MissingField)));
}

#[test]
fn task_line_with_bad_uuid_is_corrupt() {
    let line = "desc;NOT-A-UUID;0;0;;false;;;".to_string();
    assert!(matches!(Task::from_csv(&line), Err(ParseError::BadUuid)));
}

#[test]
fn task_line_with_bad_count_is_corrupt() {
    let line = format!("desc;{};many;0;;false;;;", ID_A);
    assert!(matches!(Task::from_csv(&line), Err(ParseError::BadNumber)));
    let too_big = format!("desc;{};65536;0;;false;;;", ID_A);
    assert!(matches!(Task::from_csv(&too_big), Err(ParseError::BadNumber)));
}

#[test]
fn task_line_with_bad_date_is_corrupt() {
    let line = format!("desc;{};0;0;;false;;yesterday;", ID_A);
    assert!(matches!(Task::from_csv(&line), Err(ParseError::BadDate)));
}

#[test]
fn header_line_with_bad_number_is_corrupt() {
    assert!(matches!(Context::from_csv_line(";x;;false"), Err(ParseError::BadNumber)));
}

#[test]
fn header_line_with_bad_date_is_corrupt() {
    assert!(matches!(Context::from_csv_line("soon;1;;false"), Err(ParseError::BadDate)));
}

#[test]
fn one_bad_task_line_corrupts_the_store() {
    let good = task_with_id(ID_A, "fine");
    let context = Context {
        use_notification: true,
        use_sound: true,
        tasks: vec![good],
        last_pomodoro: None,
        pomodori_count: 0,
        timer: None,
        pause: false,
    };
    let mut text = context.to_file_string();
    text.push_str("broken line\n");
    assert!(matches!(Context::from_file_string(&text), Err(ParseError::MissingField)));
}

#[test]
fn date_fields_parse_back() {
    assert_eq!(parse_maybe_local_date(""), Ok(None));
    assert_eq!(
        parse_maybe_local_date("2016-05-01T12:00:00+00:00"),
        Ok(Some(1462104000000))
    );
    assert_eq!(parse_maybe_local_date("yesterday"), Err(ParseError::BadDate));
}

#[test]
fn fresh_ids_have_the_canonical_form() {
    let t = Task::new("anything", 1, None);
    assert!(check_uuid_text(&t.uuid));
    assert_eq!(t.uuid.len(), 36);
    let other = Task::new("another", 1, None);
    assert!(check_uuid_text(&other.uuid));
}
