use my_timers::cron::CronParseError;
use my_timers::events::{
    accept_validated, next_to_prepare, parse, statements_to_validate, Event, EventParseError,
};

fn load(text: &str) -> Vec<Event> {
    match parse(text) {
        Ok(evs) => evs,
        Err(e) => panic!("{:?}", e),
    }
}

#[test]
fn two_indented_lines_make_one_event() {
    let evs = load("cleanup: 0 * * * *\n\tDELETE FROM a WHERE x < 1;\n\tUPDATE b SET y = 2; INSERT INTO c VALUES (3);\n");
    assert_eq!(evs.len(), 1);
    assert_eq!(evs[0].label, "cleanup");
    assert_eq!(
        evs[0].statements(),
        &vec![
            "DELETE FROM a WHERE x < 1".to_string(),
            "UPDATE b SET y = 2".to_string(),
            "INSERT INTO c VALUES (3)".to_string(),
        ]
    );
}

#[test]
fn statement_spanning_two_lines() {
    let evs = load("e: * * * * *\n  UPDATE t\n  SET a = 1;");
    assert_eq!(evs.len(), 1);
    assert_eq!(evs[0].statements(), &vec!["UPDATE t   SET a = 1".to_string()]);
}

#[test]
fn events_in_file_order_with_comments() {
    let text = "# header comment\nfirst: 5 * * * * # every hour\n\tSELECT 1; # trailing\n\nsecond: 0 12 * * 1 @startup\n\tSELECT 2;\n";
    let evs = load(text);
    assert_eq!(evs.len(), 2);
    assert_eq!(evs[0].label, "first");
    assert_eq!(evs[1].label, "second");
    assert!(evs[1].interval.startup);
    assert!(!evs[0].interval.startup);
    assert_eq!(evs[0].statements(), &vec!["SELECT 1".to_string()]);
}

#[test]
fn startup_token_with_spaces_in_event_file() {
    let evs = load("boot: 0 0 1 1 *  @startup  \n\tSELECT 1;\n");
    assert!(evs[0].interval.startup);
}

#[test]
fn multi_line_label_and_schedule() {
    let evs = load("long\nlabel: 0 0\n 1 1 *\n\tSELECT 1;\n");
    assert_eq!(evs.len(), 1);
    assert_eq!(evs[0].label, "long label");
    assert!(evs[0].interval.match_time(&my_timers::cron::Moment {
        minute: 0,
        hour: 0,
        day: 1,
        month: 1,
        weekday: 3
    }));
}

#[test]
fn tabs_removed_and_empty_statements_dropped() {
    let evs = load("e: * * * * *\n\tSELECT\t1;;  ;\r\n");
    assert_eq!(evs[0].statements(), &vec!["SELECT1".to_string()]);
}

#[test]
fn blank_and_empty_files() {
    assert_eq!(load("").len(), 0);
    assert_eq!(load("\n\n# only comments\n").len(), 0);
}

#[test]
fn schedule_error_stops_the_load() {
    let r = parse("bad: 61 * * * *\n\tSELECT 1;\n");
    assert!(matches!(
        r,
        Err(EventParseError::CronParseError(CronParseError::OutOfRange(_, _)))
    ));
}

#[test]
fn event_without_body_is_an_error() {
    match parse("lonely: * * * * *\n") {
        Err(EventParseError::SyntaxError(m)) => assert_eq!(
            m,
            "lonely unexpected number of event tokens (expected 3, received 2)"
        ),
        other => panic!("{:?}", other),
    }
    match parse("no colon here") {
        Err(EventParseError::SyntaxError(m)) => assert_eq!(
            m,
            "no colon here unexpected number of event tokens (expected 3, received 1)"
        ),
        other => panic!("{:?}", other),
    }
}

#[test]
fn statements_for_validation_in_file_order() {
    let evs = load("a: * * * * *\n\tS1; S2;\n\nb: * * * * *\n\tS3;\n");
    assert_eq!(
        statements_to_validate(&evs),
        vec!["S1".to_string(), "S2".to_string(), "S3".to_string()]
    );
}

#[test]
fn rejected_statement_aborts_the_load() {
    let evs = load("a: * * * * *\n\tS1; S2; S3;\n");
    let statements = statements_to_validate(&evs);
    let outcomes = vec![Ok(()), Err("syntax error".to_string())];
    match accept_validated(evs, &statements, &outcomes) {
        Err(EventParseError::SQLError { statement, reason }) => {
            assert_eq!(statement, "S2");
            assert_eq!(reason, "syntax error");
        }
        other => panic!("{:?}", other),
    }
    let evs = load("a: * * * * *\n\tS1; S2;\n");
    let statements = statements_to_validate(&evs);
    let kept = accept_validated(evs, &statements, &vec![Ok(()), Ok(())]).unwrap();
    assert_eq!(kept.len(), 1);
}

#[test]
fn preparing_stops_at_first_rejection() {
    let mut outcomes: Vec<Result<(), String>> = Vec::new();
    assert_eq!(next_to_prepare(3, &outcomes), Some(0));
    outcomes.push(Ok(()));
    assert_eq!(next_to_prepare(3, &outcomes), Some(1));
    outcomes.push(Err("bad".to_string()));
    assert_eq!(next_to_prepare(3, &outcomes), None);
    assert_eq!(next_to_prepare(2, &vec![Ok(()), Ok(())]), None);
    assert_eq!(next_to_prepare(0, &Vec::new()), None);
}

#[test]
fn action_summaries() {
    assert_eq!(Event::action("INSERT INTO t (a) VALUES (1)"), "INSERT INTO t");
    assert_eq!(Event::action("insert into t values (1)"), "insert into t");
    assert_eq!(Event::action("UPDATE t, u SET a = 1"), "UPDATE t, u");
    assert_eq!(Event::action("DELETE FROM t WHERE a = 1"), "DELETE FROM t");
    assert_eq!(Event::action("  SELECT * FROM t"), "SELECT *");
    assert_eq!(Event::action("COMMIT"), "COMMIT");
}
