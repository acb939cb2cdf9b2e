use multiprocessor::taskfile::{parse_task_records, parse_time_step, read_tasks, trim, TaskFileError};

fn chars(s: &str) -> Vec<char> {
    s.chars().collect()
}

fn record(fields: &[&str]) -> Vec<Vec<char>> {
    fields.iter().map(|f| chars(f)).collect()
}

#[test]
fn trim_removes_white_space_at_both_ends() {
    assert_eq!(trim(&chars("  4\t")), chars("4"));
    assert_eq!(trim(&chars("a b")), chars("a b"));
    assert_eq!(trim(&chars(" \n ")), chars(""));
    assert_eq!(trim(&chars("")), chars(""));
}

#[test]
fn parse_time_step_reads_signed_decimals() {
    assert_eq!(parse_time_step(&chars("42")), Some(42));
    assert_eq!(parse_time_step(&chars("+5")), Some(5));
    assert_eq!(parse_time_step(&chars("-7")), Some(-7));
    assert_eq!(parse_time_step(&chars("-0")), Some(0));
    assert_eq!(parse_time_step(&chars("007")), Some(7));
}

#[test]
fn parse_time_step_refuses_what_is_no_number() {
    assert_eq!(parse_time_step(&chars("")), None);
    assert_eq!(parse_time_step(&chars("-")), None);
    assert_eq!(parse_time_step(&chars("+")), None);
    assert_eq!(parse_time_step(&chars(" 1")), None);
    assert_eq!(parse_time_step(&chars("1x")), None);
    assert_eq!(parse_time_step(&chars("+-1")), None);
}

#[test]
fn parse_time_step_agrees_with_std_at_the_limits() {
    let max = isize::MAX.to_string();
    let min = isize::MIN.to_string();
    assert_eq!(parse_time_step(&chars(&max)), Some(isize::MAX));
    assert_eq!(parse_time_step(&chars(&min)), Some(isize::MIN));
    let over = format!("{}0", max);
    let under = format!("{}0", min);
    assert_eq!(parse_time_step(&chars(&over)), None);
    assert_eq!(parse_time_step(&chars(&under)), None);
    let just_over = (isize::MAX as i128 + 1).to_string();
    assert_eq!(parse_time_step(&chars(&just_over)), None);
}

#[test]
fn read_tasks_numbers_tasks_from_one_and_trims_later_fields() {
    let ts = read_tasks(b"0,1,4,4\n2, 3 ,6,8\n").unwrap();
    let tasks = ts.get_tasks();
    assert_eq!(tasks.len(), 2);
    assert_eq!(tasks[0].id(), 1);
    assert_eq!(tasks[0].offset(), 0);
    assert_eq!(tasks[0].wcet(), 1);
    assert_eq!(tasks[0].deadline(), 4);
    assert_eq!(tasks[0].period(), 4);
    assert_eq!(tasks[1].id(), 2);
    assert_eq!(tasks[1].offset(), 2);
    assert_eq!(tasks[1].wcet(), 3);
    assert_eq!(tasks[1].deadline(), 8);
    assert_eq!(tasks[1].period(), 10);
}

#[test]
fn read_tasks_of_nothing_is_an_empty_set() {
    let ts = read_tasks(b"").unwrap();
    assert!(ts.is_empty());
}

#[test]
fn read_tasks_does_not_trim_the_offset() {
    match read_tasks(b"0,1,4,4\n 1,1,4,4\n") {
        Err(TaskFileError::InvalidNumber { record, field }) => {
            assert_eq!(record, 1);
            assert_eq!(field, 0);
        }
        other => panic!("unexpected result: {:?}", other.is_ok()),
    }
}

#[test]
fn read_tasks_reports_the_first_bad_field() {
    match read_tasks(b"0,1,x,y\n") {
        Err(TaskFileError::InvalidNumber { record, field }) => {
            assert_eq!(record, 0);
            assert_eq!(field, 2);
        }
        other => panic!("unexpected result: {:?}", other.is_ok()),
    }
}

#[test]
fn read_tasks_reports_a_missing_field() {
    match read_tasks(b"0,1,4\n") {
        Err(TaskFileError::MissingField { record, field }) => {
            assert_eq!(record, 0);
            assert_eq!(field, 3);
        }
        other => panic!("unexpected result: {:?}", other.is_ok()),
    }
}

#[test]
fn read_tasks_reports_a_csv_failure_after_good_records() {
    match read_tasks(b"0,1,4,4\n0,1,4,4,9\n") {
        Err(TaskFileError::Csv(_)) => {}
        other => panic!("unexpected result: {:?}", other.is_ok()),
    }
}

#[test]
fn read_tasks_reports_a_bad_field_before_a_later_csv_failure() {
    match read_tasks(b"0,z,4,4\n0,1,4,4,9\n") {
        Err(TaskFileError::InvalidNumber { record, field }) => {
            assert_eq!(record, 0);
            assert_eq!(field, 1);
        }
        other => panic!("unexpected result: {:?}", other.is_ok()),
    }
}

#[test]
fn parse_task_records_builds_the_tasks() {
    let records = vec![record(&["1", " 2", "5 ", " 10 "]), record(&["0", "1", "3", "3"])];
    let ts = parse_task_records(&records).unwrap();
    let tasks = ts.get_tasks();
    assert_eq!(tasks.len(), 2);
    assert_eq!(tasks[0].id(), 1);
    assert_eq!(tasks[0].offset(), 1);
    assert_eq!(tasks[0].wcet(), 2);
    assert_eq!(tasks[0].deadline(), 6);
    assert_eq!(tasks[0].period(), 11);
    assert_eq!(tasks[1].id(), 2);
    assert_eq!(tasks[1].wcet(), 1);
}

#[test]
fn parse_task_records_reports_an_invalid_number() {
    let records = vec![record(&["0", "1", "3", "3"]), record(&["0", "1", "-", "3"])];
    match parse_task_records(&records) {
        Err(TaskFileError::InvalidNumber { record, field }) => {
            assert_eq!(record, 1);
            assert_eq!(field, 2);
        }
        other => panic!("unexpected result: {:?}", other.is_ok()),
    }
}
