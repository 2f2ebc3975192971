use logv::data_source::line_source::LineSourceImpl;
use logv::model::go_to::{GoToError, GoToOutcome};
use logv::model::go_to_date::{bin_search, GoToDateModel, DATE_FORMAT};
use logv::search::searcher::Occurrence;

const LOG: &str = "01-Jan-2024 10:00:00 a\nno date here\n01-Jan-2024 11:00:00 b\n01-Jan-2024 12:00:00 c\n01-Jan-2024 12:00:00 d\n01-Jan-2024 13:00:00 e";

fn at(hour: i64, minute: i64) -> (i64, u32) {
    (1704067200 + hour * 3600 + minute * 60, 0)
}

fn search(text: &str, date: (i64, u32)) -> Result<i64, GoToError> {
    let reader = LineSourceImpl::from_str(text);
    bin_search(date, &reader, DATE_FORMAT, || false)
}

#[test]
fn finds_first_line_with_the_date() {
    assert_eq!(search(LOG, at(12, 0)), Ok(59));
}

#[test]
fn finds_last_line_before_a_missing_date() {
    assert_eq!(search(LOG, at(11, 30)), Ok(36));
}

#[test]
fn date_before_all_lines_gives_the_first_dated_line() {
    assert_eq!(search(LOG, at(9, 0)), Ok(0));
}

#[test]
fn date_after_all_lines_gives_the_last_dated_line() {
    assert_eq!(search(LOG, at(14, 0)), Ok(105));
}

#[test]
fn date_of_the_last_line_gives_the_last_line() {
    assert_eq!(search(LOG, at(13, 0)), Ok(105));
}

#[test]
fn two_lines_with_the_later_one_dated_as_asked() {
    let text = "01-Jan-2024 10:00:00 a\n01-Jan-2024 12:00:00 b";
    assert_eq!(search(text, at(12, 0)), Ok(23));
}

#[test]
fn no_dated_line_is_not_reachable() {
    assert_eq!(search("no dates\nat all\n", at(12, 0)), Err(GoToError::NotReachable));
    assert_eq!(search("", at(12, 0)), Err(GoToError::NotReachable));
}

#[test]
fn interrupted_search_is_cancelled() {
    let reader = LineSourceImpl::from_str(LOG);
    assert_eq!(bin_search(at(12, 0), &reader, DATE_FORMAT, || true), Err(GoToError::Cancelled));
}

#[test]
fn submit_parses_the_typed_date_and_closes_the_dialog() {
    let mut model = GoToDateModel::new();
    assert_eq!(model.set_is_open(true), Some(true));
    model.set_value("01-Jan-2024 12:00:00");
    assert_eq!(model.get_value(), "01-Jan-2024 12:00:00");
    let r = model.submit(7);
    assert_eq!(r, Ok((at(12, 0), Some(false), None)));
    assert!(!model.is_open());
    assert_eq!(model.handle_result(7, Some(Ok(59))), Ok(GoToOutcome::Found(Occurrence::new(59, 59))));
}

#[test]
fn submit_refuses_a_malformed_date() {
    let mut model = GoToDateModel::new();
    model.set_value("tomorrow");
    assert!(model.submit(1).is_err());
    assert!(model.go_to_model.current_process.is_none());
}

#[test]
fn result_of_another_process_is_ignored() {
    let mut model = GoToDateModel::new();
    model.set_value("01-Jan-2024 12:00:00");
    let _ = model.submit(1);
    let r = model.submit(2);
    assert_eq!(r.map(|(_, _, previous)| previous), Ok(Some(1)));
    assert_eq!(model.handle_result(1, Some(Ok(3))), Ok(GoToOutcome::Nothing));
}
