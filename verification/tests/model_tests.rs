use logv::data_source::line::Line;
use logv::decimal::decimal_string;
use logv::interval::Interval;
use logv::data_source::line_source::LineSourceImpl;
use logv::data_source::read_delimited::{Data, Direction};
use logv::data_source::text::Text;
use logv::model::bgp_model::{BGPModel, BGPModelEvent};
use logv::model::cursor_helper::LineIterator;
use logv::model::cursor_shift::CursorShift;
use logv::model::go_to::{parse_u64, GoToLineModel, LineSeek, LineSeekStep, ParseNumberError};
use logv::model::model::RootModel;
use logv::model::model_event::ModelEvent;
use logv::model::open_file_model::{listing, DirEntry0, OpenFileModel, OpenFileModelEvent, SubmitAction};
use logv::model::rendered::{DataRender, LineRender};
use logv::model::search_model::SearchModel;
use logv::model::navigable_searcher_constructor::NavigableSearcherConstructorError;
use logv::search::searcher::Occurrence;
use logv::selection::Selection;
use logv::ui::UIElementName;

fn loaded(text: &str, height: i64) -> RootModel {
    let mut model = RootModel::new();
    model.set_viewport_width(20);
    model.set_viewport_height(height);
    model.load_text("sample.log", Text::from_str(text));
    model
}

fn shown_lines(model: &RootModel) -> Vec<String> {
    model.data().map(|d| d.lines.iter().map(|l| l.content.clone()).collect()).unwrap_or_default()
}

#[test]
fn loading_a_text_shows_its_first_lines() {
    let mut model = loaded("AAA\nBBB\nCCC\nDDD", 2);
    assert_eq!(shown_lines(&model), vec!["AAA", "BBB"]);
    assert_eq!(model.get_cursor(), 0);
    let events = model.take_events();
    assert!(events.iter().any(|e| matches!(e, ModelEvent::FileName(name, 15) if name == "sample.log")));
}

#[test]
fn scrolling_down_and_back() {
    let mut model = loaded("AAA\nBBB\nCCC\nDDD", 2);
    model.scroll(1);
    assert_eq!(shown_lines(&model), vec!["BBB", "CCC"]);
    model.scroll(-1);
    assert_eq!(shown_lines(&model), vec!["AAA", "BBB"]);
}

#[test]
fn cursor_moves_down_to_the_same_column() {
    let mut model = loaded("AAA\nBBB\nCCC\nDDD", 4);
    model.move_cursor(CursorShift::right(), false);
    assert_eq!(model.get_cursor(), 1);
    model.move_cursor(CursorShift::down(), false);
    assert_eq!(model.get_cursor(), 5);
}

#[test]
fn cursor_moves_by_tokens_and_the_selection_follows() {
    let mut model = loaded("A\nBB\nCCC", 4);
    model.move_cursor(CursorShift::TokenForward, true);
    assert_eq!(model.get_cursor(), 2);
    assert_eq!(model.get_selection(), Selection::create(0, 2).map(|b| *b));
    model.move_cursor(CursorShift::TokenForward, false);
    assert_eq!(model.get_selection(), None);
}

#[test]
fn select_all_selects_the_whole_text() {
    let mut model = loaded("AAA\nBBB", 4);
    model.select_all();
    assert_eq!(model.get_selected_content(), Some("AAA\nBBB".to_string()));
}

#[test]
fn error_is_shown_then_reset() {
    let mut model = RootModel::new();
    model.set_error("boom".to_string());
    assert_eq!(model.error(), Some("boom".to_string()));
    assert!(model.reset_error());
    assert_eq!(model.error(), None);
    assert!(!model.reset_error());
}

#[test]
fn escape_closes_the_error_first() {
    let mut model = RootModel::new();
    model.set_search_visible(true);
    model.set_error("boom".to_string());
    model.on_esc();
    assert_eq!(model.error(), None);
    let events = model.take_events();
    assert!(events.iter().any(|e| matches!(e, ModelEvent::SearchOpen(true))));
    model.on_esc();
    assert!(model.take_events().iter().any(|e| matches!(e, ModelEvent::SearchOpen(false))));
}

#[test]
fn bgp_model_counts_processes_and_averages_progress() {
    let mut model = BGPModel::new();
    assert_eq!(model.register(1), vec![BGPModelEvent::CountUpdated]);
    model.register(2);
    assert_eq!(model.get_number(), 2);
    model.update_progress(1, 50);
    assert_eq!(model.get_overall_progress(), 25);
    model.complete(2);
    assert_eq!(model.get_number(), 1);
    assert_eq!(model.get_overall_progress(), 50);
}

#[test]
fn parse_u64_follows_std() {
    assert_eq!(parse_u64("42"), Ok(42));
    assert_eq!(parse_u64("+7"), Ok(7));
    assert_eq!(parse_u64(""), Err(ParseNumberError::Empty));
    assert_eq!(parse_u64("4x"), Err(ParseNumberError::InvalidDigit));
    assert_eq!(parse_u64("18446744073709551616"), Err(ParseNumberError::PosOverflow));
    assert_eq!(parse_u64("18446744073709551615"), Ok(u64::MAX));
}

#[test]
fn go_to_line_submit_counts_from_one() {
    let mut model = GoToLineModel::new();
    model.set_is_open(true);
    model.set_value("3");
    assert_eq!(model.submit(), Ok((2, Some(false))));
    let mut model = GoToLineModel::new();
    model.set_value("0");
    assert_eq!(model.submit(), Err("Line number must not be less than 1".to_string()));
    model.set_value("x");
    assert_eq!(model.submit(), Err("invalid digit found in string".to_string()));
}

#[test]
fn line_seek_finds_the_offset_after_the_nth_line_break() {
    let mut seek = LineSeek::new(2, 12);
    assert_eq!(seek.feed(b"ab\nc", || false, |_| {}), LineSeekStep::Continue);
    assert_eq!(seek.feed(b"d\nef", || false, |_| {}), LineSeekStep::Found(6));
}

#[test]
fn line_seek_stops_when_interrupted() {
    let mut seek = LineSeek::new(1, 4);
    assert_eq!(seek.feed(b"ab\nc", || true, |_| {}), LineSeekStep::Cancelled);
}

#[test]
fn listing_puts_up_first_then_folders_then_files() {
    let entries = vec![
        DirEntry0::File("b.log".to_string()),
        DirEntry0::Folder("z".to_string()),
        DirEntry0::File("a.log".to_string()),
        DirEntry0::Folder("c".to_string()),
    ];
    let r = listing(true, entries);
    assert_eq!(
        r,
        vec![
            DirEntry0::Up,
            DirEntry0::Folder("c".to_string()),
            DirEntry0::Folder("z".to_string()),
            DirEntry0::File("a.log".to_string()),
            DirEntry0::File("b.log".to_string()),
        ]
    );
    assert_eq!(DirEntry0::Up.to_string(), "..");
}

#[test]
fn open_file_model_goes_to_a_folder_and_submits() {
    let mut model = OpenFileModel::new();
    let events = model.set_canonical_current_location("/var/log", Ok(vec![DirEntry0::Up, DirEntry0::File("syslog".to_string())]));
    assert_eq!(
        events,
        vec![OpenFileModelEvent::EntryInfoUpdated, OpenFileModelEvent::LocationUpdated, OpenFileModelEvent::FilesUpdated]
    );
    assert_eq!(model.get_current_location(), "/var/log");
    assert_eq!(model.get_files().len(), 2);
    assert!(model.set_canonical_current_location("/var/log", Ok(vec![])).is_empty());
    assert_eq!(model.submit_current_file(), SubmitAction::NoFileChosen("No file chosen".to_string()));
    model.set_current_file(Some(".."), None);
    assert_eq!(model.submit_current_file(), SubmitAction::StepUp);
    model.set_current_file(Some("syslog"), None);
    assert_eq!(model.submit_current_file(), SubmitAction::Enter("syslog".to_string()));
    let events = model.set_canonical_current_location("/nope", Err("denied".to_string()));
    assert_eq!(events, vec![OpenFileModelEvent::Error("denied".to_string())]);
    assert_eq!(model.get_current_location(), "/var/log");
}

#[test]
fn search_model_needs_a_text_and_a_pattern() {
    let mut model = SearchModel::new();
    model.set_pattern("bar");
    assert!(matches!(model.start_search(), Err(NavigableSearcherConstructorError::FileNotSet)));
    model.set_source(Text::from_str("foo bar\nbar"));
    model.set_pattern("");
    assert!(matches!(model.start_search(), Err(NavigableSearcherConstructorError::PatternIsEmpty)));
    model.set_pattern("bar");
    let (_search, found) = model.start_search().ok().unwrap();
    assert_eq!(found, Ok(Occurrence::new(4, 7)));
    // backward without a cursor to start from, nothing lies before the start
    model.set_backward(true);
    let (_search, found) = model.start_search().ok().unwrap();
    assert_eq!(found, Err(logv::search::searcher::SearchError::NotFound));
    model.set_regexp(true);
    model.set_pattern("ba(");
    assert!(model.try_start_search().is_none());
}

#[test]
fn line_iterator_walks_the_viewport_then_the_source() {
    let text = "AAA\n\nCCC\nDDD";
    let source = LineSourceImpl::from_str(text);
    let data: Data = source.read_lines(0, 2);
    let cache = DataRender::new(data);
    let mut it = LineIterator::new(&cache, &source, Direction::Forward, 0);
    let a = it.next().unwrap();
    assert_eq!(a.content, "AAA");
    let b = it.next().unwrap();
    assert_eq!(b.content, " ");
    assert_eq!((b.start, b.end), (4, 4));
    let c = it.next().unwrap();
    assert_eq!(c.content, "CCC");
    let d = it.next().unwrap();
    assert_eq!(d.content, "DDD");
    assert!(it.next().is_none());
    assert!(it.next().is_none());
}

#[test]
fn line_iterator_backward_from_the_viewport() {
    let text = "AAA\nBBB\nCCC";
    let source = LineSourceImpl::from_str(text);
    let cache = DataRender::new(source.read_lines(4, 2));
    let mut it = LineIterator::new(&cache, &source, Direction::Backward, 0);
    assert_eq!(it.next().unwrap().content, "BBB");
    assert_eq!(it.next().unwrap().content, "AAA");
    assert!(it.next().is_none());
}

#[test]
fn ui_element_names() {
    assert_eq!(UIElementName::MainContent.to_string(), "main_content");
    assert_eq!(UIElementName::SearchField.to_string(), "search_field");
}

#[test]
fn selection_is_ordered_and_never_empty() {
    assert_eq!(Selection::create(5, 2), Some(Box::new(Selection::new(2, 5))));
    assert_eq!(Selection::create(3, 3), None);
}

#[test]
fn line_equality_for_reference() {
    assert_eq!(Line::new("AAA", 0, 3), Line::new("AAA", 0, 3));
}

#[test]
fn interval_is_written_with_brackets() {
    assert_eq!(Interval::closed(1, 3).to_string(), "[1, 3]");
    assert_eq!(Interval::inf_open(-5).to_string(), "(-∞, -5)");
    assert_eq!(Interval::all().to_string(), "(-∞, +∞)");
    assert_eq!(Interval::closed_inf(0).to_string(), "[0, +∞)");
    assert_eq!(Interval::open(2, 2).to_string(), "∅");
}

#[test]
fn decimal_digits() {
    assert_eq!(decimal_string(0), "0");
    assert_eq!(decimal_string(1234), "1234");
    assert_eq!(decimal_string(-7), "-7");
    assert_eq!(decimal_string(i64::MIN), "-9223372036854775808");
}

#[test]
fn viewport_is_read_again_when_the_registry_reaches_it() {
    let mut model = loaded("AAA\nBBB\nCCC\nDDD", 2);
    // the first line shown is past the crawled part of the registry
    model.scroll(1);
    let waiting = model
        .data()
        .map(|d| d.lines.iter().any(|l| l.line_no.is_err()))
        .unwrap_or(false);
    assert!(waiting);
    assert!(!model.on_line_registry_progress(-1));
    assert!(model.on_line_registry_progress(100));
    let mut empty = RootModel::new();
    assert!(!empty.on_line_registry_progress(100));
}

#[test]
fn line_render_goes_through_its_builder_unchanged() {
    let render = LineRender::new(Line::new("héllo", 10, 16));
    let rebuilt = render.clone().to_builder().with_end(17).build();
    assert_eq!(rebuilt.content, "héllo");
    assert_eq!(rebuilt.start, 10);
    assert_eq!(rebuilt.end, 17);
    assert_eq!(rebuilt.render.len(), 5);
    assert_eq!(rebuilt.render[2].original_offset, 3);
}

#[test]
fn a_file_name_asks_for_loading_only_when_it_changes() {
    let mut model = RootModel::new();
    assert!(model.set_file_name(Some("a.log")));
    assert!(!model.set_file_name(Some("a.log")));
    assert!(model.set_file_name(Some("b.log")));
    assert!(model.set_file_name(None));
    assert!(!model.set_file_name(None));
}

#[test]
fn line_seek_cannot_reach_a_line_past_the_last_break() {
    let mut seek = LineSeek::new(3, 6);
    assert_eq!(seek.feed(b"a\nb\ncd", || false, |_| {}), LineSeekStep::Continue);
    assert_eq!(seek.at_end(), Err(logv::model::go_to::GoToLineError::NotReachable));
    let done = LineSeek::new(0, 6);
    assert_eq!(done.at_end(), Ok(0));
}

#[test]
fn cursor_moves_right_across_the_line_end() {
    let mut model = loaded("AB\nCD", 4);
    model.move_cursor(CursorShift::right_by_n(3), false);
    assert_eq!(model.get_cursor(), 4);
}

#[test]
fn cursor_moves_down_below_the_lines_shown() {
    let mut model = loaded("AAA\nBBB\nCCC\nDDD", 2);
    model.move_cursor(CursorShift::right(), false);
    model.move_cursor(CursorShift::down_by_n(2), false);
    assert_eq!(model.get_cursor(), 9);
    assert_eq!(shown_lines(&model), vec!["BBB", "CCC"]);
}

#[test]
fn line_seek_over_several_chunks_finds_the_line_start() {
    let text = b"a\nbb\nccc\ndddd";
    for cut in 0..text.len() {
        let mut seek = LineSeek::new(3, text.len() as u64);
        let mut found = None;
        for chunk in [&text[..cut], &text[cut..]] {
            if chunk.is_empty() {
                continue;
            }
            if let LineSeekStep::Found(o) = seek.feed(chunk, || false, |_| {}) {
                found = Some(o);
                break;
            }
        }
        assert_eq!(found, Some(9));
    }
    let mut seek = LineSeek::new(4, text.len() as u64);
    assert_eq!(seek.feed(text, || false, |_| {}), LineSeekStep::Continue);
    assert_eq!(seek.at_end(), Err(logv::model::go_to::GoToLineError::NotReachable));
}
