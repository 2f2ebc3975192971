use logv::highlight::pattern_based_highlighter::PatternBasedHighlighter;
use logv::data_source::backend::StrBackend;
use logv::data_source::read_delimited::Direction;
use logv::interval::Interval;
use logv::search::regex_searcher_impl::{RegexPattern, RegexSearcherImpl};
use logv::search::searcher::{Occurrence, SearchError};
use logv::search::searcher_impl::SearcherImpl;

const TEXT: &str = "Foo bar\nbar baz\n\nfoo bar";

#[test]
fn test_basic_regex() {
    let source = "Foo bar\nbar baz\n\nfoo bar";
    let regex = RegexPattern::new(r"ba.").expect("Failed to parse regex");
    let searcher = RegexSearcherImpl::new(StrBackend::new(source).text(), regex);

    let occurrence = searcher.search(Direction::Forward, Interval::all());
    assert_eq!(occurrence, Ok(Occurrence::new(4, 7)));

    let occurrence = searcher.search(Direction::Forward, Interval::closed_inf(8));
    assert_eq!(occurrence, Ok(Occurrence::new(8, 11)));
}

fn test_regex(source: &str, pattern: &str, direction: Direction, range: Interval, expected: Option<Occurrence>) {
    let regex = RegexPattern::new(pattern).expect("Failed to parse regex");
    let searcher = RegexSearcherImpl::new(StrBackend::new(source).text(), regex);
    let result = searcher.search(direction, range);
    match expected {
        Some(occurrence) => assert_eq!(result, Ok(occurrence), "Search '{}' in '{}'", pattern, source),
        None => assert_eq!(result, Err(SearchError::NotFound), "Search '{}' in '{}'", pattern, source),
    }
}

#[test]
fn test_regex_searcher_whole_interval() {
    test_regex(TEXT, r"ba.", Direction::Forward, Interval::all(), Some(Occurrence::new(4, 7)))
}

#[test]
fn test_regex_searcher_2nd_match() {
    test_regex(TEXT, r"ba.", Direction::Forward, Interval::closed_inf(8), Some(Occurrence::new(8, 11)))
}

#[test]
fn test_regex_searcher_not_found() {
    test_regex(TEXT, r"^baz", Direction::Forward, Interval::all(), None)
}

#[test]
fn test_regex_searcher_backward() {
    test_regex(TEXT, r"ba.", Direction::Backward, Interval::all(), Some(Occurrence::new(21, 24)))
}

#[test]
fn test_regex_searcher_backward_2nd_match() {
    test_regex(TEXT, r"ba.", Direction::Backward, Interval::closed(0, 21), Some(Occurrence::new(12, 15)))
}

#[test]
fn test_regex_searcher_backward_not_found() {
    test_regex(TEXT, r"^baz", Direction::Backward, Interval::all(), None)
}

#[test]
fn invalid_regex_is_refused() {
    assert!(RegexPattern::new(r"ba(").is_none());
}

#[test]
fn regex_search_in_a_later_line_starts_at_its_offset() {
    // "^bar" matches at the start of the second line only
    test_regex(TEXT, r"^bar", Direction::Forward, Interval::all(), Some(Occurrence::new(8, 11)))
}

#[test]
fn plain_search_forward_and_backward() {
    let searcher = SearcherImpl::new(StrBackend::new(TEXT).text(), "bar");
    assert_eq!(searcher.search(Direction::Forward, Interval::all()), Ok(Occurrence::new(4, 7)));
    assert_eq!(searcher.search(Direction::Forward, Interval::closed_inf(5)), Ok(Occurrence::new(8, 11)));
    assert_eq!(searcher.search(Direction::Backward, Interval::all()), Ok(Occurrence::new(21, 24)));
    assert_eq!(searcher.search(Direction::Forward, Interval::closed_inf(22)), Err(SearchError::NotFound));
}

#[test]
fn pattern_highlighter_marks_every_group_of_every_match() {
    let highlighter = PatternBasedHighlighter::new(vec!["(a)(b)?", "c"], 7u8);
    let spans: Vec<(usize, usize, u8)> = highlighter
        .process("ac ab c")
        .iter()
        .map(|h| (h.get_start(), h.get_end(), h.get_payload()))
        .collect();
    assert_eq!(
        spans,
        vec![(0, 1, 7), (0, 1, 7), (3, 5, 7), (3, 4, 7), (4, 5, 7), (1, 2, 7), (6, 7, 7)]
    );
}

#[test]
fn pattern_highlighter_refuses_an_invalid_expression() {
    assert!(PatternBasedHighlighter::try_new(vec!["a", "("], 0u8).is_none());
    let highlighter = PatternBasedHighlighter::try_new(vec!["x+"], 0u8).unwrap();
    assert_eq!(highlighter.process("yxxy").len(), 1);
    assert!(highlighter.process("yyy").is_empty());
}

#[test]
fn regex_search_from_a_line_end_starts_that_line_over() {
    let regex = RegexPattern::new("a").unwrap();
    let searcher = RegexSearcherImpl::new(StrBackend::new("ab\ncd").text(), regex);
    assert_eq!(searcher.search(Direction::Forward, Interval::closed_inf(2)), Ok(Occurrence::new(0, 1)));
}
