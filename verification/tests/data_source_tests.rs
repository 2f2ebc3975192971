use logv::data_source::line::Line;
use logv::data_source::line_source::LineSourceImpl;
use logv::data_source::read_delimited::{read_delimited, Data, DelimiterKind, Direction};
use logv::data_source::text::Text;

enum SegmentType {
    Line,
    Word,
}

fn test(s: &str, offset: u64, n: i32, segment_type: SegmentType) -> (Data, Option<i64>) {
    let text = Text::from_str(s);
    let (allow_empty_segments, kind) = match segment_type {
        SegmentType::Line => (true, DelimiterKind::LineBreak),
        SegmentType::Word => (false, DelimiterKind::NonWordChar),
    };
    read_delimited(&text, offset as i64, n as i64, allow_empty_segments, None, kind)
}

fn only(data: &Data) -> &Line {
    assert_eq!(data.lines.len(), 1);
    &data.lines[0]
}

// read lines forward

#[test]
fn read_1_line_forward_from_beginning() {
    let (data, pos) = test("AAA\nBBB\nCCC", 0, 1, SegmentType::Line);
    assert_eq!(*only(&data), Line::new("AAA", 0, 3));
    assert_eq!(pos, Some(4));
}

#[test]
fn read_2_lines_forward_from_beginning() {
    let (data, pos) = test("AAA\nBBB\nCCC", 0, 2, SegmentType::Line);
    assert_eq!(data.lines.len(), 2);
    assert_eq!(data.lines[0], Line::new("AAA", 0, 3));
    assert_eq!(data.lines[1], Line::new("BBB", 4, 7));
    assert_eq!(pos, Some(8));
}

#[test]
fn read_all_lines_forward_from_beginning() {
    let (data, pos) = test("AAA\nBBB\nCCC", 0, 3, SegmentType::Line);
    assert_eq!(data.lines.len(), 3);
    assert_eq!(data.lines[0], Line::new("AAA", 0, 3));
    assert_eq!(data.lines[1], Line::new("BBB", 4, 7));
    assert_eq!(data.lines[2], Line::new("CCC", 8, 11));
    // In case of EOF the position does not exceed the length
    assert_eq!(pos, Some(11));
}

#[test]
fn read_more_lines_than_available_forward_from_beginning() {
    let (data, pos) = test("AAA\nBBB\nCCC", 0, 10, SegmentType::Line);
    assert_eq!(data.lines.len(), 3);
    assert_eq!(data.lines[0], Line::new("AAA", 0, 3));
    assert_eq!(data.lines[1], Line::new("BBB", 4, 7));
    assert_eq!(data.lines[2], Line::new("CCC", 8, 11));
    assert_eq!(pos, Some(11));
}

#[test]
fn read_1_line_forward_from_middle_of_line() {
    let (data, pos) = test("AAA\nBBB\nCCC", 2, 1, SegmentType::Line);
    assert_eq!(*only(&data), Line::new("AAA", 0, 3));
    assert_eq!(pos, Some(4));
}

#[test]
fn read_2_lines_forward_from_middle_of_line() {
    let (data, pos) = test("AAA\nBBB\nCCC", 5, 2, SegmentType::Line);
    assert_eq!(data.lines.len(), 2);
    assert_eq!(data.lines[0], Line::new("BBB", 4, 7));
    assert_eq!(data.lines[1], Line::new("CCC", 8, 11));
    assert_eq!(pos, Some(11));
}

#[test]
fn read_empty_lines_forward_from_middle_of_line() {
    let (data, pos) = test("AAA\nBBB\n\n\nCCC", 5, 3, SegmentType::Line);
    assert_eq!(data.lines.len(), 3);
    assert_eq!(data.lines[0], Line::new("BBB", 4, 7));
    assert_eq!(data.lines[1], Line::new("", 8, 8));
    assert_eq!(data.lines[2], Line::new("", 9, 9));
    assert_eq!(pos, Some(10));
}

#[test]
fn read_empty_lines_forward_from_delimiter() {
    let (data, pos) = test("AAA\n\n\nCCC", 4, 3, SegmentType::Line);
    assert_eq!(data.lines.len(), 3);
    assert_eq!(data.lines[0], Line::new("", 4, 4));
    assert_eq!(data.lines[1], Line::new("", 5, 5));
    assert_eq!(data.lines[2], Line::new("CCC", 6, 9));
    assert_eq!(pos, Some(9));
}

#[test]
fn read_empty_lines_forward_from_delimiter_until_eof() {
    let (data, pos) = test("AAA\n\n\nCCC", 4, 4, SegmentType::Line);
    assert_eq!(data.lines.len(), 3);
    assert_eq!(data.lines[0], Line::new("", 4, 4));
    assert_eq!(data.lines[1], Line::new("", 5, 5));
    assert_eq!(data.lines[2], Line::new("CCC", 6, 9));
    assert_eq!(pos, Some(9));
}

#[test]
fn read_empty_lines_forward_from_delimiter_until_eof_when_last_line_is_empty() {
    let (data, pos) = test("AAA\n\n\n", 4, 4, SegmentType::Line);
    assert_eq!(data.lines.len(), 3);
    assert_eq!(data.lines[0], Line::new("", 4, 4));
    assert_eq!(data.lines[1], Line::new("", 5, 5));
    assert_eq!(data.lines[2], Line::new("", 6, 6));
    assert_eq!(pos, Some(6));
}

#[test]
fn read_nothing_forward_from_eof() {
    let (data, pos) = test("AAA\nBBB\nCCC\n", 12, 3, SegmentType::Line);
    assert!(data.lines.is_empty());
    assert_eq!(pos, Some(12));
}

#[test]
fn read_forward_from_empty_source() {
    let (data, pos) = test("", 0, 1, SegmentType::Line);
    assert!(data.lines.is_empty());
    assert_eq!(pos, Some(0));
}

// read lines backward

#[test]
fn read_1_line_backward() {
    let (data, pos) = test("AAA\nBBB\nCCC", 3, -1, SegmentType::Line);
    assert_eq!(data.lines.len(), 1);
    assert_eq!(data.lines[0], Line::new("AAA", 0, 3));
    assert_eq!(pos, Some(0));
}

#[test]
fn read_2_lines_backward() {
    let (data, pos) = test("AAA\nBBB\nCCC", 7, -2, SegmentType::Line);
    assert_eq!(data.lines.len(), 2);
    assert_eq!(data.lines[0], Line::new("AAA", 0, 3));
    assert_eq!(data.lines[1], Line::new("BBB", 4, 7));
    assert_eq!(pos, Some(0));
}

#[test]
fn read_all_lines_backward_from_end() {
    let (data, pos) = test("AAA\nBBB\nCCC", 11, -3, SegmentType::Line);
    assert_eq!(data.lines.len(), 3);
    assert_eq!(data.lines[0], Line::new("AAA", 0, 3));
    assert_eq!(data.lines[1], Line::new("BBB", 4, 7));
    assert_eq!(data.lines[2], Line::new("CCC", 8, 11));
    assert_eq!(pos, Some(0));
}

#[test]
fn read_2_lines_backward_from_middle_of_line() {
    let (data, pos) = test("AAA\nBBB\nCCC", 5, -2, SegmentType::Line);
    assert_eq!(data.lines.len(), 2);
    assert_eq!(data.lines[0], Line::new("AAA", 0, 3));
    assert_eq!(data.lines[1], Line::new("BBB", 4, 7));
    assert_eq!(pos, Some(0));
}

#[test]
fn read_empty_lines_backward_from_middle_of_line() {
    let (data, pos) = test("AAA\n\n\n\nCCC", 9, -3, SegmentType::Line);
    assert_eq!(data.lines.len(), 3);
    assert_eq!(data.lines[0], Line::new("", 5, 5));
    assert_eq!(data.lines[1], Line::new("", 6, 6));
    assert_eq!(data.lines[2], Line::new("CCC", 7, 10));
    assert_eq!(pos, Some(4));
}

#[test]
fn read_empty_lines_backward_from_delimiter() {
    let (data, pos) = test("AAA\n\n\nCCC", 5, -3, SegmentType::Line);
    assert_eq!(data.lines.len(), 3);
    assert_eq!(data.lines[0], Line::new("AAA", 0, 3));
    assert_eq!(data.lines[1], Line::new("", 4, 4));
    assert_eq!(data.lines[2], Line::new("", 5, 5));
    assert_eq!(pos, Some(0));
}

#[test]
fn read_empty_lines_backward_from_delimiter_until_bof() {
    let (data, pos) = test("AAA\n\n\nCCC", 4, -4, SegmentType::Line);
    assert_eq!(data.lines.len(), 2);
    assert_eq!(data.lines[0], Line::new("AAA", 0, 3));
    assert_eq!(data.lines[1], Line::new("", 4, 4));
    assert_eq!(pos, Some(0));
}

#[test]
fn read_empty_lines_backward_from_delimiter_until_bof_when_first_line_is_empty() {
    let (data, pos) = test("\n\n\n", 2, -4, SegmentType::Line);
    assert_eq!(data.lines.len(), 3);
    assert_eq!(data.lines[0], Line::new("", 0, 0));
    assert_eq!(data.lines[1], Line::new("", 1, 1));
    assert_eq!(data.lines[2], Line::new("", 2, 2));
    assert_eq!(pos, Some(0));
}

#[test]
fn read_1_line_backward_from_bof() {
    let (data, pos) = test("AAA\nBBB\nCCC\n", 0, -1, SegmentType::Line);
    assert_eq!(*only(&data), Line::new("AAA", 0, 3));
    assert_eq!(pos, Some(0));
}

#[test]
fn read_backward_from_empty_source() {
    let (data, pos) = test("", 0, -1, SegmentType::Line);
    assert!(data.lines.is_empty());
    assert_eq!(pos, Some(0));
}

#[test]
fn read_1_symbol_line_forward_utf() {
    let (data, _) = test("\u{20AC}\n", 0, 1, SegmentType::Line);
    assert_eq!(*only(&data), Line::new("€", 0, 3));
}

#[test]
fn read_line_forward_utf() {
    let (data, _) = test("AAA\r\n\u{201C}Quoted text\u{201D}", 0, 2, SegmentType::Line);
    let lines = data.lines;
    assert_eq!(lines.len(), 2);
    assert_eq!(lines[0], Line::new("AAA", 0, 3));
    assert_eq!(lines[1], Line::new("\u{201C}Quoted text\u{201D}", 5, 22));
}

// read words

const WORDS: &str = "Word1 word2  word3    Word4\tword_5";

#[test]
fn read_1_word_forward_from_beginning() {
    let (data, pos) = test(WORDS, 0, 1, SegmentType::Word);
    assert_eq!(*only(&data), Line::new("Word1", 0, 5));
    assert_eq!(pos, Some(6));
}

#[test]
fn read_1_word_forward_from_middle() {
    let (data, pos) = test(WORDS, 2, 1, SegmentType::Word);
    assert_eq!(*only(&data), Line::new("Word1", 0, 5));
    assert_eq!(pos, Some(6));
}

#[test]
fn read_4_words_forward_from_middle() {
    let (data, pos) = test(WORDS, 2, 4, SegmentType::Word);
    assert_eq!(data.lines.len(), 4);
    assert_eq!(data.lines[0], Line::new("Word1", 0, 5));
    assert_eq!(data.lines[1], Line::new("word2", 6, 11));
    assert_eq!(data.lines[2], Line::new("word3", 13, 18));
    assert_eq!(data.lines[3], Line::new("Word4", 22, 27));
    assert_eq!(pos, Some(28));
}

#[test]
fn read_words_forward_from_space() {
    let (data, pos) = test(WORDS, 12, 2, SegmentType::Word);
    assert_eq!(data.lines.len(), 2);
    assert_eq!(data.lines[0], Line::new("word3", 13, 18));
    assert_eq!(data.lines[1], Line::new("Word4", 22, 27));
    assert_eq!(pos, Some(28));
}

#[test]
fn read_words_forward_until_eof() {
    let (data, pos) = test(WORDS, 12, 2, SegmentType::Word);
    assert_eq!(data.lines.len(), 2);
    assert_eq!(data.lines[0], Line::new("word3", 13, 18));
    assert_eq!(data.lines[1], Line::new("Word4", 22, 27));
    assert_eq!(pos, Some(28));
}

#[test]
fn read_1_word_backward_from_end() {
    let (data, pos) = test(WORDS, 5, -1, SegmentType::Word);
    assert_eq!(*only(&data), Line::new("Word1", 0, 5));
    assert_eq!(pos, Some(0));
}

#[test]
fn read_1_word_backward_from_middle() {
    let (data, pos) = test(WORDS, 2, -1, SegmentType::Word);
    assert_eq!(*only(&data), Line::new("Word1", 0, 5));
    assert_eq!(pos, Some(0));
}

#[test]
fn read_4_words_backward_from_middle() {
    let (data, pos) = test(WORDS, 24, -4, SegmentType::Word);
    assert_eq!(data.lines.len(), 4);
    assert_eq!(data.lines[0], Line::new("Word1", 0, 5));
    assert_eq!(data.lines[1], Line::new("word2", 6, 11));
    assert_eq!(data.lines[2], Line::new("word3", 13, 18));
    assert_eq!(data.lines[3], Line::new("Word4", 22, 27));
    assert_eq!(pos, Some(0));
}

#[test]
fn read_words_backward_from_space() {
    let (data, pos) = test(WORDS, 12, -2, SegmentType::Word);
    assert_eq!(data.lines.len(), 2);
    assert_eq!(data.lines[0], Line::new("Word1", 0, 5));
    assert_eq!(data.lines[1], Line::new("word2", 6, 11));
    assert_eq!(pos, Some(0));
}

#[test]
fn read_words_backward_until_bof() {
    let (data, pos) = test(WORDS, 12, -3, SegmentType::Word);
    assert_eq!(data.lines.len(), 2);
    assert_eq!(data.lines[0], Line::new("Word1", 0, 5));
    assert_eq!(data.lines[1], Line::new("word2", 6, 11));
    assert_eq!(pos, Some(0));
}

// read lines through a line source, with line numbers

const LINES_UNIX: &str = "AAA\nBBB\nCCC\nDDD";
const LINES_WINDOWS: &str = "AAA\r\nBBB\r\nCCC\r\nDDD";

fn read_numbered(s: &str, offset: u64, n: i32) -> Vec<Line> {
    let mut line_source = LineSourceImpl::from_str(s);
    line_source.track_line_number(true);
    assert!(line_source.build_line_registry().is_ok());
    let data = line_source.read_lines(offset as i64, n as i64);
    data.lines
}

#[test]
fn read_1_line() {
    let lines = read_numbered(LINES_UNIX, 0, 1);
    assert_eq!(lines, vec![Line::new_with_line_no("AAA", 0, 3, 0)]);
}

#[test]
fn read_2_lines() {
    let lines = read_numbered(LINES_UNIX, 0, 2);
    assert_eq!(lines.len(), 2);
    assert_eq!(lines[0], Line::new_with_line_no("AAA", 0, 3, 0));
    assert_eq!(lines[1], Line::new_with_line_no("BBB", 4, 7, 1));
}

#[test]
fn read_all_lines() {
    let lines = read_numbered(LINES_UNIX, 0, 4);
    assert_eq!(lines.len(), 4);
    assert_eq!(lines[0], Line::new_with_line_no("AAA", 0, 3, 0));
    assert_eq!(lines[1], Line::new_with_line_no("BBB", 4, 7, 1));
    assert_eq!(lines[2], Line::new_with_line_no("CCC", 8, 11, 2));
    assert_eq!(lines[3], Line::new_with_line_no("DDD", 12, 15, 3));
}

#[test]
fn read_from_middle_of_line() {
    let lines = read_numbered(LINES_UNIX, 2, 2);
    assert_eq!(lines.len(), 2);
    assert_eq!(lines[0], Line::new_with_line_no("AAA", 0, 3, 0));
    assert_eq!(lines[1], Line::new_with_line_no("BBB", 4, 7, 1));
}

#[test]
fn read_more_than_available() {
    let lines = read_numbered(LINES_UNIX, 2, 10);
    assert_eq!(lines.len(), 4);
    assert_eq!(lines[0], Line::new_with_line_no("AAA", 0, 3, 0));
    assert_eq!(lines[1], Line::new_with_line_no("BBB", 4, 7, 1));
    assert_eq!(lines[2], Line::new_with_line_no("CCC", 8, 11, 2));
    assert_eq!(lines[3], Line::new_with_line_no("DDD", 12, 15, 3));
}

#[test]
fn data_source_tests_read_1_line_backward() {
    let lines = read_numbered(LINES_UNIX, 2, -1);
    assert_eq!(lines, vec![Line::new_with_line_no("AAA", 0, 3, 0)]);
}

#[test]
fn read_1_line_backward_from_delimiter() {
    let lines = read_numbered(LINES_UNIX, 3, -1);
    assert_eq!(lines, vec![Line::new_with_line_no("AAA", 0, 3, 0)]);
}

#[test]
fn read_1_line_with_windows_delimiter() {
    let lines = read_numbered(LINES_WINDOWS, 0, 1);
    assert_eq!(lines, vec![Line::new_with_line_no("AAA", 0, 3, 0)]);
}

// skip tokens

fn test_skip_token(s: &str, offset: u64, direction: Direction) -> Result<i64, ()> {
    let line_source = LineSourceImpl::from_str(s);
    line_source.skip_token(offset as i64, direction)
}

#[test]
fn read_1_token_forward() {
    assert_eq!(test_skip_token("(a) b\n", 2, Direction::Forward), Ok(4));
}

#[test]
fn read_1_token_forward_across_line() {
    assert_eq!(test_skip_token("A\nBB\nCCC", 0, Direction::Forward), Ok(2));
}

#[test]
fn read_1_token_forward_across_line_should_skip_linebreaks() {
    assert_eq!(test_skip_token("(a)\nb\n", 2, Direction::Forward), Ok(4));
}

#[test]
fn read_1_token_backward_across_line() {
    assert_eq!(test_skip_token("(a)\nb\n", 4, Direction::Backward), Ok(1));
}
