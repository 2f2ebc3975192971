use logv::data_source::filtered::substring::contains_bytes;
use logv::data_source::filtered::filtered_reader::FilteredReader;
use regex::Regex;

fn original() -> String {
    (0..1000).map(|i| format!("Line {}", i)).collect::<Vec<_>>().join("\n")
}

/// Accepts the lines "Line N" where N is a positive multiple of 5.
fn filter_each_fifth(line: &[u8]) -> bool {
    let pattern = Regex::new(r"^Line (?P<N>\d+)\n?$").unwrap();
    let s = String::from_utf8_lossy(line);
    pattern
        .captures(&s)
        .and_then(|caps| caps.name("N"))
        .and_then(|m| m.as_str().parse::<u64>().ok())
        .map(|n| n > 0 && n % 5 == 0)
        .unwrap_or(false)
}

fn none_match(_: &[u8]) -> bool {
    false
}

fn all_match(_: &[u8]) -> bool {
    true
}

struct TestData {
    buf_size: usize,
    expected: String,
}

impl TestData {
    fn new(buf_size: usize, expected: &str) -> Self {
        TestData { buf_size, expected: expected.to_string() }
    }
}

fn test_read(neighbourhood: u8, filter: fn(&[u8]) -> bool, data: Vec<TestData>) -> FilteredReader<fn(&[u8]) -> bool> {
    let mut filtered_reader = FilteredReader::new(original().into_bytes(), filter, neighbourhood);
    let mut bytes_read: u64 = 0;
    for (i, test_data) in data.iter().enumerate() {
        let r = filtered_reader.read(test_data.buf_size);
        bytes_read += test_data.expected.len() as u64;
        assert_eq!(r.len(), test_data.expected.len(), "#{}", i + 1);
        assert_eq!(String::from_utf8_lossy(&r), test_data.expected, "#{}", i + 1);
        assert_eq!(filtered_reader.stream_position(), bytes_read, "#{}", i + 1);
    }
    filtered_reader
}

fn test_read_none_match(neighbourhood: u8) {
    let mut filtered_reader = FilteredReader::new(original().into_bytes(), none_match as fn(&[u8]) -> bool, neighbourhood);
    let result = filtered_reader.read(100);
    assert_eq!(result.len(), 0);
}

fn test_read_all_match(neighbourhood: u8) {
    let text = original();
    let test_data = text.split_inclusive('\n').map(|line| TestData::new(line.len(), line)).collect::<Vec<_>>();
    let mut filtered_reader = test_read(neighbourhood, all_match, test_data);
    let result = filtered_reader.read(100);
    assert_eq!(result.len(), 0);
}

#[test]
fn test_read_neighbourhood_0_none_match() {
    test_read_none_match(0);
}

#[test]
fn test_read_neighbourhood_1_none_match() {
    test_read_none_match(1);
}

#[test]
fn test_read_neighbourhood_2_none_match() {
    test_read_none_match(2);
}

#[test]
fn test_read_neighbourhood_0_all_match() {
    test_read_all_match(0);
}

#[test]
fn test_read_neighbourhood_1_all_match() {
    test_read_all_match(1);
}

#[test]
fn test_read_neighbourhood_2_all_match() {
    test_read_all_match(2);
}

#[test]
fn test_read_neighbourhood_1_each_fifth() {
    test_read(
        1,
        filter_each_fifth,
        vec![
            TestData::new(10, "Line 4\nLin"),
            TestData::new(1, "e"),
            TestData::new(16, " 5\nLine 6\nLine 9"),
            TestData::new(1, "\n"),
            TestData::new(8, "Line 10\n"),
            TestData::new(16, "Line 11\nLine 14\n"),
        ],
    );
}

/// Reading everything gives exactly the lines within the neighbourhood of a match.
#[test]
fn whole_stream_is_the_neighbourhood_of_matches() {
    let text = "a\nb\nX\nc\nd\ne\nX\nf";
    let mut reader = FilteredReader::new(text.as_bytes().to_vec(), |b: &[u8]| b.starts_with(b"X"), 1);
    let all = reader.read(1000);
    assert_eq!(String::from_utf8_lossy(&all), "b\nX\nc\ne\nX\nf");
    assert_eq!(reader.read(10).len(), 0);
}

/// A line that follows a match and is read in pieces comes out whole and in place.
#[test]
fn line_after_match_read_in_pieces() {
    let text = "X\nlong line after\nother\n";
    let mut reader = FilteredReader::new(text.as_bytes().to_vec(), |b: &[u8]| b.starts_with(b"X"), 1);
    let mut out = Vec::new();
    loop {
        let chunk = reader.read(3);
        out.extend_from_slice(&chunk);
        if chunk.len() < 3 {
            break;
        }
    }
    assert_eq!(String::from_utf8_lossy(&out), "X\nlong line after\n");
}

#[test]
fn seek_start_reads_again_from_the_beginning() {
    let mut reader = FilteredReader::new(original().into_bytes(), filter_each_fifth as fn(&[u8]) -> bool, 0);
    let first = reader.read(7);
    assert_eq!(String::from_utf8_lossy(&first), "Line 5\n");
    assert_eq!(reader.seek_start(2), 2);
    assert_eq!(String::from_utf8_lossy(&reader.read(5)), "ne 5\n");
    assert_eq!(reader.seek_forward(3), 3);
    assert_eq!(String::from_utf8_lossy(&reader.read(5)), "e 10\n");
    assert_eq!(reader.stream_position(), 15);
}

#[test]
fn substring_filter_keeps_lines_holding_the_pattern() {
    assert!(contains_bytes(b"Line 10\n", b"10"));
    assert!(contains_bytes(b"Line 10\n", b""));
    assert!(contains_bytes(b"", b""));
    assert!(!contains_bytes(b"Line 10\n", b"11"));
    assert!(!contains_bytes(b"ab", b"abc"));
}
