use vstd::prelude::*;
use vstd::string::StringSliceAdditionalSpecFns;
use vstd::utf8::encode_utf8;
use crate::data_source::line_source::LineSourceImpl;
use crate::data_source::read_delimited::{segments, trim_end, DelimiterKind, Direction};
use crate::data_source::text::{byte_len, lemma_byte_len_add, lemma_byte_len_encode, pos, Text, TEXT_LIMIT};
use crate::interval::{Integer, Interval};
use crate::search::searcher::{
    calculate_offset_and_boundary, window, Occurrence, OffsetAndBoundary, SearchError, SearchResult,
};

verus! {

#[verifier::external_type_specification]
#[verifier::external_body]
pub struct ExRegex(regex::Regex);

/// Whether `regex::Regex::new` accepts `pattern`.
pub uninterp spec fn regex_compiles(pattern: Seq<char>) -> bool;

/// The byte range of the leftmost-first match of `pattern` in `haystack` that
/// `regex::Regex::find_at` reports when the search starts at byte `at`.
pub uninterp spec fn regex_find(pattern: Seq<char>, haystack: Seq<char>, at: usize) -> Option<(usize, usize)>;

/// The capture groups of each successive match that `regex::Regex::captures_iter` yields for
/// `pattern` in `haystack`: for each match, the byte range of each group, or none for a group
/// that took no part in it.
pub uninterp spec fn regex_captures(pattern: Seq<char>, haystack: Seq<char>) -> Seq<Seq<Option<(usize, usize)>>>;

/// A regular expression together with the text it was compiled from.
pub struct RegexPattern {
    source: String,
    compiled: regex::Regex,
}

impl RegexPattern {
    /// The text the expression was compiled from.
    pub closed spec fn view(&self) -> Seq<char> {
        self.source@
    }

    /// The expression compiled from `pattern`, if it is a valid regular expression.
    pub fn new(pattern: &str) -> (r: Option<RegexPattern>)
        ensures
            r is Some <==> regex_compiles(pattern@),
            r matches Some(p) ==> p.view() == pattern@,
    {
        Self::compile(pattern)
    }

    /// Compiles `pattern` with `regex::Regex::new`. The contract claims that the result is
    /// present exactly when that function accepts the pattern; what the compiled expression
    /// matches is left to `find_at`.
    #[verifier::external_body]
    pub(crate) fn compile(pattern: &str) -> (r: Option<RegexPattern>)
        ensures
            r is Some <==> regex_compiles(pattern@),
            r matches Some(p) ==> p.view() == pattern@,
    {
        match regex::Regex::new(pattern) {
            Ok(compiled) => Some(RegexPattern { source: pattern.to_string(), compiled }),
            Err(_) => None,
        }
    }

    /// Calls `regex::Regex::find_at` on the expression compiled from `self.view()` (the only
    /// way to build a `RegexPattern` is `compile`, which keeps the two together). The contract
    /// claims the match's byte range, named `regex_find`, and that it lies in the haystack at or
    /// after `at`, as the search span `at..` of the crate guarantees. `find_at` panics when `at`
    /// exceeds the length of the haystack; `requires` leaves that out.
    #[verifier::external_body]
    pub(crate) fn find_at(&self, haystack: &str, at: usize) -> (r: Option<(usize, usize)>)
        requires
            at <= haystack.spec_bytes().len(),
        ensures
            r == regex_find(self.view(), haystack@, at),
            r matches Some(m) ==> at <= m.0 <= m.1 <= haystack.spec_bytes().len(),
    {
        match self.compiled.find_at(haystack, at) {
            Some(m) => Some((m.start(), m.end())),
            None => None,
        }
    }
}

impl RegexPattern {
    /// Calls `regex::Regex::captures_iter` on the expression compiled from `self.view()` and
    /// keeps of each match the byte range of each group (`Captures::iter`). The contract claims
    /// the result, named `regex_captures`, and that each range starts no later than it ends and
    /// lies within the haystack, as the crate's documentation of `Match` guarantees.
    #[verifier::external_body]
    pub(crate) fn captures_all(&self, haystack: &str) -> (r: Vec<Vec<Option<(usize, usize)>>>)
        ensures
            r@.len() == regex_captures(self.view(), haystack@).len(),
            forall|i: int| 0 <= i < r@.len() ==> #[trigger] r@[i]@ == regex_captures(self.view(), haystack@)[i],
            forall|i: int, j: int| 0 <= i < r@.len() && 0 <= j < r@[i]@.len() ==> (#[trigger] r@[i]@[j] matches Some(m)
                ==> m.0 <= m.1 <= haystack.spec_bytes().len()),
    {
        let mut all = Vec::new();
        for caps in self.compiled.captures_iter(haystack) {
            let mut groups = Vec::new();
            for g in caps.iter() {
                groups.push(g.map(|m| (m.start(), m.end())));
            }
            all.push(groups);
        }
        all
    }
}

/// The content, start and end of the line that holds byte `offset`, as `read_next_line` gives
/// it.
pub open spec fn next_line_fields(s: Seq<char>, offset: int) -> Option<(Seq<char>, int, int)> {
    let segs = segments(s, DelimiterKind::LineBreak, offset, 1, true).0;
    if offset < 0 || offset > byte_len(s) || segs.len() == 0 {
        None
    } else {
        let g = segs[0];
        let t = trim_end(s, g.a, g.b);
        Some((s.subrange(g.a, t), pos(s, g.a) as int, pos(s, g.b) - (g.b - t)))
    }
}

/// Where the search starts within a line: at `offset` when it falls strictly inside the
/// line's content, else at the line's beginning.
pub open spec fn start_within(offset: int, start: int, content_len: int) -> int {
    if offset > start && offset - start < content_len {
        offset - start
    } else {
        0
    }
}

/// The first match of `pattern` found line by line from byte `offset` on, while lines start
/// no later than `boundary`.
pub open spec fn regex_scan(s: Seq<char>, pattern: Seq<char>, offset: int, boundary: Option<Integer>) -> Option<(int, int)>
    decreases byte_len(s) + 1 - offset,
{
    if offset < 0 || offset > byte_len(s) {
        None
    } else if boundary matches Some(b) && b < offset {
        None
    } else {
        match next_line_fields(s, offset) {
            None => None,
            Some((content, start, end)) => {
                let at = start_within(offset, start, encode_utf8(content).len() as int);
                match regex_find(pattern, content, at as usize) {
                    Some(m) => Some((m.0 + start, m.1 + start)),
                    None => {
                        proof {
                            let segs = segments(s, DelimiterKind::LineBreak, offset, 1, true).0;
                            crate::data_source::read_delimited::lemma_fwd_segs_bounds(s, DelimiterKind::LineBreak, offset);
                            lemma_subrange_byte_len(s, segs[0].b, segs[0].b);
                        }
                        let next = if end + 1 > offset + 1 {
                            end + 1
                        } else {
                            offset + 1
                        };
                        regex_scan(s, pattern, next, boundary)
                    },
                }
            },
        }
    }
}

/// The last match, found by scanning forward from byte `from` on, that ends no later than
/// `hi` and starts no earlier than `lo`; `best` is the last one found before `from`.
pub open spec fn regex_last(s: Seq<char>, pattern: Seq<char>, from: int, lo: int, hi: int, best: Option<(int, int)>) -> Option<(int, int)>
    decreases byte_len(s) + 1 - from,
{
    if from < 0 || from > byte_len(s) {
        best
    } else {
        match regex_scan(s, pattern, from, Some(hi as Integer)) {
            None => best,
            Some(m) => {
                let next = if m.0 + 1 > from + 1 {
                    m.0 + 1
                } else {
                    from + 1
                };
                let best1 = if m.1 <= hi && m.0 >= lo {
                    Some(m)
                } else {
                    best
                };
                if next > byte_len(s) {
                    best1
                } else {
                    regex_last(s, pattern, next, lo, hi, best1)
                }
            },
        }
    }
}

/// The result of a regular expression search, for a given search window.
pub open spec fn regex_window_result(s: Seq<char>, pattern: Seq<char>, direction: Direction, w: OffsetAndBoundary) -> Option<(int, int)> {
    match direction {
        Direction::Forward => regex_scan(s, pattern, w.offset as int, w.offset_boundary),
        Direction::Backward => {
            let lo = match w.offset_boundary {
                None => 0int,
                Some(b) => if b < 0 {
                    0int
                } else {
                    b as int
                },
            };
            if w.offset < lo {
                None
            } else {
                regex_last(s, pattern, lo, lo, w.offset as int, None)
            }
        },
    }
}

/// What a regular expression search in `s` gives for `range`.
pub open spec fn regex_result(s: Seq<char>, pattern: Seq<char>, direction: Direction, range: Interval) -> SearchResult {
    match window(byte_len(s) as Integer, direction, range) {
        None => Err(SearchError::NotFound),
        Some(w) => match regex_window_result(s, pattern, direction, w) {
            Some(m) => Ok(Occurrence { start: m.0 as Integer, end: m.1 as Integer }),
            None => Err(SearchError::NotFound),
        },
    }
}

/// The offsets of a match found by scanning are never negative.
pub proof fn lemma_regex_scan_nonneg(s: Seq<char>, pattern: Seq<char>, offset: int, boundary: Option<Integer>)
    ensures
        regex_scan(s, pattern, offset, boundary) matches Some(m) ==> 0 <= m.0 && 0 <= m.1,
    decreases byte_len(s) + 1 - offset,
{
    if !(offset < 0 || offset > byte_len(s)) && !(boundary matches Some(b) && b < offset) {
        if let Some((content, start, end)) = next_line_fields(s, offset) {
            let segs = segments(s, DelimiterKind::LineBreak, offset, 1, true).0;
            crate::data_source::read_delimited::lemma_fwd_segs_bounds(s, DelimiterKind::LineBreak, offset);
            lemma_subrange_byte_len(s, segs[0].b, segs[0].b);
            let at = start_within(offset, start, encode_utf8(content).len() as int);
            if regex_find(pattern, content, at as usize) is None {
                let next = if end + 1 > offset + 1 {
                    end + 1
                } else {
                    offset + 1
                };
                lemma_regex_scan_nonneg(s, pattern, next, boundary);
            }
        }
    }
}

/// The last match kept by a backward scan lies between `lo` and `hi`: it starts no earlier than
/// `lo` and ends, at a non-negative offset, no later than `hi`.
pub proof fn lemma_regex_last_within(s: Seq<char>, pattern: Seq<char>, from: int, lo: int, hi: int, best: Option<(int, int)>)
    requires
        best matches Some(b) ==> lo <= b.0 && 0 <= b.1 <= hi,
    ensures
        regex_last(s, pattern, from, lo, hi, best) matches Some(m) ==> lo <= m.0 && 0 <= m.1 <= hi,
    decreases byte_len(s) + 1 - from,
{
    if !(from < 0 || from > byte_len(s)) {
        lemma_regex_scan_nonneg(s, pattern, from, Some(hi as Integer));
        if let Some(m) = regex_scan(s, pattern, from, Some(hi as Integer)) {
            let next = if m.0 + 1 > from + 1 {
                m.0 + 1
            } else {
                from + 1
            };
            let best1 = if m.1 <= hi && m.0 >= lo {
                Some(m)
            } else {
                best
            };
            if next <= byte_len(s) {
                lemma_regex_last_within(s, pattern, next, lo, hi, best1);
            }
        }
    }
}

/// A backward regular expression search finds an occurrence that ends inside its window: at a
/// non-negative offset no later than the window's largest end.
pub proof fn lemma_regex_result_backward_within(s: Seq<char>, pattern: Seq<char>, range: Interval)
    ensures
        regex_result(s, pattern, Direction::Backward, range) matches Ok(occ) ==> ({
            &&& window(byte_len(s) as Integer, Direction::Backward, range) is Some
            &&& 0 <= occ.end <= window(byte_len(s) as Integer, Direction::Backward, range)->Some_0.offset
        }),
{
    if let Some(w) = window(byte_len(s) as Integer, Direction::Backward, range) {
        let lo = match w.offset_boundary {
            None => 0int,
            Some(b) => if b < 0 {
                0int
            } else {
                b as int
            },
        };
        lemma_regex_last_within(s, pattern, lo, lo, w.offset as int, None);
    }
}

pub proof fn lemma_subrange_byte_len(s: Seq<char>, a: int, b: int)
    requires
        0 <= a <= b <= s.len(),
    ensures
        byte_len(s.subrange(a, b)) <= byte_len(s),
        pos(s, a) <= byte_len(s),
        pos(s, a) + byte_len(s.subrange(a, b)) <= byte_len(s),
{
    let x = s.subrange(0, a);
    let y = s.subrange(a, b);
    let z = s.subrange(b, s.len() as int);
    assert(s =~= x + y + z);
    lemma_byte_len_add(x + y, z);
    lemma_byte_len_add(x, y);
    assert(s.take(a) =~= x);
}

/// Searches a text for a regular expression, line by line.
pub struct RegexSearcherImpl {
    line_source: LineSourceImpl,
    regex: RegexPattern,
}

impl RegexSearcherImpl {
    pub closed spec fn text_view(self) -> Seq<char> {
        self.line_source.view()
    }

    pub closed spec fn pattern_view(self) -> Seq<char> {
        self.regex.view()
    }

    pub fn new(text: Text, regex: RegexPattern) -> (r: Self)
        ensures
            r.text_view() == text.view(),
            r.pattern_view() == regex.view(),
    {
        RegexSearcherImpl { line_source: LineSourceImpl::new(text), regex }
    }

    /// The length of the text in bytes.
    pub fn total(&self) -> (r: Integer)
        ensures
            r == byte_len(self.text_view()),
            0 <= r,
    {
        self.line_source.get_length()
    }

    pub open spec fn spec_search(self, direction: Direction, range: Interval) -> SearchResult {
        regex_result(self.text_view(), self.pattern_view(), direction, range)
    }

    /// Forward: the first match found line by line from the start of `range`. Backward: the
    /// last match that lies in `range`.
    pub fn search(&self, direction: Direction, range: Interval) -> (r: SearchResult)
        ensures
            r == self.spec_search(direction, range),
    {
        let total = self.line_source.get_length();
        let w = match calculate_offset_and_boundary(total, direction, range) {
            Ok(w) => w,
            Err(e) => return Err(e),
        };
        match direction {
            Direction::Forward => match self.scan(w.offset, w.offset_boundary) {
                Some((a, b)) => Ok(Occurrence::new(a, b)),
                None => Err(SearchError::NotFound),
            },
            Direction::Backward => {
                let lo: Integer = match w.offset_boundary {
                    None => 0,
                    Some(b) => if b < 0 {
                        0
                    } else {
                        b
                    },
                };
                if w.offset < lo {
                    return Err(SearchError::NotFound);
                }
                match self.last(lo, w.offset) {
                    Some((a, b)) => Ok(Occurrence::new(a, b)),
                    None => Err(SearchError::NotFound),
                }
            },
        }
    }

    /// The last match found by scanning forward from `lo` that lies in `lo..hi`.
    fn last(&self, lo: Integer, hi: Integer) -> (r: Option<(Integer, Integer)>)
        requires
            0 <= lo <= hi,
            hi < TEXT_LIMIT,
        ensures
            r matches Some(m) ==> regex_last(self.text_view(), self.pattern_view(), lo as int, lo as int, hi as int, None) == Some((m.0 as int, m.1 as int)),
            r is None ==> regex_last(self.text_view(), self.pattern_view(), lo as int, lo as int, hi as int, None) is None,
    {
        let total = self.line_source.get_length();
        let ghost s = self.text_view();
        let ghost pat = self.pattern_view();
        let mut from: Integer = lo;
        let mut best: Option<(Integer, Integer)> = None;
        loop
            invariant
                s == self.text_view(),
                pat == self.pattern_view(),
                total == byte_len(s),
                total < TEXT_LIMIT,
                0 <= lo <= from,
                hi < TEXT_LIMIT,
                regex_last(s, pat, lo as int, lo as int, hi as int, None) == regex_last(
                    s,
                    pat,
                    from as int,
                    lo as int,
                    hi as int,
                    match best {
                        None => None,
                        Some(m) => Some((m.0 as int, m.1 as int)),
                    },
                ),
            decreases byte_len(s) + 1 - from,
        {
            if from > total {
                return best;
            }
            match self.scan(from, Some(hi)) {
                None => {
                    return best;
                },
                Some((a, b)) => {
                    if b <= hi && a >= lo {
                        best = Some((a, b));
                    }
                    from = if a + 1 > from + 1 {
                        a + 1
                    } else {
                        from + 1
                    };
                },
            }
        }
    }

    /// The first match found line by line from byte `offset` on, while lines start no later
    /// than `boundary`.
    #[verifier::loop_isolation(false)]
    fn scan(&self, start_offset: Integer, boundary: Option<Integer>) -> (r: Option<(Integer, Integer)>)
        requires
            0 <= start_offset,
        ensures
            r matches Some(m) ==> regex_scan(self.text_view(), self.pattern_view(), start_offset as int, boundary) == Some((m.0 as int, m.1 as int)),
            r matches Some(m) ==> 0 <= m.0 <= m.1 <= byte_len(self.text_view()),
            r is None ==> regex_scan(self.text_view(), self.pattern_view(), start_offset as int, boundary) is None,
    {
        let total = self.line_source.get_length();
        let mut offset: Integer = start_offset;
        let ghost s = self.text_view();
        let ghost pat = self.pattern_view();
        loop
            invariant
                s == self.text_view(),
                pat == self.pattern_view(),
                total == byte_len(s),
                total < TEXT_LIMIT,
                0 <= offset,
                regex_scan(s, pat, start_offset as int, boundary) == regex_scan(s, pat, offset as int, boundary),
            decreases byte_len(s) + 1 - offset,
        {
            if offset > total {
                return None;
            }
            if let Some(b) = boundary {
                if b < offset {
                    return None;
                }
            }
            let line = match self.line_source.read_next_line(offset) {
                Some(line) => line,
                None => return None,
            };
            let ghost f = next_line_fields(s, offset as int);
            proof {
                let segs = segments(s, DelimiterKind::LineBreak, offset as int, 1, true).0;
                let g = segs[0];
                crate::data_source::read_delimited::lemma_fwd_segs_bounds(s, DelimiterKind::LineBreak, offset as int);
                lemma_subrange_byte_len(s, g.a, trim_end(s, g.a, g.b));
                lemma_subrange_byte_len(s, g.b, g.b);
                lemma_byte_len_encode(line.content@);
            }
            let content = line.content.as_str();
            let content_len = content.as_bytes().len();
            let at: usize = if offset > line.start && ((offset - line.start) as u64) < content_len as u64 {
                (offset - line.start) as usize
            } else {
                0
            };
            match self.regex.find_at(content, at) {
                Some((ms, me)) => {
                    return Some((ms as Integer + line.start, me as Integer + line.start));
                },
                None => {
                    offset = if line.end + 1 > offset + 1 {
                        line.end + 1
                    } else {
                        offset + 1
                    };
                },
            }
        }
    }
}

} // verus!
