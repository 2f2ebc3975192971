use vstd::prelude::*;
use vstd::string::StringExecFns;
use chrono::NaiveDateTime;
use crate::data_source::line::Line;
use crate::data_source::line_source::LineSourceImpl;
use crate::data_source::read_delimited::{
    char_index, lemma_char_index_monotonic, lemma_fwd_segs_bounds, lemma_next_delim, lemma_prev_delim,
    next_delim, prev_delim, segments, trim_end, DelimiterKind, Direction,
};
use crate::data_source::text::{TEXT_LIMIT, byte_len, lemma_pos_full, lemma_pos_monotonic, lemma_pos_step, pos};
use crate::interval::Integer;
use crate::model::go_to::{GoToError, GoToOutcome};
use crate::search::searcher::Occurrence;

verus! {

/// The format of the date typed in the dialog, as `chrono` reads it.
pub const DATE_FORMAT: &'static str = "%d-%b-%Y %T";

/// A date and time without time zone: whole seconds since 1970-01-01 00:00:00, then the
/// nanoseconds within the second (a leap second counts from 1_000_000_000).
pub type DateTime = (i64, u32);

/// `a` comes before `b`.
pub open spec fn date_before(a: DateTime, b: DateTime) -> bool {
    a.0 < b.0 || (a.0 == b.0 && a.1 < b.1)
}

pub fn is_before(a: DateTime, b: DateTime) -> (r: bool)
    ensures
        r == date_before(a, b),
{
    a.0 < b.0 || (a.0 == b.0 && a.1 < b.1)
}

/// What `chrono::NaiveDateTime::parse_from_str(value, fmt)` gives: the date, or the message of
/// the error.
pub uninterp spec fn date_time_parse(value: Seq<char>, fmt: Seq<char>) -> Result<DateTime, Seq<char>>;

/// What `chrono::NaiveDateTime::parse_and_remainder(line, fmt)` gives: the date that starts
/// `line`, if any.
pub uninterp spec fn date_time_prefix(line: Seq<char>, fmt: Seq<char>) -> Option<DateTime>;

/// Calls `chrono::NaiveDateTime::parse_from_str(value, fmt)`, which reads the whole of
/// `value` as a date in the format `fmt`. The contract claims only that the result (the date
/// as seconds and nanoseconds, or the error's message) depends on `value` and `fmt` alone.
#[verifier::external_body]
fn parse_date_time(value: &str, fmt: &str) -> (r: Result<DateTime, String>)
    ensures
        match r {
            Ok(d) => date_time_parse(value@, fmt@) == Ok::<DateTime, Seq<char>>(d),
            Err(m) => date_time_parse(value@, fmt@) == Err::<DateTime, Seq<char>>(m@),
        },
{
    match NaiveDateTime::parse_from_str(value, fmt) {
        Ok(d) => Ok((d.and_utc().timestamp(), d.and_utc().timestamp_subsec_nanos())),
        Err(e) => Err(e.to_string()),
    }
}

/// Calls `chrono::NaiveDateTime::parse_and_remainder(line, fmt)`, which reads a date in the
/// format `fmt` at the start of `line` and leaves the rest. The contract claims only that the
/// result depends on `line` and `fmt` alone.
#[verifier::external_body]
fn parse_date_time_prefix(line: &str, fmt: &str) -> (r: Option<DateTime>)
    ensures
        r == date_time_prefix(line@, fmt@),
{
    match NaiveDateTime::parse_and_remainder(line, fmt) {
        Ok((d, _)) => Some((d.and_utc().timestamp(), d.and_utc().timestamp_subsec_nanos())),
        Err(_) => None,
    }
}

// ---------------------------------------------------------------------------
// Lines with a date
// ---------------------------------------------------------------------------

/// A line of a text (its offsets and content) with the date found at its start.
pub struct DatedLine {
    pub start: nat,
    pub end: int,
    pub content: Seq<char>,
    pub date: DateTime,
}

/// The line that holds byte offset `o`, as reading forward gives it: start, end, content.
pub open spec fn line_fwd(s: Seq<char>, o: int) -> Option<(nat, int, Seq<char>)> {
    let segs = segments(s, DelimiterKind::LineBreak, o, 1, true).0;
    if o < 0 || o > byte_len(s) || segs.len() == 0 {
        None
    } else {
        let g = segs[0];
        let t = trim_end(s, g.a, g.b);
        Some((pos(s, g.a), pos(s, g.b) - (g.b - t), s.subrange(g.a, t)))
    }
}

/// The line that holds byte offset `o`, as reading backward gives it: start, end, content.
pub open spec fn line_bwd(s: Seq<char>, o: int) -> Option<(nat, int, Seq<char>)> {
    let segs = segments(s, DelimiterKind::LineBreak, o, -1, true).0;
    if o < 0 || o > byte_len(s) || segs.len() == 0 {
        None
    } else {
        let g = segs[0];
        let t = trim_end(s, g.a, g.b);
        let start = if g.a > 0 {
            pos(s, g.a - 1) + 1
        } else {
            pos(s, g.a)
        };
        Some((start, pos(s, g.b) - (g.b - t), s.subrange(g.a, t)))
    }
}

/// A line as a dated line.
pub open spec fn dated(l: Line, d: DateTime) -> DatedLine {
    DatedLine { start: l.start as nat, end: l.end as int, content: l.content@, date: d }
}

/// Where reading goes on after line `(a, e)` read at `o`: just past the line, and in any
/// case past `o` (forward); just before the line, and in any case before `o` (backward).
pub open spec fn next_offset(o: int, a: int, e: int, backward: bool) -> int {
    if backward {
        if a - 1 < o {
            a - 1
        } else {
            o - 1
        }
    } else {
        if e + 1 > o {
            e + 1
        } else {
            o + 1
        }
    }
}

/// The first line with a date, reading forward from the line that holds `o`, among the lines
/// read at an offset before `boundary`; `None` when a line without a date is followed by the
/// boundary or the end of the text.
pub open spec fn take_fwd(s: Seq<char>, fmt: Seq<char>, o: int, boundary: int) -> Option<DatedLine>
    decreases (if o > byte_len(s) { 0 } else { byte_len(s) + 1 - o }),
{
    if o >= boundary || o < 0 || o > byte_len(s) {
        None
    } else {
        match line_fwd(s, o) {
            None => None,
            Some((a, e, c)) => match date_time_prefix(c, fmt) {
                Some(d) => Some(DatedLine { start: a, end: e, content: c, date: d }),
                None => take_fwd(s, fmt, next_offset(o, a as int, e, false), boundary),
            },
        }
    }
}

/// Reading backward from the line that holds `o`, over lines read at offsets after
/// `boundary`: the last line with a date, extended backward over the lines right before it
/// that carry the same date; the earliest of them is returned. `best` is the run found so
/// far. Lines without a date before any dated line are passed over; after a dated line they
/// end the run.
pub open spec fn take_bwd(
    s: Seq<char>,
    fmt: Seq<char>,
    o: int,
    boundary: int,
    best: Option<DatedLine>,
) -> Option<DatedLine>
    decreases (if o < 0 { 0 } else { o + 1 }),
{
    if o <= boundary || o < 0 {
        best
    } else {
        match line_bwd(s, o) {
            None => None,
            Some((a, e, c)) => {
                let next = next_offset(o, a as int, e, true);
                match date_time_prefix(c, fmt) {
                    Some(d) => {
                        let line = DatedLine { start: a, end: e, content: c, date: d };
                        match best {
                            Some(b) => if b.date == d {
                                take_bwd(s, fmt, next, boundary, Some(line))
                            } else {
                                best
                            },
                            None => take_bwd(s, fmt, next, boundary, Some(line)),
                        }
                    },
                    None => if best is Some {
                        best
                    } else {
                        take_bwd(s, fmt, next, boundary, None)
                    },
                }
            },
        }
    }
}

/// The earliest line carrying the date of `l`, found by going back run by run from `l` over
/// dated lines with that date (lines without a date between runs are passed over).
pub open spec fn earliest_with_date(s: Seq<char>, fmt: Seq<char>, l: DatedLine) -> nat
    decreases l.start,
{
    match take_bwd(s, fmt, l.start - 1, 0, None) {
        Some(c) => if c.date == l.date && c.start < l.start {
            earliest_with_date(s, fmt, c)
        } else {
            l.start
        },
        None => l.start,
    }
}

/// Where reading goes on after dated line `l`, found reading forward from `o`: just past the
/// line, and in any case past `o`.
pub open spec fn after_line(o: int, l: DatedLine) -> int {
    if l.end + 1 > o {
        l.end + 1
    } else {
        o + 1
    }
}

/// The dated lines of `s`, in text order, read forward from offset `o` on: each is the first
/// line with a date from where reading of the previous one stopped.
pub open spec fn dated_lines(s: Seq<char>, fmt: Seq<char>, o: int) -> Seq<DatedLine>
    decreases (if o < 0 || o > byte_len(s) { 0 } else { byte_len(s) + 1 - o }),
{
    if o < 0 || o > byte_len(s) {
        Seq::empty()
    } else {
        match take_fwd(s, fmt, o, byte_len(s) as int) {
            None => Seq::empty(),
            Some(l) => seq![l] + dated_lines(s, fmt, after_line(o, l)),
        }
    }
}

/// The line a scan of the dated lines `d` for `date` stops at, `best` being the last line
/// dated before `date` passed so far: the first line dated `date`; at the first line dated
/// after `date`, the line before it, or that line when none came before; at the end, the
/// last line passed.
pub open spec fn scan_for(d: Seq<DatedLine>, date: DateTime, best: Option<DatedLine>) -> Result<int, GoToError>
    decreases d.len(),
{
    if d.len() == 0 {
        match best {
            Some(b) => Ok(b.start as int),
            None => Err(GoToError::NotReachable),
        }
    } else if date_before(d[0].date, date) {
        scan_for(d.drop_first(), date, Some(d[0]))
    } else if d[0].date == date {
        Ok(d[0].start as int)
    } else {
        match best {
            Some(b) => Ok(b.start as int),
            None => Ok(d[0].start as int),
        }
    }
}

/// Where the search for `date` in text `s` lands.
pub open spec fn date_search(s: Seq<char>, fmt: Seq<char>, date: DateTime) -> Result<int, GoToError> {
    scan_for(dated_lines(s, fmt, 0), date, None)
}

/// The dates of `d` never decrease.
pub open spec fn dates_sorted(d: Seq<DatedLine>) -> bool {
    forall|i: int, j: int| 0 <= i < j < d.len() ==> !date_before(#[trigger] d[j].date, #[trigger] d[i].date)
}

proof fn lemma_scan_for(d: Seq<DatedLine>, date: DateTime, best: Option<DatedLine>)
    requires
        dates_sorted(d),
        best matches Some(b) ==> date_before(b.date, date) && forall|j: int| 0 <= j < d.len() ==> !date_before(#[trigger] d[j].date, b.date),
    ensures
        (exists|k: int| 0 <= k < d.len() && #[trigger] d[k].date == date) ==> exists|k: int|
            0 <= k < d.len() && #[trigger] d[k].date == date && (forall|j: int| 0 <= j < k ==> d[j].date != date)
                && scan_for(d, date, best) == Ok::<int, GoToError>(d[k].start as int),
        !(exists|k: int| 0 <= k < d.len() && #[trigger] d[k].date == date) && (exists|k: int| 0 <= k < d.len() && date_before(#[trigger] d[k].date, date))
            ==> exists|k: int|
            0 <= k < d.len() && date_before(#[trigger] d[k].date, date) && (forall|j: int| k < j < d.len() ==> !date_before(d[j].date, date))
                && scan_for(d, date, best) == Ok::<int, GoToError>(d[k].start as int),
        !(exists|k: int| 0 <= k < d.len() && #[trigger] d[k].date == date) && !(exists|k: int| 0 <= k < d.len() && date_before(#[trigger] d[k].date, date))
            && best is Some ==> scan_for(d, date, best) == Ok::<int, GoToError>(best.unwrap().start as int),
    decreases d.len(),
{
    if d.len() == 0 {
        return;
    }
    let rest = d.drop_first();
    if date_before(d[0].date, date) {
        assert(dates_sorted(rest)) by {
            assert forall|i: int, j: int| 0 <= i < j < rest.len() implies !date_before(#[trigger] rest[j].date, #[trigger] rest[i].date) by {
                assert(rest[i] == d[i + 1] && rest[j] == d[j + 1]);
            }
        }
        assert forall|j: int| 0 <= j < rest.len() implies !date_before(#[trigger] rest[j].date, d[0].date) by {
            assert(rest[j] == d[j + 1]);
        }
        lemma_scan_for(rest, date, Some(d[0]));
        if exists|k: int| 0 <= k < d.len() && #[trigger] d[k].date == date {
            let k0 = choose|k: int| 0 <= k < d.len() && #[trigger] d[k].date == date;
            assert(rest[k0 - 1].date == date);
            let k = choose|k: int|
                0 <= k < rest.len() && #[trigger] rest[k].date == date && (forall|j: int| 0 <= j < k ==> rest[j].date != date)
                    && scan_for(rest, date, Some(d[0])) == Ok::<int, GoToError>(rest[k].start as int);
            assert(d[k + 1] == rest[k]);
            assert forall|j: int| 0 <= j < k + 1 implies d[j].date != date by {
                if j > 0 {
                    assert(d[j] == rest[j - 1]);
                }
            }
        } else {
            assert(!exists|k: int| 0 <= k < rest.len() && #[trigger] rest[k].date == date) by {
                if exists|k: int| 0 <= k < rest.len() && #[trigger] rest[k].date == date {
                    let k = choose|k: int| 0 <= k < rest.len() && #[trigger] rest[k].date == date;
                    assert(d[k + 1].date == date);
                }
            }
            if exists|k: int| 0 <= k < rest.len() && date_before(#[trigger] rest[k].date, date) {
                let k = choose|k: int|
                    0 <= k < rest.len() && date_before(#[trigger] rest[k].date, date) && (forall|j: int| k < j < rest.len() ==> !date_before(rest[j].date, date))
                        && scan_for(rest, date, Some(d[0])) == Ok::<int, GoToError>(rest[k].start as int);
                assert(d[k + 1] == rest[k]);
                assert(date_before(d[k + 1].date, date));
                assert forall|j: int| k + 1 < j < d.len() implies !date_before(d[j].date, date) by {
                    assert(d[j] == rest[j - 1]);
                }
            } else {
                assert(date_before(d[0].date, date));
                assert forall|j: int| 0 < j < d.len() implies !date_before(d[j].date, date) by {
                    assert(d[j] == rest[j - 1]);
                    if date_before(d[j].date, date) {
                        assert(date_before(rest[j - 1].date, date));
                    }
                }
            }
        }
    } else if d[0].date == date {
        assert(d[0].date == date);
    } else {
        assert forall|j: int| 0 <= j < d.len() implies d[j].date != date && !date_before(#[trigger] d[j].date, date) by {
            if j > 0 {
                assert(!date_before(d[j].date, d[0].date));
            }
        }
    }
}

/// The best match promised for sorted dates: when the dated lines of `s` carry
/// non-decreasing dates and one of them is dated no later than `date`, the search lands on
/// the first line dated `date`, or, when there is none, on the last line dated before it.
pub proof fn lemma_date_search_best_match(s: Seq<char>, fmt: Seq<char>, date: DateTime)
    requires
        dates_sorted(dated_lines(s, fmt, 0)),
        exists|i: int| 0 <= i < dated_lines(s, fmt, 0).len() && !date_before(date, #[trigger] dated_lines(s, fmt, 0)[i].date),
    ensures
        ({
            let d = dated_lines(s, fmt, 0);
            &&& (exists|k: int| 0 <= k < d.len() && #[trigger] d[k].date == date) ==> exists|k: int|
                0 <= k < d.len() && #[trigger] d[k].date == date && (forall|j: int| 0 <= j < k ==> d[j].date != date)
                    && date_search(s, fmt, date) == Ok::<int, GoToError>(d[k].start as int)
            &&& !(exists|k: int| 0 <= k < d.len() && #[trigger] d[k].date == date) ==> exists|k: int|
                0 <= k < d.len() && date_before(#[trigger] d[k].date, date) && (forall|j: int| k < j < d.len() ==> !date_before(d[j].date, date))
                    && date_search(s, fmt, date) == Ok::<int, GoToError>(d[k].start as int)
        }),
{
    let d = dated_lines(s, fmt, 0);
    lemma_scan_for(d, date, None);
    let i = choose|i: int| 0 <= i < d.len() && !date_before(date, #[trigger] d[i].date);
    if !(exists|k: int| 0 <= k < d.len() && #[trigger] d[k].date == date) {
        assert(d[i].date != date);
        assert(date_before(d[i].date, date));
    }
}

// ---------------------------------------------------------------------------
// Facts about single lines
// ---------------------------------------------------------------------------

/// A line read forward lies within the text.
pub proof fn lemma_line_fwd_bounds(s: Seq<char>, o: int)
    ensures
        line_fwd(s, o) matches Some((a, e, c)) ==> 0 <= a <= e <= byte_len(s),
{
    if line_fwd(s, o) is Some {
        lemma_fwd_segs_bounds(s, DelimiterKind::LineBreak, o);
        let g = segments(s, DelimiterKind::LineBreak, o, 1, true).0[0];
        let t = trim_end(s, g.a, g.b);
        lemma_pos_monotonic(s, g.a, t);
        lemma_pos_monotonic(s, t, g.b);
        lemma_pos_monotonic(s, g.b, s.len() as int);
        lemma_pos_full(s);
    }
}

/// A line read backward lies within the text.
pub proof fn lemma_line_bwd_bounds(s: Seq<char>, o: int)
    ensures
        line_bwd(s, o) matches Some((a, e, c)) ==> 0 <= a <= e <= byte_len(s),
{
    if line_bwd(s, o) is Some {
        let kind = DelimiterKind::LineBreak;
        let idx = char_index(s, o);
        lemma_char_index_monotonic(s, o, o);
        lemma_next_delim(s, kind, idx);
        let q = next_delim(s, kind, idx);
        lemma_prev_delim(s, kind, q);
        let j = prev_delim(s, kind, q);
        let segs = segments(s, kind, o, -1, true).0;
        let g = segs[0];
        if j < 0 {
            assert(g.a == 0 && g.b == q);
        } else {
            assert(segs == crate::data_source::read_delimited::bwd_segs(s, kind, q, 1, true, false, 0));
            assert(crate::data_source::read_delimited::bwd_segs(s, kind, j, 0, true, true, 1) =~= Seq::empty());
            assert(segs =~= seq![crate::data_source::read_delimited::Seg { a: j + 1, b: q, d: 0 }]);
        }
        assert(0 <= g.a <= g.b <= s.len());
        let t = trim_end(s, g.a, g.b);
        lemma_pos_monotonic(s, g.a, t);
        lemma_pos_monotonic(s, t, g.b);
        lemma_pos_monotonic(s, g.b, s.len() as int);
        lemma_pos_full(s);
        if g.a > 0 {
            lemma_pos_step(s, g.a - 1);
        }
    }
}

// ---------------------------------------------------------------------------
// Searching
// ---------------------------------------------------------------------------

pub open spec fn opt_dated(r: Option<(Line, DateTime)>) -> Option<DatedLine> {
    match r {
        Some((l, d)) => Some(dated(l, d)),
        None => None,
    }
}

pub open spec fn result_view(r: Result<Integer, GoToError>) -> Result<int, GoToError> {
    match r {
        Ok(v) => Ok(v as int),
        Err(e) => Err(e),
    }
}

/// Returns the earliest line with a recognized date in the given direction: `take_fwd`
/// reading forward, `take_bwd` reading backward.
fn take_line(
    reader: &LineSourceImpl,
    offset: Integer,
    boundary: Integer,
    direction: Direction,
    format: &str,
) -> (r: Option<(Line, DateTime)>)
    requires
        boundary >= 0,
    ensures
        opt_dated(r) == match direction {
            Direction::Forward => take_fwd(reader@, format@, offset as int, boundary as int),
            Direction::Backward => take_bwd(reader@, format@, offset as int, boundary as int, None),
        },
        r matches Some((l, d)) ==> 0 <= l.start <= l.end <= byte_len(reader@),
{
    let ghost s = reader@;
    let ghost f = format@;
    let ghost target = match direction {
        Direction::Forward => take_fwd(s, f, offset as int, boundary as int),
        Direction::Backward => take_bwd(s, f, offset as int, boundary as int, None),
    };
    let forward = match direction {
        Direction::Forward => true,
        Direction::Backward => false,
    };
    let mut o = offset;
    let mut best_match: Option<(Line, DateTime)> = None;
    let total = reader.get_length();
    loop
        invariant
            s == reader@,
            f == format@,
            boundary >= 0,
            total == byte_len(s),
            byte_len(s) < TEXT_LIMIT,
            forward == (direction is Forward),
            target == match direction {
                Direction::Forward => take_fwd(s, f, offset as int, boundary as int),
                Direction::Backward => take_bwd(s, f, offset as int, boundary as int, None),
            },
            forward ==> best_match is None && take_fwd(s, f, o as int, boundary as int) == target,
            !forward ==> take_bwd(s, f, o as int, boundary as int, opt_dated(best_match)) == target,
            best_match matches Some((l, d)) ==> 0 <= l.start <= l.end <= byte_len(s),
        decreases (if forward {
            if o > byte_len(s) { 0 } else { byte_len(s) + 1 - o }
        } else {
            if o < 0 { 0 } else { o + 1 }
        }),
    {
        if forward {
            if o >= boundary {
                assert(take_fwd(s, f, o as int, boundary as int) is None);
                return None;
            }
        } else {
            if o <= boundary {
                return best_match;
            }
        }
        let line = if forward {
            reader.read_next_line(o)
        } else {
            reader.read_prev_line(o)
        };
        let line = match line {
            Some(line) => line,
            None => return None,
        };
        proof {
            if forward {
                lemma_line_fwd_bounds(s, o as int);
                assert(line_fwd(s, o as int) == Some((line.start as nat, line.end as int, line.content@)));
            } else {
                lemma_line_bwd_bounds(s, o as int);
                assert(line_bwd(s, o as int) == Some((line.start as nat, line.end as int, line.content@)));
            }
        }
        let dt = parse_date_time_prefix(line.content.as_str(), format);
        let next = if forward {
            if line.end + 1 > o {
                line.end + 1
            } else {
                o + 1
            }
        } else {
            if line.start - 1 < o {
                line.start - 1
            } else {
                o - 1
            }
        };
        match dt {
            Some(dt) => {
                if forward {
                    return Some((line, dt));
                }
                match best_match {
                    Some((best_line, best_dt)) => {
                        if best_dt.0 == dt.0 && best_dt.1 == dt.1 {
                            o = next;
                            best_match = Some((line, dt));
                        } else {
                            return Some((best_line, best_dt));
                        }
                    },
                    None => {
                        o = next;
                        best_match = Some((line, dt));
                    },
                }
            },
            None => {
                if best_match.is_some() {
                    return best_match;
                }
                o = next;
            },
        }
    }
}

/// The earliest line carrying the date of `line`, going back run by run; its start.
pub fn earliest_line_with_given_date(reader: &LineSourceImpl, line: (Line, DateTime), format: &str) -> (r: Integer)
    requires
        0 <= line.0.start <= line.0.end <= byte_len(reader@),
    ensures
        r == earliest_with_date(reader@, format@, dated(line.0, line.1)),
{
    let ghost s = reader@;
    let ghost f = format@;
    let date = line.1;
    let mut result = line.0;
    loop
        invariant
            s == reader@,
            f == format@,
            0 <= result.start <= result.end <= byte_len(s),
            earliest_with_date(s, f, dated(result, date)) == earliest_with_date(s, f, dated(line.0, line.1)),
            date == line.1,
        decreases result.start,
    {
        let prev = take_line(reader, result.start - 1, 0, Direction::Backward, format);
        match prev {
            Some((candidate, candidate_date)) => {
                if candidate_date.0 == date.0 && candidate_date.1 == date.1 && candidate.start < result.start {
                    result = candidate;
                } else {
                    return result.start;
                }
            },
            None => return result.start,
        }
    }
}

/// Finds the line that matches `date` best, the lines of the text being sorted by their dates
/// in ascending order; dates are read at the start of lines in `format`, and lines without a
/// date are passed over. Best match means the first line with a date equal to `date`, or else
/// the last line among those with a date before it (see `lemma_date_search_best_match`); when
/// every line is dated after `date`, the first dated line. The dated lines are read in order
/// until the best match is known; before each one `is_interrupted` is asked, and the search
/// stops with `Cancelled` when it says so.
pub fn bin_search<F: Fn() -> bool>(
    date: DateTime,
    reader: &LineSourceImpl,
    format: &str,
    is_interrupted: F,
) -> (r: Result<Integer, GoToError>)
    requires
        is_interrupted.requires(()),
    ensures
        r == Err::<Integer, GoToError>(GoToError::Cancelled) ==> call_ensures(is_interrupted, (), true),
        r != Err::<Integer, GoToError>(GoToError::Cancelled) ==> result_view(r) == date_search(reader@, format@, date),
{
    let ghost s = reader@;
    let ghost f = format@;
    let total = reader.get_length();
    let mut o: Integer = 0;
    let mut best: Option<Line> = None;
    let ghost mut best_d: Option<DatedLine> = None;
    loop
        invariant
            s == reader@,
            f == format@,
            total == byte_len(s),
            byte_len(s) < TEXT_LIMIT,
            is_interrupted.requires(()),
            0 <= o,
            scan_for(dated_lines(s, f, o as int), date, best_d) == date_search(s, f, date),
            match best {
                Some(l) => best_d matches Some(b) && b.start == l.start && 0 <= l.start,
                None => best_d is None,
            },
            best_d matches Some(b) ==> date_before(b.date, date),
        decreases (if o > byte_len(s) { 0 } else { byte_len(s) + 1 - o }),
    {
        if is_interrupted() {
            return Err(GoToError::Cancelled);
        }
        let found = if o > total {
            None
        } else {
            take_line(reader, o, total, Direction::Forward, format)
        };
        let (line, dt) = match found {
            Some(x) => x,
            None => {
                return match best {
                    Some(l) => Ok(l.start),
                    None => Err(GoToError::NotReachable),
                };
            },
        };
        let ghost l = dated(line, dt);
        proof {
            let d = dated_lines(s, f, o as int);
            assert(d == seq![l] + dated_lines(s, f, after_line(o as int, l)));
            assert(d[0] == l);
            assert(d.drop_first() =~= dated_lines(s, f, after_line(o as int, l)));
        }
        if is_before(dt, date) {
            let next = if line.end + 1 > o {
                line.end + 1
            } else {
                o + 1
            };
            o = next;
            proof {
                best_d = Some(l);
            }
            best = Some(line);
        } else if dt.0 == date.0 && dt.1 == date.1 {
            return Ok(line.start);
        } else {
            return match best {
                Some(b) => Ok(b.start),
                None => Ok(line.start),
            };
        }
    }
}

// ---------------------------------------------------------------------------
// Dialogs
// ---------------------------------------------------------------------------

/// What the jump dialogs share: whether the dialog is open, and the background process that
/// performs the jump requested last.
pub struct AbstractGoToModel {
    pub is_open: bool,
    pub current_process: Option<u128>,
}

impl AbstractGoToModel {
    pub fn new() -> (r: Self)
        ensures
            !r.is_open,
            r.current_process is None,
    {
        AbstractGoToModel { is_open: false, current_process: None }
    }

    /// Opens or closes the dialog; returns the new state to announce when it changed.
    pub fn set_is_open(&mut self, is_open: bool) -> (r: Option<bool>)
        ensures
            final(self).is_open == is_open,
            final(self).current_process == old(self).current_process,
            r == (if old(self).is_open != is_open { Some(is_open) } else { None }),
    {
        if self.is_open != is_open {
            self.is_open = is_open;
            Some(is_open)
        } else {
            None
        }
    }

    pub fn is_open(&self) -> (r: bool)
        ensures
            r == self.is_open,
    {
        self.is_open
    }

    /// A jump is requested and runs as process `pid`: the dialog closes (the state to
    /// announce is returned first) and the process replaces the current one, which is
    /// returned second, to be interrupted.
    pub fn submit(&mut self, pid: u128) -> (r: (Option<bool>, Option<u128>))
        ensures
            !final(self).is_open,
            final(self).current_process == Some(pid),
            r.0 == (if old(self).is_open { Some(false) } else { None }),
            r.1 == old(self).current_process,
    {
        let event = self.set_is_open(false);
        let previous = self.current_process;
        self.current_process = Some(pid);
        (event, previous)
    }

    /// A message from process `pid`: its result (`Some`) or a progress report (`None`). The
    /// current process is forgotten whatever the message. A result of another process than
    /// the current one is ignored; of the current one, a position is shown, a cancellation is
    /// ignored and any other error is returned.
    pub fn handle_result(&mut self, pid: u128, msg: Option<Result<Integer, GoToError>>) -> (r: Result<GoToOutcome, GoToError>)
        ensures
            final(self).current_process is None,
            final(self).is_open == old(self).is_open,
            r == (if old(self).current_process == Some(pid) {
                match msg {
                    Some(Ok(p)) => Ok(GoToOutcome::Found(Occurrence { start: p, end: p })),
                    Some(Err(GoToError::Cancelled)) => Ok(GoToOutcome::Cancelled),
                    Some(Err(e)) => Err(e),
                    None => Ok(GoToOutcome::Nothing),
                }
            } else {
                Ok(GoToOutcome::Nothing)
            }),
    {
        let h = self.current_process;
        self.current_process = None;
        match h {
            Some(h) => if h == pid {
                match msg {
                    Some(Ok(p)) => Ok(GoToOutcome::Found(Occurrence::new(p, p))),
                    Some(Err(GoToError::Cancelled)) => Ok(GoToOutcome::Cancelled),
                    Some(Err(e)) => Err(e),
                    None => Ok(GoToOutcome::Nothing),
                }
            } else {
                Ok(GoToOutcome::Nothing)
            },
            None => Ok(GoToOutcome::Nothing),
        }
    }
}

/// The state of the "go to date" dialog.
pub struct GoToDateModel {
    pub go_to_model: AbstractGoToModel,
    pub value: String,
}

impl GoToDateModel {
    pub fn new() -> (r: Self)
        ensures
            !r.go_to_model.is_open,
            r.go_to_model.current_process is None,
            r.value@ == Seq::<char>::empty(),
    {
        GoToDateModel { go_to_model: AbstractGoToModel::new(), value: String::new() }
    }

    /// Opens or closes the dialog; returns the new state to announce when it changed.
    pub fn set_is_open(&mut self, is_open: bool) -> (r: Option<bool>)
        ensures
            final(self).go_to_model.is_open == is_open,
            final(self).go_to_model.current_process == old(self).go_to_model.current_process,
            final(self).value == old(self).value,
            r == (if old(self).go_to_model.is_open != is_open { Some(is_open) } else { None }),
    {
        self.go_to_model.set_is_open(is_open)
    }

    pub fn is_open(&self) -> (r: bool)
        ensures
            r == self.go_to_model.is_open,
    {
        self.go_to_model.is_open()
    }

    pub fn get_value(&self) -> (r: &str)
        ensures
            r@ == self.value@,
    {
        self.value.as_str()
    }

    pub fn set_value(&mut self, value: &str)
        ensures
            final(self).value@ == value@,
            final(self).go_to_model == old(self).go_to_model,
    {
        self.value = String::from_str(value);
    }

    /// Accepts the typed date, read in `DATE_FORMAT`: on success the jump is requested as
    /// process `pid` (see `AbstractGoToModel::submit`) and the date is returned with what that
    /// gives; otherwise the parser's message, and nothing changes.
    pub fn submit(&mut self, pid: u128) -> (r: Result<(DateTime, Option<bool>, Option<u128>), String>)
        ensures
            match date_time_parse(old(self).value@, DATE_FORMAT@) {
                Ok(d) => r matches Ok((d2, event, previous)) && d2 == d
                    && event == (if old(self).go_to_model.is_open { Some(false) } else { None })
                    && previous == old(self).go_to_model.current_process
                    && !final(self).go_to_model.is_open
                    && final(self).go_to_model.current_process == Some(pid)
                    && final(self).value == old(self).value,
                Err(m) => r matches Err(x) && x@ == m && *final(self) == *old(self),
            },
    {
        let date = match parse_date_time(self.value.as_str(), DATE_FORMAT) {
            Ok(d) => d,
            Err(m) => return Err(m),
        };
        let (event, previous) = self.go_to_model.submit(pid);
        Ok((date, event, previous))
    }

    /// See `AbstractGoToModel::handle_result`.
    pub fn handle_result(&mut self, pid: u128, msg: Option<Result<Integer, GoToError>>) -> (r: Result<GoToOutcome, GoToError>)
        ensures
            final(self).go_to_model.current_process is None,
            final(self).go_to_model.is_open == old(self).go_to_model.is_open,
            final(self).value == old(self).value,
            r == (if old(self).go_to_model.current_process == Some(pid) {
                match msg {
                    Some(Ok(p)) => Ok(GoToOutcome::Found(Occurrence { start: p, end: p })),
                    Some(Err(GoToError::Cancelled)) => Ok(GoToOutcome::Cancelled),
                    Some(Err(e)) => Err(e),
                    None => Ok(GoToOutcome::Nothing),
                }
            } else {
                Ok(GoToOutcome::Nothing)
            }),
    {
        self.go_to_model.handle_result(pid, msg)
    }
}

} // verus!
