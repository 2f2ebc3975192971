use vstd::prelude::*;
use crate::data_source::line::Line;
use crate::data_source::line_registry::{count_in, newline_offsets, strictly_sorted, LineRegistryError, LineRegistryImpl};
use crate::data_source::read_delimited::{
    char_index, count_range, data_of, first_line_no, line_of, lemma_index_from_pub, read_delimited,
    delims_before, segments, Data, DelimiterKind, Direction, Seg,
};
use crate::data_source::text::{byte_len, Text, TEXT_LIMIT};
use crate::data_source::tokenizer::{skip_token, skip_token_index};
use crate::data_source::text::pos;
use crate::interval::{contains, fixed, mk, Integer, Interval};
use vstd::string::StringSliceAdditionalSpecFns;

verus! {

/// A source of lines over a text held in memory, with an optional registry of line breaks
/// that numbers the lines.
pub struct LineSourceImpl {
    text: Text,
    track_line_no: bool,
    line_registry: LineRegistryImpl,
}

/// The lines that `read_lines(offset, n)` returns for a text and a registry (if lines are
/// numbered).
pub open spec fn lines_read(
    s: Seq<char>,
    registry: Option<LineRegistryImpl>,
    offset: Integer,
    n: Integer,
    data: Data,
) -> bool {
    if offset < 0 || n == 0 || offset > byte_len(s) {
        data.lines@.len() == 0 && data.start is None && data.end is None
    } else {
        data_of(
            data,
            s,
            segments(s, DelimiterKind::LineBreak, offset as int, n as int, true).0,
            n < 0,
            first_line_no(registry, count_range(offset, n)),
        )
    }
}

impl LineSourceImpl {
    pub closed spec fn view(self) -> Seq<char> {
        self.text.view()
    }

    pub closed spec fn spec_tracks_line_numbers(self) -> bool {
        self.track_line_no
    }

    pub closed spec fn registry(self) -> LineRegistryImpl {
        self.line_registry
    }

    /// The registry used to number lines, if lines are numbered.
    pub open spec fn numbering(self) -> Option<LineRegistryImpl> {
        if self.spec_tracks_line_numbers() {
            Some(self.registry())
        } else {
            None
        }
    }

    /// A source over the given text; lines are not numbered and the registry is empty.
    pub fn new(text: Text) -> (r: Self)
        ensures
            r.view() == text.view(),
            !r.spec_tracks_line_numbers(),
            r.registry().breaks().len() == 0,
            r.registry().spec_crawled() == 0,
    {
        LineSourceImpl { text, track_line_no: false, line_registry: LineRegistryImpl::new() }
    }

    /// A source over a string.
    pub fn from_str(s: &str) -> (r: Self)
        requires
            s.spec_bytes().len() < TEXT_LIMIT,
        ensures
            r.view() == s@,
            !r.spec_tracks_line_numbers(),
            r.registry().breaks().len() == 0,
            r.registry().spec_crawled() == 0,
    {
        LineSourceImpl::new(Text::from_str(s))
    }

    /// The text.
    pub fn text(&self) -> (r: &Text)
        ensures
            r.view() == self.view(),
    {
        &self.text
    }

    /// Length in bytes.
    pub fn get_length(&self) -> (r: Integer)
        ensures
            r == byte_len(self.view()),
            r < TEXT_LIMIT,
    {
        self.text.total()
    }

    /// Reads `|number_of_lines|` lines in the direction given by its sign, starting with the line
    /// that holds `offset`; lines are returned in text order. A negative offset gives nothing.
    pub fn read_lines(&self, offset: Integer, number_of_lines: Integer) -> (r: Data)
        ensures
            lines_read(self.view(), self.numbering(), offset, number_of_lines, r),
    {
        if offset < 0 {
            return Data::default();
        }
        let registry = if self.track_line_no {
            Some(&self.line_registry)
        } else {
            None
        };
        let (data, _) = read_delimited(
            &self.text,
            offset,
            number_of_lines,
            true,
            registry,
            DelimiterKind::LineBreak,
        );
        data
    }

    /// The line that holds `offset`, if any.
    pub fn read_next_line(&self, offset: Integer) -> (r: Option<Line>)
        ensures
            ({
                let segs = segments(self.view(), DelimiterKind::LineBreak, offset as int, 1, true).0;
                if offset < 0 || offset > byte_len(self.view()) || segs.len() == 0 {
                    r is None
                } else {
                    r is Some && line_of(
                        r.unwrap(),
                        self.view(),
                        segs[0],
                        false,
                        first_line_no(self.numbering(), count_range(offset, 1i64)),
                    )
                }
            }),
    {
        let mut data = self.read_lines(offset, 1);
        proof {
            if !(offset < 0 || offset > byte_len(self.view())) {
                lemma_at_most_one_fwd(self.view(), offset);
            }
        }
        data.lines.pop()
    }

    /// The line that holds `offset`, read backward, if any.
    pub fn read_prev_line(&self, offset: Integer) -> (r: Option<Line>)
        ensures
            ({
                let segs = segments(self.view(), DelimiterKind::LineBreak, offset as int, -1, true).0;
                if offset < 0 || offset > byte_len(self.view()) || segs.len() == 0 {
                    r is None
                } else {
                    r is Some && line_of(
                        r.unwrap(),
                        self.view(),
                        segs[0],
                        true,
                        first_line_no(self.numbering(), count_range(offset, -1i64)),
                    )
                }
            }),
    {
        let mut data = self.read_lines(offset, -1);
        proof {
            if !(offset < 0 || offset > byte_len(self.view())) {
                lemma_at_most_one_bwd(self.view(), offset);
            }
        }
        data.lines.pop()
    }

    pub fn track_line_number(&mut self, track: bool)
        ensures
            final(self).view() == old(self).view(),
            final(self).registry() == old(self).registry(),
            final(self).spec_tracks_line_numbers() == track,
    {
        self.track_line_no = track;
    }

    /// The chars that start within `[start, end)`; refused when `start` is negative or `end` is
    /// before `start`.
    pub fn read_raw(&self, start: Integer, end: Integer) -> (r: Result<String, ()>)
        ensures
            (start < 0 || end < start) ==> r is Err,
            !(start < 0 || end < start) ==> r is Ok && r.unwrap()@ == self.view().subrange(
                char_index(self.view(), start as int),
                char_index(self.view(), end as int),
            ),
    {
        if start < 0 || end < start {
            return Err(());
        }
        let a = self.text.index_of_offset(start);
        let b = self.text.index_of_offset(end);
        proof {
            lemma_index_from_pub(self.view(), start as int, a as int);
            lemma_index_from_pub(self.view(), end as int, b as int);
            crate::data_source::read_delimited::lemma_char_index_monotonic(self.view(), start as int, end as int);
        }
        Ok(self.text.substring(a, b))
    }

    /// See `tokenizer::skip_token`.
    pub fn skip_token(&self, offset: Integer, direction: Direction) -> (r: Result<Integer, ()>)
        ensures
            offset < 0 ==> r is Err,
            offset >= 0 && offset > byte_len(self.view()) ==> r == Ok::<Integer, ()>(offset),
            offset >= 0 && offset <= byte_len(self.view()) ==> r == Ok::<Integer, ()>(
                match skip_token_index(self.view(), offset as int, direction) {
                    Some(k) => pos(self.view(), k) as Integer,
                    None => offset,
                },
            ),
    {
        skip_token(offset, direction, &self.text)
    }

    pub fn get_line_registry(&self) -> (r: &LineRegistryImpl)
        ensures
            *r == self.registry(),
    {
        &self.line_registry
    }

    /// Registers a line break at `offset` (see `LineRegistryImpl::push`).
    pub fn push_line_break(&mut self, offset: Integer)
        requires
            offset < i64::MAX,
        ensures
            final(self).view() == old(self).view(),
            final(self).spec_tracks_line_numbers() == old(self).spec_tracks_line_numbers(),
            final(self).registry().breaks().to_set() == old(self).registry().breaks().to_set().insert(offset),
    {
        self.line_registry.push(offset)
    }

    /// Crawls the whole text for line breaks (see `LineRegistryImpl::build`).
    pub fn build_line_registry(&mut self) -> (r: Result<(), LineRegistryError>)
        ensures
            final(self).view() == old(self).view(),
            final(self).spec_tracks_line_numbers() == old(self).spec_tracks_line_numbers(),
            r is Ok,
            final(self).registry().breaks().to_set() == old(self).registry().breaks().to_set().union(
                newline_offsets(0, vstd::utf8::encode_utf8(old(self).view())),
            ),
    {
        let bytes = self.text.as_bytes();
        let r = self.line_registry.build(bytes, 0, never_interrupted, ignore_progress);
        r
    }
}

fn never_interrupted() -> (r: bool)
    ensures
        !r,
{
    false
}

fn ignore_progress(_n: usize) {
}

/// Reading one line forward gives at most one line.
proof fn lemma_at_most_one_fwd(s: Seq<char>, offset: Integer)
    ensures
        segments(s, DelimiterKind::LineBreak, offset as int, 1, true).0.len() <= 1,
{
    crate::data_source::read_delimited::lemma_fwd_segs_len(
        s,
        DelimiterKind::LineBreak,
        crate::data_source::read_delimited::seg_start(s, DelimiterKind::LineBreak, char_index(s, offset as int)),
        1,
        true,
        false,
        0,
    );
}

/// Reading one line backward gives at most one line.
proof fn lemma_at_most_one_bwd(s: Seq<char>, offset: Integer)
    ensures
        segments(s, DelimiterKind::LineBreak, offset as int, -1, true).0.len() <= 1,
{
    crate::data_source::read_delimited::lemma_bwd_segs_len(
        s,
        DelimiterKind::LineBreak,
        crate::data_source::read_delimited::next_delim(s, DelimiterKind::LineBreak, char_index(s, offset as int)),
        1,
        true,
        false,
        0,
    );
}


/// Lines read forward lie within the text, in order: each starts no later than it ends, and
/// ends before the next one starts.
pub proof fn lemma_lines_read_forward(
    s: Seq<char>,
    registry: Option<LineRegistryImpl>,
    offset: Integer,
    n: Integer,
    data: Data,
)
    requires
        lines_read(s, registry, offset, n, data),
        n > 0,
    ensures
        forall|k: int| 0 <= k < data.lines@.len() ==> 0 <= #[trigger] data.lines@[k].start <= data.lines@[k].end <= byte_len(s),
        forall|k: int| 0 <= k < data.lines@.len() ==> #[trigger] data.lines@[k].content@.len() <= byte_len(s),
        data.lines@.len() <= n,
        forall|k: int| #![trigger data.lines@[k].end, data.lines@[k + 1].start] 0 <= k < data.lines@.len() - 1 ==> data.lines@[k].end < data.lines@[k + 1].start,
        forall|i: int, j: int| 0 <= i < j < data.lines@.len() ==> data.lines@[i].start < data.lines@[j].start,
{
    if !(offset < 0 || n == 0 || offset > byte_len(s)) {
        let idx = char_index(s, offset as int);
        crate::data_source::read_delimited::lemma_char_index_monotonic(s, offset as int, offset as int);
        crate::data_source::read_delimited::lemma_prev_delim(s, DelimiterKind::LineBreak, idx);
        let p = crate::data_source::read_delimited::seg_start(s, DelimiterKind::LineBreak, idx);
        let segs = segments(s, DelimiterKind::LineBreak, offset as int, n as int, true).0;
        crate::data_source::read_delimited::lemma_fwd_segs_ordered(s, DelimiterKind::LineBreak, p, n as nat, true, false, 0);
        crate::data_source::read_delimited::lemma_fwd_segs_len(s, DelimiterKind::LineBreak, p, n as nat, true, false, 0);
        crate::data_source::text::lemma_pos_full(s);
        assert forall|k: int| 0 <= k < data.lines@.len() implies 0 <= #[trigger] data.lines@[k].start <= data.lines@[k].end <= byte_len(s) by {
            let g = segs[k];
            let t = crate::data_source::read_delimited::trim_end(s, g.a, g.b);
            assert(line_of(data.lines@[k], s, g, false, first_line_no(registry, count_range(offset, n))));
            crate::data_source::text::lemma_pos_monotonic(s, g.a, g.b);
            crate::data_source::text::lemma_pos_monotonic(s, g.b, s.len() as int);
        }
        crate::data_source::text::lemma_pos_monotonic(s, 0, s.len() as int);
        assert forall|k: int| 0 <= k < data.lines@.len() implies #[trigger] data.lines@[k].content@.len() <= byte_len(s) by {
            assert(line_of(data.lines@[k], s, segs[k], false, first_line_no(registry, count_range(offset, n))));
        }
        assert forall|k: int| #![trigger data.lines@[k].end, data.lines@[k + 1].start] 0 <= k < data.lines@.len() - 1 implies data.lines@[k].end < data.lines@[k + 1].start by {
            let g = segs[k];
            let h = segs[k + 1];
            assert(line_of(data.lines@[k], s, g, false, first_line_no(registry, count_range(offset, n))));
            assert(line_of(data.lines@[k + 1], s, h, false, first_line_no(registry, count_range(offset, n))));
            crate::data_source::text::lemma_pos_monotonic(s, g.b, h.a);
        }
        assert forall|i: int, j: int| 0 <= i < j < data.lines@.len() implies data.lines@[i].start < data.lines@[j].start by {
            let g = segs[i];
            let h = segs[j];
            assert(line_of(data.lines@[i], s, g, false, first_line_no(registry, count_range(offset, n))));
            assert(line_of(data.lines@[j], s, h, false, first_line_no(registry, count_range(offset, n))));
            lemma_segs_increasing(segs, i, j);
            crate::data_source::text::lemma_pos_monotonic(s, g.a, h.a);
        }
    }
}

proof fn lemma_segs_increasing(segs: Seq<Seg>, i: int, j: int)
    requires
        0 <= i < j < segs.len(),
        forall|k: int| 0 <= k < segs.len() ==> #[trigger] segs[k].a <= segs[k].b,
        forall|k: int| 0 <= k < segs.len() - 1 ==> #[trigger] segs[k].b < segs[k + 1].a,
    ensures
        segs[i].a < segs[j].a,
    decreases j - i,
{
    if j > i + 1 {
        lemma_segs_increasing(segs, i, j - 1);
    }
    assert(segs[j - 1].b < segs[j].a);
}


/// The start offsets of the lines that `read_lines(offset, n)` returns.
pub open spec fn starts_read(s: Seq<char>, offset: Integer, n: Integer) -> Seq<int> {
    if offset < 0 || n == 0 || offset > byte_len(s) {
        Seq::empty()
    } else {
        let segs = segments(s, DelimiterKind::LineBreak, offset as int, n as int, true).0;
        Seq::new(segs.len(), |k: int|
            if n < 0 && segs[k].a > 0 {
                (pos(s, segs[k].a - 1) + 1) as int
            } else {
                pos(s, segs[k].a) as int
            }
        )
    }
}

/// Numbered lines are numbered one after another in text order: each line read carries the
/// number of the line before it plus one. Reading forward, the first line read carries the
/// number counted for `offset`; reading backward, the last one (the line that holds `offset`)
/// does and the lines above it count down from there. Numbers stay within `0..=u64::MAX`: the
/// law is stated where the count leaves room for all the lines read.
pub proof fn lemma_lines_read_numbered_in_order(
    s: Seq<char>,
    registry: Option<LineRegistryImpl>,
    offset: Integer,
    n: Integer,
    data: Data,
    c: u64,
)
    requires
        lines_read(s, registry, offset, n, data),
        first_line_no(registry, count_range(offset, n)) == Ok::<u64, crate::data_source::line::LineNumberMissingReason>(c),
        n > 0 ==> c + data.lines@.len() <= u64::MAX,
        n < 0 ==> c + 1 >= data.lines@.len(),
    ensures
        forall|k: int| 0 <= k < data.lines@.len() ==> #[trigger] data.lines@[k].line_no == Ok::<u64, crate::data_source::line::LineNumberMissingReason>(
            (if n > 0 {
                c + k
            } else {
                c - (data.lines@.len() - 1 - k)
            }) as u64,
        ),
        forall|k: int| 0 <= k < data.lines@.len() - 1 ==> (#[trigger] data.lines@[k + 1].line_no matches Ok(b) && data.lines@[k].line_no matches Ok(a) && b == a + 1),
{
    if !(offset < 0 || n == 0 || offset > byte_len(s)) {
        let kind = DelimiterKind::LineBreak;
        let idx = char_index(s, offset as int);
        let segs = segments(s, kind, offset as int, n as int, true).0;
        let c0 = first_line_no(registry, count_range(offset, n));
        if n > 0 {
            let p = crate::data_source::read_delimited::seg_start(s, kind, idx);
            crate::data_source::read_delimited::lemma_fwd_segs_passed(s, kind, p, n as nat, false, 0);
        } else {
            let q = crate::data_source::read_delimited::next_delim(s, kind, idx);
            crate::data_source::read_delimited::lemma_bwd_segs_passed(s, kind, q, (-n) as nat, false, 0);
        }
        assert forall|k: int| 0 <= k < data.lines@.len() implies #[trigger] data.lines@[k].line_no == Ok::<u64, crate::data_source::line::LineNumberMissingReason>(
            (if n > 0 {
                c + k
            } else {
                c - (data.lines@.len() - 1 - k)
            }) as u64,
        ) by {
            assert(line_of(data.lines@[k], s, segs[k], n < 0, c0));
        }
        assert forall|k: int| 0 <= k < data.lines@.len() - 1 implies (#[trigger] data.lines@[k + 1].line_no matches Ok(b) && data.lines@[k].line_no matches Ok(a) && b == a + 1) by {
            assert(line_of(data.lines@[k], s, segs[k], n < 0, c0));
            assert(line_of(data.lines@[k + 1], s, segs[k + 1], n < 0, c0));
        }
    }
}

/// Byte offsets of the line breaks among the first `m` chars of `s`.
pub open spec fn breaks_among(s: Seq<char>, m: int) -> Set<Integer> {
    Set::new(|x: Integer| exists|i: int| 0 <= i < m && s[i] == '\n' && pos(s, i) == x)
}

/// As many line-break offsets as line breaks among the first `m` chars.
proof fn lemma_breaks_among_len(s: Seq<char>, m: int)
    requires
        0 <= m <= s.len(),
        byte_len(s) < TEXT_LIMIT,
    ensures
        breaks_among(s, m).finite(),
        breaks_among(s, m).len() == delims_before(s, DelimiterKind::LineBreak, m),
    decreases m,
{
    if m == 0 {
        assert(breaks_among(s, 0) =~= Set::<Integer>::empty());
    } else {
        lemma_breaks_among_len(s, m - 1);
        let prev = breaks_among(s, m - 1);
        let cur = breaks_among(s, m);
        crate::data_source::text::lemma_pos_monotonic(s, m - 1, s.len() as int);
        crate::data_source::text::lemma_pos_full(s);
        let p = pos(s, m - 1) as Integer;
        assert(p == pos(s, m - 1));
        if s[m - 1] == '\n' {
            assert(!prev.contains(p)) by {
                if prev.contains(p) {
                    let i = choose|i: int| 0 <= i < m - 1 && s[i] == '\n' && pos(s, i) == p;
                    crate::data_source::text::lemma_pos_monotonic(s, i, m - 1);
                }
            }
            assert forall|x: Integer| cur.contains(x) == prev.insert(p).contains(x) by {
                if cur.contains(x) {
                    let i = choose|i: int| 0 <= i < m && s[i] == '\n' && pos(s, i) == x;
                    if i < m - 1 {
                        assert(prev.contains(x));
                    }
                }
                if prev.contains(x) {
                    let i = choose|i: int| 0 <= i < m - 1 && s[i] == '\n' && pos(s, i) == x;
                    assert(cur.contains(x));
                }
                if x == p {
                    assert(cur.contains(x));
                }
            }
            assert(cur =~= prev.insert(p));
        } else {
            assert forall|x: Integer| cur.contains(x) == prev.contains(x) by {
                if cur.contains(x) {
                    let i = choose|i: int| 0 <= i < m && s[i] == '\n' && pos(s, i) == x;
                    assert(i < m - 1);
                    assert(prev.contains(x));
                }
                if prev.contains(x) {
                    let i = choose|i: int| 0 <= i < m - 1 && s[i] == '\n' && pos(s, i) == x;
                    assert(cur.contains(x));
                }
            }
            assert(cur =~= prev);
        }
    }
}

/// The number of elements of a strictly increasing sequence in `r` is the size of the set of
/// them.
proof fn lemma_count_in_set(b: Seq<Integer>, r: Interval)
    requires
        strictly_sorted(b),
    ensures
        Set::new(|x: Integer| b.contains(x) && contains(r, x as int)).finite(),
        count_in(b, r) == Set::new(|x: Integer| b.contains(x) && contains(r, x as int)).len(),
    decreases b.len(),
{
    let t = Set::new(|x: Integer| b.contains(x) && contains(r, x as int));
    if b.len() == 0 {
        assert(t =~= Set::<Integer>::empty());
    } else {
        let b0 = b.drop_last();
        assert(strictly_sorted(b0)) by {
            assert forall|i: int, j: int| 0 <= i < j < b0.len() implies b0[i] < b0[j] by {
                assert(b0[i] == b[i] && b0[j] == b[j]);
            }
        }
        lemma_count_in_set(b0, r);
        let t0 = Set::new(|x: Integer| b0.contains(x) && contains(r, x as int));
        let l = b.last();
        assert(!b0.contains(l)) by {
            if b0.contains(l) {
                let i = choose|i: int| 0 <= i < b0.len() && b0[i] == l;
                assert(b[i] == l);
            }
        }
        assert forall|x: Integer| b.contains(x) == (b0.contains(x) || x == l) by {
            if b.contains(x) {
                let i = choose|i: int| 0 <= i < b.len() && b[i] == x;
                if i < b.len() - 1 {
                    assert(b0[i] == x);
                }
            }
            if b0.contains(x) {
                let i = choose|i: int| 0 <= i < b0.len() && b0[i] == x;
                assert(b[i] == x);
            }
            if x == l {
                assert(b[b.len() - 1] == x);
            }
        }
        if contains(r, l as int) {
            assert(t =~= t0.insert(l));
        } else {
            assert(t =~= t0);
        }
    }
}

/// When the registered breaks are exactly the offsets of the text's line breaks, those
/// registered before byte `x` are the line breaks among the chars that start before `x`.
proof fn lemma_count_breaks_before(s: Seq<char>, b: Seq<Integer>, x: int)
    requires
        strictly_sorted(b),
        byte_len(s) < TEXT_LIMIT,
        forall|y: Integer| b.contains(y) <==> exists|i: int| 0 <= i < s.len() && s[i] == '\n' && pos(s, i) == y,
        i64::MIN <= x <= i64::MAX,
    ensures
        count_in(b, mk(fixed(0, true), fixed(x as Integer, false))) == delims_before(
            s,
            DelimiterKind::LineBreak,
            char_index(s, x),
        ),
{
    let r = mk(fixed(0, true), fixed(x as Integer, false));
    lemma_count_in_set(b, r);
    crate::data_source::read_delimited::lemma_char_index_bounds(s, x);
    let m = char_index(s, x);
    lemma_breaks_among_len(s, m);
    let t = Set::new(|y: Integer| b.contains(y) && contains(r, y as int));
    assert forall|y: Integer| t.contains(y) == breaks_among(s, m).contains(y) by {
        if t.contains(y) {
            let i = choose|i: int| 0 <= i < s.len() && s[i] == '\n' && pos(s, i) == y;
            assert(i < m);
            assert(breaks_among(s, m).contains(y));
        }
        if breaks_among(s, m).contains(y) {
            let i = choose|i: int| 0 <= i < m && s[i] == '\n' && pos(s, i) == y;
            assert(b.contains(y));
            assert(t.contains(y));
        }
    }
    assert(t =~= breaks_among(s, m));
}

/// Two intervals that hold the same points hold as many elements of a sequence.
proof fn lemma_count_in_same_points(b: Seq<Integer>, r1: Interval, r2: Interval)
    requires
        forall|x: int| contains(r1, x) == contains(r2, x),
    ensures
        count_in(b, r1) == count_in(b, r2),
    decreases b.len(),
{
    if b.len() > 0 {
        lemma_count_in_same_points(b.drop_last(), r1, r2);
        assert(contains(r1, b.last() as int) == contains(r2, b.last() as int));
    }
}

/// The offsets of the newline bytes of a text's encoding are those of its `'\n'` chars.
proof fn lemma_newline_offsets_are_breaks(s: Seq<char>, b: Seq<Integer>)
    requires
        b.to_set() == newline_offsets(0, vstd::utf8::encode_utf8(s)),
    ensures
        forall|y: Integer| b.contains(y) <==> exists|i: int| 0 <= i < s.len() && s[i] == '\n' && pos(s, i) == y,
{
    let e = vstd::utf8::encode_utf8(s);
    crate::data_source::text::lemma_newline_bytes(s);
    crate::data_source::text::lemma_byte_len_encode(s);
    crate::data_source::text::lemma_pos_full(s);
    assert forall|y: Integer| b.contains(y) <==> exists|i: int| 0 <= i < s.len() && s[i] == '\n' && pos(s, i) == y by {
        assert(b.contains(y) == b.to_set().contains(y));
        if exists|i: int| 0 <= i < s.len() && s[i] == '\n' && pos(s, i) == y {
            let i = choose|i: int| 0 <= i < s.len() && s[i] == '\n' && pos(s, i) == y;
            crate::data_source::text::lemma_pos_monotonic(s, i, s.len() as int);
            assert(e[y as int] == 10u8);
            assert(newline_offsets(0, e).contains(y));
        }
        if b.contains(y) {
            assert(newline_offsets(0, e).contains(y));
            assert(0 <= y < e.len() && e[y as int] == 10u8);
        }
    }
}

/// With lines numbered from a registry that holds exactly the offsets of the text's line
/// breaks (as building it on the whole text gives), each line read carries the number of line breaks registered before its start (a
/// forward read that starts right on a line break counts that break too), and the lines read
/// carry consecutive numbers in text order.
pub proof fn lemma_line_numbers_count_breaks(
    s: Seq<char>,
    reg: LineRegistryImpl,
    offset: Integer,
    n: Integer,
    data: Data,
)
    requires
        byte_len(s) < TEXT_LIMIT,
        strictly_sorted(reg.breaks()),
        reg.breaks().to_set() == newline_offsets(0, vstd::utf8::encode_utf8(s)),
        lines_read(s, Some(reg), offset, n, data),
        first_line_no(Some(reg), count_range(offset, n)) is Ok,
    ensures
        forall|k: int| 0 <= k < data.lines@.len() ==> #[trigger] data.lines@[k].line_no == Ok::<u64, crate::data_source::line::LineNumberMissingReason>(
            (count_in(reg.breaks(), mk(fixed(0, true), fixed(data.lines@[k].start, false))) + if n > 0 && reg.breaks().contains(offset) {
                1int
            } else {
                0int
            }) as u64,
        ),
        forall|k: int| 0 <= k < data.lines@.len() - 1 ==> (#[trigger] data.lines@[k + 1].line_no matches Ok(b) && data.lines@[k].line_no matches Ok(a) && b == a + 1),
{
    lemma_newline_offsets_are_breaks(s, reg.breaks());
    if !(offset < 0 || n == 0 || offset > byte_len(s)) {
        let kind = DelimiterKind::LineBreak;
        let bs = reg.breaks();
        let idx = char_index(s, offset as int);
        crate::data_source::read_delimited::lemma_char_index_bounds(s, offset as int);
        crate::data_source::text::lemma_pos_full(s);
        crate::data_source::text::lemma_pos_monotonic(s, 0, s.len() as int);
        let segs = segments(s, kind, offset as int, n as int, true).0;
        let c = count_in(bs, count_range(offset, n));
        let c0 = first_line_no(Some(reg), count_range(offset, n));
        assert(c0 == Ok::<u64, crate::data_source::line::LineNumberMissingReason>(c as u64));
        let e: int = if n > 0 && bs.contains(offset) { 1 } else { 0 };
        // the start of each line read, and the line breaks before it
        if n > 0 {
            let m1 = char_index(s, offset + 1);
            crate::data_source::read_delimited::lemma_char_index_bounds(s, offset + 1);
            lemma_count_in_same_points(bs, count_range(offset, n), mk(fixed(0, true), fixed((offset + 1) as Integer, false)));
            lemma_count_breaks_before(s, bs, offset + 1);
            crate::data_source::read_delimited::lemma_delims_before_at_most(s, kind, m1);
            // m1 is idx, or idx + 1 when char idx starts at offset
            assert(idx <= m1) by {
                if m1 < idx {
                    assert(pos(s, m1) < offset);
                }
            }
            assert(m1 <= idx + 1) by {
                if m1 > idx + 1 {
                    crate::data_source::text::lemma_pos_monotonic(s, idx, idx + 1);
                    assert(pos(s, idx + 1) < offset + 1);
                }
            }
            if m1 == idx + 1 {
                assert(pos(s, idx) == offset);
                assert(bs.contains(offset) <==> s[idx] == '\n') by {
                    if bs.contains(offset) {
                        let i = choose|i: int| 0 <= i < s.len() && s[i] == '\n' && pos(s, i) == offset;
                        if i < idx {
                            crate::data_source::text::lemma_pos_monotonic(s, i, idx);
                        } else if i > idx {
                            crate::data_source::text::lemma_pos_monotonic(s, idx, i);
                        }
                    }
                }
                assert(delims_before(s, kind, m1) == delims_before(s, kind, idx) + e);
            } else {
                assert(!bs.contains(offset)) by {
                    if bs.contains(offset) {
                        let i = choose|i: int| 0 <= i < s.len() && s[i] == '\n' && pos(s, i) == offset;
                        if i >= idx {
                            crate::data_source::text::lemma_pos_monotonic(s, idx, i);
                            assert(pos(s, idx) >= offset + 1);
                        }
                    }
                }
            }
            assert(c == delims_before(s, kind, idx) + e);
            let p = crate::data_source::read_delimited::seg_start(s, kind, idx);
            crate::data_source::read_delimited::lemma_prev_delim(s, kind, idx);
            crate::data_source::read_delimited::lemma_delims_before_no_delim(s, kind, p, idx);
            crate::data_source::read_delimited::lemma_fwd_segs_delims(s, kind, p, n as nat, false, 0);
            crate::data_source::read_delimited::lemma_fwd_segs_passed(s, kind, p, n as nat, false, 0);
            crate::data_source::read_delimited::lemma_fwd_segs_ordered(s, kind, p, n as nat, true, false, 0);
            crate::data_source::read_delimited::lemma_fwd_segs_len(s, kind, p, n as nat, true, false, 0);
            assert forall|k: int| 0 <= k < data.lines@.len() implies #[trigger] data.lines@[k].line_no == Ok::<u64, crate::data_source::line::LineNumberMissingReason>(
                (count_in(bs, mk(fixed(0, true), fixed(data.lines@[k].start, false))) + e) as u64,
            ) && data.lines@[k].line_no == Ok::<u64, crate::data_source::line::LineNumberMissingReason>((c + k) as u64) by {
                let g = segs[k];
                assert(line_of(data.lines@[k], s, g, false, c0));
                assert(p <= g.a <= g.b <= s.len());
                crate::data_source::text::lemma_pos_monotonic(s, g.a, s.len() as int);
                assert forall|q: int| 0 <= q < g.a implies #[trigger] pos(s, q) < pos(s, g.a) by {
                    crate::data_source::text::lemma_pos_monotonic(s, q, g.a);
                }
                crate::data_source::read_delimited::lemma_index_from_pub(s, pos(s, g.a) as int, g.a);
                lemma_count_breaks_before(s, bs, pos(s, g.a) as int);
            }
        } else {
            lemma_count_breaks_before(s, bs, offset as int);
            let q = crate::data_source::read_delimited::next_delim(s, kind, idx);
            crate::data_source::read_delimited::lemma_next_delim(s, kind, idx);
            crate::data_source::read_delimited::lemma_delims_before_no_delim(s, kind, idx, q);
            let m = (-n) as nat;
            crate::data_source::read_delimited::lemma_bwd_segs_delims(s, kind, q, m, false, 0);
            crate::data_source::read_delimited::lemma_bwd_segs_passed(s, kind, q, m, false, 0);
            crate::data_source::read_delimited::lemma_bwd_segs_ordered(s, kind, q, m, true, false, 0);
            assert(c == delims_before(s, kind, q));
            crate::data_source::read_delimited::lemma_delims_before_at_most(s, kind, q);
            assert forall|k: int| 0 <= k < data.lines@.len() implies #[trigger] data.lines@[k].line_no == Ok::<u64, crate::data_source::line::LineNumberMissingReason>(
                (count_in(bs, mk(fixed(0, true), fixed(data.lines@[k].start, false))) + e) as u64,
            ) && data.lines@[k].line_no == Ok::<u64, crate::data_source::line::LineNumberMissingReason>((c - (data.lines@.len() - 1 - k)) as u64) by {
                let g = segs[k];
                assert(line_of(data.lines@[k], s, g, true, c0));
                assert(0 <= g.a <= g.b <= s.len());
                assert(delims_before(s, kind, g.a) + g.d == c);
                assert(g.d == data.lines@.len() - 1 - k);
                lemma_bwd_line_number(s, bs, g, data.lines@[k], c as int);
            }
        }
    }
}

/// A line read backward after `g.d` delimiters, counted down from `c`, carries the number of
/// line breaks registered before its start.
proof fn lemma_bwd_line_number(s: Seq<char>, bs: Seq<Integer>, g: Seg, l: crate::data_source::line::Line, c: int)
    requires
        strictly_sorted(bs),
        byte_len(s) < TEXT_LIMIT,
        forall|y: Integer| bs.contains(y) <==> exists|i: int| 0 <= i < s.len() && s[i] == '\n' && pos(s, i) == y,
        0 <= c <= u64::MAX,
        line_of(l, s, g, true, Ok::<u64, crate::data_source::line::LineNumberMissingReason>(c as u64)),
        0 <= g.a <= g.b <= s.len(),
        delims_before(s, DelimiterKind::LineBreak, g.a) + g.d == c,
        g.a > 0 ==> crate::data_source::read_delimited::is_delim(DelimiterKind::LineBreak, s[g.a - 1]),
    ensures
        l.line_no == Ok::<u64, crate::data_source::line::LineNumberMissingReason>(
            (count_in(bs, mk(fixed(0, true), fixed(l.start, false))) + 0int) as u64,
        ),
        l.line_no == Ok::<u64, crate::data_source::line::LineNumberMissingReason>((c - g.d) as u64),
{
    if g.a > 0 {
        crate::data_source::text::lemma_pos_step(s, g.a - 1);
        assert(s[g.a - 1] == '\n');
    }
    crate::data_source::text::lemma_pos_full(s);
    crate::data_source::text::lemma_pos_monotonic(s, g.a, s.len() as int);
    assert(l.start == pos(s, g.a));
    assert forall|q: int| 0 <= q < g.a implies #[trigger] pos(s, q) < pos(s, g.a) by {
        crate::data_source::text::lemma_pos_monotonic(s, q, g.a);
    }
    crate::data_source::read_delimited::lemma_index_from_pub(s, pos(s, g.a) as int, g.a);
    lemma_count_breaks_before(s, bs, pos(s, g.a) as int);
}

/// Lines read backward (`n < 0`) start one after another, at most `|n|` of them. When the char
/// at `offset` is not the first of the text and at least `|n| - 1` line breaks precede it,
/// exactly `|n|` lines are read.
pub proof fn lemma_starts_read_backward(s: Seq<char>, offset: Integer, n: Integer)
    requires
        n < 0,
    ensures
        ({
            let starts = starts_read(s, offset, n);
            &&& starts.len() <= -n
            &&& forall|i: int, j: int| 0 <= i < j < starts.len() ==> starts[i] < starts[j]
            &&& (0 <= offset <= byte_len(s) && char_index(s, offset as int) > 0
                && crate::data_source::read_delimited::delims_before(
                    s,
                    DelimiterKind::LineBreak,
                    char_index(s, offset as int),
                ) + 1 >= -n) ==> starts.len() == -n
        }),
{
    if !(offset < 0 || offset > byte_len(s)) {
        let kind = DelimiterKind::LineBreak;
        let idx = char_index(s, offset as int);
        crate::data_source::read_delimited::lemma_char_index_monotonic(s, offset as int, offset as int);
        let q = crate::data_source::read_delimited::next_delim(s, kind, idx);
        crate::data_source::read_delimited::lemma_next_delim(s, kind, idx);
        let m = (-n) as nat;
        let segs = segments(s, kind, offset as int, n as int, true).0;
        assert(segs == crate::data_source::read_delimited::bwd_segs(s, kind, q, m, true, false, 0));
        crate::data_source::read_delimited::lemma_bwd_segs_len(s, kind, q, m, true, false, 0);
        crate::data_source::read_delimited::lemma_bwd_segs_ordered(s, kind, q, m, true, false, 0);
        let starts = starts_read(s, offset, n);
        assert forall|i: int, j: int| 0 <= i < j < starts.len() implies starts[i] < starts[j] by {
            lemma_segs_increasing(segs, i, j);
            let a = segs[i].a;
            let b = segs[j].a;
            assert(0 <= a <= segs[i].b <= q);
            assert(0 <= b <= segs[j].b <= q);
            crate::data_source::text::lemma_pos_monotonic(s, a, b - 1);
            if a > 0 {
                crate::data_source::text::lemma_pos_monotonic(s, a - 1, a);
            }
        }
        if idx > 0 && crate::data_source::read_delimited::delims_before(s, kind, idx) + 1 >= m {
            crate::data_source::read_delimited::lemma_delims_before_monotonic(s, kind, idx, q);
            crate::data_source::read_delimited::lemma_bwd_segs_count(s, kind, q, m, false, 0);
        }
    }
}

/// Reading `|n|` lines backward (`n < 0`) from a line break at byte `offset`: when `|n|` lines
/// are read, exactly `|n|` line breaks lie between the start of the first of them and the byte
/// just after `offset`.
pub proof fn lemma_starts_read_backward_breaks(s: Seq<char>, offset: Integer, n: Integer)
    requires
        n < 0,
        exists|i: int| 0 <= i < s.len() && s[i] == '\n' && pos(s, i) == offset,
        starts_read(s, offset, n).len() == -n,
    ensures
        delims_before(s, DelimiterKind::LineBreak, char_index(s, starts_read(s, offset, n)[0])) + (-n)
            == delims_before(s, DelimiterKind::LineBreak, char_index(s, offset + 1)),
{
    let kind = DelimiterKind::LineBreak;
    let i = choose|i: int| 0 <= i < s.len() && s[i] == '\n' && pos(s, i) == offset;
    crate::data_source::text::lemma_pos_full(s);
    crate::data_source::text::lemma_pos_monotonic(s, i, s.len() as int);
    assert forall|q: int| 0 <= q < i implies #[trigger] pos(s, q) < pos(s, i) by {
        crate::data_source::text::lemma_pos_monotonic(s, q, i);
    }
    crate::data_source::read_delimited::lemma_index_from_pub(s, offset as int, i);
    let idx = char_index(s, offset as int);
    assert(idx == i);
    crate::data_source::text::lemma_pos_step(s, i);
    assert forall|q: int| 0 <= q < i + 1 implies #[trigger] pos(s, q) < pos(s, i) + 1 by {
        crate::data_source::text::lemma_pos_monotonic(s, q, i);
    }
    if i + 1 < s.len() {
        crate::data_source::text::lemma_pos_monotonic(s, i + 1, s.len() as int);
    }
    crate::data_source::read_delimited::lemma_index_from_pub(s, offset + 1, i + 1);
    let q = crate::data_source::read_delimited::next_delim(s, kind, idx);
    assert(q == idx);
    let m = (-n) as nat;
    let segs = segments(s, kind, offset as int, n as int, true).0;
    crate::data_source::read_delimited::lemma_bwd_segs_delims(s, kind, q, m, false, 0);
    crate::data_source::read_delimited::lemma_bwd_segs_passed(s, kind, q, m, false, 0);
    crate::data_source::read_delimited::lemma_bwd_segs_ordered(s, kind, q, m, true, false, 0);
    let g = segs[0];
    assert(0 <= g.a <= g.b <= s.len());
    assert(delims_before(s, kind, g.a) + g.d == delims_before(s, kind, q));
    assert(g.d == m - 1);
    if g.a > 0 {
        crate::data_source::text::lemma_pos_step(s, g.a - 1);
        assert(s[g.a - 1] == '\n');
    }
    assert(starts_read(s, offset, n)[0] == pos(s, g.a));
    crate::data_source::text::lemma_pos_monotonic(s, g.a, s.len() as int);
    assert forall|k: int| 0 <= k < g.a implies #[trigger] pos(s, k) < pos(s, g.a) by {
        crate::data_source::text::lemma_pos_monotonic(s, k, g.a);
    }
    crate::data_source::read_delimited::lemma_index_from_pub(s, pos(s, g.a) as int, g.a);
}

/// Lines read forward (`n > 0`) start one after another, at most `n` of them, the `k`-th one
/// `k` line breaks after the char at `offset`.
pub proof fn lemma_starts_read_forward(s: Seq<char>, offset: Integer, n: Integer)
    requires
        n > 0,
    ensures
        ({
            let starts = starts_read(s, offset, n);
            &&& starts.len() <= n
            &&& forall|i: int, j: int| 0 <= i < j < starts.len() ==> starts[i] < starts[j]
            &&& forall|k: int| 0 <= k < starts.len() ==> delims_before(s, DelimiterKind::LineBreak, char_index(s, #[trigger] starts[k]))
                == delims_before(s, DelimiterKind::LineBreak, char_index(s, offset as int)) + k
        }),
{
    if !(offset < 0 || offset > byte_len(s)) {
        let kind = DelimiterKind::LineBreak;
        let idx = char_index(s, offset as int);
        crate::data_source::read_delimited::lemma_char_index_bounds(s, offset as int);
        let p = crate::data_source::read_delimited::seg_start(s, kind, idx);
        crate::data_source::read_delimited::lemma_prev_delim(s, kind, idx);
        crate::data_source::read_delimited::lemma_delims_before_no_delim(s, kind, p, idx);
        let segs = segments(s, kind, offset as int, n as int, true).0;
        crate::data_source::read_delimited::lemma_fwd_segs_len(s, kind, p, n as nat, true, false, 0);
        crate::data_source::read_delimited::lemma_fwd_segs_ordered(s, kind, p, n as nat, true, false, 0);
        crate::data_source::read_delimited::lemma_fwd_segs_delims(s, kind, p, n as nat, false, 0);
        crate::data_source::read_delimited::lemma_fwd_segs_passed(s, kind, p, n as nat, false, 0);
        let starts = starts_read(s, offset, n);
        assert forall|i: int, j: int| 0 <= i < j < starts.len() implies starts[i] < starts[j] by {
            lemma_segs_increasing(segs, i, j);
            crate::data_source::text::lemma_pos_monotonic(s, segs[i].a, segs[j].a);
        }
        assert forall|k: int| 0 <= k < starts.len() implies delims_before(s, kind, char_index(s, #[trigger] starts[k]))
            == delims_before(s, kind, idx) + k by {
            let a = segs[k].a;
            assert(p <= a <= segs[k].b <= s.len());
            assert forall|q: int| 0 <= q < a implies #[trigger] pos(s, q) < pos(s, a) by {
                crate::data_source::text::lemma_pos_monotonic(s, q, a);
            }
            if a < s.len() {
                crate::data_source::text::lemma_pos_monotonic(s, a, a);
            }
            crate::data_source::read_delimited::lemma_index_from_pub(s, pos(s, a) as int, a);
        }
    }
}

/// The lines read start where `starts_read` says.
pub proof fn lemma_starts_read(
    s: Seq<char>,
    registry: Option<LineRegistryImpl>,
    offset: Integer,
    n: Integer,
    data: Data,
)
    requires
        lines_read(s, registry, offset, n, data),
    ensures
        data.lines@.len() == starts_read(s, offset, n).len(),
        forall|k: int| 0 <= k < data.lines@.len() ==> #[trigger] data.lines@[k].start == starts_read(s, offset, n)[k],
        data.start == (if data.lines@.len() > 0 { Some(data.lines@[0].start) } else { None::<Integer> }),
        data.end == (if data.lines@.len() > 0 { Some(data.lines@[data.lines@.len() - 1].end) } else { None::<Integer> }),
{
    if !(offset < 0 || n == 0 || offset > byte_len(s)) {
        let segs = segments(s, DelimiterKind::LineBreak, offset as int, n as int, true).0;
        assert forall|k: int| 0 <= k < data.lines@.len() implies #[trigger] data.lines@[k].start == starts_read(s, offset, n)[k] by {
            assert(line_of(data.lines@[k], s, segs[k], n < 0, first_line_no(registry, count_range(offset, n))));
        }
    }
}


/// What `read_lines` returns is determined by the text, the registry and the arguments.
pub proof fn lemma_lines_read_unique(
    s: Seq<char>,
    registry: Option<LineRegistryImpl>,
    offset: Integer,
    n: Integer,
    d1: Data,
    d2: Data,
)
    requires
        lines_read(s, registry, offset, n, d1),
        lines_read(s, registry, offset, n, d2),
    ensures
        d1.lines@.len() == d2.lines@.len(),
        forall|k: int| 0 <= k < d1.lines@.len() ==> {
            &&& #[trigger] d1.lines@[k].content@ == d2.lines@[k].content@
            &&& d1.lines@[k].start == d2.lines@[k].start
            &&& d1.lines@[k].end == d2.lines@[k].end
            &&& d1.lines@[k].line_no == d2.lines@[k].line_no
        },
        d1.start == d2.start,
        d1.end == d2.end,
{
    if !(offset < 0 || n == 0 || offset > byte_len(s)) {
        let segs = segments(s, DelimiterKind::LineBreak, offset as int, n as int, true).0;
        let c0 = first_line_no(registry, count_range(offset, n));
        assert forall|k: int| 0 <= k < d1.lines@.len() implies {
            &&& #[trigger] d1.lines@[k].content@ == d2.lines@[k].content@
            &&& d1.lines@[k].start == d2.lines@[k].start
            &&& d1.lines@[k].end == d2.lines@[k].end
            &&& d1.lines@[k].line_no == d2.lines@[k].line_no
        } by {
            assert(line_of(d1.lines@[k], s, segs[k], n < 0, c0));
            assert(line_of(d2.lines@[k], s, segs[k], n < 0, c0));
        }
        if segs.len() > 0 {
            assert(line_of(d1.lines@[0], s, segs[0], n < 0, c0));
            assert(line_of(d2.lines@[0], s, segs[0], n < 0, c0));
            assert(line_of(d1.lines@[segs.len() - 1], s, segs[segs.len() - 1], n < 0, c0));
            assert(line_of(d2.lines@[segs.len() - 1], s, segs[segs.len() - 1], n < 0, c0));
        }
    }
}

} // verus!
