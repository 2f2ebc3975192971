use vstd::prelude::*;
use crate::data_source::chars::{char_is_alphanumeric, is_alphanumeric_char};
use crate::data_source::line::{Line, LineNumberMissingReason, LineNumberResult};
use crate::data_source::line_registry::{count_in, reaches_beyond, LineRegistryError, LineRegistryImpl};
use crate::data_source::text::{pos, byte_len, lemma_pos_monotonic, lemma_pos_full, Text, TEXT_LIMIT};
use crate::interval::{Integer, Interval, fixed, mk};

verus! {

/// Direction of reading.
#[derive(PartialEq, Eq, Structural, Copy, Clone, Debug)]
pub enum Direction {
    Forward,
    Backward,
}

impl Direction {
    /// `true` is forward.
    pub fn from_bool(value: bool) -> (r: Direction)
        ensures
            r == if value {
                Direction::Forward
            } else {
                Direction::Backward
            },
    {
        if value {
            Direction::Forward
        } else {
            Direction::Backward
        }
    }
}

/// Which chars separate segments.
#[derive(PartialEq, Eq, Structural, Copy, Clone, Debug)]
pub enum DelimiterKind {
    /// lines: segments are separated by `'\n'`
    LineBreak,
    /// words: segments are separated by every char that is neither alphanumeric nor `'_'`
    NonWordChar,
}

pub open spec fn is_delim(kind: DelimiterKind, c: char) -> bool {
    match kind {
        DelimiterKind::LineBreak => c == '\n',
        DelimiterKind::NonWordChar => !is_alphanumeric_char(c) && c != '_',
    }
}

pub fn is_delimiter(kind: DelimiterKind, c: char) -> (r: bool)
    ensures
        r == is_delim(kind, c),
{
    match kind {
        DelimiterKind::LineBreak => c == '\n',
        DelimiterKind::NonWordChar => !char_is_alphanumeric(c) && c != '_',
    }
}

/// A collection of segments with the offsets of the first and the last one.
#[derive(Debug)]
pub struct Data {
    pub lines: Vec<Line>,
    pub start: Option<Integer>,
    pub end: Option<Integer>,
}

impl Data {
    pub fn default() -> (r: Data)
        ensures
            r.lines@.len() == 0,
            r.start is None,
            r.end is None,
    {
        Data { lines: Vec::new(), start: None, end: None }
    }
}

// ---------------------------------------------------------------------------
// Model of segmentation
// ---------------------------------------------------------------------------

/// Index of the first delimiter at or after `i`, or the length.
pub open spec fn next_delim(s: Seq<char>, kind: DelimiterKind, i: int) -> int
    decreases s.len() - i,
{
    if i >= s.len() {
        s.len() as int
    } else if is_delim(kind, s[i]) {
        i
    } else {
        next_delim(s, kind, i + 1)
    }
}

/// Index of the last delimiter before `i`, or -1.
pub open spec fn prev_delim(s: Seq<char>, kind: DelimiterKind, i: int) -> int
    decreases i,
{
    if i <= 0 {
        -1
    } else if is_delim(kind, s[i - 1]) {
        i - 1
    } else {
        prev_delim(s, kind, i - 1)
    }
}

/// Start of the segment that holds index `i`: just after the last delimiter before `i`.
pub open spec fn seg_start(s: Seq<char>, kind: DelimiterKind, i: int) -> int {
    prev_delim(s, kind, i) + 1
}

/// The content of a segment `a..b` loses a trailing `'\n'`, then a trailing `'\r'`.
pub open spec fn trim_end(s: Seq<char>, a: int, b: int) -> int {
    let b1 = if b > a && s[b - 1] == '\n' {
        b - 1
    } else {
        b
    };
    if b1 > a && s[b1 - 1] == '\r' {
        b1 - 1
    } else {
        b1
    }
}

/// A segment: chars `a..b`, and the number `d` of delimiters passed before it was taken.
pub struct Seg {
    pub a: int,
    pub b: int,
    pub d: nat,
}

pub proof fn lemma_next_delim(s: Seq<char>, kind: DelimiterKind, i: int)
    requires
        0 <= i <= s.len(),
    ensures
        i <= next_delim(s, kind, i) <= s.len(),
        forall|k: int| i <= k < next_delim(s, kind, i) ==> !is_delim(kind, s[k]),
        next_delim(s, kind, i) < s.len() ==> is_delim(kind, s[next_delim(s, kind, i)]),
    decreases s.len() - i,
{
    if i < s.len() && !is_delim(kind, s[i]) {
        lemma_next_delim(s, kind, i + 1);
    }
}

pub proof fn lemma_prev_delim(s: Seq<char>, kind: DelimiterKind, i: int)
    requires
        0 <= i <= s.len(),
    ensures
        -1 <= prev_delim(s, kind, i) < i,
        forall|k: int| prev_delim(s, kind, i) < k < i ==> !is_delim(kind, s[k]),
        prev_delim(s, kind, i) >= 0 ==> is_delim(kind, s[prev_delim(s, kind, i)]),
    decreases i,
{
    if i > 0 && !is_delim(kind, s[i - 1]) {
        lemma_prev_delim(s, kind, i - 1);
    }
}

/// Segments read forward from segment start `i`, at most `n` of them. Empty segments count
/// only when `allow_empty`; the empty tail after the last delimiter only when a delimiter has
/// been passed (`started`).
pub open spec fn fwd_segs(
    s: Seq<char>,
    kind: DelimiterKind,
    i: int,
    n: nat,
    allow_empty: bool,
    started: bool,
    d: nat,
) -> Seq<Seg>
    decreases s.len() - i, n,
{
    if n == 0 || i < 0 || i > s.len() {
        Seq::empty()
    } else {
        let j = next_delim(s, kind, i);
        if j >= s.len() {
            if j > i || (allow_empty && started) {
                seq![Seg { a: i, b: j, d }]
            } else {
                Seq::empty()
            }
        } else {
            proof {
                lemma_next_delim(s, kind, i);
            }
            if j > i || allow_empty {
                seq![Seg { a: i, b: j, d }] + fwd_segs(s, kind, j + 1, (n - 1) as nat, allow_empty, true, d + 1)
            } else {
                fwd_segs(s, kind, j + 1, n, allow_empty, true, d + 1)
            }
        }
    }
}

/// Char index where forward reading stops.
pub open spec fn fwd_end(
    s: Seq<char>,
    kind: DelimiterKind,
    i: int,
    n: nat,
    allow_empty: bool,
) -> int
    decreases s.len() - i, n,
{
    if n == 0 || i < 0 || i > s.len() {
        i
    } else {
        let j = next_delim(s, kind, i);
        if j >= s.len() {
            s.len() as int
        } else {
            proof {
                lemma_next_delim(s, kind, i);
            }
            if j > i || allow_empty {
                fwd_end(s, kind, j + 1, (n - 1) as nat, allow_empty)
            } else {
                fwd_end(s, kind, j + 1, n, allow_empty)
            }
        }
    }
}

/// Segments read backward from segment end `i`, at most `n` of them, in text order.
pub open spec fn bwd_segs(
    s: Seq<char>,
    kind: DelimiterKind,
    i: int,
    n: nat,
    allow_empty: bool,
    started: bool,
    d: nat,
) -> Seq<Seg>
    decreases i, n,
{
    if n == 0 || i < 0 || i > s.len() {
        Seq::empty()
    } else {
        let j = prev_delim(s, kind, i);
        if j < 0 {
            if i > 0 || (allow_empty && started) {
                seq![Seg { a: 0, b: i, d }]
            } else {
                Seq::empty()
            }
        } else {
            proof {
                lemma_prev_delim(s, kind, i);
            }
            if j + 1 < i || allow_empty {
                bwd_segs(s, kind, j, (n - 1) as nat, allow_empty, true, d + 1) + seq![Seg { a: j + 1, b: i, d }]
            } else {
                bwd_segs(s, kind, j, n, allow_empty, true, d + 1)
            }
        }
    }
}

/// Char index where backward reading stops.
pub open spec fn bwd_end(s: Seq<char>, kind: DelimiterKind, i: int, n: nat, allow_empty: bool) -> int
    decreases i, n,
{
    if n == 0 || i < 0 || i > s.len() {
        i
    } else {
        let j = prev_delim(s, kind, i);
        if j < 0 {
            0
        } else {
            proof {
                lemma_prev_delim(s, kind, i);
            }
            if j + 1 < i || allow_empty {
                bwd_end(s, kind, j, (n - 1) as nat, allow_empty)
            } else {
                bwd_end(s, kind, j, n, allow_empty)
            }
        }
    }
}

/// Line number of a segment taken after `d` delimiters, counting from `c0`.
pub open spec fn line_no_after(c0: LineNumberResult, d: nat, backward: bool) -> LineNumberResult {
    match c0 {
        Ok(n) => Ok(
            if backward {
                if n >= d {
                    (n - d) as u64
                } else {
                    0u64
                }
            } else {
                if n + d <= u64::MAX {
                    (n + d) as u64
                } else {
                    u64::MAX
                }
            },
        ),
        Err(e) => Err(e),
    }
}

/// `l` is the line that segment `g` of `s` gives.
pub open spec fn line_of(l: Line, s: Seq<char>, g: Seg, backward: bool, c0: LineNumberResult) -> bool {
    let t = trim_end(s, g.a, g.b);
    &&& l.content@ == s.subrange(g.a, t)
    &&& l.start == if backward && g.a > 0 {
        (pos(s, g.a - 1) + 1) as int
    } else {
        pos(s, g.a) as int
    }
    &&& l.end == pos(s, g.b) - (g.b - t)
    &&& l.line_no == line_no_after(c0, g.d, backward)
    &&& l.custom_highlights@.len() == 0
}

/// Index of the first char that starts at or after byte offset `o`.
pub open spec fn char_index(s: Seq<char>, o: int) -> int {
    index_from(s, o, 0)
}

pub open spec fn index_from(s: Seq<char>, o: int, k: int) -> int
    decreases s.len() - k,
{
    if k >= s.len() || pos(s, k) >= o {
        k
    } else {
        index_from(s, o, k + 1)
    }
}

proof fn lemma_index_from(s: Seq<char>, o: int, k: int, r: int)
    requires
        0 <= k <= r <= s.len(),
        forall|q: int| 0 <= q < r ==> pos(s, q) < o,
        r < s.len() ==> pos(s, r) >= o,
    ensures
        index_from(s, o, k) == r,
    decreases s.len() - k,
{
    if k < r {
        lemma_index_from(s, o, k + 1, r);
    }
}

/// The index found by a search satisfying the characterization is `char_index`.
pub proof fn lemma_index_from_pub(s: Seq<char>, o: int, r: int)
    requires
        0 <= r <= s.len(),
        forall|q: int| 0 <= q < r ==> pos(s, q) < o,
        r < s.len() ==> pos(s, r) >= o,
    ensures
        char_index(s, o) == r,
{
    lemma_index_from(s, o, 0, r);
}

proof fn lemma_index_from_bounds(s: Seq<char>, o: int, k: int)
    requires
        0 <= k <= s.len(),
    ensures
        k <= index_from(s, o, k) <= s.len(),
        forall|q: int| k <= q < index_from(s, o, k) ==> pos(s, q) < o,
        index_from(s, o, k) < s.len() ==> pos(s, index_from(s, o, k)) >= o,
    decreases s.len() - k,
{
    if !(k >= s.len() || pos(s, k) >= o) {
        lemma_index_from_bounds(s, o, k + 1);
    }
}

/// The chars before `char_index(s, o)` are exactly those that start before byte `o`.
pub proof fn lemma_char_index_bounds(s: Seq<char>, o: int)
    ensures
        0 <= char_index(s, o) <= s.len(),
        forall|q: int| 0 <= q < char_index(s, o) ==> pos(s, q) < o,
        forall|q: int| char_index(s, o) <= q < s.len() ==> pos(s, q) >= o,
{
    lemma_index_from_bounds(s, o, 0);
    let r = char_index(s, o);
    assert forall|q: int| r <= q < s.len() implies pos(s, q) >= o by {
        lemma_pos_monotonic(s, r, q);
    }
}

proof fn lemma_index_from_monotonic(s: Seq<char>, o1: int, o2: int, k: int)
    requires
        o1 <= o2,
        0 <= k <= s.len(),
    ensures
        k <= index_from(s, o1, k) <= index_from(s, o2, k) <= s.len(),
    decreases s.len() - k,
{
    if k < s.len() {
        lemma_index_from_monotonic(s, o1, o2, k + 1);
    }
}

/// A larger offset never gives a smaller char index.
pub proof fn lemma_char_index_monotonic(s: Seq<char>, o1: int, o2: int)
    requires
        o1 <= o2,
    ensures
        0 <= char_index(s, o1) <= char_index(s, o2) <= s.len(),
{
    lemma_index_from_monotonic(s, o1, o2, 0);
}

/// The first segment read forward lies within the text.
pub proof fn lemma_fwd_segs_bounds(s: Seq<char>, kind: DelimiterKind, o: int)
    ensures
        ({
            let segs = segments(s, kind, o, 1, true).0;
            segs.len() > 0 ==> 0 <= segs[0].a <= segs[0].b <= s.len()
        }),
{
    let idx = char_index(s, o);
    lemma_char_index_monotonic(s, o, o);
    lemma_prev_delim(s, kind, idx);
    let p = seg_start(s, kind, idx);
    if 0 <= p <= s.len() {
        lemma_next_delim(s, kind, p);
    }
}

/// Segments read forward lie within the text, one after another, each ending before the next
/// starts.
pub proof fn lemma_fwd_segs_ordered(
    s: Seq<char>,
    kind: DelimiterKind,
    i: int,
    n: nat,
    allow_empty: bool,
    started: bool,
    d: nat,
)
    ensures
        ({
            let segs = fwd_segs(s, kind, i, n, allow_empty, started, d);
            &&& forall|k: int| 0 <= k < segs.len() ==> i <= #[trigger] segs[k].a <= segs[k].b <= s.len()
            &&& forall|k: int| 0 <= k < segs.len() - 1 ==> #[trigger] segs[k].b < segs[k + 1].a
        }),
    decreases s.len() - i, n,
{
    if !(n == 0 || i < 0 || i > s.len()) {
        let j = next_delim(s, kind, i);
        lemma_next_delim(s, kind, i);
        if j < s.len() {
            let rest_n = if j > i || allow_empty { (n - 1) as nat } else { n };
            lemma_fwd_segs_ordered(s, kind, j + 1, rest_n, allow_empty, true, d + 1);
            let rest = fwd_segs(s, kind, j + 1, rest_n, allow_empty, true, d + 1);
            let segs = fwd_segs(s, kind, i, n, allow_empty, started, d);
            if j > i || allow_empty {
                assert(segs == seq![Seg { a: i, b: j, d }] + rest);
                assert forall|k: int| 0 <= k < segs.len() - 1 implies #[trigger] segs[k].b < segs[k + 1].a by {
                    if k == 0 {
                        assert(segs[1] == rest[0]);
                    } else {
                        assert(segs[k] == rest[k - 1]);
                        assert(segs[k + 1] == rest[k]);
                    }
                }
                assert forall|k: int| 0 <= k < segs.len() implies i <= #[trigger] segs[k].a <= segs[k].b <= s.len() by {
                    if k > 0 {
                        assert(segs[k] == rest[k - 1]);
                    }
                }
            }
        }
    }
}

/// Forward reading returns at most as many segments as requested.
pub proof fn lemma_fwd_segs_len(
    s: Seq<char>,
    kind: DelimiterKind,
    i: int,
    n: nat,
    allow_empty: bool,
    started: bool,
    d: nat,
)
    ensures
        fwd_segs(s, kind, i, n, allow_empty, started, d).len() <= n,
    decreases s.len() - i, n,
{
    if !(n == 0 || i < 0 || i > s.len()) {
        let j = next_delim(s, kind, i);
        lemma_next_delim(s, kind, i);
        if j < s.len() {
            if j > i || allow_empty {
                lemma_fwd_segs_len(s, kind, j + 1, (n - 1) as nat, allow_empty, true, d + 1);
            } else {
                lemma_fwd_segs_len(s, kind, j + 1, n, allow_empty, true, d + 1);
            }
        }
    }
}

/// Backward reading returns at most as many segments as requested.
pub proof fn lemma_bwd_segs_len(
    s: Seq<char>,
    kind: DelimiterKind,
    i: int,
    n: nat,
    allow_empty: bool,
    started: bool,
    d: nat,
)
    ensures
        bwd_segs(s, kind, i, n, allow_empty, started, d).len() <= n,
    decreases i, n,
{
    if !(n == 0 || i < 0 || i > s.len()) {
        let j = prev_delim(s, kind, i);
        lemma_prev_delim(s, kind, i);
        if j >= 0 {
            if j + 1 < i || allow_empty {
                lemma_bwd_segs_len(s, kind, j, (n - 1) as nat, allow_empty, true, d + 1);
            } else {
                lemma_bwd_segs_len(s, kind, j, n, allow_empty, true, d + 1);
            }
        }
    }
}

/// Number of delimiters among the chars before index `i`.
pub open spec fn delims_before(s: Seq<char>, kind: DelimiterKind, i: int) -> nat
    decreases i,
{
    if i <= 0 {
        0
    } else {
        delims_before(s, kind, i - 1) + if is_delim(kind, s[i - 1]) {
            1nat
        } else {
            0nat
        }
    }
}

/// Before index `i` lie one more delimiter than before the last delimiter preceding `i` (none
/// when no delimiter precedes `i`).
pub proof fn lemma_delims_before_prev(s: Seq<char>, kind: DelimiterKind, i: int)
    requires
        0 <= i <= s.len(),
    ensures
        prev_delim(s, kind, i) >= 0 ==> delims_before(s, kind, i) == delims_before(s, kind, prev_delim(s, kind, i)) + 1,
        prev_delim(s, kind, i) < 0 ==> delims_before(s, kind, i) == 0,
    decreases i,
{
    if i > 0 && !is_delim(kind, s[i - 1]) {
        lemma_delims_before_prev(s, kind, i - 1);
    }
}

/// More chars hold at least as many delimiters.
pub proof fn lemma_delims_before_monotonic(s: Seq<char>, kind: DelimiterKind, i: int, j: int)
    requires
        i <= j,
    ensures
        delims_before(s, kind, i) <= delims_before(s, kind, j),
    decreases j - i,
{
    if i < j {
        lemma_delims_before_monotonic(s, kind, i, j - 1);
    }
}

/// Segments read backward lie within the text up to `i`, one after another, each ending
/// before the next starts. When empty segments count, the last one ends at `i` and each of
/// the others ends at the delimiter just before the next one.
#[verifier::rlimit(40)]
pub proof fn lemma_bwd_segs_ordered(
    s: Seq<char>,
    kind: DelimiterKind,
    i: int,
    n: nat,
    allow_empty: bool,
    started: bool,
    d: nat,
)
    ensures
        ({
            let segs = bwd_segs(s, kind, i, n, allow_empty, started, d);
            &&& segs.len() > 0 ==> 0 <= i <= s.len()
            &&& forall|k: int| 0 <= k < segs.len() ==> 0 <= #[trigger] segs[k].a <= segs[k].b <= i
            &&& forall|k: int| 0 <= k < segs.len() - 1 ==> #[trigger] segs[k].b < segs[k + 1].a
            &&& allow_empty && segs.len() > 0 ==> segs[segs.len() - 1].b == i
            &&& allow_empty ==> forall|k: int| 0 <= k < segs.len() - 1 ==> #[trigger] segs[k].b + 1 == segs[k + 1].a
                && is_delim(kind, s[segs[k].b])
        }),
    decreases i, n,
{
    if !(n == 0 || i < 0 || i > s.len()) {
        let j = prev_delim(s, kind, i);
        lemma_prev_delim(s, kind, i);
        if j >= 0 {
            let rest_n = if j + 1 < i || allow_empty { (n - 1) as nat } else { n };
            lemma_bwd_segs_ordered(s, kind, j, rest_n, allow_empty, true, d + 1);
            let rest = bwd_segs(s, kind, j, rest_n, allow_empty, true, d + 1);
            let segs = bwd_segs(s, kind, i, n, allow_empty, started, d);
            if j + 1 < i || allow_empty {
                let g = Seg { a: j + 1, b: i, d };
                assert(segs =~= rest + seq![g]);
                assert(segs.len() == rest.len() + 1);
                assert(segs[segs.len() - 1] == g);
                assert(forall|k: int| 0 <= k < rest.len() ==> segs[k] == rest[k]);
                if rest.len() > 0 {
                    assert(0 <= rest[rest.len() - 1].a <= rest[rest.len() - 1].b <= j);
                    assert(allow_empty ==> rest[rest.len() - 1].b == j);
                }
                assert forall|k: int| 0 <= k < segs.len() implies 0 <= #[trigger] segs[k].a <= segs[k].b <= i by {
                    if k < rest.len() {
                        assert(segs[k] == rest[k]);
                    }
                }
                assert forall|k: int| 0 <= k < segs.len() - 1 implies #[trigger] segs[k].b < segs[k + 1].a by {
                    assert(segs[k] == rest[k]);
                    if k + 1 < rest.len() {
                        assert(segs[k + 1] == rest[k + 1]);
                    } else {
                        assert(segs[k + 1] == g);
                    }
                }
                if allow_empty {
                    assert forall|k: int| 0 <= k < segs.len() - 1 implies #[trigger] segs[k].b + 1 == segs[k + 1].a
                        && is_delim(kind, s[segs[k].b]) by {
                        assert(segs[k] == rest[k]);
                        if k + 1 < rest.len() {
                            assert(segs[k + 1] == rest[k + 1]);
                        } else {
                            assert(segs[k + 1] == g);
                        }
                    }
                }
            }
        }
    }
}

/// No delimiter among the chars `i..j`: as many delimiters lie before `j` as before `i`.
pub proof fn lemma_delims_before_no_delim(s: Seq<char>, kind: DelimiterKind, i: int, j: int)
    requires
        0 <= i <= j <= s.len(),
        forall|k: int| i <= k < j ==> !is_delim(kind, #[trigger] s[k]),
    ensures
        delims_before(s, kind, i) == delims_before(s, kind, j),
    decreases j - i,
{
    if i < j {
        lemma_delims_before_no_delim(s, kind, i, j - 1);
    }
}

/// No more delimiters than chars.
pub proof fn lemma_delims_before_at_most(s: Seq<char>, kind: DelimiterKind, i: int)
    requires
        0 <= i,
    ensures
        delims_before(s, kind, i) <= i,
    decreases i,
{
    if i > 0 {
        lemma_delims_before_at_most(s, kind, i - 1);
    }
}

/// With empty segments counted, the segment read forward after `e` more delimiters than the
/// first starts after `e` more delimiters of the text.
pub proof fn lemma_fwd_segs_delims(s: Seq<char>, kind: DelimiterKind, i: int, n: nat, started: bool, d: nat)
    ensures
        ({
            let segs = fwd_segs(s, kind, i, n, true, started, d);
            forall|k: int| 0 <= k < segs.len() ==> delims_before(s, kind, #[trigger] segs[k].a) == delims_before(s, kind, i) + (segs[k].d - d)
        }),
    decreases s.len() - i, n,
{
    if !(n == 0 || i < 0 || i > s.len()) {
        let j = next_delim(s, kind, i);
        lemma_next_delim(s, kind, i);
        lemma_delims_before_no_delim(s, kind, i, j);
        if j < s.len() {
            lemma_fwd_segs_delims(s, kind, j + 1, (n - 1) as nat, true, d + 1);
            let rest = fwd_segs(s, kind, j + 1, (n - 1) as nat, true, true, d + 1);
            let segs = fwd_segs(s, kind, i, n, true, started, d);
            assert(segs =~= seq![Seg { a: i, b: j, d }] + rest);
            assert(delims_before(s, kind, j + 1) == delims_before(s, kind, j) + 1);
            assert forall|k: int| 0 <= k < segs.len() implies delims_before(s, kind, #[trigger] segs[k].a) == delims_before(s, kind, i) + (segs[k].d - d) by {
                if k > 0 {
                    assert(segs[k] == rest[k - 1]);
                }
            }
        }
    }
}

/// With empty segments counted, the segment read backward after `e` more delimiters than the
/// last starts `e` delimiters before the end `i`; each segment that does not start the text
/// follows a delimiter.
pub proof fn lemma_bwd_segs_delims(s: Seq<char>, kind: DelimiterKind, i: int, n: nat, started: bool, d: nat)
    ensures
        ({
            let segs = bwd_segs(s, kind, i, n, true, started, d);
            &&& forall|k: int| 0 <= k < segs.len() ==> delims_before(s, kind, #[trigger] segs[k].a) + (segs[k].d - d) == delims_before(s, kind, i)
            &&& forall|k: int| 0 <= k < segs.len() && #[trigger] segs[k].a > 0 ==> 0 < segs[k].a <= s.len() && is_delim(kind, s[segs[k].a - 1])
        }),
    decreases i, n,
{
    if !(n == 0 || i < 0 || i > s.len()) {
        let j = prev_delim(s, kind, i);
        lemma_prev_delim(s, kind, i);
        lemma_delims_before_prev(s, kind, i);
        if j >= 0 {
            lemma_bwd_segs_delims(s, kind, j, (n - 1) as nat, true, d + 1);
            let rest = bwd_segs(s, kind, j, (n - 1) as nat, true, true, d + 1);
            let segs = bwd_segs(s, kind, i, n, true, started, d);
            let g = Seg { a: j + 1, b: i, d };
            assert(segs =~= rest + seq![g]);
            assert(delims_before(s, kind, j + 1) == delims_before(s, kind, j) + 1);
            assert forall|k: int| 0 <= k < segs.len() implies delims_before(s, kind, #[trigger] segs[k].a) + (segs[k].d - d) == delims_before(s, kind, i) by {
                if k < rest.len() {
                    assert(segs[k] == rest[k]);
                } else {
                    assert(segs[k] == g);
                }
            }
            assert forall|k: int| 0 <= k < segs.len() && #[trigger] segs[k].a > 0 implies 0 < segs[k].a <= s.len() && is_delim(kind, s[segs[k].a - 1]) by {
                if k < rest.len() {
                    assert(segs[k] == rest[k]);
                } else {
                    assert(segs[k] == g);
                }
            }
        } else {
            let segs = bwd_segs(s, kind, i, n, true, started, d);
            assert(segs.len() > 0 ==> segs[0].a == 0);
        }
    }
}

/// With empty segments counted, the segments read forward come after `d`, `d + 1`, ...
/// delimiters.
pub proof fn lemma_fwd_segs_passed(s: Seq<char>, kind: DelimiterKind, i: int, n: nat, started: bool, d: nat)
    ensures
        forall|k: int| 0 <= k < fwd_segs(s, kind, i, n, true, started, d).len()
            ==> #[trigger] fwd_segs(s, kind, i, n, true, started, d)[k].d == d + k,
    decreases s.len() - i, n,
{
    if !(n == 0 || i < 0 || i > s.len()) {
        let j = next_delim(s, kind, i);
        lemma_next_delim(s, kind, i);
        if j < s.len() {
            lemma_fwd_segs_passed(s, kind, j + 1, (n - 1) as nat, true, d + 1);
            let rest = fwd_segs(s, kind, j + 1, (n - 1) as nat, true, true, d + 1);
            let segs = fwd_segs(s, kind, i, n, true, started, d);
            assert(segs =~= seq![Seg { a: i, b: j, d }] + rest);
            assert forall|k: int| 0 <= k < segs.len() implies #[trigger] segs[k].d == d + k by {
                if k > 0 {
                    assert(segs[k] == rest[k - 1]);
                }
            }
        }
    }
}

/// With empty segments counted, the segments read backward, in text order, come after ...,
/// `d + 1`, `d` delimiters: the last one read first.
pub proof fn lemma_bwd_segs_passed(s: Seq<char>, kind: DelimiterKind, i: int, n: nat, started: bool, d: nat)
    ensures
        ({
            let segs = bwd_segs(s, kind, i, n, true, started, d);
            forall|k: int| 0 <= k < segs.len() ==> #[trigger] segs[k].d == d + (segs.len() - 1 - k)
        }),
    decreases i, n,
{
    if !(n == 0 || i < 0 || i > s.len()) {
        let j = prev_delim(s, kind, i);
        lemma_prev_delim(s, kind, i);
        if j >= 0 {
            lemma_bwd_segs_passed(s, kind, j, (n - 1) as nat, true, d + 1);
            let rest = bwd_segs(s, kind, j, (n - 1) as nat, true, true, d + 1);
            let segs = bwd_segs(s, kind, i, n, true, started, d);
            assert(segs =~= rest + seq![Seg { a: j + 1, b: i, d }]);
            assert forall|k: int| 0 <= k < segs.len() implies #[trigger] segs[k].d == d + (segs.len() - 1 - k) by {
                if k < rest.len() {
                    assert(segs[k] == rest[k]);
                }
            }
        }
    }
}

/// With empty segments counted, reading backward from `i` gives one segment more than the
/// delimiters before `i`, or `n` when that is fewer.
pub proof fn lemma_bwd_segs_count(s: Seq<char>, kind: DelimiterKind, i: int, n: nat, started: bool, d: nat)
    requires
        0 <= i <= s.len(),
        i > 0 || started,
    ensures
        bwd_segs(s, kind, i, n, true, started, d).len() == if n <= delims_before(s, kind, i) + 1 {
            n
        } else {
            delims_before(s, kind, i) + 1
        },
    decreases i, n,
{
    if n > 0 {
        let j = prev_delim(s, kind, i);
        lemma_prev_delim(s, kind, i);
        lemma_delims_before_prev(s, kind, i);
        if j >= 0 {
            lemma_bwd_segs_count(s, kind, j, (n - 1) as nat, true, d + 1);
            let rest = bwd_segs(s, kind, j, (n - 1) as nat, true, true, d + 1);
            assert(bwd_segs(s, kind, i, n, true, started, d) == rest + seq![Seg { a: j + 1, b: i, d }]);
        }
    }
}

/// The number of the first line, taken from the registry when there is one.
pub open spec fn first_line_no(registry: Option<LineRegistryImpl>, range: Interval) -> LineNumberResult {
    match registry {
        None => Err(LineNumberMissingReason::LineNumberingTurnedOff),
        Some(r) => if reaches_beyond(range.right_bound, r.spec_crawled()) {
            Err(
                LineNumberMissingReason::Delegate(
                    LineRegistryError::NotReachedYet {
                        requested: range.right_bound,
                        limit: r.spec_crawled(),
                    },
                ),
            )
        } else {
            Ok(count_in(r.breaks(), range) as u64)
        },
    }
}

/// The segments that `read_delimited` returns, and where it stops, for a valid offset.
pub open spec fn segments(
    s: Seq<char>,
    kind: DelimiterKind,
    o: int,
    n: int,
    allow_empty: bool,
) -> (Seq<Seg>, int) {
    let idx = char_index(s, o);
    if n > 0 {
        let p = seg_start(s, kind, idx);
        (fwd_segs(s, kind, p, n as nat, allow_empty, false, 0), fwd_end(s, kind, p, n as nat, allow_empty))
    } else {
        let q = next_delim(s, kind, idx);
        (
            bwd_segs(s, kind, q, (-n) as nat, allow_empty, false, 0),
            bwd_end(s, kind, q, (-n) as nat, allow_empty),
        )
    }
}

/// The line breaks counted to number the first segment: those up to `offset` when reading
/// forward, those before it when reading backward.
pub open spec fn count_range(offset: Integer, n: Integer) -> Interval {
    if n > 0 {
        mk(fixed(0, true), fixed(offset, true))
    } else {
        mk(fixed(0, true), fixed(offset, false))
    }
}

pub open spec fn registry_view(r: Option<&LineRegistryImpl>) -> Option<LineRegistryImpl> {
    match r {
        Some(x) => Some(*x),
        None => None,
    }
}

/// `data` holds lines for `segs`, and its overall offsets.
pub open spec fn data_of(data: Data, s: Seq<char>, segs: Seq<Seg>, backward: bool, c0: LineNumberResult) -> bool {
    &&& data.lines@.len() == segs.len()
    &&& forall|k: int| 0 <= k < segs.len() ==> line_of(#[trigger] data.lines@[k], s, segs[k], backward, c0)
    &&& data.start == if segs.len() > 0 {
        Some(data.lines@[0].start)
    } else {
        None::<Integer>
    }
    &&& data.end == if segs.len() > 0 {
        Some(data.lines@[segs.len() - 1].end)
    } else {
        None::<Integer>
    }
}

// ---------------------------------------------------------------------------
// Reading
// ---------------------------------------------------------------------------

/// Builds the line of segment `a..b`.
fn make_line(text: &Text, a: usize, b: usize, backward: bool, c0: LineNumberResult, d: u64) -> (r: Line)
    requires
        a <= b <= text.view().len(),
    ensures
        line_of(r, text.view(), Seg { a: a as int, b: b as int, d: d as nat }, backward, c0),
{
    let ghost s = text.view();
    let mut t = b;
    if t > a && text.char_at(t - 1) == '\n' {
        t = t - 1;
    }
    if t > a && text.char_at(t - 1) == '\r' {
        t = t - 1;
    }
    let content = text.substring(a, t);
    let start = if backward && a > 0 {
        text.offset_at(a - 1) + 1
    } else {
        text.offset_at(a)
    };
    let e = text.offset_at(b);
    proof {
        lemma_pos_monotonic(s, t as int, b as int);
    }
    let end = e - (b - t) as i64;
    let line_no = match c0 {
        Ok(n) => Ok(if backward {
            if n >= d {
                n - d
            } else {
                0
            }
        } else {
            n.saturating_add(d)
        }),
        Err(e) => Err(e),
    };
    Line { content, start, end, line_no, custom_highlights: Vec::new() }
}

/// Reads at most `|n|` segments (lines, words) of `text`, delimited as `kind` says, in the
/// direction given by the sign of `n`, starting with the segment that holds `offset`.
/// Segments are returned in text order. Empty segments are returned only when
/// `allow_empty_segments`.
///
/// The second result is where reading stopped (`None` when nothing was read because `offset`
/// is negative or `n` is zero). When a registry is given, lines are numbered from the number of
/// line breaks before `offset`.
pub fn read_delimited(
    text: &Text,
    offset: Integer,
    n: Integer,
    allow_empty_segments: bool,
    line_registry: Option<&LineRegistryImpl>,
    kind: DelimiterKind,
) -> (r: (Data, Option<Integer>))
    ensures
        (offset < 0 || n == 0) ==> r.0.lines@.len() == 0 && r.0.start is None && r.0.end is None
            && r.1 is None,
        offset >= 0 && n != 0 && offset > byte_len(text.view()) ==> r.0.lines@.len() == 0
            && r.0.start is None && r.0.end is None && r.1 == Some((offset - 1) as Integer),
        offset >= 0 && n != 0 && offset <= byte_len(text.view()) ==> ({
            let (segs, stop) = segments(text.view(), kind, offset as int, n as int, allow_empty_segments);
            &&& data_of(r.0, text.view(), segs, n < 0, first_line_no(registry_view(line_registry), count_range(offset, n)))
            &&& r.1 == Some(pos(text.view(), stop) as Integer)
        }),
{
    if offset < 0 || n == 0 {
        return (Data::default(), None);
    }
    let total = text.total();
    if offset > total {
        return (Data::default(), Some(offset - 1));
    }
    let ghost s = text.view();
    let len = text.len();
    let idx = text.index_of_offset(offset);
    proof {
        lemma_index_from(s, offset as int, 0, idx as int);
    }
    let range = if n > 0 {
        Interval::closed(0, offset)
    } else {
        Interval::closed_open(0, offset)
    };
    let c0: LineNumberResult = match line_registry {
        None => Err(LineNumberMissingReason::LineNumberingTurnedOff),
        Some(reg) => match reg.count(&range) {
            Ok(c) => Ok(c as u64),
            Err(e) => Err(LineNumberMissingReason::Delegate(e)),
        },
    };
    let count: u64 = if n > 0 {
        n as u64
    } else {
        (-(n + 1)) as u64 + 1
    };
    proof {
        lemma_pos_full(s);
    }
    if n > 0 {
        // move to the beginning of the current segment
        let mut p = idx;
        while p > 0 && !is_delimiter(kind, text.char_at(p - 1))
            invariant
                p <= idx <= len == s.len(),
                s == text.view(),
                prev_delim(s, kind, idx as int) == prev_delim(s, kind, p as int),
            decreases p,
        {
            p = p - 1;
        }
        let ghost p0 = p as int;
        let mut lines: Vec<Line> = Vec::new();
        let ghost mut done: Seq<Seg> = Seq::empty();
        let mut i = p;
        let mut rem = count;
        let mut started = false;
        let mut d: u64 = 0;
        let stop: usize;
        loop
            invariant_except_break
                rem >= 1,
                fwd_segs(s, kind, p0, count as nat, allow_empty_segments, false, 0) == done
                    + fwd_segs(s, kind, i as int, rem as nat, allow_empty_segments, started, d as nat),
                fwd_end(s, kind, p0, count as nat, allow_empty_segments) == fwd_end(
                    s,
                    kind,
                    i as int,
                    rem as nat,
                    allow_empty_segments,
                ),
            invariant
                len == s.len(),
                s == text.view(),
                p0 <= i <= len,
                d <= i,
                byte_len(s) < TEXT_LIMIT,
                lines@.len() == done.len(),
                forall|k: int| 0 <= k < done.len() ==> line_of(#[trigger] lines@[k], s, done[k], false, c0),
            ensures
                fwd_segs(s, kind, p0, count as nat, allow_empty_segments, false, 0) == done,
                fwd_end(s, kind, p0, count as nat, allow_empty_segments) == stop,
                stop <= len,
                lines@.len() == done.len(),
                forall|k: int| 0 <= k < done.len() ==> line_of(#[trigger] lines@[k], s, done[k], false, c0),
            decreases len - i,
        {
            let mut j = i;
            while j < len && !is_delimiter(kind, text.char_at(j))
                invariant
                    i <= j <= len == s.len(),
                    s == text.view(),
                    next_delim(s, kind, i as int) == next_delim(s, kind, j as int),
                decreases len - j,
            {
                j = j + 1;
            }
            proof {
                lemma_next_delim(s, kind, i as int);
            }
            if j == len {
                if j > i || (allow_empty_segments && started) {
                    let line = make_line(text, i, j, false, c0, d);
                    lines.push(line);
                    proof {
                        done = done.push(Seg { a: i as int, b: j as int, d: d as nat });
                    }
                }
                stop = len;
                break;
            } else {
                if j > i || allow_empty_segments {
                    let line = make_line(text, i, j, false, c0, d);
                    lines.push(line);
                    proof {
                        done = done.push(Seg { a: i as int, b: j as int, d: d as nat });
                        assert(fwd_segs(s, kind, i as int, rem as nat, allow_empty_segments, started, d as nat)
                            == seq![Seg { a: i as int, b: j as int, d: d as nat }] + fwd_segs(s, kind, j + 1, (rem - 1) as nat, allow_empty_segments, true, (d + 1) as nat));
                        assert(fwd_end(s, kind, i as int, rem as nat, allow_empty_segments)
                            == fwd_end(s, kind, j + 1, (rem - 1) as nat, allow_empty_segments));
                    }
                    rem = rem - 1;
                    if rem == 0 {
                        stop = j + 1;
                        proof {
                            assert(fwd_segs(s, kind, j + 1, 0, allow_empty_segments, true, (d + 1) as nat) =~= Seq::<Seg>::empty());
                        }
                        break;
                    }
                }
                i = j + 1;
                started = true;
                d = d + 1;
            }
        }
        proof {
            assert(fwd_segs(s, kind, p0, count as nat, allow_empty_segments, false, 0) =~= done);
        }
        let start = if lines.len() > 0 {
            Some(lines[0].start)
        } else {
            None
        };
        let end = if lines.len() > 0 {
            Some(lines[lines.len() - 1].end)
        } else {
            None
        };
        let pos_stop = text.offset_at(stop);
        (Data { lines, start, end }, Some(pos_stop))
    } else {
        // move to the end of the current segment
        let mut q = idx;
        while q < len && !is_delimiter(kind, text.char_at(q))
            invariant
                idx <= q <= len == s.len(),
                s == text.view(),
                next_delim(s, kind, idx as int) == next_delim(s, kind, q as int),
            decreases len - q,
        {
            q = q + 1;
        }
        proof {
            lemma_next_delim(s, kind, q as int);
        }
        let ghost q0 = q as int;
        let mut rev: Vec<Line> = Vec::new();
        let ghost mut done: Seq<Seg> = Seq::empty();
        let mut i = q;
        let mut rem = count;
        let mut started = false;
        let mut d: u64 = 0;
        let stop: usize;
        loop
            invariant_except_break
                rem >= 1,
                bwd_segs(s, kind, q0, count as nat, allow_empty_segments, false, 0) == bwd_segs(
                    s,
                    kind,
                    i as int,
                    rem as nat,
                    allow_empty_segments,
                    started,
                    d as nat,
                ) + done,
                bwd_end(s, kind, q0, count as nat, allow_empty_segments) == bwd_end(
                    s,
                    kind,
                    i as int,
                    rem as nat,
                    allow_empty_segments,
                ),
            invariant
                len == s.len(),
                s == text.view(),
                i <= q0 <= len,
                d + i <= q0,
                byte_len(s) < TEXT_LIMIT,
                rev@.len() == done.len(),
                forall|k: int|
                    0 <= k < done.len() ==> line_of(
                        #[trigger] rev@[k],
                        s,
                        done[done.len() - 1 - k],
                        true,
                        c0,
                    ),
            ensures
                bwd_segs(s, kind, q0, count as nat, allow_empty_segments, false, 0) == done,
                bwd_end(s, kind, q0, count as nat, allow_empty_segments) == stop,
                stop <= len,
                rev@.len() == done.len(),
                forall|k: int|
                    0 <= k < done.len() ==> line_of(
                        #[trigger] rev@[k],
                        s,
                        done[done.len() - 1 - k],
                        true,
                        c0,
                    ),
            decreases i,
        {
            let mut j = i;
            while j > 0 && !is_delimiter(kind, text.char_at(j - 1))
                invariant
                    j <= i <= len == s.len(),
                    s == text.view(),
                    prev_delim(s, kind, i as int) == prev_delim(s, kind, j as int),
                decreases j,
            {
                j = j - 1;
            }
            proof {
                lemma_prev_delim(s, kind, i as int);
            }
            if j == 0 {
                // beginning of the text
                if i > 0 || (allow_empty_segments && started) {
                    let line = make_line(text, 0, i, true, c0, d);
                    rev.push(line);
                    proof {
                        let g = Seg { a: 0, b: i as int, d: d as nat };
                        let old_done = done;
                        done = seq![g] + done;
                        assert forall|k: int| 0 <= k < done.len() implies line_of(
                            #[trigger] rev@[k],
                            s,
                            done[done.len() - 1 - k],
                            true,
                            c0,
                        ) by {
                            if k < old_done.len() {
                                assert(done[done.len() - 1 - k] == old_done[old_done.len() - 1 - k]);
                            }
                        }
                    }
                }
                stop = 0;
                break;
            } else {
                // the delimiter is at j - 1
                let dj = j - 1;
                if dj + 1 < i || allow_empty_segments {
                    let line = make_line(text, dj + 1, i, true, c0, d);
                    rev.push(line);
                    proof {
                        let g = Seg { a: dj + 1, b: i as int, d: d as nat };
                        assert(bwd_segs(s, kind, i as int, rem as nat, allow_empty_segments, started, d as nat)
                            == bwd_segs(s, kind, dj as int, (rem - 1) as nat, allow_empty_segments, true, (d + 1) as nat) + seq![g]);
                        assert(bwd_end(s, kind, i as int, rem as nat, allow_empty_segments)
                            == bwd_end(s, kind, dj as int, (rem - 1) as nat, allow_empty_segments));
                        let old_done = done;
                        done = seq![g] + done;
                        assert forall|k: int| 0 <= k < done.len() implies line_of(
                            #[trigger] rev@[k],
                            s,
                            done[done.len() - 1 - k],
                            true,
                            c0,
                        ) by {
                            if k < old_done.len() {
                                assert(done[done.len() - 1 - k] == old_done[old_done.len() - 1 - k]);
                            }
                        }
                    }
                    rem = rem - 1;
                    if rem == 0 {
                        stop = dj;
                        proof {
                            assert(bwd_segs(s, kind, dj as int, 0, allow_empty_segments, true, (d + 1) as nat) =~= Seq::<Seg>::empty());
                        }
                        break;
                    }
                }
                i = dj;
                started = true;
                d = d + 1;
            }
        }
        proof {
            assert(bwd_segs(s, kind, q0, count as nat, allow_empty_segments, false, 0) =~= done);
        }
        // lines were collected from the last to the first
        let mut lines: Vec<Line> = Vec::new();
        let ghost total_n = rev@.len();
        while rev.len() > 0
            invariant
                lines@.len() + rev@.len() == total_n,
                total_n == done.len(),
                forall|k: int|
                    0 <= k < rev@.len() ==> line_of(#[trigger] rev@[k], s, done[done.len() - 1 - k], true, c0),
                forall|k: int| 0 <= k < lines@.len() ==> line_of(#[trigger] lines@[k], s, done[k], true, c0),
            decreases rev@.len(),
        {
            let line = rev.pop().unwrap();
            lines.push(line);
        }
        let start = if lines.len() > 0 {
            Some(lines[0].start)
        } else {
            None
        };
        let end = if lines.len() > 0 {
            Some(lines[lines.len() - 1].end)
        } else {
            None
        };
        let pos_stop = text.offset_at(stop);
        (Data { lines, start, end }, Some(pos_stop))
    }
}

} // verus!
