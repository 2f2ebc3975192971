use vstd::prelude::*;
use vstd::string::StringSliceAdditionalSpecFns;
use crate::data_source::read_delimited::Direction;
use crate::data_source::text::{byte_len, Text, TEXT_LIMIT};
use crate::interval::{Integer, Interval};
use crate::search::searcher::{
    calculate_offset_and_boundary, window, Occurrence, OffsetAndBoundary, SearchError, SearchResult,
};

verus! {

/// `p` occurs in `b` at `k`; the empty pattern occurs everywhere.
pub open spec fn matches_at(b: Seq<u8>, p: Seq<u8>, k: int) -> bool {
    p.len() == 0 || (0 <= k && k + p.len() <= b.len() && b.subrange(k, k + p.len()) == p)
}

/// The first position in `k..=last` where `p` occurs.
pub open spec fn fwd_match(b: Seq<u8>, p: Seq<u8>, k: int, last: int) -> Option<int>
    decreases last - k + 1,
{
    if k > last {
        None
    } else if matches_at(b, p, k) {
        Some(k)
    } else {
        fwd_match(b, p, k + 1, last)
    }
}

/// The last position in `first..=k` where `p` occurs.
pub open spec fn bwd_match(b: Seq<u8>, p: Seq<u8>, k: int, first: int) -> Option<int>
    decreases k - first + 1,
{
    if k < first {
        None
    } else if matches_at(b, p, k) {
        Some(k)
    } else {
        bwd_match(b, p, k - 1, first)
    }
}

/// What a plain search gives, for a given search window.
pub open spec fn plain_search(b: Seq<u8>, p: Seq<u8>, direction: Direction, w: OffsetAndBoundary) -> Option<int> {
    match direction {
        Direction::Forward => {
            let last = match w.offset_boundary {
                None => b.len() as int,
                Some(x) => x as int,
            };
            fwd_match(b, p, w.offset as int, if last < w.offset { w.offset as int } else { last })
        },
        Direction::Backward => if p.len() == 0 {
            None
        } else {
            let first = match w.offset_boundary {
                None => 0int,
                Some(x) => if x < 0 {
                    0int
                } else {
                    x as int
                },
            };
            bwd_match(b, p, w.offset - p.len(), first)
        },
    }
}

/// What a plain search for `p` in `b` (a text of `total` bytes) gives for `range`.
pub open spec fn plain_result(b: Seq<u8>, p: Seq<u8>, total: Integer, direction: Direction, range: Interval) -> SearchResult {
    match window(total, direction, range) {
        None => Err(SearchError::NotFound),
        Some(w) => match plain_search(b, p, direction, w) {
            Some(k) => Ok(Occurrence { start: k as Integer, end: (k + p.len()) as Integer }),
            None => Err(SearchError::NotFound),
        },
    }
}

proof fn lemma_fwd_match_skip(b: Seq<u8>, p: Seq<u8>, k: int, last: int, stop: int)
    requires
        k <= stop,
        forall|j: int| k <= j < stop && j <= last ==> !matches_at(b, p, j),
    ensures
        fwd_match(b, p, k, last) == fwd_match(b, p, stop, last) || stop > last + 1 && fwd_match(
            b,
            p,
            k,
            last,
        ) is None,
    decreases stop - k,
{
    if k < stop && k <= last {
        lemma_fwd_match_skip(b, p, k + 1, last, stop);
    }
}

proof fn lemma_fwd_match_none(b: Seq<u8>, p: Seq<u8>, k: int, last: int)
    requires
        forall|j: int| k <= j <= last ==> !matches_at(b, p, j),
    ensures
        fwd_match(b, p, k, last) is None,
    decreases last - k + 1,
{
    if k <= last {
        lemma_fwd_match_none(b, p, k + 1, last);
    }
}

proof fn lemma_bwd_match_skip(b: Seq<u8>, p: Seq<u8>, k: int, first: int, stop: int)
    requires
        stop <= k,
        forall|j: int| stop < j <= k && first <= j ==> !matches_at(b, p, j),
    ensures
        bwd_match(b, p, k, first) == bwd_match(b, p, stop, first) || stop < first - 1 && bwd_match(
            b,
            p,
            k,
            first,
        ) is None,
    decreases k - stop,
{
    if stop < k && first <= k {
        lemma_bwd_match_skip(b, p, k - 1, first, stop);
    }
}

/// A forward match is found within `k..=last`.
pub proof fn lemma_fwd_match_within(b: Seq<u8>, p: Seq<u8>, k: int, last: int)
    ensures
        fwd_match(b, p, k, last) matches Some(r) ==> k <= r <= last,
    decreases last - k + 1,
{
    if k <= last && !matches_at(b, p, k) {
        lemma_fwd_match_within(b, p, k + 1, last);
    }
}

/// A backward match is found within `first..=k`.
pub proof fn lemma_bwd_match_within(b: Seq<u8>, p: Seq<u8>, k: int, first: int)
    ensures
        bwd_match(b, p, k, first) matches Some(r) ==> first <= r <= k,
    decreases k - first + 1,
{
    if k >= first && !matches_at(b, p, k) {
        lemma_bwd_match_within(b, p, k - 1, first);
    }
}

/// A plain search finds an occurrence inside its window: forward, one that starts at or after
/// the window's first position; backward, a non-empty one that ends at or before the window's
/// largest end and starts at or after its smallest start.
pub proof fn lemma_plain_result_within(b: Seq<u8>, p: Seq<u8>, total: Integer, direction: Direction, range: Interval)
    ensures
        plain_result(b, p, total, direction, range) matches Ok(occ) ==> ({
            let w = window(total, direction, range)->Some_0;
            &&& window(total, direction, range) is Some
            &&& direction == Direction::Forward && b.len() <= i64::MAX ==> w.offset <= occ.start
            &&& direction == Direction::Backward ==> occ.start < occ.end <= w.offset
            &&& direction == Direction::Backward ==> 0 <= occ.start
        }),
{
    if let Some(w) = window(total, direction, range) {
        match direction {
            Direction::Forward => {
                let last = match w.offset_boundary {
                    None => b.len() as int,
                    Some(x) => x as int,
                };
                lemma_fwd_match_within(b, p, w.offset as int, if last < w.offset { w.offset as int } else { last });
            },
            Direction::Backward => {
                let first = match w.offset_boundary {
                    None => 0int,
                    Some(x) => if x < 0 { 0int } else { x as int },
                };
                lemma_bwd_match_within(b, p, w.offset - p.len(), first);
            },
        }
    }
}

/// Searches a text for a plain pattern, byte by byte.
pub struct SearcherImpl {
    text: Text,
    pattern: Vec<u8>,
}

/// `p` occurs in `b` at `k` (an executable check).
fn matches_at_exec(b: &[u8], p: &[u8], k: usize) -> (r: bool)
    ensures
        r == matches_at(b@, p@, k as int),
{
    if p.len() == 0 {
        return true;
    }
    if k > b.len() || b.len() - k < p.len() {
        return false;
    }
    let end: usize = k + p.len();
    let mut i: usize = 0;
    while i < p.len()
        invariant
            end == k + p@.len(),
            end <= b@.len(),
            i <= p@.len(),
            forall|j: int| 0 <= j < i ==> b@[k + j] == p@[j],
        decreases p@.len() - i,
    {
        if b[k + i] != p[i] {
            proof {
                assert(b@.subrange(k as int, k + p@.len())[i as int] != p@[i as int]);
            }
            return false;
        }
        i += 1;
    }
    proof {
        assert(b@.subrange(k as int, k + p@.len()) =~= p@);
    }
    true
}

impl SearcherImpl {
    pub closed spec fn text_view(self) -> Seq<char> {
        self.text.view()
    }

    pub closed spec fn pattern_view(self) -> Seq<u8> {
        self.pattern@
    }

    /// A searcher for `pattern` in `text`.
    pub fn new(text: Text, pattern: &str) -> (r: Self)
        ensures
            r.text_view() == text.view(),
            r.pattern_view() == pattern.spec_bytes(),
    {
        let pattern = vstd::slice::slice_to_vec(pattern.as_bytes());
        SearcherImpl { text, pattern }
    }

    /// Forward: the first occurrence that starts in `range` (the first candidate is taken even
    /// beyond the right end of `range`). Backward: the last occurrence that lies in `range`.
    #[verifier::loop_isolation(false)]
    pub fn search(&self, direction: Direction, range: Interval) -> (r: SearchResult)
        ensures
            r == self.spec_search(direction, range),
    {
        let total = self.text.total();
        let w = match calculate_offset_and_boundary(total, direction, range) {
            Ok(w) => w,
            Err(e) => return Err(e),
        };
        let b = self.text.as_bytes();
        let p = self.pattern.as_slice();
        let m = p.len();
        let len = b.len();
        proof {
            assert(b@ == self.text_view_bytes());
        }
        if m > len {
            // the pattern is longer than the whole text
            proof {
                assert forall|j: int| #![trigger matches_at(b@, p@, j)] true implies !matches_at(b@, p@, j) by {}
                match direction {
                    Direction::Forward => {
                        let last = match w.offset_boundary {
                            None => len as int,
                            Some(x) => x as int,
                        };
                        lemma_fwd_match_none(b@, p@, w.offset as int, if last < w.offset { w.offset as int } else { last });
                    },
                    Direction::Backward => {},
                }
            }
            return Err(SearchError::NotFound);
        }
        match direction {
            Direction::Forward => {
                let o = w.offset;
                let last: Integer = match w.offset_boundary {
                    None => len as i64,
                    Some(x) => x,
                };
                let last = if last < o {
                    o
                } else {
                    last
                };
                if m == 0 {
                    proof {
                        assert(matches_at(b@, p@, o as int));
                    }
                    return Ok(Occurrence::new(o, o));
                }
                // candidates beyond len - m cannot match
                if (o as u64) > len as u64 || (len - (o as usize)) < m {
                    proof {
                        assert forall|j: int| o <= j <= last implies !matches_at(b@, p@, j) by {}
                        lemma_fwd_match_none(b@, p@, o as int, last as int);
                    }
                    return Err(SearchError::NotFound);
                }
                let mut k: usize = o as usize;
                while k <= len - m && (k as i64) <= last
                    invariant
                        len == b@.len(),
                        m == p@.len(),
                        m > 0,
                        m <= len,
                        len < TEXT_LIMIT,
                        o <= k,
                        0 <= o,
                        forall|j: int| o <= j < k && j <= last ==> !matches_at(b@, p@, j),
                    decreases len - k,
                {
                    if matches_at_exec(b, p, k) {
                        proof {
                            lemma_fwd_match_skip(b@, p@, o as int, last as int, k as int);
                        }
                        return Ok(Occurrence::new(k as i64, (k + m) as i64));
                    }
                    k += 1;
                }
                proof {
                    assert forall|j: int| o <= j <= last implies !matches_at(b@, p@, j) by {
                        if j >= k {
                            assert(j + m > len);
                        }
                    }
                    lemma_fwd_match_none(b@, p@, o as int, last as int);
                }
                Err(SearchError::NotFound)
            },
            Direction::Backward => {
                if m == 0 {
                    return Err(SearchError::NotFound);
                }
                let first: Integer = match w.offset_boundary {
                    None => 0,
                    Some(x) => if x < 0 {
                        0
                    } else {
                        x
                    },
                };
                let o = w.offset;
                if o < m as i64 || o - (m as i64) < first {
                    proof {
                        assert(bwd_match(b@, p@, o - m, first as int) is None);
                    }
                    return Err(SearchError::NotFound);
                }
                let mut k: i64 = o - m as i64;
                loop
                    invariant
                        len == b@.len(),
                        m == p@.len(),
                        m > 0,
                        m <= len,
                        len < TEXT_LIMIT,
                        o <= len,
                        first >= 0,
                        first <= k <= o - m,
                        forall|j: int| k < j <= o - m && first <= j ==> !matches_at(b@, p@, j),
                    decreases k,
                {
                    if matches_at_exec(b, p, k as usize) {
                        proof {
                            lemma_bwd_match_skip(b@, p@, o - m, first as int, k as int);
                        }
                        return Ok(Occurrence::new(k, k + m as i64));
                    }
                    if k == first {
                        proof {
                            lemma_bwd_match_skip(b@, p@, o - m, first as int, k as int);
                            assert(bwd_match(b@, p@, k as int - 1, first as int) is None);
                        }
                        return Err(SearchError::NotFound);
                    }
                    k -= 1;
                }
            },
        }
    }

    pub open spec fn spec_search(self, direction: Direction, range: Interval) -> SearchResult {
        plain_result(self.text_view_bytes(), self.pattern_view(), byte_len(self.text_view()) as Integer, direction, range)
    }

    /// The length of the text in bytes.
    pub fn total(&self) -> (r: Integer)
        ensures
            r == byte_len(self.text_view()),
            0 <= r,
    {
        self.text.total()
    }

    /// The UTF-8 bytes of the text.
    pub closed spec fn text_view_bytes(self) -> Seq<u8> {
        self.text.spec_bytes()
    }

    /// The bytes searched are those of the text's UTF-8 encoding.
    pub proof fn lemma_text_bytes_len(self)
        ensures
            self.text_view_bytes().len() == byte_len(self.text_view()),
    {
        crate::data_source::text::lemma_byte_len_encode(self.text.view());
    }
}

} // verus!
