use vstd::prelude::*;
use crate::interval::{contains, left_admits, right_admits, Integer, Interval, IntervalBound};

verus! {

/// Size of the chunks in which a text is scanned for line breaks.
pub const BUFFER_SIZE: usize = 1048576;

/// Why a question to the registry could not be answered.
#[derive(PartialEq, Eq, Structural, Copy, Clone, Debug)]
pub enum LineRegistryError {
    /// reading the source failed
    IO,
    /// the crawl was interrupted
    Cancelled,
    /// the requested interval reaches beyond what has been crawled
    NotReachedYet { requested: IntervalBound, limit: Integer },
}

pub type LineRegistryResult<T> = Result<T, LineRegistryError>;

/// Keeps the ordered set of offsets of line-break symbols of a text, and how far the text
/// has been crawled.
pub struct LineRegistryImpl {
    line_breaks: Vec<Integer>,
    crawled: Integer,
}

/// The sequence is strictly increasing.
pub open spec fn strictly_sorted(s: Seq<Integer>) -> bool {
    forall|i: int, j: int| 0 <= i < j < s.len() ==> s[i] < s[j]
}

/// Number of elements of `s` that lie in `range`.
pub open spec fn count_in(s: Seq<Integer>, range: Interval) -> nat
    decreases s.len(),
{
    if s.len() == 0 {
        0
    } else {
        count_in(s.drop_last(), range) + if contains(range, s.last() as int) {
            1nat
        } else {
            0nat
        }
    }
}

/// Offsets of the newline bytes of `chunk` when it starts at `offset`.
pub open spec fn newline_offsets(offset: int, chunk: Seq<u8>) -> Set<Integer> {
    Set::new(|x: Integer| 0 <= x - offset < chunk.len() && chunk[x - offset] == 10u8)
}

/// `chunk` holds a newline byte.
pub open spec fn has_newline(chunk: Seq<u8>) -> bool {
    exists|p: int| 0 <= p < chunk.len() && chunk[p] == 10u8
}

/// The index of the last newline byte of `s`, or -1 if it has none.
pub open spec fn last_newline(s: Seq<u8>) -> int
    decreases s.len(),
{
    if s.len() == 0 {
        -1
    } else if s.last() == 10u8 {
        s.len() - 1
    } else {
        last_newline(s.drop_last())
    }
}

/// The end of the chunk of size `BUFFER_SIZE` that holds index `p` of a text of `len` bytes.
pub open spec fn chunk_end(p: int, len: int) -> int {
    let e = (p / (BUFFER_SIZE as int) + 1) * (BUFFER_SIZE as int);
    if e < len {
        e
    } else {
        len
    }
}

/// What the recursive definition of `last_newline` amounts to.
pub proof fn lemma_last_newline(s: Seq<u8>)
    ensures
        -1 <= last_newline(s) < s.len(),
        last_newline(s) >= 0 ==> s[last_newline(s)] == 10u8,
        forall|k: int| last_newline(s) < k < s.len() ==> s[k] != 10u8,
        has_newline(s) <==> last_newline(s) >= 0,
    decreases s.len(),
{
    if s.len() > 0 {
        lemma_last_newline(s.drop_last());
        if s.last() != 10u8 {
            assert forall|k: int| last_newline(s) < k < s.len() implies s[k] != 10u8 by {
                if k < s.len() - 1 {
                    assert(s.drop_last()[k] == s[k]);
                }
            }
            if has_newline(s) {
                let q = choose|q: int| 0 <= q < s.len() && s[q] == 10u8;
                assert(s.drop_last()[q] == 10u8);
            }
            if has_newline(s.drop_last()) {
                let q = choose|q: int| 0 <= q < s.drop_last().len() && s.drop_last()[q] == 10u8;
                assert(s[q] == 10u8);
            }
        } else {
            assert(s[s.len() - 1] == 10u8);
        }
    }
}

/// Binary search over a strictly increasing vector: `Ok(p)` where `v[p] == x`, or `Err(p)`
/// where `p` is the number of elements below `x`.
pub fn search_sorted(v: &Vec<Integer>, x: Integer) -> (r: Result<usize, usize>)
    requires
        strictly_sorted(v@),
    ensures
        match r {
            Ok(p) => p < v@.len() && v@[p as int] == x,
            Err(p) => p <= v@.len() && (forall|k: int| 0 <= k < p ==> v@[k] < x) && (forall|
                k: int,
            |
                p <= k < v@.len() ==> v@[k] > x),
        },
{
    let mut lo: usize = 0;
    let mut hi: usize = v.len();
    while lo < hi
        invariant
            strictly_sorted(v@),
            lo <= hi <= v@.len(),
            forall|k: int| 0 <= k < lo ==> v@[k] < x,
            forall|k: int| hi <= k < v@.len() ==> v@[k] > x,
        decreases hi - lo,
    {
        let mid = lo + (hi - lo) / 2;
        if v[mid] < x {
            lo = mid + 1;
        } else if v[mid] > x {
            hi = mid;
        } else {
            return Ok(mid);
        }
    }
    Err(lo)
}

/// For a strictly increasing sequence, the admitted elements of an interval form the block
/// between the elements cut off on the left and those cut off on the right.
proof fn lemma_count_block(s: Seq<Integer>, range: Interval, lo: int, hi: int, k: int)
    requires
        strictly_sorted(s),
        0 <= lo <= s.len(),
        0 <= hi <= s.len(),
        0 <= k <= s.len(),
        forall|i: int| 0 <= i < s.len() ==> (left_admits(range.left_bound, s[i] as int) <==> lo
            <= i),
        forall|i: int| 0 <= i < s.len() ==> (right_admits(range.right_bound, s[i] as int) <==> i
            < hi),
    ensures
        count_in(s.take(k), range) == if k <= lo || hi <= lo {
            0
        } else if k <= hi {
            k - lo
        } else {
            hi - lo
        },
    decreases k,
{
    if k > 0 {
        lemma_count_block(s, range, lo, hi, k - 1);
        assert(s.take(k).drop_last() =~= s.take(k - 1));
        assert(s.take(k).last() == s[k - 1]);
    }
}

impl LineRegistryImpl {
    #[verifier::type_invariant]
    spec fn inv(self) -> bool {
        &&& strictly_sorted(self.line_breaks@)
        &&& forall|i: int| 0 <= i < self.line_breaks@.len() ==> self.line_breaks@[i] < i64::MAX
    }

    /// The registered line-break offsets, in increasing order.
    pub closed spec fn breaks(self) -> Seq<Integer> {
        self.line_breaks@
    }

    /// How far the text has been crawled.
    pub closed spec fn spec_crawled(self) -> Integer {
        self.crawled
    }

    pub fn new() -> (r: Self)
        ensures
            r.breaks() == Seq::<Integer>::empty(),
            r.spec_crawled() == 0,
    {
        LineRegistryImpl { line_breaks: Vec::new(), crawled: 0 }
    }

    /// A registry holding the given offsets, crawled up to the largest of them.
    pub fn with_data(data: Vec<Integer>) -> (r: Self)
        requires
            forall|i: int| 0 <= i < data@.len() ==> data@[i] < i64::MAX,
        ensures
            r.breaks().to_set() == data@.to_set(),
            data@.len() == 0 ==> r.spec_crawled() == 0,
            data@.len() > 0 ==> data@.contains(r.spec_crawled()),
            forall|i: int| 0 <= i < data@.len() ==> data@[i] <= r.spec_crawled(),
    {
        let mut r = LineRegistryImpl::new();
        let mut max: Integer = 0;
        let mut i: usize = 0;
        while i < data.len()
            invariant
                i <= data@.len(),
                forall|k: int| 0 <= k < data@.len() ==> data@[k] < i64::MAX,
                r.breaks().to_set() == data@.take(i as int).to_set(),
                i > 0 ==> data@.take(i as int).contains(max),
                i == 0 ==> max == 0,
                forall|k: int| 0 <= k < i ==> data@[k] <= max,
            decreases data@.len() - i,
        {
            let x = data[i];
            r.push(x);
            if i == 0 || x > max {
                max = x;
            }
            proof {
                assert(data@.take(i + 1) =~= data@.take(i as int).push(x));
                data@.take(i as int).lemma_push_to_set_commute(x);
                assert(data@.take(i + 1)[i as int] == x);
                if i > 0 && max != x {
                    let k = choose|k: int| 0 <= k < i && data@.take(i as int)[k] == max;
                    assert(data@.take(i + 1)[k] == max);
                }
            }
            i += 1;
        }
        proof {
            assert(data@.take(data@.len() as int) =~= data@);
        }
        proof {
            use_type_invariant(&r);
        }
        r.crawled = max;
        r
    }

    /// Registers a line break at `offset`; a registered offset is not registered twice.
    pub fn push(&mut self, offset: Integer)
        requires
            offset < i64::MAX,
        ensures
            final(self).breaks().to_set() == old(self).breaks().to_set().insert(offset),
            final(self).breaks().len() == old(self).breaks().len() + if old(
                self,
            ).breaks().contains(offset) {
                0int
            } else {
                1int
            },
            old(self).breaks().contains(offset) ==> final(self).breaks() == old(self).breaks(),
            !old(self).breaks().contains(offset) ==> exists|p: int|
                0 <= p <= old(self).breaks().len() && final(self).breaks() == #[trigger] old(self).breaks().insert(p, offset),
            final(self).spec_crawled() == if !old(self).breaks().contains(offset) && old(self).spec_crawled() < offset {
                offset
            } else {
                old(self).spec_crawled()
            },
    {
        proof {
            use_type_invariant(&*self);
        }
        match search_sorted(&self.line_breaks, offset) {
            Ok(_) => {
                proof {
                    assert(self.line_breaks@.to_set().insert(offset) =~= self.line_breaks@.to_set());
                }
                return;
            },
            Err(p) => {
                let ghost old_v = self.line_breaks@;
                let mut v = Vec::new();
                std::mem::swap(&mut v, &mut self.line_breaks);
                v.insert(p, offset);
                proof {
                    assert(v@ =~= old_v.insert(p as int, offset));
                    old_v.insert_ensures(p as int, offset);
                    assert(strictly_sorted(v@)) by {
                        assert forall|i: int, j: int| 0 <= i < j < v@.len() implies v@[i] < v@[j] by {
                            if i < p && j < p { assert(old_v[i] < old_v[j]); }
                            else if i < p && j > p { assert(old_v[i] < old_v[j - 1]); }
                            else if i > p { assert(old_v[i - 1] < old_v[j - 1]); }
                        }
                    }
                }
                self.line_breaks = v;
                proof {
                    old_v.insert_ensures(p as int, offset);
                    assert(self.line_breaks@.to_set() =~= old_v.to_set().insert(offset)) by {
                        assert forall|y: Integer| self.line_breaks@.to_set().contains(y) <==> old_v.to_set().insert(offset).contains(y) by {
                            if self.line_breaks@.contains(y) {
                                let k = choose|k: int| 0 <= k < self.line_breaks@.len() && self.line_breaks@[k] == y;
                                if k < p { assert(old_v[k] == y); } else if k > p { assert(old_v[k - 1] == y); }
                            }
                            if old_v.contains(y) {
                                let k = choose|k: int| 0 <= k < old_v.len() && old_v[k] == y;
                                if k < p { assert(self.line_breaks@[k] == y); } else { assert(self.line_breaks@[k + 1] == y); }
                            }
                            if y == offset { assert(self.line_breaks@[p as int] == y); }
                        }
                    }
                    assert(!old_v.contains(offset));
                    assert(self.line_breaks@ == old_v.insert(p as int, offset));
                }
            },
        }
        if self.crawled < offset {
            self.crawled = offset;
        }
    }

    /// Counts the registered line breaks that lie in `range`.
    ///
    /// Fails when the right end of `range` reaches beyond the crawled part of the text.
    pub fn count(&self, range: &Interval) -> (r: LineRegistryResult<usize>)
        ensures
            match r {
                Ok(n) => !reaches_beyond(range.right_bound, self.spec_crawled()) && n == count_in(
                    self.breaks(),
                    *range,
                ),
                Err(e) => reaches_beyond(range.right_bound, self.spec_crawled()) && e
                    == LineRegistryError::NotReachedYet {
                    requested: range.right_bound,
                    limit: self.spec_crawled(),
                },
            },
    {
        proof {
            use_type_invariant(self);
        }
        let beyond = match range.right_bound {
            IntervalBound::PositiveInfinity => true,
            IntervalBound::NegativeInfinity => false,
            IntervalBound::Fixed { value, is_included: _ } => value > self.crawled,
        };
        if beyond {
            return Err(
                LineRegistryError::NotReachedYet { requested: range.right_bound, limit: self.crawled },
            );
        }
        let v = &self.line_breaks;
        let n = v.len();
        let ghost s = v@;
        // first index admitted by the left bound
        let lo: usize = match range.left_bound {
            IntervalBound::PositiveInfinity => v.len(),
            IntervalBound::NegativeInfinity => 0,
            IntervalBound::Fixed { value, is_included } => match search_sorted(v, value) {
                Ok(p) => if is_included {
                    p
                } else {
                    p + 1
                },
                Err(p) => p,
            },
        };
        // number of indices admitted by the right bound
        let hi: usize = match range.right_bound {
            IntervalBound::PositiveInfinity => v.len(),
            IntervalBound::NegativeInfinity => 0,
            IntervalBound::Fixed { value, is_included } => match search_sorted(v, value) {
                Ok(p) => if is_included {
                    p + 1
                } else {
                    p
                },
                Err(p) => p,
            },
        };
        proof {
            assert forall|i: int| 0 <= i < s.len() implies (left_admits(
                range.left_bound,
                s[i] as int,
            ) <==> lo <= i) by {}
            assert forall|i: int| 0 <= i < s.len() implies (right_admits(
                range.right_bound,
                s[i] as int,
            ) <==> i < hi) by {}
            lemma_count_block(s, *range, lo as int, hi as int, s.len() as int);
            assert(s.take(s.len() as int) =~= s);
        }
        if hi > lo {
            Ok(hi - lo)
        } else {
            Ok(0)
        }
    }

    /// Offset of the first symbol of line `line_no` (lines are numbered from 0).
    ///
    /// If fewer line breaks than `line_no` have been registered, the crawled limit is returned
    /// as the error.
    pub fn find_offset_by_line_number(&self, line_no: Integer) -> (r: Result<Integer, Integer>)
        ensures
            line_no <= 0 ==> r == Ok::<Integer, Integer>(0),
            line_no > 0 && line_no <= self.breaks().len() ==> r == Ok::<Integer, Integer>(
                (self.breaks()[line_no - 1] + 1) as Integer,
            ),
            line_no > 0 && line_no > self.breaks().len() ==> r == Err::<Integer, Integer>(
                self.spec_crawled(),
            ),
    {
        proof {
            use_type_invariant(self);
        }
        if line_no <= 0 {
            return Ok(0);
        }
        let k = (line_no - 1) as u64;
        if k < self.line_breaks.len() as u64 {
            Ok(self.line_breaks[k as usize] + 1)
        } else {
            Err(self.crawled)
        }
    }

    /// The registered line-break offsets in increasing order.
    pub fn line_breaks(&self) -> (r: Vec<Integer>)
        ensures
            r@ == self.breaks(),
            strictly_sorted(r@),
    {
        proof {
            use_type_invariant(self);
        }
        self.line_breaks.clone()
    }

    /// The crawled limit.
    pub fn crawled(&self) -> (r: Integer)
        ensures
            r == self.spec_crawled(),
    {
        self.crawled
    }

    /// Scans `content`, a text that starts at `offset`, for line breaks in chunks of
    /// `BUFFER_SIZE` bytes, and registers them. Before each chunk `is_interrupted` is asked;
    /// when it answers `true` the scan stops with `Cancelled`. After each chunk, and at the end,
    /// `bytes_processed` is told how many bytes have been scanned so far.
    ///
    /// The crawled limit ends at the end of the last chunk that holds a line break.
    pub fn build<F: Fn() -> bool, G: Fn(usize)>(
        &mut self,
        content: &[u8],
        offset: Integer,
        is_interrupted: F,
        bytes_processed: G,
    ) -> (r: LineRegistryResult<()>)
        requires
            0 <= offset,
            offset + content@.len() < i64::MAX,
            call_requires(is_interrupted, ()),
            forall|n: usize| call_requires(bytes_processed, (n,)),
        ensures
            r is Ok ==> final(self).breaks().to_set() == old(self).breaks().to_set().union(
                newline_offsets(offset as int, content@),
            ),
            r is Ok ==> final(self).spec_crawled() == if has_newline(content@) {
                (offset + chunk_end(last_newline(content@), content@.len() as int)) as Integer
            } else {
                old(self).spec_crawled()
            },
            r is Err ==> r == Err::<(), LineRegistryError>(LineRegistryError::Cancelled),
            r is Err ==> call_ensures(is_interrupted, (), true),
            content@.len() > 0 && (forall|b: bool| #[trigger] call_ensures(is_interrupted, (), b) ==> b)
                ==> r == Err::<(), LineRegistryError>(LineRegistryError::Cancelled),
            r is Err ==> old(self).breaks().to_set().subset_of(final(self).breaks().to_set()),
            r is Err ==> final(self).breaks().to_set().subset_of(
                old(self).breaks().to_set().union(newline_offsets(offset as int, content@)),
            ),
    {
        let ghost old_set = self.breaks().to_set();
        let ghost old_crawled = self.spec_crawled();
        let len = content.len();
        let mut start: usize = 0;
        let ghost mut k: int = 0;
        while start < len
            invariant
                len == content@.len(),
                old_set == old(self).breaks().to_set(),
                old_crawled == old(self).spec_crawled(),
                0 <= offset,
                offset + content@.len() < i64::MAX,
                call_requires(is_interrupted, ()),
                forall|n: usize| call_requires(bytes_processed, (n,)),
                0 <= k,
                start == k * (BUFFER_SIZE as int) || start == len,
                start <= len,
                (forall|b: bool| #[trigger] call_ensures(is_interrupted, (), b) ==> b) ==> start == 0,
                self.breaks().to_set() == old_set.union(
                    newline_offsets(offset as int, content@.take(start as int)),
                ),
                self.spec_crawled() == if has_newline(content@.take(start as int)) {
                    (offset + chunk_end(last_newline(content@.take(start as int)), len as int)) as Integer
                } else {
                    old_crawled
                },
            decreases len - start,
        {
            if is_interrupted() {
                proof {
                    let pre = content@.take(start as int);
                    assert forall|x: Integer| newline_offsets(offset as int, pre).contains(x)
                        implies newline_offsets(offset as int, content@).contains(x) by {
                        assert(pre[x - offset] == content@[x - offset]);
                    }
                    assert(old_set.subset_of(self.breaks().to_set()));
                    assert(self.breaks().to_set().subset_of(
                        old_set.union(newline_offsets(offset as int, content@)),
                    ));
                }
                return Err(LineRegistryError::Cancelled);
            }
            let end = if len - start > BUFFER_SIZE {
                start + BUFFER_SIZE
            } else {
                len
            };
            let chunk = &content[start..end];
            self.build_chunk(offset + start as i64, chunk);
            proof {
                let pre = content@.take(start as int);
                let post = content@.take(end as int);
                assert(post =~= pre + chunk@);
                assert(newline_offsets(offset as int, post) =~= newline_offsets(
                    offset as int,
                    pre,
                ).union(newline_offsets(offset + start, chunk@)));
                lemma_last_newline(pre);
                lemma_last_newline(post);
                lemma_last_newline(chunk@);
                if has_newline(chunk@) {
                    let q = last_newline(chunk@);
                    assert(post[start + q] == 10u8);
                    assert(last_newline(post) == start + q);
                    assert((start + q) / (BUFFER_SIZE as int) == k) by (nonlinear_arith)
                        requires
                            start == k * (BUFFER_SIZE as int),
                            0 <= q < BUFFER_SIZE as int,
                    ;
                    assert(has_newline(post));
                } else {
                    if has_newline(pre) {
                        let q = last_newline(pre);
                        assert(post[q] == 10u8);
                        assert(last_newline(post) == q);
                        assert(has_newline(post));
                    } else {
                        assert(!has_newline(post)) by {
                            if has_newline(post) {
                                let q = choose|q: int| 0 <= q < post.len() && post[q] == 10u8;
                                if q < start {
                                    assert(pre[q] == 10u8);
                                } else {
                                    assert(chunk@[q - start] == 10u8);
                                }
                            }
                        }
                    }
                }
            }
            bytes_processed(end);
            start = end;
            proof {
                k = k + 1;
            }
        }
        bytes_processed(len);
        proof {
            assert(content@.take(len as int) =~= content@);
        }
        Ok(())
    }

    /// Registers the line breaks of `chunk`, a piece of the text that starts at `offset`.
    /// When the chunk holds a line break, the crawled limit moves to the end of the chunk.
    pub fn build_chunk(&mut self, offset: Integer, chunk: &[u8])
        requires
            0 <= offset,
            offset + chunk@.len() < i64::MAX,
        ensures
            final(self).breaks().to_set() == old(self).breaks().to_set().union(
                newline_offsets(offset as int, chunk@),
            ),
            final(self).spec_crawled() == if has_newline(chunk@) {
                (offset + chunk@.len()) as Integer
            } else {
                old(self).spec_crawled()
            },
    {
        let ghost old_set = self.breaks().to_set();
        let old_crawled = self.crawled;
        proof {
            use_type_invariant(&*self);
        }
        let mut found = false;
        let mut p: usize = 0;
        while p < chunk.len()
            invariant
                p <= chunk@.len(),
                0 <= offset,
                offset + chunk@.len() < i64::MAX,
                self.breaks().to_set() == old_set.union(
                    Set::new(|x: Integer| 0 <= x - offset < p && chunk@[x - offset] == 10u8),
                ),
                found == exists|q: int| 0 <= q < p && chunk@[q] == 10u8,
                !found ==> self.spec_crawled() == old_crawled,
            decreases chunk@.len() - p,
        {
            if chunk[p] == 10u8 {
                let x = offset + p as i64;
                self.push(x);
                found = true;
            }
            proof {
                assert(self.breaks().to_set() =~= old_set.union(
                    Set::new(|x: Integer| 0 <= x - offset < p + 1 && chunk@[x - offset] == 10u8),
                ));
            }
            p += 1;
        }
        proof {
            use_type_invariant(&*self);
        }
        if found {
            self.crawled = offset + chunk.len() as i64;
        }
        proof {
            assert(Set::new(|x: Integer| 0 <= x - offset < p && chunk@[x - offset] == 10u8)
                =~= newline_offsets(offset as int, chunk@));
        }
    }
}

/// The right bound reaches beyond the crawled limit.
pub open spec fn reaches_beyond(b: IntervalBound, crawled: Integer) -> bool {
    match b {
        IntervalBound::PositiveInfinity => true,
        IntervalBound::NegativeInfinity => false,
        IntervalBound::Fixed { value, is_included: _ } => value > crawled,
    }
}

} // verus!
