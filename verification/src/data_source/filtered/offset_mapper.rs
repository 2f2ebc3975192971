use vstd::prelude::*;
use crate::interval::Integer;

verus! {

/// Largest magnitude of an offset handed to the mapper; it keeps all sums and differences
/// within `i64`.
pub const OFFSET_LIMIT: i64 = 2305843009213693952;

pub open spec fn in_limit(v: Integer) -> bool {
    -OFFSET_LIMIT <= v < OFFSET_LIMIT
}

/// An offset in a filtered (proxy) view of a source.
#[derive(PartialEq, Eq, Structural, Copy, Clone, Debug)]
pub struct ProxyOffset(pub Integer);

/// An offset in the original source.
#[derive(PartialEq, Eq, Structural, Copy, Clone, Debug)]
pub struct OriginalOffset(pub Integer);

/// The difference `OriginalOffset - ProxyOffset`.
#[derive(PartialEq, Eq, Structural, Copy, Clone, Debug)]
pub struct OffsetDelta(pub Integer);

impl ProxyOffset {
    pub fn new(v: Integer) -> (r: Self)
        ensures
            r.0 == v,
    {
        ProxyOffset(v)
    }

    pub fn value(&self) -> (r: Integer)
        ensures
            r == self.0,
    {
        self.0
    }

    /// `self + rhs`
    pub fn add_delta(self, rhs: OffsetDelta) -> (r: OriginalOffset)
        requires
            i64::MIN <= self.0 + rhs.0 <= i64::MAX,
        ensures
            r.0 == self.0 + rhs.0,
    {
        OriginalOffset(self.0 + rhs.0)
    }

    /// `self + rhs`
    pub fn add(self, rhs: Integer) -> (r: Self)
        requires
            i64::MIN <= self.0 + rhs <= i64::MAX,
        ensures
            r.0 == self.0 + rhs,
    {
        ProxyOffset(self.0 + rhs)
    }

    pub fn default() -> (r: Self)
        ensures
            r.0 == 0,
    {
        ProxyOffset(0)
    }
}

impl OriginalOffset {
    pub fn new(v: Integer) -> (r: Self)
        ensures
            r.0 == v,
    {
        OriginalOffset(v)
    }

    pub fn value(&self) -> (r: Integer)
        ensures
            r == self.0,
    {
        self.0
    }

    /// `self - rhs`
    pub fn sub_proxy(self, rhs: ProxyOffset) -> (r: OffsetDelta)
        requires
            i64::MIN <= self.0 - rhs.0 <= i64::MAX,
        ensures
            r.0 == self.0 - rhs.0,
    {
        OffsetDelta(self.0 - rhs.0)
    }

    /// `self - rhs`
    pub fn sub_delta(self, rhs: OffsetDelta) -> (r: ProxyOffset)
        requires
            i64::MIN <= self.0 - rhs.0 <= i64::MAX,
        ensures
            r.0 == self.0 - rhs.0,
    {
        ProxyOffset(self.0 - rhs.0)
    }

    /// `self + rhs`
    pub fn add(self, rhs: Integer) -> (r: Self)
        requires
            i64::MIN <= self.0 + rhs <= i64::MAX,
        ensures
            r.0 == self.0 + rhs,
    {
        OriginalOffset(self.0 + rhs)
    }

    pub fn default() -> (r: Self)
        ensures
            r.0 == 0,
    {
        OriginalOffset(0)
    }
}

impl OffsetDelta {
    pub fn new(v: Integer) -> (r: Self)
        ensures
            r.0 == v,
    {
        OffsetDelta(v)
    }

    pub fn value(&self) -> (r: Integer)
        ensures
            r == self.0,
    {
        self.0
    }
}

/// What the mapper knows of the original offset for a proxy offset.
#[derive(PartialEq, Eq, Structural, Copy, Clone, Debug)]
pub enum OffsetEvaluationResult {
    /// the original offset
    Exact(OriginalOffset),
    /// the offset lies beyond everything confirmed; the last confirmed pair is given
    LastConfirmed(ProxyOffset, OriginalOffset),
    /// nothing is known about the offset
    Unpredictable,
}

/// A piecewise-constant shift over non-negative proxy offsets: pivots `x -> f(x) - x`, sorted
/// by `x`. The last pivot holds the largest confirmed offset.
pub struct PositiveOffsetMapper {
    pivots: Vec<(ProxyOffset, OffsetDelta)>,
}

/// Maps offsets of a filtered view to offsets of its source: non-negative offsets are
/// counted from the beginning, negative ones from the end.
pub struct OffsetMapper {
    positive: PositiveOffsetMapper,
    negative: PositiveOffsetMapper,
}

/// The pivots as pairs of integers.
pub open spec fn pairs(p: Seq<(ProxyOffset, OffsetDelta)>) -> Seq<(Integer, Integer)> {
    p.map_values(|e: (ProxyOffset, OffsetDelta)| (e.0.0, e.1.0))
}

/// Keys never decrease, equal keys carry equal shifts, and all values are small.
pub open spec fn pivots_wf(p: Seq<(Integer, Integer)>) -> bool {
    &&& forall|i: int, j: int| 0 <= i <= j < p.len() ==> p[i].0 <= p[j].0
    &&& forall|i: int, j: int| 0 <= i < p.len() && 0 <= j < p.len() && p[i].0 == p[j].0 ==> p[i].1
        == p[j].1
    &&& forall|i: int|
        0 <= i < p.len() ==> 0 <= #[trigger] p[i].0 <= OFFSET_LIMIT && -2 * OFFSET_LIMIT <= p[i].1
            <= 2 * OFFSET_LIMIT
}

/// The shift of the last pivot whose key is at most `x`.
pub open spec fn delta_at(p: Seq<(Integer, Integer)>, x: int) -> Integer
    decreases p.len(),
{
    if p.len() == 0 {
        0
    } else if p.last().0 <= x {
        p.last().1
    } else {
        delta_at(p.drop_last(), x)
    }
}

/// What evaluating the mapping at `x` gives.
pub open spec fn eval_spec(p: Seq<(Integer, Integer)>, x: Integer) -> OffsetEvaluationResult {
    if p.len() == 0 || x < p[0].0 {
        OffsetEvaluationResult::Unpredictable
    } else if x > p.last().0 {
        OffsetEvaluationResult::LastConfirmed(
            ProxyOffset(p.last().0),
            OriginalOffset((p.last().0 + p.last().1) as Integer),
        )
    } else {
        OffsetEvaluationResult::Exact(OriginalOffset((x + delta_at(p, x as int)) as Integer))
    }
}

/// `add(x, y)` is refused when it would go back before the last pivot, or change the shift
/// of the last pivot.
pub open spec fn add_refused(p: Seq<(Integer, Integer)>, x: Integer, delta: int) -> bool {
    p.len() > 0 && (p.last().0 > x || (p.last().0 == x && p.last().1 != delta))
}

/// The highest known pair, if any.
pub open spec fn highest_spec(p: Seq<(Integer, Integer)>) -> Option<(ProxyOffset, OriginalOffset)> {
    if p.len() == 0 {
        None
    } else {
        Some((ProxyOffset(p.last().0), OriginalOffset((p.last().0 + p.last().1) as Integer)))
    }
}

/// `delta_at` on a sorted sequence is the shift of any pivot `k` with `p[k].0 <= x` that is
/// followed by no pivot with a key at most `x`.
proof fn lemma_delta_at(p: Seq<(Integer, Integer)>, x: int, k: int)
    requires
        pivots_wf(p),
        0 <= k < p.len(),
        p[k].0 <= x,
        k + 1 == p.len() || x < p[k + 1].0 || p[k + 1].0 == p[k].0,
        forall|j: int| k < j < p.len() ==> p[j].0 > x || p[j].0 == p[k].0,
    ensures
        delta_at(p, x) == p[k].1,
    decreases p.len(),
{
    if p.last().0 <= x {
        assert(p[p.len() - 1].0 <= x);
        if k < p.len() - 1 {
            assert(p[p.len() - 1].0 == p[k].0);
        }
    } else {
        let q = p.drop_last();
        assert(k < p.len() - 1);
        lemma_delta_at(q, x, k);
    }
}

/// Appending a pivot with key at least every other key changes the shift from that key on.
proof fn lemma_delta_at_push(p: Seq<(Integer, Integer)>, e: (Integer, Integer), x: int)
    ensures
        delta_at(p.push(e), x) == if e.0 <= x {
            e.1
        } else {
            delta_at(p, x)
        },
{
    assert(p.push(e).drop_last() =~= p);
}

impl PositiveOffsetMapper {
    #[verifier::type_invariant]
    spec fn inv(self) -> bool {
        pivots_wf(pairs(self.pivots@))
    }

    pub closed spec fn view(self) -> Seq<(Integer, Integer)> {
        pairs(self.pivots@)
    }

    pub fn default() -> (r: Self)
        ensures
            r.view() == Seq::<(Integer, Integer)>::empty(),
            pivots_wf(r.view()),
    {
        let r = PositiveOffsetMapper { pivots: Vec::new() };
        proof {
            assert(pairs(r.pivots@) =~= Seq::<(Integer, Integer)>::empty());
        }
        r
    }

    pub fn eval(&self, x: ProxyOffset) -> (r: OffsetEvaluationResult)
        requires
            in_limit(x.0),
        ensures
            r == eval_spec(self.view(), x.0),
            pivots_wf(self.view()),
    {
        proof {
            use_type_invariant(self);
        }
        let ghost p = self.view();
        let n = self.pivots.len();
        if n == 0 {
            return OffsetEvaluationResult::Unpredictable;
        }
        // number of pivots with a key not above x
        let mut lo: usize = 0;
        let mut hi: usize = n;
        while lo < hi
            invariant
                n == p.len(),
                p == pairs(self.pivots@),
                pivots_wf(p),
                lo <= hi <= n,
                forall|k: int| 0 <= k < lo ==> p[k].0 <= x.0,
                forall|k: int| hi <= k < n ==> p[k].0 > x.0,
            decreases hi - lo,
        {
            let mid = lo + (hi - lo) / 2;
            proof {
                assert(p[mid as int].0 == self.pivots@[mid as int].0.0);
            }
            if self.pivots[mid].0.0 <= x.0 {
                lo = mid + 1;
            } else {
                hi = mid;
            }
        }
        if lo == 0 {
            return OffsetEvaluationResult::Unpredictable;
        }
        let (x_n, y_n) = self.pivots[n - 1];
        if lo == n && x_n.0 < x.0 {
            return OffsetEvaluationResult::LastConfirmed(x_n, OriginalOffset(x_n.0 + y_n.0));
        }
        let (_, y) = self.pivots[lo - 1];
        proof {
            lemma_delta_at(p, x.0 as int, lo - 1);
        }
        OffsetEvaluationResult::Exact(OriginalOffset(x.0 + y.0))
    }

    /// Registers that proxy offset `x` maps to original offset `y`. The last pivot is dropped
    /// when it lies on the same shift as the one before it and the new one.
    pub fn add(&mut self, x: ProxyOffset, y: OriginalOffset) -> (r: Result<(), ()>)
        requires
            0 <= x.0 <= OFFSET_LIMIT,
            in_limit(y.0),
        ensures
            pivots_wf(final(self).view()),
            r is Err <==> add_refused(old(self).view(), x.0, y.0 - x.0),
            r is Err ==> final(self).view() == old(self).view(),
            r is Ok ==> final(self).view().len() > 0 && final(self).view().last() == (
                x.0,
                (y.0 - x.0) as Integer,
            ),
            r is Ok ==> old(self).view().len() > 0 ==> final(self).view()[0] == old(
                self,
            ).view()[0],
            r is Ok ==> forall|z: int|
                delta_at(#[trigger] final(self).view(), z) == if x.0 <= z {
                    y.0 - x.0
                } else {
                    delta_at(old(self).view(), z) as int
                },
    {
        proof {
            use_type_invariant(&*self);
        }
        let ghost p = self.view();
        let delta = OffsetDelta(y.0 - x.0);
        let n = self.pivots.len();
        let mut drop_last = false;
        if n > 0 {
            let (x_n, y_n) = self.pivots[n - 1];
            if x_n.0 > x.0 || (x_n.0 == x.0 && y_n.0 != delta.0) {
                return Err(());
            }
            if x_n.0 < x.0 && y_n.0 == delta.0 && n > 1 {
                let (_, y_n1) = self.pivots[n - 2];
                if y_n1.0 == y_n.0 {
                    drop_last = true;
                }
            }
        }
        let mut v = Vec::new();
        std::mem::swap(&mut v, &mut self.pivots);
        if drop_last {
            v.pop();
            proof {
                let q = pairs(v@);
                assert(q =~= p.drop_last());
                assert forall|z: int| delta_at(q.push((x.0, delta.0)), z) == delta_at(
                    p.push((x.0, delta.0)),
                    z,
                ) by {
                    lemma_delta_at_push(q, (x.0, delta.0), z);
                    lemma_delta_at_push(p, (x.0, delta.0), z);
                    assert(p =~= q.push(p.last()));
                    lemma_delta_at_push(q, p.last(), z);
                    if z < x.0 && p.last().0 <= z {
                        assert(q.len() > 0);
                        assert(q.last() == p[n - 2]);
                        lemma_delta_at(q, z, q.len() - 1);
                    }
                }
            }
        }
        let ghost before = pairs(v@);
        v.push((x, delta));
        proof {
            assert(pairs(v@) =~= before.push((x.0, delta.0)));
            assert forall|z: int| delta_at(pairs(v@), z) == if x.0 <= z {
                y.0 - x.0
            } else {
                delta_at(p, z) as int
            } by {
                lemma_delta_at_push(before, (x.0, delta.0), z);
                lemma_delta_at_push(p, (x.0, delta.0), z);
            }
            assert(pivots_wf(pairs(v@))) by {
                let s = pairs(v@);
                assert forall|i: int, j: int| 0 <= i <= j < s.len() implies s[i].0 <= s[j].0 by {
                    if j == s.len() - 1 && i < j {
                        assert(s[i] == p[i]);
                    }
                }
                assert forall|i: int, j: int|
                    0 <= i < s.len() && 0 <= j < s.len() && s[i].0 == s[j].0 implies s[i].1
                    == s[j].1 by {
                    if i < s.len() - 1 { assert(s[i] == p[i]); }
                    if j < s.len() - 1 { assert(s[j] == p[j]); }
                    if i < s.len() - 1 && j == s.len() - 1 {
                        assert(p[i].0 <= p[n - 1].0);
                    }
                    if j < s.len() - 1 && i == s.len() - 1 {
                        assert(p[j].0 <= p[n - 1].0);
                    }
                }
            }
        }
        self.pivots = v;
        Ok(())
    }

    /// Confirms that the mapping is known up to proxy offset `x`.
    pub fn confirm(&mut self, x: ProxyOffset)
        requires
            0 <= x.0 <= OFFSET_LIMIT,
        ensures
            pivots_wf(final(self).view()),
            old(self).view().len() == 0 ==> final(self).view() == seq![(x.0, 0 as Integer)],
            old(self).view().len() > 0 && old(self).view().last().0 < x.0 ==> final(self).view()
                == old(self).view().push((x.0, old(self).view().last().1)),
            old(self).view().len() > 0 && old(self).view().last().0 >= x.0 ==> final(self).view()
                == old(self).view(),
    {
        proof {
            use_type_invariant(&*self);
        }
        let ghost p = self.view();
        let n = self.pivots.len();
        if n == 0 {
            let mut v = Vec::new();
            std::mem::swap(&mut v, &mut self.pivots);
            v.push((x, OffsetDelta(0)));
            proof {
                assert(pairs(v@) =~= seq![(x.0, 0 as Integer)]);
            }
            self.pivots = v;
        } else {
            let (x_n, y_n) = self.pivots[n - 1];
            if x_n.0 < x.0 {
                let mut v = Vec::new();
                std::mem::swap(&mut v, &mut self.pivots);
                v.push((x, y_n));
                proof {
                    let s = pairs(v@);
                    assert(s =~= p.push((x.0, y_n.0)));
                    assert forall|i: int, j: int| 0 <= i <= j < s.len() implies s[i].0 <= s[j].0 by {
                        if j == s.len() - 1 && i < j {
                            assert(p[i].0 <= p[n - 1].0);
                        }
                    }
                }
                self.pivots = v;
            }
        }
    }

    pub fn get_highest_known(&self) -> (r: Option<(ProxyOffset, OriginalOffset)>)
        ensures
            r == highest_spec(self.view()),
            pivots_wf(self.view()),
    {
        proof {
            use_type_invariant(self);
        }
        let n = self.pivots.len();
        if n == 0 {
            None
        } else {
            let (p, d) = self.pivots[n - 1];
            Some((p, OriginalOffset(p.0 + d.0)))
        }
    }
}

/// Reflection of offsets: `-x - 1`, which maps non-negative offsets to negative ones and back.
pub open spec fn invert_spec(x: Integer) -> Integer {
    (-x - 1) as Integer
}

pub fn invert(x: Integer) -> (r: Integer)
    requires
        x > i64::MIN,
    ensures
        r == invert_spec(x),
{
    -x - 1
}

/// The result for a negative offset, evaluated on its reflection.
pub open spec fn invert_result(r: OffsetEvaluationResult) -> OffsetEvaluationResult {
    match r {
        OffsetEvaluationResult::Exact(p) => OffsetEvaluationResult::Exact(
            OriginalOffset(invert_spec(p.0)),
        ),
        OffsetEvaluationResult::LastConfirmed(po, oo) => OffsetEvaluationResult::LastConfirmed(
            ProxyOffset(invert_spec(po.0)),
            OriginalOffset(invert_spec(oo.0)),
        ),
        r => r,
    }
}

impl OffsetMapper {
    /// The pivots for non-negative offsets.
    pub closed spec fn positive_view(self) -> Seq<(Integer, Integer)> {
        self.positive.view()
    }

    /// The pivots for negative offsets, reflected.
    pub closed spec fn negative_view(self) -> Seq<(Integer, Integer)> {
        self.negative.view()
    }

    pub fn default() -> (r: Self)
        ensures
            r.positive_view().len() == 0,
            r.negative_view().len() == 0,
            pivots_wf(r.positive_view()),
            pivots_wf(r.negative_view()),
    {
        OffsetMapper { positive: PositiveOffsetMapper::default(), negative: PositiveOffsetMapper::default() }
    }

    pub fn eval(&self, x: ProxyOffset) -> (r: OffsetEvaluationResult)
        requires
            in_limit(x.0),
        ensures
            pivots_wf(self.positive_view()),
            pivots_wf(self.negative_view()),
            x.0 >= 0 ==> r == eval_spec(self.positive_view(), x.0),
            x.0 < 0 ==> r == invert_result(eval_spec(self.negative_view(), invert_spec(x.0))),
    {
        proof {
            use_type_invariant(&self.negative);
            use_type_invariant(&self.positive);
        }
        if x.0 >= 0 {
            self.positive.eval(x)
        } else {
            let r = self.negative.eval(ProxyOffset(invert(x.0)));
            match r {
                OffsetEvaluationResult::Exact(p) => {
                    proof { lemma_eval_in_range(self.negative.view(), invert_spec(x.0)); }
                    OffsetEvaluationResult::Exact(OriginalOffset(invert(p.0)))
                },
                OffsetEvaluationResult::LastConfirmed(po, oo) => {
                    proof { lemma_eval_in_range(self.negative.view(), invert_spec(x.0)); }
                    OffsetEvaluationResult::LastConfirmed(
                        ProxyOffset(invert(po.0)),
                        OriginalOffset(invert(oo.0)),
                    )
                },
                r => r,
            }
        }
    }

    pub fn add(&mut self, x: ProxyOffset, y: OriginalOffset) -> (r: Result<(), ()>)
        requires
            in_limit(x.0),
            in_limit(y.0),
        ensures
            pivots_wf(final(self).positive_view()),
            pivots_wf(final(self).negative_view()),
            x.0 >= 0 ==> (r is Err <==> add_refused(old(self).positive_view(), x.0, y.0 - x.0)),
            x.0 < 0 ==> (r is Err <==> add_refused(
                old(self).negative_view(),
                invert_spec(x.0),
                invert_spec(y.0) - invert_spec(x.0),
            )),
            x.0 >= 0 ==> final(self).negative_view() == old(self).negative_view(),
            x.0 < 0 ==> final(self).positive_view() == old(self).positive_view(),
            r is Ok && x.0 >= 0 ==> forall|z: int|
                delta_at(#[trigger] final(self).positive_view(), z) == if x.0 <= z {
                    y.0 - x.0
                } else {
                    delta_at(old(self).positive_view(), z) as int
                },
            r is Ok && x.0 >= 0 ==> final(self).positive_view().last() == (x.0, (y.0 - x.0) as Integer),
            r is Ok && x.0 < 0 ==> forall|z: int|
                delta_at(#[trigger] final(self).negative_view(), z) == if invert_spec(x.0) <= z {
                    invert_spec(y.0) - invert_spec(x.0)
                } else {
                    delta_at(old(self).negative_view(), z) as int
                },
            r is Ok && x.0 < 0 ==> final(self).negative_view().last() == (
                invert_spec(x.0),
                (invert_spec(y.0) - invert_spec(x.0)) as Integer,
            ),
            r is Ok && x.0 >= 0 && old(self).positive_view().len() > 0 ==> final(self).positive_view()[0]
                == old(self).positive_view()[0],
            r is Ok && x.0 < 0 && old(self).negative_view().len() > 0 ==> final(self).negative_view()[0]
                == old(self).negative_view()[0],
    {
        proof {
            use_type_invariant(&self.negative);
            use_type_invariant(&self.positive);
        }
        if x.0 >= 0 {
            self.positive.add(x, y)
        } else {
            self.negative.add(ProxyOffset(invert(x.0)), OriginalOffset(invert(y.0)))
        }
    }

    pub fn confirm(&mut self, x: ProxyOffset)
        requires
            in_limit(x.0),
        ensures
            pivots_wf(final(self).positive_view()),
            pivots_wf(final(self).negative_view()),
            x.0 >= 0 ==> final(self).negative_view() == old(self).negative_view(),
            x.0 < 0 ==> final(self).positive_view() == old(self).positive_view(),
            x.0 >= 0 && old(self).positive_view().len() == 0 ==> final(self).positive_view() == seq![
                (x.0, 0 as Integer),
            ],
            x.0 >= 0 && old(self).positive_view().len() > 0 && old(self).positive_view().last().0
                < x.0 ==> final(self).positive_view() == old(self).positive_view().push(
                (x.0, old(self).positive_view().last().1),
            ),
            x.0 >= 0 && old(self).positive_view().len() > 0 && old(self).positive_view().last().0
                >= x.0 ==> final(self).positive_view() == old(self).positive_view(),
            x.0 < 0 && old(self).negative_view().len() == 0 ==> final(self).negative_view() == seq![
                (invert_spec(x.0), 0 as Integer),
            ],
            x.0 < 0 && old(self).negative_view().len() > 0 && old(self).negative_view().last().0
                < invert_spec(x.0) ==> final(self).negative_view() == old(
                self,
            ).negative_view().push((invert_spec(x.0), old(self).negative_view().last().1)),
            x.0 < 0 && old(self).negative_view().len() > 0 && old(self).negative_view().last().0
                >= invert_spec(x.0) ==> final(self).negative_view() == old(self).negative_view(),
    {
        proof {
            use_type_invariant(&self.negative);
            use_type_invariant(&self.positive);
        }
        if x.0 >= 0 {
            self.positive.confirm(x)
        } else {
            self.negative.confirm(ProxyOffset(invert(x.0)))
        }
    }

    pub fn get_highest_known(&self) -> (r: Option<(ProxyOffset, OriginalOffset)>)
        ensures
            r == highest_spec(self.positive_view()),
    {
        self.positive.get_highest_known()
    }
}

/// The values that evaluation hands out stay within the range that reflection accepts.
proof fn lemma_eval_in_range(p: Seq<(Integer, Integer)>, x: Integer)
    requires
        pivots_wf(p),
        0 <= x <= OFFSET_LIMIT,
    ensures
        match eval_spec(p, x) {
            OffsetEvaluationResult::Exact(o) => o.0 > i64::MIN,
            OffsetEvaluationResult::LastConfirmed(po, oo) => po.0 > i64::MIN && oo.0 > i64::MIN,
            _ => true,
        },
{
    if p.len() > 0 && x >= p[0].0 && x <= p.last().0 {
        lemma_delta_at_bound(p, x as int);
    }
}

proof fn lemma_delta_at_bound(p: Seq<(Integer, Integer)>, x: int)
    requires
        pivots_wf(p),
    ensures
        -2 * OFFSET_LIMIT <= delta_at(p, x) <= 2 * OFFSET_LIMIT,
    decreases p.len(),
{
    if p.len() > 0 {
        let q = p.drop_last();
        assert(pivots_wf(q)) by {
            assert forall|i: int| 0 <= i < q.len() implies q[i] == p[i] by {}
        }
        lemma_delta_at_bound(q, x);
    }
}

// ---------------------------------------------------------------------------
// Laws
// ---------------------------------------------------------------------------

/// Reflection is its own inverse.
pub proof fn lemma_invert_involution(x: Integer)
    requires
        in_limit(x),
    ensures
        in_limit(invert_spec(x)),
        invert_spec(invert_spec(x)) == x,
{
}

/// After `add(x, y)` has been accepted, the mapping evaluates `x` to exactly `y`.
pub proof fn lemma_add_then_eval(p: Seq<(Integer, Integer)>, x: Integer, y: Integer)
    requires
        pivots_wf(p),
        p.len() > 0,
        p.last() == (x, (y - x) as Integer),
        in_limit(x),
        in_limit(y),
    ensures
        eval_spec(p, x) == OffsetEvaluationResult::Exact(OriginalOffset(y)),
{
    assert(p[0].0 <= p[p.len() - 1].0);
    lemma_delta_at(p, x as int, p.len() - 1);
}

/// The same for the whole mapper, on either side of zero: a mapping that `add` accepted is
/// read back by `eval`.
pub proof fn lemma_mapper_add_then_eval(m: OffsetMapper, x: Integer, y: Integer)
    requires
        pivots_wf(m.positive_view()),
        pivots_wf(m.negative_view()),
        in_limit(x),
        in_limit(y),
        x >= 0 ==> m.positive_view().len() > 0 && m.positive_view().last() == (x, (y - x) as Integer),
        x < 0 ==> m.negative_view().len() > 0 && m.negative_view().last() == (
            invert_spec(x),
            (invert_spec(y) - invert_spec(x)) as Integer,
        ),
    ensures
        x >= 0 ==> eval_spec(m.positive_view(), x) == OffsetEvaluationResult::Exact(OriginalOffset(y)),
        x < 0 ==> invert_result(eval_spec(m.negative_view(), invert_spec(x)))
            == OffsetEvaluationResult::Exact(OriginalOffset(y)),
{
    if x >= 0 {
        lemma_add_then_eval(m.positive_view(), x, y);
    } else {
        lemma_add_then_eval(m.negative_view(), invert_spec(x), invert_spec(y));
    }
}

/// After `confirm(x)` past the last pivot, every offset up to `x` beyond the old last pivot
/// is mapped exactly with the last known shift.
pub proof fn lemma_confirm_then_eval(p: Seq<(Integer, Integer)>, x: Integer, z: Integer)
    requires
        pivots_wf(p),
        p.len() > 0,
        p.last().0 < x <= OFFSET_LIMIT,
        p.last().0 < z <= x,
    ensures
        eval_spec(p.push((x, p.last().1)), z) == OffsetEvaluationResult::Exact(
            OriginalOffset((z + p.last().1) as Integer),
        ),
{
    let q = p.push((x, p.last().1));
    assert(q[0] == p[0]);
    assert(p[0].0 <= p[p.len() - 1].0);
    lemma_delta_at_push(p, (x, p.last().1), z as int);
    if z < x {
        lemma_delta_at(p, z as int, p.len() - 1);
    }
}

/// Evaluation before the first pivot knows nothing, and beyond the last pivot reports the
/// last confirmed pair.
pub proof fn lemma_eval_outside(p: Seq<(Integer, Integer)>, x: Integer)
    requires
        pivots_wf(p),
    ensures
        (p.len() == 0 || x < p[0].0) ==> eval_spec(p, x) == OffsetEvaluationResult::Unpredictable,
        p.len() > 0 && x > p.last().0 ==> eval_spec(p, x) == OffsetEvaluationResult::LastConfirmed(
            highest_spec(p).unwrap().0,
            highest_spec(p).unwrap().1,
        ),
{
    if p.len() > 0 {
        assert(p[0].0 <= p[p.len() - 1].0);
    }
}

} // verus!
