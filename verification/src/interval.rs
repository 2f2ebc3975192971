use vstd::prelude::*;
use vstd::string::StringExecFns;
use std::cmp::Ordering;
use crate::decimal::{decimal, decimal_string};

verus! {

/// Offsets and counters of the viewer are signed 64-bit integers.
pub type Integer = i64;

/// One end of an interval on the integer line.
#[derive(PartialEq, Eq, Structural, Copy, Clone, Debug)]
pub enum IntervalBound {
    PositiveInfinity,
    NegativeInfinity,
    Fixed { value: Integer, is_included: bool },
}

/// An interval given by its two bounds. The order on values is dense: `(1, 2)` is not empty.
#[derive(Copy, Clone, Debug)]
pub struct Interval {
    pub left_bound: IntervalBound,
    pub right_bound: IntervalBound,
}

/// Where a point lies with respect to an interval.
#[derive(PartialEq, Eq, Structural, Copy, Clone, Debug)]
pub enum PointLocationWithRespectToInterval {
    /// the interval is empty
    Undefined,
    Less,
    Belongs,
    Greater,
}

/// Which end of an interval a bound stands for; it decides how exclusion orders bounds.
#[derive(PartialEq, Eq, Structural, Copy, Clone, Debug)]
pub enum BoundSide {
    Left,
    Right,
}

/// Step-by-step construction of an interval.
pub struct IntervalBuilder {
    pub object: Interval,
}

// ---------------------------------------------------------------------------
// Model
// ---------------------------------------------------------------------------

/// The point `x` is not cut off by `b` taken as a left bound.
pub open spec fn left_admits(b: IntervalBound, x: int) -> bool {
    match b {
        IntervalBound::NegativeInfinity => true,
        IntervalBound::PositiveInfinity => false,
        IntervalBound::Fixed { value, is_included } => value < x || (is_included && value == x),
    }
}

/// The point `x` is not cut off by `b` taken as a right bound.
pub open spec fn right_admits(b: IntervalBound, x: int) -> bool {
    match b {
        IntervalBound::PositiveInfinity => true,
        IntervalBound::NegativeInfinity => false,
        IntervalBound::Fixed { value, is_included } => x < value || (is_included && x == value),
    }
}

/// Membership of a point in an interval.
pub open spec fn contains(i: Interval, x: int) -> bool {
    left_admits(i.left_bound, x) && right_admits(i.right_bound, x)
}

/// An interval is empty when no point of a dense order lies between its bounds.
pub open spec fn spec_is_empty(i: Interval) -> bool {
    match i.left_bound {
        IntervalBound::NegativeInfinity => i.right_bound == IntervalBound::NegativeInfinity,
        IntervalBound::PositiveInfinity => true,
        IntervalBound::Fixed { value: lb, is_included: lbb } => match i.right_bound {
            IntervalBound::PositiveInfinity => false,
            IntervalBound::NegativeInfinity => true,
            IntervalBound::Fixed { value: rb, is_included: rbb } => lb > rb || (lb == rb && (
            !lbb || !rbb)),
        },
    }
}

/// How an interval is written: `∅` when empty, else its bounds with brackets that show
/// whether they are included, and `-∞`/`+∞` for missing bounds.
pub open spec fn interval_text(i: Interval) -> Seq<char> {
    if spec_is_empty(i) {
        "∅"@
    } else {
        let left = match i.left_bound {
            IntervalBound::Fixed { value, is_included } => (if is_included { "["@ } else { "("@ }) + decimal(value as int),
            _ => "(-∞"@,
        };
        let right = match i.right_bound {
            IntervalBound::Fixed { value, is_included } => decimal(value as int) + (if is_included { "]"@ } else { ")"@ }),
            _ => "+∞)"@,
        };
        left + ", "@ + right
    }
}

/// The three-way comparison of two bounds standing on the same side.
pub open spec fn bound_order(a: IntervalBound, b: IntervalBound, side: BoundSide) -> Ordering {
    match a {
        IntervalBound::NegativeInfinity => match b {
            IntervalBound::NegativeInfinity => Ordering::Equal,
            _ => Ordering::Less,
        },
        IntervalBound::PositiveInfinity => match b {
            IntervalBound::PositiveInfinity => Ordering::Equal,
            _ => Ordering::Greater,
        },
        IntervalBound::Fixed { value: v1, is_included: i1 } => match b {
            IntervalBound::NegativeInfinity => Ordering::Greater,
            IntervalBound::PositiveInfinity => Ordering::Less,
            IntervalBound::Fixed { value: v2, is_included: i2 } => if v1 < v2 {
                Ordering::Less
            } else if v1 > v2 {
                Ordering::Greater
            } else if i1 == i2 {
                Ordering::Equal
            } else {
                match side {
                    BoundSide::Left => if i1 {
                        Ordering::Less
                    } else {
                        Ordering::Greater
                    },
                    BoundSide::Right => if i1 {
                        Ordering::Greater
                    } else {
                        Ordering::Less
                    },
                }
            },
        },
    }
}

/// The tighter of two left bounds.
pub open spec fn tighter_left(a: IntervalBound, b: IntervalBound) -> IntervalBound {
    if bound_order(a, b, BoundSide::Left) == Ordering::Greater {
        a
    } else {
        b
    }
}

/// The tighter of two right bounds.
pub open spec fn tighter_right(a: IntervalBound, b: IntervalBound) -> IntervalBound {
    if bound_order(b, a, BoundSide::Right) == Ordering::Less {
        b
    } else {
        a
    }
}

pub open spec fn spec_intersect(a: Interval, b: Interval) -> Interval {
    Interval {
        left_bound: tighter_left(a.left_bound, b.left_bound),
        right_bound: tighter_right(a.right_bound, b.right_bound),
    }
}

/// Equality of intervals as sets: all empty intervals are equal, others compare bound by bound.
pub open spec fn same_interval(a: Interval, b: Interval) -> bool {
    if !spec_is_empty(a) && !spec_is_empty(b) {
        a.left_bound == b.left_bound && a.right_bound == b.right_bound
    } else {
        spec_is_empty(a) == spec_is_empty(b)
    }
}

pub open spec fn spec_point_location(i: Interval, p: Integer) -> PointLocationWithRespectToInterval {
    let x = p as int;
    if spec_is_empty(i) {
        PointLocationWithRespectToInterval::Undefined
    } else if !left_admits(i.left_bound, x) {
        PointLocationWithRespectToInterval::Less
    } else if !right_admits(i.right_bound, x) {
        PointLocationWithRespectToInterval::Greater
    } else {
        PointLocationWithRespectToInterval::Belongs
    }
}

pub open spec fn fixed(value: Integer, is_included: bool) -> IntervalBound {
    IntervalBound::Fixed { value, is_included }
}

pub open spec fn mk(left_bound: IntervalBound, right_bound: IntervalBound) -> Interval {
    Interval { left_bound, right_bound }
}

// ---------------------------------------------------------------------------
// Builder
// ---------------------------------------------------------------------------

impl IntervalBuilder {
    pub fn left_bound_inclusive(self, value: Integer) -> (r: Self)
        ensures
            r.object == mk(fixed(value, true), self.object.right_bound),
    {
        self.left_bound(value, true)
    }

    pub fn left_bound_exclusive(self, value: Integer) -> (r: Self)
        ensures
            r.object == mk(fixed(value, false), self.object.right_bound),
    {
        self.left_bound(value, false)
    }

    pub fn left_bound(self, value: Integer, is_included: bool) -> (r: Self)
        ensures
            r.object == mk(fixed(value, is_included), self.object.right_bound),
    {
        let mut s = self;
        s.object.left_bound = IntervalBound::Fixed { value, is_included };
        s
    }

    pub fn left_unbounded(self) -> (r: Self)
        ensures
            r.object == mk(IntervalBound::NegativeInfinity, self.object.right_bound),
    {
        let mut s = self;
        s.object.left_bound = IntervalBound::NegativeInfinity;
        s
    }

    pub fn right_bound_inclusive(self, value: Integer) -> (r: Self)
        ensures
            r.object == mk(self.object.left_bound, fixed(value, true)),
    {
        self.right_bound(value, true)
    }

    pub fn right_bound_exclusive(self, value: Integer) -> (r: Self)
        ensures
            r.object == mk(self.object.left_bound, fixed(value, false)),
    {
        self.right_bound(value, false)
    }

    pub fn right_bound(self, value: Integer, is_included: bool) -> (r: Self)
        ensures
            r.object == mk(self.object.left_bound, fixed(value, is_included)),
    {
        let mut s = self;
        s.object.right_bound = IntervalBound::Fixed { value, is_included };
        s
    }

    pub fn right_unbounded(self) -> (r: Self)
        ensures
            r.object == mk(self.object.left_bound, IntervalBound::PositiveInfinity),
    {
        let mut s = self;
        s.object.right_bound = IntervalBound::PositiveInfinity;
        s
    }

    pub fn build(self) -> (r: Interval)
        ensures
            r == self.object,
    {
        self.object
    }
}

// ---------------------------------------------------------------------------
// Interval
// ---------------------------------------------------------------------------

impl Interval {
    /// The default interval is the empty one.
    pub fn default() -> (r: Self)
        ensures
            r == mk(IntervalBound::NegativeInfinity, IntervalBound::NegativeInfinity),
    {
        Interval {
            left_bound: IntervalBound::NegativeInfinity,
            right_bound: IntervalBound::NegativeInfinity,
        }
    }

    pub fn builder() -> (r: IntervalBuilder)
        ensures
            r.object == mk(IntervalBound::NegativeInfinity, IntervalBound::NegativeInfinity),
    {
        IntervalBuilder { object: Interval::default() }
    }

    pub fn all() -> (r: Self)
        ensures
            r == mk(IntervalBound::NegativeInfinity, IntervalBound::PositiveInfinity),
    {
        Interval {
            left_bound: IntervalBound::NegativeInfinity,
            right_bound: IntervalBound::PositiveInfinity,
        }
    }

    pub fn empty() -> (r: Self)
        ensures
            r == mk(IntervalBound::NegativeInfinity, IntervalBound::NegativeInfinity),
    {
        Interval {
            left_bound: IntervalBound::NegativeInfinity,
            right_bound: IntervalBound::NegativeInfinity,
        }
    }

    pub fn closed(s: Integer, e: Integer) -> (r: Self)
        ensures
            r == mk(fixed(s, true), fixed(e, true)),
    {
        Self::builder().left_bound_inclusive(s).right_bound_inclusive(e).build()
    }

    pub fn open(s: Integer, e: Integer) -> (r: Self)
        ensures
            r == mk(fixed(s, false), fixed(e, false)),
    {
        Self::builder().left_bound_exclusive(s).right_bound_exclusive(e).build()
    }

    pub fn open_closed(s: Integer, e: Integer) -> (r: Self)
        ensures
            r == mk(fixed(s, false), fixed(e, true)),
    {
        Self::builder().left_bound_exclusive(s).right_bound_inclusive(e).build()
    }

    pub fn closed_open(s: Integer, e: Integer) -> (r: Self)
        ensures
            r == mk(fixed(s, true), fixed(e, false)),
    {
        Self::builder().left_bound_inclusive(s).right_bound_exclusive(e).build()
    }

    pub fn closed_inf(s: Integer) -> (r: Self)
        ensures
            r == mk(fixed(s, true), IntervalBound::PositiveInfinity),
    {
        Self::builder().left_bound_inclusive(s).right_unbounded().build()
    }

    pub fn inf_closed(s: Integer) -> (r: Self)
        ensures
            r == mk(IntervalBound::NegativeInfinity, fixed(s, true)),
    {
        Self::builder().left_unbounded().right_bound_inclusive(s).build()
    }

    pub fn open_inf(s: Integer) -> (r: Self)
        ensures
            r == mk(fixed(s, false), IntervalBound::PositiveInfinity),
    {
        Self::builder().left_bound_exclusive(s).right_unbounded().build()
    }

    pub fn inf_open(s: Integer) -> (r: Self)
        ensures
            r == mk(IntervalBound::NegativeInfinity, fixed(s, false)),
    {
        Self::builder().left_unbounded().right_bound_exclusive(s).build()
    }

    pub fn point(point: Integer) -> (r: Self)
        ensures
            r == mk(fixed(point, true), fixed(point, true)),
    {
        Self::closed(point, point)
    }

    pub fn intersect(&self, other: &Interval) -> (r: Interval)
        ensures
            r == spec_intersect(*self, *other),
    {
        let left_bound = match self.left_bound.cmp(&other.left_bound, BoundSide::Left) {
            Ordering::Greater => self.left_bound,
            _ => other.left_bound,
        };
        let right_bound = match other.right_bound.cmp(&self.right_bound, BoundSide::Right) {
            Ordering::Less => other.right_bound,
            _ => self.right_bound,
        };
        Interval { left_bound, right_bound }
    }

    pub fn to_builder(self) -> (r: IntervalBuilder)
        ensures
            r.object == self,
    {
        IntervalBuilder { object: self }
    }

    /// The interval written with brackets, such as `[1, 5)`, `(-∞, 3]` or `∅`.
    pub fn to_string(&self) -> (r: String)
        ensures
            r@ == interval_text(*self),
    {
        if self.is_empty() {
            return String::from_str("∅");
        }
        let mut s = match self.left_bound {
            IntervalBound::Fixed { value, is_included } => {
                let mut b = if is_included { String::from_str("[") } else { String::from_str("(") };
                let v = decimal_string(value);
                b.append(v.as_str());
                b
            },
            _ => String::from_str("(-∞"),
        };
        s.append(", ");
        match self.right_bound {
            IntervalBound::Fixed { value, is_included } => {
                let v = decimal_string(value);
                s.append(v.as_str());
                if is_included {
                    s.append("]");
                } else {
                    s.append(")");
                }
            },
            _ => s.append("+∞)"),
        }
        s
    }

    pub fn is_empty(&self) -> (r: bool)
        ensures
            r == spec_is_empty(*self),
    {
        match self.left_bound {
            IntervalBound::NegativeInfinity => match self.right_bound {
                IntervalBound::NegativeInfinity => true,
                _ => false,
            },
            IntervalBound::PositiveInfinity => true,
            IntervalBound::Fixed { value: lb, is_included: lbb } => {
                match self.right_bound {
                    IntervalBound::PositiveInfinity => false,
                    IntervalBound::NegativeInfinity => true,
                    IntervalBound::Fixed { value: rb, is_included: rbb } => {
                        if lb < rb {
                            false
                        } else if lb > rb {
                            true
                        } else {
                            !lbb || !rbb
                        }
                    },
                }
            },
        }
    }

    pub fn point_location(&self, point: &Integer) -> (r: PointLocationWithRespectToInterval)
        ensures
            r == spec_point_location(*self, *point),
    {
        if self.is_empty() {
            return PointLocationWithRespectToInterval::Undefined;
        }
        let bound = IntervalBound::Fixed { value: *point, is_included: true };
        let left = self.left_bound.cmp(&bound, BoundSide::Left);
        let right = self.right_bound.cmp(&bound, BoundSide::Right);
        match (left, right) {
            (Ordering::Less, Ordering::Less) => PointLocationWithRespectToInterval::Greater,
            (Ordering::Greater, Ordering::Greater) => PointLocationWithRespectToInterval::Less,
            _ => PointLocationWithRespectToInterval::Belongs,
        }
    }

    /// Applies `f` to the finite bounds.
    pub fn map<F: Fn(&Integer) -> Integer>(&self, f: F) -> (r: Interval)
        requires
            forall|v: Integer| call_requires(f, (&v,)),
        ensures
            bound_mapped(self.left_bound, r.left_bound, f),
            bound_mapped(self.right_bound, r.right_bound, f),
    {
        let f = &f;
        Interval { left_bound: self.left_bound.map(f), right_bound: self.right_bound.map(f) }
    }
}

/// `b2` is `b1` with `f` applied to its value.
pub open spec fn bound_mapped<F: Fn(&Integer) -> Integer>(
    b1: IntervalBound,
    b2: IntervalBound,
    f: F,
) -> bool {
    match b1 {
        IntervalBound::Fixed { value, is_included } => match b2 {
            IntervalBound::Fixed { value: w, is_included: j } => j == is_included && call_ensures(
                f,
                (&value,),
                w,
            ),
            _ => false,
        },
        _ => b2 == b1,
    }
}

/// Mapping with a function that gives back its argument leaves a bound as it was.
pub proof fn lemma_map_identity<F: Fn(&Integer) -> Integer>(b1: IntervalBound, b2: IntervalBound, f: F)
    requires
        forall|v: Integer, y: Integer| #[trigger] call_ensures(f, (&v,), y) ==> y == v,
        bound_mapped(b1, b2, f),
    ensures
        b2 == b1,
{
}

/// Mapping with `f` and then with `g` gives the bound that mapping once with `h` gives, when
/// `h` answers what `g` answers of what `f` answers, and answers one way per input.
pub proof fn lemma_map_compose<F: Fn(&Integer) -> Integer, G: Fn(&Integer) -> Integer, H: Fn(&Integer) -> Integer>(
    b: IntervalBound,
    b1: IntervalBound,
    b2: IntervalBound,
    b3: IntervalBound,
    f: F,
    g: G,
    h: H,
)
    requires
        forall|v: Integer, y: Integer, z: Integer| #[trigger] call_ensures(f, (&v,), y) && #[trigger] call_ensures(g, (&y,), z)
            ==> call_ensures(h, (&v,), z),
        forall|v: Integer, z1: Integer, z2: Integer| #[trigger] call_ensures(h, (&v,), z1) && #[trigger] call_ensures(h, (&v,), z2)
            ==> z1 == z2,
        bound_mapped(b, b1, f),
        bound_mapped(b1, b2, g),
        bound_mapped(b, b3, h),
    ensures
        b2 == b3,
{
    if let IntervalBound::Fixed { value, is_included } = b {
        let y = b1->value;
        let z = b2->value;
        let w = b3->value;
        assert(call_ensures(f, (&value,), y));
        assert(call_ensures(g, (&y,), z));
        assert(call_ensures(h, (&value,), z));
        assert(call_ensures(h, (&value,), w));
    }
}

impl PartialEq for Interval {
    fn eq(&self, other: &Self) -> (r: bool) {
        let empty1 = self.is_empty();
        let empty2 = other.is_empty();
        if !empty1 && !empty2 {
            self.left_bound == other.left_bound && self.right_bound == other.right_bound
        } else {
            empty1 == empty2
        }
    }
}

impl vstd::std_specs::cmp::PartialEqSpecImpl for Interval {
    open spec fn obeys_eq_spec() -> bool {
        true
    }

    open spec fn eq_spec(&self, other: &Interval) -> bool {
        same_interval(*self, *other)
    }
}

impl IntervalBound {
    /// Applies `f` to the value of a finite bound.
    pub fn map<F: Fn(&Integer) -> Integer>(&self, f: F) -> (r: IntervalBound)
        requires
            forall|v: Integer| call_requires(f, (&v,)),
        ensures
            bound_mapped(*self, r, f),
    {
        match self {
            IntervalBound::Fixed { value, is_included } => IntervalBound::Fixed {
                value: f(value),
                is_included: *is_included,
            },
            IntervalBound::NegativeInfinity => IntervalBound::NegativeInfinity,
            IntervalBound::PositiveInfinity => IntervalBound::PositiveInfinity,
        }
    }

    /// Compares two bounds standing on the same `side` of an interval.
    pub fn cmp(&self, other: &IntervalBound, side: BoundSide) -> (r: Ordering)
        ensures
            r == bound_order(*self, *other, side),
    {
        match self {
            IntervalBound::NegativeInfinity => match other {
                IntervalBound::NegativeInfinity => Ordering::Equal,
                _ => Ordering::Less,
            },
            IntervalBound::PositiveInfinity => match other {
                IntervalBound::PositiveInfinity => Ordering::Equal,
                _ => Ordering::Greater,
            },
            IntervalBound::Fixed { value: v1, is_included: i1 } => match other {
                IntervalBound::NegativeInfinity => Ordering::Greater,
                IntervalBound::PositiveInfinity => Ordering::Less,
                IntervalBound::Fixed { value: v2, is_included: i2 } => {
                    if *v1 < *v2 {
                        Ordering::Less
                    } else if *v1 > *v2 {
                        Ordering::Greater
                    } else if *i1 == *i2 {
                        Ordering::Equal
                    } else {
                        match side {
                            BoundSide::Left => if *i1 {
                                Ordering::Less
                            } else {
                                Ordering::Greater
                            },
                            BoundSide::Right => if *i1 {
                                Ordering::Greater
                            } else {
                                Ordering::Less
                            },
                        }
                    }
                },
            },
        }
    }

    /// A bound equals a point when it is that very point, included.
    pub fn eq_point(&self, other: &Integer) -> (r: bool)
        ensures
            r == (*self == fixed(*other, true)),
    {
        match self {
            IntervalBound::NegativeInfinity => false,
            IntervalBound::PositiveInfinity => false,
            IntervalBound::Fixed { value, is_included } => *is_included && *value == *other,
        }
    }

    /// Compares a bound with a point; an excluded bound at the point itself is incomparable.
    pub fn partial_cmp_point(&self, other: &Integer) -> (r: Option<Ordering>)
        ensures
            r == match *self {
                IntervalBound::NegativeInfinity => Some(Ordering::Less),
                IntervalBound::PositiveInfinity => Some(Ordering::Greater),
                IntervalBound::Fixed { value, is_included } => if value < *other {
                    Some(Ordering::Less)
                } else if value > *other {
                    Some(Ordering::Greater)
                } else if is_included {
                    Some(Ordering::Equal)
                } else {
                    None::<Ordering>
                },
            },
    {
        match self {
            IntervalBound::NegativeInfinity => Some(Ordering::Less),
            IntervalBound::PositiveInfinity => Some(Ordering::Greater),
            IntervalBound::Fixed { value, is_included } => {
                if *value < *other {
                    Some(Ordering::Less)
                } else if *value > *other {
                    Some(Ordering::Greater)
                } else if *is_included {
                    Some(Ordering::Equal)
                } else {
                    None
                }
            },
        }
    }
}

// ---------------------------------------------------------------------------
// Laws
// ---------------------------------------------------------------------------

/// A point lies in the intersection of two intervals exactly when it lies in both.
pub proof fn lemma_intersect_contains(a: Interval, b: Interval, x: int)
    ensures
        contains(spec_intersect(a, b), x) <==> contains(a, x) && contains(b, x),
{
}

/// Intersection does not depend on the order of its arguments.
pub proof fn lemma_intersect_commutative(a: Interval, b: Interval)
    ensures
        spec_intersect(a, b) == spec_intersect(b, a),
{
}

/// Intersecting with the whole line changes nothing; intersecting with the empty interval
/// gives an empty interval.
pub proof fn lemma_intersect_all_and_empty(a: Interval)
    ensures
        spec_intersect(a, mk(IntervalBound::NegativeInfinity, IntervalBound::PositiveInfinity))
            == a,
        spec_is_empty(
            spec_intersect(a, mk(IntervalBound::NegativeInfinity, IntervalBound::NegativeInfinity)),
        ),
{
}

/// No point lies in an empty interval.
pub proof fn lemma_empty_has_no_points(i: Interval, x: int)
    requires
        spec_is_empty(i),
    ensures
        !contains(i, x),
{
}

/// A closed interval with its ends in order holds every point between them, and only those.
pub proof fn lemma_closed_contains(s: Integer, e: Integer, x: int)
    ensures
        contains(mk(fixed(s, true), fixed(e, true)), x) <==> s <= x <= e,
        !spec_is_empty(mk(fixed(s, true), fixed(e, true))) <==> s <= e,
{
}

/// Equality of intervals is an equivalence relation.
pub proof fn lemma_same_interval_equivalence(a: Interval, b: Interval, c: Interval)
    ensures
        same_interval(a, a),
        same_interval(a, b) ==> same_interval(b, a),
        same_interval(a, b) && same_interval(b, c) ==> same_interval(a, c),
{
}

/// Equal intervals hold the same points.
pub proof fn lemma_same_interval_same_points(a: Interval, b: Interval, x: int)
    requires
        same_interval(a, b),
    ensures
        contains(a, x) == contains(b, x),
{
}

} // verus!
