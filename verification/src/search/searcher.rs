use vstd::prelude::*;
use crate::data_source::read_delimited::Direction;
use crate::interval::{Integer, Interval, IntervalBound};

verus! {

/// A found occurrence: the offsets of its first byte and just past its last byte.
#[derive(PartialEq, Eq, Structural, Copy, Clone, Debug)]
pub struct Occurrence {
    pub start: Integer,
    pub end: Integer,
}

impl Occurrence {
    pub fn new(start: Integer, end: Integer) -> (r: Self)
        ensures
            r == (Occurrence { start, end }),
    {
        Occurrence { start, end }
    }

    /// The occurrence of `len` bytes that starts at `start`.
    pub fn with_len(start: Integer, len: Integer) -> (r: Self)
        requires
            i64::MIN <= start + len <= i64::MAX,
        ensures
            r == (Occurrence { start, end: (start + len) as Integer }),
    {
        Self::new(start, start + len)
    }

    /// The occurrence moved by `rhs` bytes.
    pub fn add(self, rhs: Integer) -> (r: Self)
        requires
            i64::MIN <= self.start + rhs <= i64::MAX,
            i64::MIN <= self.end + rhs <= i64::MAX,
        ensures
            r == (Occurrence { start: (self.start + rhs) as Integer, end: (self.end + rhs) as Integer }),
    {
        Occurrence::new(self.start + rhs, self.end + rhs)
    }
}

/// Why a search gave nothing.
#[derive(Copy, Clone, Debug)]
pub enum SearchError {
    NotFound,
    /// reading the source failed
    IO,
}

impl SearchError {
    pub fn is_not_found(&self) -> (r: bool)
        ensures
            r == (*self is NotFound),
    {
        match self {
            SearchError::NotFound => true,
            _ => false,
        }
    }
}

/// Two errors are equal only when both are `NotFound`.
impl PartialEq for SearchError {
    fn eq(&self, other: &SearchError) -> (r: bool) {
        self.is_not_found() && other.is_not_found()
    }
}

impl vstd::std_specs::cmp::PartialEqSpecImpl for SearchError {
    open spec fn obeys_eq_spec() -> bool {
        true
    }

    open spec fn eq_spec(&self, other: &SearchError) -> bool {
        *self is NotFound && *other is NotFound
    }
}

pub type SearchResult = Result<Occurrence, SearchError>;

/// Where a search starts and how far it may go.
#[derive(PartialEq, Eq, Structural, Copy, Clone, Debug)]
pub struct OffsetAndBoundary {
    /// forward: the first candidate start; backward: the largest candidate end
    pub offset: Integer,
    /// forward: the largest start; backward: the smallest start
    pub offset_boundary: Option<Integer>,
}

/// The search window of `range` in a text of `total` bytes, or `None` when the range admits
/// no position.
pub open spec fn window(total: Integer, direction: Direction, range: Interval) -> Option<OffsetAndBoundary> {
    match direction {
        Direction::Forward => {
            let first = match range.left_bound {
                IntervalBound::NegativeInfinity => Some(0int),
                IntervalBound::PositiveInfinity => None,
                IntervalBound::Fixed { value, is_included } => if is_included {
                    Some(value as int)
                } else if value < i64::MAX {
                    Some(value + 1)
                } else {
                    None
                },
            };
            let last = match range.right_bound {
                IntervalBound::PositiveInfinity => Some(None),
                IntervalBound::NegativeInfinity => None,
                IntervalBound::Fixed { value, is_included } => if is_included {
                    Some(Some(value))
                } else if value > i64::MIN {
                    Some(Some((value - 1) as Integer))
                } else {
                    None
                },
            };
            match (first, last) {
                (Some(f), Some(l)) => Some(
                    OffsetAndBoundary {
                        offset: if f < 0 {
                            0
                        } else {
                            f as Integer
                        },
                        offset_boundary: l,
                    },
                ),
                _ => None,
            }
        },
        Direction::Backward => {
            let last = match range.right_bound {
                IntervalBound::PositiveInfinity => Some(total as int),
                IntervalBound::NegativeInfinity => None,
                IntervalBound::Fixed { value, is_included } => if is_included {
                    Some(value + 1)
                } else {
                    Some(value as int)
                },
            };
            let first = match range.left_bound {
                IntervalBound::NegativeInfinity => Some(None),
                IntervalBound::PositiveInfinity => None,
                IntervalBound::Fixed { value, is_included } => if is_included {
                    Some(Some(value))
                } else if value < i64::MAX {
                    Some(Some((value + 1) as Integer))
                } else {
                    None
                },
            };
            match (last, first) {
                (Some(l), Some(f)) => Some(
                    OffsetAndBoundary {
                        offset: if l > total {
                            total
                        } else {
                            l as Integer
                        },
                        offset_boundary: f,
                    },
                ),
                _ => None,
            }
        },
    }
}

/// Forward: the first start and the largest start of an occurrence in `range`. Backward: the
/// largest end and the smallest start. Offsets before the text are moved to its beginning,
/// ends beyond it to its end.
pub fn calculate_offset_and_boundary(total: Integer, direction: Direction, range: Interval) -> (r:
    Result<OffsetAndBoundary, SearchError>)
    requires
        0 <= total,
    ensures
        match window(total, direction, range) {
            Some(w) => r == Ok::<OffsetAndBoundary, SearchError>(w),
            None => r is Err && r->Err_0 is NotFound,
        },
{
    match direction {
        Direction::Forward => {
            let first: Option<Integer> = match range.left_bound {
                IntervalBound::NegativeInfinity => Some(0),
                IntervalBound::PositiveInfinity => None,
                IntervalBound::Fixed { value, is_included } => if is_included {
                    Some(value)
                } else if value < i64::MAX {
                    Some(value + 1)
                } else {
                    None
                },
            };
            let last: Option<Option<Integer>> = match range.right_bound {
                IntervalBound::PositiveInfinity => Some(None),
                IntervalBound::NegativeInfinity => None,
                IntervalBound::Fixed { value, is_included } => if is_included {
                    Some(Some(value))
                } else if value > i64::MIN {
                    Some(Some(value - 1))
                } else {
                    None
                },
            };
            match (first, last) {
                (Some(f), Some(l)) => Ok(
                    OffsetAndBoundary {
                        offset: if f < 0 {
                            0
                        } else {
                            f
                        },
                        offset_boundary: l,
                    },
                ),
                _ => Err(SearchError::NotFound),
            }
        },
        Direction::Backward => {
            let last: Option<Integer> = match range.right_bound {
                IntervalBound::PositiveInfinity => Some(total),
                IntervalBound::NegativeInfinity => None,
                IntervalBound::Fixed { value, is_included } => if is_included {
                    if value >= total {
                        Some(total)
                    } else {
                        Some(value + 1)
                    }
                } else {
                    Some(value)
                },
            };
            let first: Option<Option<Integer>> = match range.left_bound {
                IntervalBound::NegativeInfinity => Some(None),
                IntervalBound::PositiveInfinity => None,
                IntervalBound::Fixed { value, is_included } => if is_included {
                    Some(Some(value))
                } else if value < i64::MAX {
                    Some(Some(value + 1))
                } else {
                    None
                },
            };
            match (last, first) {
                (Some(l), Some(f)) => Ok(
                    OffsetAndBoundary {
                        offset: if l > total {
                            total
                        } else {
                            l
                        },
                        offset_boundary: f,
                    },
                ),
                _ => Err(SearchError::NotFound),
            }
        },
    }
}

} // verus!
