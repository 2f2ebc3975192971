use vstd::prelude::*;
use crate::interval::Integer;

verus! {

/// A selected part of a text: bytes `start..end`.
#[derive(PartialEq, Eq, Structural, Copy, Clone, Debug)]
pub struct Selection {
    pub start: Integer,
    pub end: Integer,
}

impl Selection {
    pub fn new(start: Integer, end: Integer) -> (r: Self)
        ensures
            r == (Selection { start, end }),
    {
        Selection { start, end }
    }

    /// The selection between two boundaries given in any order; none when they coincide.
    pub fn create(boundary1: Integer, boundary2: Integer) -> (r: Option<Box<Selection>>)
        ensures
            boundary1 < boundary2 ==> r == Some(Box::new(Selection { start: boundary1, end: boundary2 })),
            boundary1 == boundary2 ==> r is None,
            boundary1 > boundary2 ==> r == Some(Box::new(Selection { start: boundary2, end: boundary1 })),
    {
        if boundary1 < boundary2 {
            Some(Box::new(Selection::new(boundary1, boundary2)))
        } else if boundary1 == boundary2 {
            None
        } else {
            Some(Box::new(Selection::new(boundary2, boundary1)))
        }
    }
}

} // verus!
