use vstd::prelude::*;
use crate::interval::Integer;

verus! {

/// How the cursor is to move: by graphemes, by lines or by tokens.
#[derive(PartialEq, Eq, Structural, Copy, Clone, Debug)]
pub enum CursorShift {
    X(Integer),
    Y(Integer),
    TokenForward,
    TokenBackward,
}

impl CursorShift {
    pub fn down_by_n(n: Integer) -> (r: Self)
        ensures
            r == CursorShift::Y(n),
    {
        CursorShift::Y(n)
    }

    pub fn down() -> (r: Self)
        ensures
            r == CursorShift::Y(1),
    {
        Self::down_by_n(1)
    }

    pub fn up_by_n(n: Integer) -> (r: Self)
        requires
            n > i64::MIN,
        ensures
            r == CursorShift::Y((-n) as Integer),
    {
        CursorShift::Y(-n)
    }

    pub fn up() -> (r: Self)
        ensures
            r == CursorShift::Y(-1i64),
    {
        Self::up_by_n(1)
    }

    pub fn left_by_n(n: Integer) -> (r: Self)
        requires
            n > i64::MIN,
        ensures
            r == CursorShift::X((-n) as Integer),
    {
        CursorShift::X(-n)
    }

    pub fn left() -> (r: Self)
        ensures
            r == CursorShift::X(-1i64),
    {
        Self::left_by_n(1)
    }

    pub fn right_by_n(n: Integer) -> (r: Self)
        ensures
            r == CursorShift::X(n),
    {
        CursorShift::X(n)
    }

    pub fn right() -> (r: Self)
        ensures
            r == CursorShift::X(1),
    {
        Self::right_by_n(1)
    }

    pub fn token_forward() -> (r: Self)
        ensures
            r == CursorShift::TokenForward,
    {
        CursorShift::TokenForward
    }

    pub fn token_backward() -> (r: Self)
        ensures
            r == CursorShift::TokenBackward,
    {
        CursorShift::TokenBackward
    }
}

} // verus!
