use vstd::prelude::*;
use crate::interval::Integer;

verus! {

/// How far the view is scrolled: from the beginning or from the end of the source.
#[derive(PartialEq, Eq, Structural, Copy, Clone, Debug)]
pub enum ScrollPosition {
    FromBeginning { shift: Integer },
    FromEnd { shift: Integer },
}

/// The signed value of a scroll position: negative when counted from the end.
pub open spec fn scroll_value(p: ScrollPosition) -> int {
    match p {
        ScrollPosition::FromBeginning { shift } => shift as int,
        ScrollPosition::FromEnd { shift } => -shift,
    }
}

impl ScrollPosition {
    pub fn from_beginning(shift: Integer) -> (r: Self)
        ensures
            r == (ScrollPosition::FromBeginning { shift }),
    {
        ScrollPosition::FromBeginning { shift }
    }

    pub fn from_end(shift: Integer) -> (r: Self)
        ensures
            r == (ScrollPosition::FromEnd { shift }),
    {
        ScrollPosition::FromEnd { shift }
    }

    /// The position moved forward by `rhs`.
    pub fn add(&self, rhs: Integer) -> (r: Self)
        requires
            match *self {
                ScrollPosition::FromBeginning { shift } => i64::MIN <= shift + rhs <= i64::MAX,
                ScrollPosition::FromEnd { shift } => i64::MIN <= shift - rhs <= i64::MAX,
            },
        ensures
            r == match *self {
                ScrollPosition::FromBeginning { shift } => ScrollPosition::FromBeginning { shift: (shift + rhs) as Integer },
                ScrollPosition::FromEnd { shift } => ScrollPosition::FromEnd { shift: (shift - rhs) as Integer },
            },
    {
        match self {
            ScrollPosition::FromBeginning { shift } => ScrollPosition::FromBeginning { shift: *shift + rhs },
            ScrollPosition::FromEnd { shift } => ScrollPosition::FromEnd { shift: *shift - rhs },
        }
    }

    /// The signed value: negative when counted from the end.
    pub fn into_integer(self) -> (r: Integer)
        requires
            self matches ScrollPosition::FromEnd { shift } ==> shift > i64::MIN,
        ensures
            r == scroll_value(self),
    {
        match self {
            ScrollPosition::FromBeginning { shift } => shift,
            ScrollPosition::FromEnd { shift } => -shift,
        }
    }

    /// The position of a signed value: counted from the end when negative.
    pub fn from_integer(value: Integer) -> (r: Self)
        requires
            value > i64::MIN,
        ensures
            value >= 0 ==> r == (ScrollPosition::FromBeginning { shift: value }),
            value < 0 ==> r == (ScrollPosition::FromEnd { shift: (-value) as Integer }),
            scroll_value(r) == value,
    {
        if value >= 0 {
            ScrollPosition::FromBeginning { shift: value }
        } else {
            ScrollPosition::FromEnd { shift: -value }
        }
    }

    pub fn default() -> (r: Self)
        ensures
            r == (ScrollPosition::FromBeginning { shift: 0 }),
    {
        ScrollPosition::FromBeginning { shift: 0 }
    }
}

/// Turning a signed value into a position and back gives the value again.
pub proof fn lemma_scroll_value_round_trip(value: Integer)
    requires
        value > i64::MIN,
    ensures
        scroll_value(if value >= 0 {
            ScrollPosition::FromBeginning { shift: value }
        } else {
            ScrollPosition::FromEnd { shift: (-value) as Integer }
        }) == value,
{
}

} // verus!
