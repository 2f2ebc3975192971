use vstd::prelude::*;

verus! {

/// A span `start..end` of a line (in bytes of its content) to be shown with `payload`.
pub struct Highlight<T> {
    start: usize,
    end: usize,
    payload: T,
}

impl<T: Clone> Highlight<T> {
    pub closed spec fn spec_start(&self) -> usize {
        self.start
    }

    pub closed spec fn spec_end(&self) -> usize {
        self.end
    }

    pub closed spec fn spec_payload(&self) -> T {
        self.payload
    }

    pub fn new(start: usize, end: usize, payload: T) -> (r: Self)
        ensures
            r.spec_start() == start,
            r.spec_end() == end,
            r.spec_payload() == payload,
    {
        Highlight { start, end, payload }
    }

    pub fn get_start(&self) -> (r: usize)
        ensures
            r == self.spec_start(),
    {
        self.start
    }

    pub fn get_end(&self) -> (r: usize)
        ensures
            r == self.spec_end(),
    {
        self.end
    }

    /// A clone of the payload.
    pub fn get_payload(&self) -> (r: T)
        ensures
            cloned(self.spec_payload(), r),
    {
        self.payload.clone()
    }
}

} // verus!
