use vstd::prelude::*;
use crate::highlight::highlight::Highlight;

verus! {

/// Highlights the date of a line with `payload`.
pub struct DateHighlighter<T> {
    payload: T,
}

impl<T: Clone> DateHighlighter<T> {
    pub closed spec fn spec_payload(&self) -> T {
        self.payload
    }

    pub fn new(payload: T) -> (r: Self)
        ensures
            r.spec_payload() == payload,
    {
        DateHighlighter { payload }
    }

    /// The highlights of a line whose date was found at `date_match` (a byte range of its
    /// content), or of a line where none was found: one highlight over the date, or none.
    pub fn process(&self, date_match: Option<(usize, usize)>) -> (r: Vec<Highlight<T>>)
        ensures
            match date_match {
                None => r@.len() == 0,
                Some((s, e)) => r@.len() == 1 && r@[0].spec_start() == s && r@[0].spec_end() == e
                    && cloned(self.spec_payload(), r@[0].spec_payload()),
            },
    {
        let mut r = Vec::new();
        if let Some((s, e)) = date_match {
            r.push(Highlight::new(s, e, self.payload.clone()));
        }
        r
    }
}

} // verus!
