use vstd::prelude::*;
use crate::highlight::highlight::Highlight;
use crate::interval::Integer;
use crate::search::searcher::Occurrence;

verus! {

/// Whether occurrence `o` touches a line of `len` bytes that starts at `offset`.
pub open spec fn touches_line(o: Occurrence, offset: int, len: int) -> bool {
    !(o.end < offset || o.start > offset + len)
}

/// Where occurrence `o` starts within a line that starts at `offset`; an occurrence that began
/// on an earlier line starts at the line's beginning.
pub open spec fn start_in_line(o: Occurrence, offset: int) -> int {
    if o.start < offset {
        0
    } else {
        o.start - offset
    }
}

/// Indices of the occurrences that touch the line, in their order.
pub open spec fn touching(occ: Seq<Occurrence>, offset: int, len: int) -> Seq<int>
    decreases occ.len(),
{
    if occ.len() == 0 {
        Seq::empty()
    } else {
        let prev = touching(occ.drop_last(), offset, len);
        if touches_line(occ.last(), offset, len) {
            prev.push(occ.len() - 1)
        } else {
            prev
        }
    }
}

proof fn lemma_touching_bounds(occ: Seq<Occurrence>, offset: int, len: int)
    ensures
        forall|k: int| 0 <= k < touching(occ, offset, len).len() ==> 0 <= #[trigger] touching(occ, offset, len)[k] < occ.len(),
    decreases occ.len(),
{
    if occ.len() > 0 {
        let prev = touching(occ.drop_last(), offset, len);
        lemma_touching_bounds(occ.drop_last(), offset, len);
        assert forall|k: int| 0 <= k < touching(occ, offset, len).len() implies 0 <= #[trigger] touching(occ, offset, len)[k] < occ.len() by {
            if k < prev.len() {
                assert(prev[k] < occ.len() - 1);
            }
        }
    }
}

/// Highlights the occurrences of the current search: the current one with one style, the
/// others with another.
pub struct SearchHighlighter<T> {
    current_occurrence_style: T,
    other_occurrence_style: T,
}

impl<T: Clone> SearchHighlighter<T> {
    pub closed spec fn spec_current_style(&self) -> T {
        self.current_occurrence_style
    }

    pub closed spec fn spec_other_style(&self) -> T {
        self.other_occurrence_style
    }

    pub fn new(current_occurrence_style: T, other_occurrence_style: T) -> (r: Self)
        ensures
            r.spec_current_style() == current_occurrence_style,
            r.spec_other_style() == other_occurrence_style,
    {
        SearchHighlighter { current_occurrence_style, other_occurrence_style }
    }

    /// The highlights in a line of `len` bytes that starts at `offset`, given the occurrences
    /// around it and the index of the current one: one for each occurrence that touches the
    /// line, in their order, positioned relative to the line.
    pub fn process(&self, len: usize, offset: Integer, occurrences: &Vec<Occurrence>, current: Option<usize>) -> (r: Vec<Highlight<T>>)
        requires
            0 <= offset,
            offset + len <= i64::MAX,
            forall|i: int|
                0 <= i < occurrences@.len() ==> #[trigger] occurrences@[i].end - offset <= usize::MAX,
        ensures
            ({
                let idx = touching(occurrences@, offset as int, len as int);
                &&& r@.len() == idx.len()
                &&& forall|k: int|
                    0 <= k < idx.len() ==> {
                        let o = occurrences@[idx[k]];
                        &&& #[trigger] r@[k].spec_start() == start_in_line(o, offset as int)
                        &&& r@[k].spec_end() == o.end - offset
                        &&& if current == Some(idx[k] as usize) {
                            cloned(self.spec_current_style(), r@[k].spec_payload())
                        } else {
                            cloned(self.spec_other_style(), r@[k].spec_payload())
                        }
                    }
            }),
    {
        let mut r: Vec<Highlight<T>> = Vec::new();
        let mut i: usize = 0;
        let end_of_line: Integer = offset + len as Integer;
        while i < occurrences.len()
            invariant
                i <= occurrences@.len(),
                0 <= offset,
                end_of_line == offset + len,
                forall|j: int|
                    0 <= j < occurrences@.len() ==> #[trigger] occurrences@[j].end - offset <= usize::MAX,
                ({
                    let idx = touching(occurrences@.take(i as int), offset as int, len as int);
                    &&& r@.len() == idx.len()
                    &&& forall|k: int|
                        0 <= k < idx.len() ==> {
                            let o = occurrences@[idx[k]];
                            &&& #[trigger] r@[k].spec_start() == start_in_line(o, offset as int)
                            &&& r@[k].spec_end() == o.end - offset
                            &&& if current == Some(idx[k] as usize) {
                                cloned(self.current_occurrence_style, r@[k].spec_payload())
                            } else {
                                cloned(self.other_occurrence_style, r@[k].spec_payload())
                            }
                        }
                }),
            decreases occurrences@.len() - i,
        {
            let o = occurrences[i];
            proof {
                let t = occurrences@.take(i + 1);
                assert(t.drop_last() =~= occurrences@.take(i as int));
                assert(t.last() == o);
                lemma_touching_bounds(occurrences@.take(i as int), offset as int, len as int);
            }
            let ghost r0 = r@;
            let ghost idx0 = touching(occurrences@.take(i as int), offset as int, len as int);
            if !(o.end < offset || o.start > end_of_line) {
                let s: usize = if o.start < offset {
                    0
                } else {
                    (o.start - offset) as usize
                };
                let e: usize = (o.end - offset) as usize;
                let payload = if current == Some(i) {
                    self.current_occurrence_style.clone()
                } else {
                    self.other_occurrence_style.clone()
                };
                r.push(Highlight::new(s, e, payload));
                proof {
                    let idx1 = touching(occurrences@.take(i + 1), offset as int, len as int);
                    assert(idx1 == idx0.push(i as int));
                    assert forall|k: int| 0 <= k < idx1.len() implies r@[k] == (if k < r0.len() { r0[k] } else { r@[k] }) && idx1[k] == (if k < idx0.len() { idx0[k] } else { i as int }) by {}
                }
            } else {
                proof {
                    let idx1 = touching(occurrences@.take(i + 1), offset as int, len as int);
                    assert(idx1 == idx0);
                }
            }
            i += 1;
        }
        proof {
            assert(occurrences@.take(i as int) =~= occurrences@);
        }
        r
    }
}

} // verus!
