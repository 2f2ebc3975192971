use vstd::prelude::*;
use vstd::string::StringExecFns;
use crate::data_source::read_delimited::Direction;
use crate::interval::{Interval, same_interval};
use crate::search::navigable_searcher_impl::{copy_occurrences, NavigableSearcherImpl};
use crate::search::searcher::{Occurrence, SearchError, SearchResult};

verus! {

/// The first position of `o` in `s`.
pub open spec fn first_index_of(s: Seq<Occurrence>, o: Occurrence) -> Option<usize> {
    if exists|i: int| 0 <= i < s.len() && s[i] == o {
        Some((choose|i: int| 0 <= i < s.len() && s[i] == o && forall|j: int| 0 <= j < i ==> s[j] != o) as usize)
    } else {
        None
    }
}

/// The occurrence that a step in `direction` leads to among those listed, from the position
/// of the current one.
pub open spec fn step_in_list(s: Seq<Occurrence>, p: usize, direction: Direction) -> Option<Occurrence> {
    match direction {
        Direction::Forward => if p + 1 < s.len() {
            Some(s[p + 1])
        } else {
            None
        },
        Direction::Backward => if p > 0 && p - 1 < s.len() {
            Some(s[p - 1])
        } else {
            None
        },
    }
}

/// A search in progress: its searcher, the occurrences listed for the last viewport and the
/// occurrence reached last.
pub struct Search {
    searcher: NavigableSearcherImpl,
    occurrences: Option<Vec<Occurrence>>,
    last_occurrence: Option<Occurrence>,
    last_request: Option<Interval>,
}

impl Search {
    pub closed spec fn spec_searcher(self) -> NavigableSearcherImpl {
        self.searcher
    }

    pub closed spec fn spec_occurrences(self) -> Option<Seq<Occurrence>> {
        match self.occurrences {
            Some(v) => Some(v@),
            None => None,
        }
    }

    pub closed spec fn spec_last_occurrence(self) -> Option<Occurrence> {
        self.last_occurrence
    }

    pub closed spec fn spec_last_request(self) -> Option<Interval> {
        self.last_request
    }

    /// The position of the occurrence reached last among those listed.
    pub open spec fn spec_index_of_last_occurrence(self) -> Option<usize> {
        match (self.spec_occurrences(), self.spec_last_occurrence()) {
            (Some(s), Some(o)) => first_index_of(s, o),
            _ => None,
        }
    }

    /// The neighbour of the current occurrence in `direction` among those listed.
    pub open spec fn spec_listed_step(self, direction: Direction) -> Option<Occurrence> {
        match (self.spec_occurrences(), self.spec_index_of_last_occurrence()) {
            (Some(s), Some(p)) => step_in_list(s, p, direction),
            _ => None,
        }
    }

    fn listed_step(&self, direction: Direction) -> (r: Option<Occurrence>)
        ensures
            r == self.spec_listed_step(direction),
    {
        let mut next: Option<Occurrence> = None;
        if let Some(p) = self.index_of_last_occurrence() {
            if let Some(v) = &self.occurrences {
                match direction {
                    Direction::Forward => if p < v.len() && p + 1 < v.len() {
                        next = Some(v[p + 1]);
                    },
                    Direction::Backward => if p > 0 && p - 1 < v.len() {
                        next = Some(v[p - 1]);
                    },
                }
            }
        }
        next
    }

    pub fn new(searcher: NavigableSearcherImpl) -> (r: Self)
        ensures
            r.spec_searcher() == searcher,
            r.spec_occurrences() is None,
            r.spec_last_occurrence() is None,
            r.spec_last_request() is None,
    {
        Search { searcher, occurrences: None, last_occurrence: None, last_request: None }
    }

    #[verifier::loop_isolation(false)]
    fn index_of_last_occurrence(&self) -> (r: Option<usize>)
        ensures
            r == self.spec_index_of_last_occurrence(),
            r matches Some(p) ==> self.spec_occurrences() matches Some(s) && p < s.len(),
    {
        match (&self.occurrences, &self.last_occurrence) {
            (Some(v), Some(o)) => {
                let mut i: usize = 0;
                while i < v.len()
                    invariant
                        i <= v@.len(),
                        forall|j: int| 0 <= j < i ==> v@[j] != *o,
                    decreases v@.len() - i,
                {
                    if v[i] == *o {
                        proof {
                            let c = choose|k: int| 0 <= k < v@.len() && v@[k] == *o && forall|j: int| 0 <= j < k ==> v@[j] != *o;
                            assert(c == i as int) by {
                                if c < i {
                                } else if c > i {
                                }
                            }
                        }
                        return Some(i);
                    }
                    i += 1;
                }
                None
            },
            _ => None,
        }
    }

    /// Goes to the next (or previous) occurrence: the neighbour of the current one among those
    /// listed, if there is one, else what the searcher finds beyond the listed range. The
    /// occurrence reached is remembered; the result is announced to the user.
    pub fn search(&mut self, direction: Direction) -> (r: SearchResult)
        ensures
            final(self).spec_searcher() == old(self).spec_searcher(),
            final(self).spec_occurrences() == old(self).spec_occurrences(),
            final(self).spec_last_request() == old(self).spec_last_request(),
            r == match old(self).spec_listed_step(direction) {
                Some(o) => Ok::<Occurrence, SearchError>(o),
                None => old(self).spec_searcher().spec_searcher().spec_search(
                    direction,
                    NavigableSearcherImpl::next_scope(old(self).spec_searcher().spec_range(), direction),
                ),
            },
            final(self).spec_last_occurrence() == match r {
                Ok(o) => Some(o),
                Err(_) => old(self).spec_last_occurrence(),
            },
    {
        let next = self.listed_step(direction);
        let result = match next {
            Some(o) => Ok(o),
            None => self.searcher.next_occurrence(direction),
        };
        if let Ok(o) = result {
            self.last_occurrence = Some(o);
        }
        result
    }

    /// The occurrences in `viewport` and the position of the current one among them. They are
    /// listed again only when the viewport differs from the last one asked for.
    pub fn get_current_occurrence(&mut self, viewport: Interval) -> (r: Result<(Vec<Occurrence>, Option<usize>), SearchError>)
        ensures
            final(self).spec_last_occurrence() == old(self).spec_last_occurrence(),
            ({
                let same = old(self).spec_last_request() matches Some(q) && same_interval(viewport, q);
                if same && old(self).spec_occurrences() is Some {
                    &&& *final(self) == *old(self)
                    &&& r matches Ok((v, p)) && v@ == old(self).spec_occurrences().unwrap() && p == old(self).spec_index_of_last_occurrence()
                } else {
                    &&& final(self).spec_last_request() == Some(viewport)
                    &&& match r {
                        Ok((v, p)) => final(self).spec_occurrences() == Some(v@) && p == final(self).spec_index_of_last_occurrence(),
                        Err(_) => final(self).spec_occurrences() == old(self).spec_occurrences(),
                    }
                }
            }),
    {
        let same = match &self.last_request {
            Some(q) => viewport == *q,
            None => false,
        };
        if same {
            if let Some(v) = &self.occurrences {
                let copy = copy_occurrences(v);
                return Ok((copy, self.index_of_last_occurrence()));
            }
        }
        self.last_request = Some(viewport);
        let found = match self.searcher.find_all_in_range(viewport) {
            Ok(v) => v,
            Err(e) => return Err(e),
        };
        let copy = copy_occurrences(&found);
        self.occurrences = Some(found);
        Ok((copy, self.index_of_last_occurrence()))
    }

    /// The hint shown while a search is active, naming the hotkeys of the next and previous
    /// occurrence actions.
    pub fn get_hint(next_hotkeys: &str, prev_hotkeys: &str) -> (r: String)
        ensures
            r@ == "Use "@ + next_hotkeys@ + "/"@ + prev_hotkeys@ + " for next/prev occurrence"@,
    {
        let mut s = String::from_str("Use ");
        s.append(next_hotkeys);
        s.append("/");
        s.append(prev_hotkeys);
        s.append(" for next/prev occurrence");
        s
    }
}

} // verus!
