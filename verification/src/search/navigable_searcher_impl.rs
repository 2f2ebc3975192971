use vstd::prelude::*;
use crate::data_source::read_delimited::Direction;
use crate::data_source::text::{byte_len, Text};
use crate::interval::{fixed, mk, Integer, Interval, IntervalBound, same_interval};
use crate::search::regex_searcher_impl::{
    lemma_regex_result_backward_within, regex_compiles, RegexPattern, RegexSearcherImpl,
};
use crate::search::searcher::{window, Occurrence, SearchError, SearchResult};
use crate::search::searcher_impl::{lemma_plain_result_within, SearcherImpl};

verus! {

/// A searcher for a plain pattern or for a regular expression.
pub enum AnySearcher {
    Plain(SearcherImpl),
    Regex(RegexSearcherImpl),
}

impl AnySearcher {
    pub open spec fn spec_search(self, direction: Direction, range: Interval) -> SearchResult {
        match self {
            AnySearcher::Plain(s) => s.spec_search(direction, range),
            AnySearcher::Regex(s) => s.spec_search(direction, range),
        }
    }

    /// The text searched.
    pub open spec fn text_view(self) -> Seq<char> {
        match self {
            AnySearcher::Plain(s) => s.text_view(),
            AnySearcher::Regex(s) => s.text_view(),
        }
    }

    pub fn search(&self, direction: Direction, range: Interval) -> (r: SearchResult)
        ensures
            r == self.spec_search(direction, range),
    {
        match self {
            AnySearcher::Plain(s) => s.search(direction, range),
            AnySearcher::Regex(s) => s.search(direction, range),
        }
    }
}

/// Whether `pattern` is a regular expression that compiles.
pub fn is_valid_regex(pattern: &str) -> (r: bool)
    ensures
        r == regex_compiles(pattern@),
{
    RegexPattern::compile(pattern).is_some()
}

/// A searcher for `pattern` in `text`, a regular expression when `is_regex` (which then has to
/// compile).
pub fn create_searcher(text: Text, pattern: &str, is_regex: bool) -> (r: AnySearcher)
    requires
        is_regex ==> regex_compiles(pattern@),
    ensures
        r.text_view() == text.view(),
        is_regex <==> r is Regex,
        r matches AnySearcher::Regex(s) ==> s.pattern_view() == pattern@,
        r matches AnySearcher::Plain(s) ==> s.pattern_view() == vstd::utf8::encode_utf8(pattern@),
{
    if is_regex {
        let regex = RegexPattern::compile(pattern).unwrap();
        AnySearcher::Regex(RegexSearcherImpl::new(text, regex))
    } else {
        AnySearcher::Plain(SearcherImpl::new(text, pattern))
    }
}

/// A searcher for `pattern` in `text`, a regular expression when `is_regex`; `None` when the
/// regular expression does not compile.
pub fn try_create_searcher(text: Text, pattern: &str, is_regex: bool) -> (r: Option<AnySearcher>)
    ensures
        r is Some <==> (!is_regex || regex_compiles(pattern@)),
        r matches Some(s) ==> s.text_view() == text.view(),
        r matches Some(s) ==> (is_regex <==> s is Regex),
        r matches Some(AnySearcher::Regex(s)) ==> s.pattern_view() == pattern@,
        r matches Some(AnySearcher::Plain(s)) ==> s.pattern_view() == vstd::utf8::encode_utf8(pattern@),
{
    if is_regex && !is_valid_regex(pattern) {
        None
    } else {
        Some(create_searcher(text, pattern, is_regex))
    }
}

/// The first position a forward search in `scope` may start at (`i64::MAX` when there is
/// none).
pub open spec fn scope_first(total: Integer, scope: Interval) -> int {
    match window(total, Direction::Forward, scope) {
        Some(w) => w.offset as int,
        None => i64::MAX as int,
    }
}

/// The scope left after an occurrence that starts at `start`.
pub open spec fn scope_after(scope: Interval, start: Integer) -> Interval {
    mk(fixed(start, false), scope.right_bound)
}

/// All occurrences found by searching forward again and again in `scope`, each time after the
/// start of the last one found, until nothing more is found (or a search gives an occurrence
/// that does not start in the scope).
pub open spec fn collect_all(s: AnySearcher, scope: Interval) -> Result<Seq<Occurrence>, SearchError>
    decreases i64::MAX - scope_first(byte_len(s.text_view()) as Integer, scope),
{
    let first = scope_first(byte_len(s.text_view()) as Integer, scope);
    match s.spec_search(Direction::Forward, scope) {
        Err(SearchError::NotFound) => Ok(Seq::empty()),
        Err(e) => Err(e),
        Ok(p) => if p.start < first || first < 0 {
            Ok(Seq::empty())
        } else if p.start == i64::MAX {
            Ok(seq![p])
        } else {
            match collect_all(s, scope_after(scope, p.start)) {
                Ok(rest) => Ok(seq![p] + rest),
                Err(e) => Err(e),
            }
        },
    }
}

/// The searchers work on a text held in memory: a search finds an occurrence or nothing, and
/// never fails to read.
pub proof fn lemma_search_never_fails_to_read(s: AnySearcher, direction: Direction, scope: Interval)
    ensures
        s.spec_search(direction, scope) != Err::<Occurrence, SearchError>(SearchError::IO),
{
}

/// Collecting all occurrences never fails.
pub proof fn lemma_collect_all_ok(s: AnySearcher, scope: Interval)
    ensures
        collect_all(s, scope) is Ok,
    decreases i64::MAX - scope_first(byte_len(s.text_view()) as Integer, scope),
{
    lemma_search_never_fails_to_read(s, Direction::Forward, scope);
    let first = scope_first(byte_len(s.text_view()) as Integer, scope);
    match s.spec_search(Direction::Forward, scope) {
        Ok(p) => if !(p.start < first || first < 0) && p.start != i64::MAX {
            lemma_collect_all_ok(s, scope_after(scope, p.start));
        },
        Err(_) => {},
    }
}

/// A copy of a list of occurrences.
pub fn copy_occurrences(v: &Vec<Occurrence>) -> (r: Vec<Occurrence>)
    ensures
        r@ == v@,
{
    let mut r = Vec::new();
    let mut i: usize = 0;
    while i < v.len()
        invariant
            i <= v@.len(),
            r@ == v@.take(i as int),
        decreases v@.len() - i,
    {
        proof {
            assert(v@.take(i + 1) =~= v@.take(i as int).push(v@[i as int]));
        }
        r.push(v[i]);
        i += 1;
    }
    proof {
        assert(v@.take(i as int) =~= v@);
    }
    r
}

/// A searcher that remembers the last range it listed, to go to the next or previous
/// occurrence from there.
pub struct NavigableSearcherImpl {
    cache: Vec<Occurrence>,
    range: Interval,
    searcher: AnySearcher,
}

impl NavigableSearcherImpl {
    pub closed spec fn spec_range(self) -> Interval {
        self.range
    }

    pub closed spec fn spec_cache(self) -> Seq<Occurrence> {
        self.cache@
    }

    pub closed spec fn spec_searcher(self) -> AnySearcher {
        self.searcher
    }

    pub fn new(searcher: AnySearcher) -> (r: Self)
        ensures
            r.spec_searcher() == searcher,
            r.spec_cache().len() == 0,
            r.spec_range() == mk(IntervalBound::NegativeInfinity, IntervalBound::NegativeInfinity),
    {
        NavigableSearcherImpl { cache: Vec::new(), range: Interval::empty(), searcher }
    }

    /// All occurrences in `range`, one after another. When `range` has the same points as the
    /// range listed last, the occurrences listed then are returned again.
    pub fn find_all_in_range(&mut self, range: Interval) -> (r: Result<Vec<Occurrence>, SearchError>)
        ensures
            final(self).spec_searcher() == old(self).spec_searcher(),
            r is Ok,
            same_interval(range, old(self).spec_range()) ==> (*final(self) == *old(self) && (r matches Ok(v) && v@ == old(self).spec_cache())),
            !same_interval(range, old(self).spec_range()) ==> {
                &&& final(self).spec_range() == range
                &&& match collect_all(old(self).spec_searcher(), range) {
                    Ok(v) => (r matches Ok(w) && w@ == v) && final(self).spec_cache() == v,
                    Err(e) => r == Err::<Vec<Occurrence>, SearchError>(e),
                }
            },
    {
        if range == self.range {
            return Ok(copy_occurrences(&self.cache));
        }
        self.range = range;
        proof {
            lemma_collect_all_ok(self.searcher, range);
        }
        let ghost sr = self.searcher;
        let ghost total = byte_len(sr.text_view()) as Integer;
        let mut found: Vec<Occurrence> = Vec::new();
        let mut scope = range;
        loop
            invariant_except_break
                match collect_all(sr, range) {
                    Ok(v) => match collect_all(sr, scope) {
                        Ok(rest) => v == found@ + rest,
                        Err(e) => false,
                    },
                    Err(e) => collect_all(sr, scope) == Err::<Seq<Occurrence>, SearchError>(e),
                },
            invariant
                sr == self.searcher,
                total == byte_len(sr.text_view()) as Integer,
                self.range == range,
            ensures
                sr == self.searcher,
                self.range == range,
                collect_all(sr, range) == Ok::<Seq<Occurrence>, SearchError>(found@),
            decreases i64::MAX - scope_first(total, scope),
        {
            let ghost first = scope_first(total, scope);
            match self.searcher.search(Direction::Forward, scope) {
                Ok(p) => {
                    let first_exec = match crate::search::searcher::calculate_offset_and_boundary(
                        self.searcher_total(),
                        Direction::Forward,
                        scope,
                    ) {
                        Ok(w) => w.offset,
                        Err(_) => i64::MAX,
                    };
                    if p.start < first_exec || first_exec < 0 {
                        proof {
                            assert(found@ + Seq::<Occurrence>::empty() =~= found@);
                        }
                        break;
                    }
                    let ghost f0 = found@;
                    found.push(p);
                    if p.start == i64::MAX {
                        proof {
                            assert(collect_all(sr, scope) == Ok::<Seq<Occurrence>, SearchError>(seq![p]));
                            assert(f0 + seq![p] =~= found@);
                        }
                        break;
                    }
                    proof {
                        let next = scope_after(scope, p.start);
                        assert(scope_first(total, next) == p.start + 1);
                        match collect_all(sr, next) {
                            Ok(rest) => {
                                assert(f0 + (seq![p] + rest) =~= found@ + rest);
                            },
                            Err(_) => {},
                        }
                    }
                    scope = scope.to_builder().left_bound_exclusive(p.start).build();
                },
                Err(SearchError::NotFound) => {
                    proof {
                        assert(found@ + Seq::<Occurrence>::empty() =~= found@);
                    }
                    break;
                },
                Err(e) => return Err(e),
            }
        }
        self.cache = copy_occurrences(&found);
        Ok(found)
    }

    fn searcher_total(&self) -> (r: Integer)
        ensures
            r == byte_len(self.searcher.text_view()) as Integer,
            0 <= r,
    {
        match &self.searcher {
            AnySearcher::Plain(s) => s.total(),
            AnySearcher::Regex(s) => s.total(),
        }
    }

    /// The scope searched for the next occurrence in `direction`: what lies after (or before)
    /// the range listed last.
    pub open spec fn next_scope(range: Interval, direction: Direction) -> Interval {
        match direction {
            Direction::Forward => match range.right_bound {
                IntervalBound::NegativeInfinity => mk(IntervalBound::NegativeInfinity, IntervalBound::PositiveInfinity),
                IntervalBound::PositiveInfinity => mk(IntervalBound::NegativeInfinity, IntervalBound::NegativeInfinity),
                IntervalBound::Fixed { value, is_included } => mk(fixed(value, !is_included), IntervalBound::PositiveInfinity),
            },
            Direction::Backward => match range.left_bound {
                IntervalBound::NegativeInfinity => mk(IntervalBound::NegativeInfinity, IntervalBound::NegativeInfinity),
                IntervalBound::PositiveInfinity => mk(IntervalBound::NegativeInfinity, IntervalBound::PositiveInfinity),
                IntervalBound::Fixed { value, is_included } => mk(IntervalBound::NegativeInfinity, fixed(value, !is_included)),
            },
        }
    }

    /// The first occurrence after (forward) or the last one before (backward) the range listed
    /// last.
    pub fn next_occurrence(&self, direction: Direction) -> (r: SearchResult)
        ensures
            r == self.spec_searcher().spec_search(direction, Self::next_scope(self.spec_range(), direction)),
    {
        let scope = match direction {
            Direction::Forward => match self.range.right_bound {
                IntervalBound::NegativeInfinity => Interval::all(),
                IntervalBound::PositiveInfinity => Interval::empty(),
                IntervalBound::Fixed { value, is_included } => Interval::builder().left_bound(
                    value,
                    !is_included,
                ).right_unbounded().build(),
            },
            Direction::Backward => match self.range.left_bound {
                IntervalBound::NegativeInfinity => Interval::empty(),
                IntervalBound::PositiveInfinity => Interval::all(),
                IntervalBound::Fixed { value, is_included } => Interval::builder().left_unbounded().right_bound(
                    value,
                    !is_included,
                ).build(),
            },
        };
        self.searcher.search(direction, scope)
    }

    /// A backward step never goes past the range listed last: when that range starts at `o`, the
    /// occurrence found ends at or before `o` (covering no byte of the range), or, when `o`
    /// itself lies outside the range, covers no byte after `o`. A plain pattern's occurrence is
    /// never empty, so it also starts before that end.
    pub proof fn lemma_backward_step_stays_before(self, o: Integer, inc: bool)
        requires
            self.spec_range().left_bound == (IntervalBound::Fixed { value: o, is_included: inc }),
        ensures
            self.spec_searcher().spec_search(Direction::Backward, Self::next_scope(self.spec_range(), Direction::Backward))
                matches Ok(occ) ==> 0 <= occ.end <= (if inc { o as int } else { o + 1 }),
            self.spec_searcher() is Plain ==> (self.spec_searcher().spec_search(
                Direction::Backward,
                Self::next_scope(self.spec_range(), Direction::Backward),
            ) matches Ok(occ) ==> 0 <= occ.start < occ.end),
    {
        let scope = Self::next_scope(self.spec_range(), Direction::Backward);
        match self.spec_searcher() {
            AnySearcher::Plain(p) => {
                lemma_plain_result_within(
                    p.text_view_bytes(),
                    p.pattern_view(),
                    byte_len(p.text_view()) as Integer,
                    Direction::Backward,
                    scope,
                );
            },
            AnySearcher::Regex(r) => {
                lemma_regex_result_backward_within(r.text_view(), r.pattern_view(), scope);
            },
        }
    }

    /// A forward step for a plain pattern never goes back into the range listed last: when that
    /// range ends at `o`, the occurrence found starts after `o`, or at `o` when `o` itself lies
    /// outside the range.
    pub proof fn lemma_forward_step_stays_after(self, o: Integer, inc: bool)
        requires
            self.spec_range().right_bound == (IntervalBound::Fixed { value: o, is_included: inc }),
            self.spec_searcher() is Plain,
            byte_len(self.spec_searcher().text_view()) <= i64::MAX,
        ensures
            self.spec_searcher().spec_search(Direction::Forward, Self::next_scope(self.spec_range(), Direction::Forward))
                matches Ok(occ) ==> occ.start >= (if inc { o + 1 } else { o as int }),
    {
        let scope = Self::next_scope(self.spec_range(), Direction::Forward);
        if let AnySearcher::Plain(p) = self.spec_searcher() {
            p.lemma_text_bytes_len();
            lemma_plain_result_within(
                p.text_view_bytes(),
                p.pattern_view(),
                byte_len(p.text_view()) as Integer,
                Direction::Forward,
                scope,
            );
        }
    }

    /// Navigation starts from `offset`.
    pub fn set_initial_offset(&mut self, offset: Integer)
        ensures
            final(self).spec_range() == mk(fixed(offset, true), fixed(offset, true)),
            final(self).spec_cache() == old(self).spec_cache(),
            final(self).spec_searcher() == old(self).spec_searcher(),
    {
        self.range = Interval::point(offset);
    }
}

} // verus!
