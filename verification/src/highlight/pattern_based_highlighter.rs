use vstd::prelude::*;
use vstd::string::StringSliceAdditionalSpecFns;
use crate::highlight::highlight::Highlight;
use crate::search::regex_searcher_impl::{regex_captures, regex_compiles, RegexPattern};

verus! {

/// The spans of the groups that took part in a match, in the order of the groups.
pub open spec fn present_groups(g: Seq<Option<(usize, usize)>>) -> Seq<(usize, usize)>
    decreases g.len(),
{
    if g.len() == 0 {
        Seq::empty()
    } else {
        present_groups(g.drop_last()) + match g.last() {
            Some(m) => seq![m],
            None => Seq::empty(),
        }
    }
}

/// The spans of the groups of successive matches, match after match.
pub open spec fn capture_spans(c: Seq<Seq<Option<(usize, usize)>>>) -> Seq<(usize, usize)>
    decreases c.len(),
{
    if c.len() == 0 {
        Seq::empty()
    } else {
        capture_spans(c.drop_last()) + present_groups(c.last())
    }
}

/// The spans highlighted in `s` for `patterns`: pattern after pattern, those of its captures.
pub open spec fn pattern_spans(patterns: Seq<Seq<char>>, s: Seq<char>) -> Seq<(usize, usize)>
    decreases patterns.len(),
{
    if patterns.len() == 0 {
        Seq::empty()
    } else {
        pattern_spans(patterns.drop_last(), s) + capture_spans(regex_captures(patterns.last(), s))
    }
}

/// Whether a highlight starts no later than it ends, within `len` bytes.
pub open spec fn within<T: Clone>(h: Highlight<T>, len: nat) -> bool {
    h.spec_start() <= h.spec_end() <= len
}

/// The start and end of each highlight.
pub open spec fn spans_of<T: Clone>(h: Seq<Highlight<T>>) -> Seq<(usize, usize)> {
    h.map_values(|x: Highlight<T>| (x.spec_start(), x.spec_end()))
}

/// Highlights, with one payload, every group of every match of a list of regular expressions.
pub struct PatternBasedHighlighter<T> {
    patterns: Vec<RegexPattern>,
    t: T,
}

impl<T: Clone> PatternBasedHighlighter<T> {
    /// The expressions, in their order.
    pub closed spec fn spec_patterns(&self) -> Seq<Seq<char>> {
        self.patterns@.map_values(|p: RegexPattern| p.view())
    }

    pub closed spec fn spec_payload(&self) -> T {
        self.t
    }

    /// The highlighter for `patterns`, each of which must be a valid regular expression.
    pub fn new(patterns: Vec<&str>, t: T) -> (r: Self)
        requires
            forall|i: int| 0 <= i < patterns@.len() ==> regex_compiles(#[trigger] patterns@[i]@),
        ensures
            r.spec_patterns() == patterns@.map_values(|p: &str| p@),
            r.spec_payload() == t,
    {
        let mut compiled: Vec<RegexPattern> = Vec::new();
        let mut i: usize = 0;
        while i < patterns.len()
            invariant
                i <= patterns@.len(),
                forall|k: int| 0 <= k < patterns@.len() ==> regex_compiles(#[trigger] patterns@[k]@),
                compiled@.map_values(|p: RegexPattern| p.view()) == patterns@.take(i as int).map_values(|p: &str| p@),
            decreases patterns@.len() - i,
        {
            let p = RegexPattern::compile(patterns[i]).unwrap();
            proof {
                assert(patterns@.take(i + 1) =~= patterns@.take(i as int).push(patterns@[i as int]));
            }
            let ghost old_c = compiled@;
            compiled.push(p);
            proof {
                assert(compiled@.map_values(|p: RegexPattern| p.view()) =~= old_c.map_values(|p: RegexPattern| p.view()).push(
                    patterns@[i as int]@,
                ));
                assert(compiled@.map_values(|p: RegexPattern| p.view()) =~= patterns@.take(i + 1).map_values(|p: &str| p@));
            }
            i += 1;
        }
        proof {
            assert(patterns@.take(patterns@.len() as int) =~= patterns@);
        }
        PatternBasedHighlighter { patterns: compiled, t }
    }

    /// The highlighter for `patterns`, or none when one of them is not a valid regular
    /// expression.
    pub fn try_new(patterns: Vec<&str>, t: T) -> (r: Option<Self>)
        ensures
            r is Some <==> forall|i: int| 0 <= i < patterns@.len() ==> regex_compiles(#[trigger] patterns@[i]@),
            r matches Some(h) ==> h.spec_patterns() == patterns@.map_values(|p: &str| p@) && h.spec_payload() == t,
    {
        let mut i: usize = 0;
        while i < patterns.len()
            invariant
                i <= patterns@.len(),
                forall|k: int| 0 <= k < i ==> regex_compiles(#[trigger] patterns@[k]@),
            decreases patterns@.len() - i,
        {
            if RegexPattern::compile(patterns[i]).is_none() {
                return None;
            }
            i += 1;
        }
        Some(Self::new(patterns, t))
    }

    /// Appends one highlight for each group present in `groups`, in their order.
    fn push_groups(&self, r: &mut Vec<Highlight<T>>, groups: &Vec<Option<(usize, usize)>>, s: &str)
        requires
            forall|b: int| 0 <= b < groups@.len() ==> (#[trigger] groups@[b] matches Some(m) ==> m.0 <= m.1 <= s.spec_bytes().len()),
            forall|a: int| 0 <= a < old(r)@.len() ==> cloned(self.t, #[trigger] old(r)@[a].spec_payload()),
            forall|a: int| 0 <= a < old(r)@.len() ==> within(#[trigger] old(r)@[a], s.spec_bytes().len()),
        ensures
            spans_of(final(r)@) == spans_of(old(r)@) + present_groups(groups@),
            forall|a: int| 0 <= a < final(r)@.len() ==> cloned(self.t, #[trigger] final(r)@[a].spec_payload()),
            forall|a: int| 0 <= a < final(r)@.len() ==> within(#[trigger] final(r)@[a], s.spec_bytes().len()),
    {
        let ghost before = spans_of(r@);
        let mut k: usize = 0;
        while k < groups.len()
            invariant
                k <= groups@.len(),
                forall|b: int| 0 <= b < groups@.len() ==> (#[trigger] groups@[b] matches Some(m) ==> m.0 <= m.1 <= s.spec_bytes().len()),
                spans_of(r@) == before + present_groups(groups@.take(k as int)),
                forall|a: int| 0 <= a < r@.len() ==> cloned(self.t, #[trigger] r@[a].spec_payload()),
                forall|a: int| 0 <= a < r@.len() ==> within(#[trigger] r@[a], s.spec_bytes().len()),
            decreases groups@.len() - k,
        {
            proof {
                assert(groups@.take(k + 1).drop_last() =~= groups@.take(k as int));
                assert(groups@[k as int] matches Some(m) ==> m.0 <= m.1 <= s.spec_bytes().len());
            }
            match groups[k] {
                Some((a, b)) => {
                    let ghost old_r = r@;
                    r.push(Highlight::new(a, b, self.t.clone()));
                    proof {
                        assert(spans_of(r@) =~= spans_of(old_r).push((a, b)));
                        assert(spans_of(r@) =~= before + present_groups(groups@.take(k + 1)));
                    }
                },
                None => {
                    proof {
                        assert(present_groups(groups@.take(k + 1)) =~= present_groups(groups@.take(k as int)));
                    }
                },
            }
            k += 1;
        }
        proof {
            assert(groups@.take(groups@.len() as int) =~= groups@);
        }
    }

    /// Appends the highlights of the groups of each match in `caps`, match after match.
    fn push_captures(&self, r: &mut Vec<Highlight<T>>, caps: &Vec<Vec<Option<(usize, usize)>>>, s: &str)
        requires
            forall|a: int, b: int| 0 <= a < caps@.len() && 0 <= b < caps@[a]@.len() ==> (#[trigger] caps@[a]@[b] matches Some(m)
                ==> m.0 <= m.1 <= s.spec_bytes().len()),
            forall|a: int| 0 <= a < old(r)@.len() ==> cloned(self.t, #[trigger] old(r)@[a].spec_payload()),
            forall|a: int| 0 <= a < old(r)@.len() ==> within(#[trigger] old(r)@[a], s.spec_bytes().len()),
        ensures
            spans_of(final(r)@) == spans_of(old(r)@) + capture_spans(caps@.map_values(|v: Vec<Option<(usize, usize)>>| v@)),
            forall|a: int| 0 <= a < final(r)@.len() ==> cloned(self.t, #[trigger] final(r)@[a].spec_payload()),
            forall|a: int| 0 <= a < final(r)@.len() ==> within(#[trigger] final(r)@[a], s.spec_bytes().len()),
    {
        let ghost before = spans_of(r@);
        let ghost c = caps@.map_values(|v: Vec<Option<(usize, usize)>>| v@);
        let mut j: usize = 0;
        while j < caps.len()
            invariant
                j <= caps@.len(),
                c == caps@.map_values(|v: Vec<Option<(usize, usize)>>| v@),
                forall|a: int, b: int| 0 <= a < caps@.len() && 0 <= b < caps@[a]@.len() ==> (#[trigger] caps@[a]@[b] matches Some(m)
                    ==> m.0 <= m.1 <= s.spec_bytes().len()),
                spans_of(r@) == before + capture_spans(c.take(j as int)),
                forall|a: int| 0 <= a < r@.len() ==> cloned(self.t, #[trigger] r@[a].spec_payload()),
                forall|a: int| 0 <= a < r@.len() ==> within(#[trigger] r@[a], s.spec_bytes().len()),
            decreases caps@.len() - j,
        {
            proof {
                assert forall|b: int| 0 <= b < caps@[j as int]@.len() implies (#[trigger] caps@[j as int]@[b] matches Some(m)
                    ==> m.0 <= m.1 <= s.spec_bytes().len()) by {}
            }
            self.push_groups(r, &caps[j], s);
            proof {
                assert(c.take(j + 1).drop_last() =~= c.take(j as int));
                assert(c[j as int] == caps@[j as int]@);
                assert(spans_of(r@) =~= before + capture_spans(c.take(j + 1)));
            }
            j += 1;
        }
        proof {
            assert(c.take(c.len() as int) =~= c);
        }
    }

    /// One highlight for each group that took part in a match: expression after expression,
    /// match after match, group after group.
    pub fn process(&self, s: &str) -> (r: Vec<Highlight<T>>)
        ensures
            spans_of(r@) == pattern_spans(self.spec_patterns(), s@),
            forall|i: int| 0 <= i < r@.len() ==> cloned(self.spec_payload(), #[trigger] r@[i].spec_payload()),
            forall|i: int| 0 <= i < r@.len() ==> within(#[trigger] r@[i], s.spec_bytes().len()),
    {
        let mut r: Vec<Highlight<T>> = Vec::new();
        let ghost pats = self.spec_patterns();
        let mut i: usize = 0;
        while i < self.patterns.len()
            invariant
                i <= self.patterns@.len(),
                pats == self.spec_patterns(),
                spans_of(r@) == pattern_spans(pats.take(i as int), s@),
                forall|j: int| 0 <= j < r@.len() ==> cloned(self.t, #[trigger] r@[j].spec_payload()),
                forall|j: int| 0 <= j < r@.len() ==> within(#[trigger] r@[j], s.spec_bytes().len()),
            decreases self.patterns@.len() - i,
        {
            let caps = self.patterns[i].captures_all(s);
            proof {
                assert(caps@.map_values(|v: Vec<Option<(usize, usize)>>| v@) =~= regex_captures(pats[i as int], s@));
                assert(pats.take(i + 1).drop_last() =~= pats.take(i as int));
            }
            self.push_captures(&mut r, &caps, s);
            i += 1;
        }
        proof {
            assert(pats.take(pats.len() as int) =~= pats);
        }
        r
    }
}

} // verus!
