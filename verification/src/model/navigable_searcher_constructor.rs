use vstd::prelude::*;
use vstd::string::StringExecFns;
use crate::data_source::text::Text;
use crate::interval::{fixed, mk, Integer};
use crate::search::navigable_searcher_impl::{create_searcher, is_valid_regex, NavigableSearcherImpl};
use crate::search::regex_searcher_impl::regex_compiles;

verus! {

/// Why no searcher could be made.
#[derive(PartialEq, Eq, Structural, Copy, Clone, Debug)]
pub enum NavigableSearcherConstructorError {
    FileNotSet,
    PatternIsEmpty,
}

pub open spec fn constructor_error_message(e: NavigableSearcherConstructorError) -> Seq<char> {
    match e {
        NavigableSearcherConstructorError::PatternIsEmpty => "Pattern is empty"@,
        NavigableSearcherConstructorError::FileNotSet => "File (data source) not specified"@,
    }
}

impl NavigableSearcherConstructorError {
    /// The message shown to the user.
    pub fn to_string(&self) -> (r: String)
        ensures
            r@ == constructor_error_message(*self),
    {
        match self {
            NavigableSearcherConstructorError::PatternIsEmpty => String::from_str("Pattern is empty"),
            NavigableSearcherConstructorError::FileNotSet => String::from_str("File (data source) not specified"),
        }
    }
}

/// What a search is made of: the text searched (once a file is open), the pattern, whether it
/// is a regular expression, and where and in which direction navigation starts.
pub struct NavigableSearcherConstructor {
    pub text: Option<Text>,
    pub pattern: String,
    pub is_regexp: bool,
    pub initial_offset: Option<Integer>,
    pub is_backward: bool,
}

impl NavigableSearcherConstructor {
    /// Whether the searcher can be made without error.
    pub open spec fn spec_is_complete(self) -> bool {
        self.text is Some && self.pattern@.len() > 0
    }

    /// Makes the searcher, or names what is missing (a regular expression has to compile).
    pub fn construct_searcher(self) -> (r: Result<NavigableSearcherImpl, NavigableSearcherConstructorError>)
        requires
            self.spec_is_complete() && self.is_regexp ==> regex_compiles(self.pattern@),
        ensures
            self.text is None ==> r == Err::<NavigableSearcherImpl, NavigableSearcherConstructorError>(NavigableSearcherConstructorError::FileNotSet),
            self.text is Some && self.pattern@.len() == 0 ==> r == Err::<NavigableSearcherImpl, NavigableSearcherConstructorError>(NavigableSearcherConstructorError::PatternIsEmpty),
            self.spec_is_complete() ==> r is Ok,
            r matches Ok(n) ==> {
                &&& n.spec_searcher().text_view() == self.text.unwrap().view()
                &&& (self.is_regexp <==> n.spec_searcher() is Regex)
                &&& n.spec_cache().len() == 0
                &&& n.spec_range() == match self.initial_offset {
                    Some(o) => mk(fixed(o, true), fixed(o, true)),
                    None => mk(crate::interval::IntervalBound::NegativeInfinity, crate::interval::IntervalBound::NegativeInfinity),
                }
            },
    {
        let text = match self.text {
            Some(t) => t,
            None => return Err(NavigableSearcherConstructorError::FileNotSet),
        };
        if self.pattern.as_str().unicode_len() == 0 {
            return Err(NavigableSearcherConstructorError::PatternIsEmpty);
        }
        let searcher = create_searcher(text, self.pattern.as_str(), self.is_regexp);
        let mut navigable_searcher = NavigableSearcherImpl::new(searcher);
        if let Some(initial_offset) = self.initial_offset {
            navigable_searcher.set_initial_offset(initial_offset);
        }
        Ok(navigable_searcher)
    }

    /// Makes the searcher, or names what is missing; `None` when the pattern is a regular
    /// expression that does not compile.
    pub fn try_construct_searcher(self) -> (r: Option<Result<NavigableSearcherImpl, NavigableSearcherConstructorError>>)
        ensures
            r is None <==> (self.spec_is_complete() && self.is_regexp && !regex_compiles(self.pattern@)),
            self.text is None ==> r == Some(Err::<NavigableSearcherImpl, NavigableSearcherConstructorError>(NavigableSearcherConstructorError::FileNotSet)),
            self.text is Some && self.pattern@.len() == 0 ==> r == Some(Err::<NavigableSearcherImpl, NavigableSearcherConstructorError>(NavigableSearcherConstructorError::PatternIsEmpty)),
            self.spec_is_complete() && r is Some ==> r.unwrap() is Ok,
            r matches Some(Ok(n)) ==> {
                &&& n.spec_searcher().text_view() == self.text.unwrap().view()
                &&& (self.is_regexp <==> n.spec_searcher() is Regex)
                &&& n.spec_cache().len() == 0
                &&& n.spec_range() == match self.initial_offset {
                    Some(o) => mk(fixed(o, true), fixed(o, true)),
                    None => mk(crate::interval::IntervalBound::NegativeInfinity, crate::interval::IntervalBound::NegativeInfinity),
                }
            },
    {
        let complete = self.text.is_some() && self.pattern.as_str().unicode_len() > 0;
        if complete && self.is_regexp && !is_valid_regex(self.pattern.as_str()) {
            return None;
        }
        Some(self.construct_searcher())
    }
}

} // verus!
