use vstd::prelude::*;
use vstd::string::StringExecFns;
use crate::data_source::read_delimited::Direction;
use crate::data_source::text::Text;
use crate::interval::{fixed, mk, Integer, IntervalBound};
use crate::model::navigable_searcher_constructor::{NavigableSearcherConstructor, NavigableSearcherConstructorError};
use crate::model::search::Search;
use crate::search::navigable_searcher_impl::NavigableSearcherImpl;
use crate::search::regex_searcher_impl::regex_compiles;
use crate::search::searcher::SearchResult;

verus! {

/// The state of the search dialog: the text searched, the pattern and the options.
pub struct SearchModel {
    pub text: Option<Text>,
    pub visible: bool,
    pub pattern: String,
    pub is_from_cursor: bool,
    pub cursor_pos: Option<Integer>,
    pub is_backward: bool,
    pub is_regexp: bool,
}

/// The searcher that a search started in `model` uses, before any step: it searches the text
/// of the model with its pattern, as a regular expression or not, from the cursor when asked.
pub open spec fn starts_searcher(model: SearchModel, n: NavigableSearcherImpl) -> bool {
    &&& n.spec_searcher().text_view() == model.text.unwrap().view()
    &&& (model.is_regexp <==> n.spec_searcher() is Regex)
    &&& n.spec_range() == match model.initial_offset() {
        Some(o) => mk(fixed(o, true), fixed(o, true)),
        None => mk(IntervalBound::NegativeInfinity, IntervalBound::NegativeInfinity),
    }
}

impl SearchModel {
    pub fn new() -> (r: Self)
        ensures
            r.text is None,
            !r.visible,
            r.pattern@ == Seq::<char>::empty(),
            !r.is_from_cursor,
            r.cursor_pos is None,
            !r.is_backward,
            !r.is_regexp,
    {
        SearchModel {
            text: None,
            visible: false,
            pattern: String::new(),
            is_from_cursor: false,
            cursor_pos: None,
            is_backward: false,
            is_regexp: false,
        }
    }

    /// The text to search: the content of the file opened.
    pub fn set_source(&mut self, text: Text)
        ensures
            final(self).text == Some(text),
            final(self).visible == old(self).visible,
            final(self).pattern == old(self).pattern,
            final(self).is_from_cursor == old(self).is_from_cursor,
            final(self).cursor_pos == old(self).cursor_pos,
            final(self).is_backward == old(self).is_backward,
            final(self).is_regexp == old(self).is_regexp,
    {
        self.text = Some(text);
    }

    /// Shows or hides the dialog; returns the new state to announce when it changed.
    pub fn set_visible(&mut self, visible: bool) -> (r: Option<bool>)
        ensures
            final(self).visible == visible,
            r == (if old(self).visible != visible { Some(visible) } else { None }),
            final(self).text == old(self).text,
            final(self).pattern == old(self).pattern,
            final(self).is_from_cursor == old(self).is_from_cursor,
            final(self).cursor_pos == old(self).cursor_pos,
            final(self).is_backward == old(self).is_backward,
            final(self).is_regexp == old(self).is_regexp,
    {
        if self.visible != visible {
            self.visible = visible;
            Some(visible)
        } else {
            None
        }
    }

    pub fn is_visible(&self) -> (r: bool)
        ensures
            r == self.visible,
    {
        self.visible
    }

    pub fn set_pattern(&mut self, pattern: &str)
        ensures
            final(self).pattern@ == pattern@,
            final(self).text == old(self).text,
            final(self).visible == old(self).visible,
            final(self).is_from_cursor == old(self).is_from_cursor,
            final(self).cursor_pos == old(self).cursor_pos,
            final(self).is_backward == old(self).is_backward,
            final(self).is_regexp == old(self).is_regexp,
    {
        self.pattern = String::from_str(pattern);
    }

    pub fn get_pattern(&self) -> (r: &str)
        ensures
            r@ == self.pattern@,
    {
        self.pattern.as_str()
    }

    /// Where the search starts: the cursor, when searching from it and it is known.
    pub open spec fn initial_offset(self) -> Option<Integer> {
        if self.is_from_cursor {
            self.cursor_pos
        } else {
            None
        }
    }

    /// A search could be started: a text and a pattern are set.
    pub open spec fn spec_can_search(self) -> bool {
        self.text is Some && self.pattern@.len() > 0
    }

    /// Starts a search with the pattern and options set: the searcher is made and asked for
    /// the first occurrence in the chosen direction. Returns the search and what it found, to
    /// announce, or what is missing.
    pub fn start_search(&self) -> (r: Result<(Search, SearchResult), NavigableSearcherConstructorError>)
        requires
            self.spec_can_search() && self.is_regexp ==> regex_compiles(self.pattern@),
        ensures
            self.text is None ==> r == Err::<(Search, SearchResult), NavigableSearcherConstructorError>(NavigableSearcherConstructorError::FileNotSet),
            self.text is Some && self.pattern@.len() == 0 ==> r == Err::<(Search, SearchResult), NavigableSearcherConstructorError>(NavigableSearcherConstructorError::PatternIsEmpty),
            self.spec_can_search() ==> r is Ok,
            r matches Ok((s, found)) ==> {
                let direction = if self.is_backward { Direction::Backward } else { Direction::Forward };
                &&& starts_searcher(*self, s.spec_searcher())
                &&& found == s.spec_searcher().spec_searcher().spec_search(
                    direction,
                    NavigableSearcherImpl::next_scope(s.spec_searcher().spec_range(), direction),
                )
                &&& s.spec_last_occurrence() == match found {
                    Ok(o) => Some(o),
                    Err(_) => None,
                }
            },
    {
        let text = match &self.text {
            Some(t) => Some(t.copy()),
            None => None,
        };
        let initial_offset = if self.is_from_cursor { self.cursor_pos } else { None };
        let constructor = NavigableSearcherConstructor {
            text,
            pattern: self.pattern.clone(),
            is_regexp: self.is_regexp,
            initial_offset,
            is_backward: self.is_backward,
        };
        assert(constructor.pattern@ == self.pattern@);
        let searcher = match constructor.construct_searcher() {
            Ok(searcher) => searcher,
            Err(e) => return Err(e),
        };
        let direction = Direction::from_bool(!self.is_backward);
        let mut search = Search::new(searcher);
        let found = search.search(direction);
        Ok((search, found))
    }

    /// Starts a search as `start_search` does; `None` when the pattern is a regular
    /// expression that does not compile.
    pub fn try_start_search(&self) -> (r: Option<Result<(Search, SearchResult), NavigableSearcherConstructorError>>)
        ensures
            r is None <==> (self.spec_can_search() && self.is_regexp && !regex_compiles(self.pattern@)),
            self.text is None ==> r == Some(Err::<(Search, SearchResult), NavigableSearcherConstructorError>(NavigableSearcherConstructorError::FileNotSet)),
            self.text is Some && self.pattern@.len() == 0 ==> r == Some(Err::<(Search, SearchResult), NavigableSearcherConstructorError>(NavigableSearcherConstructorError::PatternIsEmpty)),
            self.spec_can_search() && r is Some ==> r.unwrap() is Ok,
            r matches Some(Ok((s, found))) ==> {
                let direction = if self.is_backward { Direction::Backward } else { Direction::Forward };
                &&& starts_searcher(*self, s.spec_searcher())
                &&& found == s.spec_searcher().spec_searcher().spec_search(
                    direction,
                    NavigableSearcherImpl::next_scope(s.spec_searcher().spec_range(), direction),
                )
                &&& s.spec_last_occurrence() == match found {
                    Ok(o) => Some(o),
                    Err(_) => None,
                }
            },
    {
        if self.spec_can_search_exec() && self.is_regexp
            && !crate::search::navigable_searcher_impl::is_valid_regex(self.pattern.as_str()) {
            return None;
        }
        Some(self.start_search())
    }

    fn spec_can_search_exec(&self) -> (r: bool)
        ensures
            r == self.spec_can_search(),
    {
        self.text.is_some() && self.pattern.as_str().unicode_len() > 0
    }

    pub fn is_from_cursor(&self) -> (r: bool)
        ensures
            r == self.is_from_cursor,
    {
        self.is_from_cursor
    }

    /// Searches from the cursor or not; forgetting the cursor when not. Returns whether the
    /// change is to be announced.
    pub fn set_from_cursor(&mut self, is_from_cursor: bool) -> (r: bool)
        ensures
            r == (old(self).is_from_cursor != is_from_cursor),
            final(self).is_from_cursor == is_from_cursor,
            final(self).cursor_pos == if r && !is_from_cursor { None } else { old(self).cursor_pos },
            final(self).text == old(self).text,
            final(self).visible == old(self).visible,
            final(self).pattern == old(self).pattern,
            final(self).is_backward == old(self).is_backward,
            final(self).is_regexp == old(self).is_regexp,
    {
        if self.is_from_cursor != is_from_cursor {
            self.is_from_cursor = is_from_cursor;
            if !is_from_cursor {
                self.cursor_pos = None;
            }
            true
        } else {
            false
        }
    }

    pub fn set_cursor(&mut self, cursor: Integer)
        ensures
            final(self).cursor_pos == Some(cursor),
            final(self).text == old(self).text,
            final(self).visible == old(self).visible,
            final(self).pattern == old(self).pattern,
            final(self).is_from_cursor == old(self).is_from_cursor,
            final(self).is_backward == old(self).is_backward,
            final(self).is_regexp == old(self).is_regexp,
    {
        self.cursor_pos = Some(cursor);
    }

    pub fn is_backward(&self) -> (r: bool)
        ensures
            r == self.is_backward,
    {
        self.is_backward
    }

    pub fn set_backward(&mut self, is_backward: bool)
        ensures
            final(self).is_backward == is_backward,
            final(self).text == old(self).text,
            final(self).visible == old(self).visible,
            final(self).pattern == old(self).pattern,
            final(self).is_from_cursor == old(self).is_from_cursor,
            final(self).cursor_pos == old(self).cursor_pos,
            final(self).is_regexp == old(self).is_regexp,
    {
        self.is_backward = is_backward;
    }

    pub fn is_regexp(&self) -> (r: bool)
        ensures
            r == self.is_regexp,
    {
        self.is_regexp
    }

    pub fn set_regexp(&mut self, is_regexp: bool)
        ensures
            final(self).is_regexp == is_regexp,
            final(self).text == old(self).text,
            final(self).visible == old(self).visible,
            final(self).pattern == old(self).pattern,
            final(self).is_from_cursor == old(self).is_from_cursor,
            final(self).cursor_pos == old(self).cursor_pos,
            final(self).is_backward == old(self).is_backward,
    {
        self.is_regexp = is_regexp;
    }
}

} // verus!
