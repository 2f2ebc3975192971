use vstd::prelude::*;
use vstd::string::StringExecFns;
use crate::data_source::line_registry::LineRegistryError;
use crate::interval::{Integer, Interval, fixed, mk};

verus! {

/// Why a line carries no line number.
#[derive(PartialEq, Eq, Structural, Copy, Clone, Debug)]
pub enum LineNumberMissingReason {
    LineNumberingTurnedOff,
    Delegate(LineRegistryError),
    MissingData,
}

pub type LineNumberResult = Result<u64, LineNumberMissingReason>;

/// A highlighted span of a line, in bytes from the start of its content.
#[derive(PartialEq, Eq, Structural, Copy, Clone, Debug)]
pub struct CustomHighlight {
    pub start: usize,
    pub end: usize,
}

impl CustomHighlight {
    pub fn new(start: usize, end: usize) -> (r: Self)
        ensures
            r.start == start,
            r.end == end,
    {
        CustomHighlight { start, end }
    }

    pub fn start(&self) -> (r: usize)
        ensures
            r == self.start,
    {
        self.start
    }

    pub fn end(&self) -> (r: usize)
        ensures
            r == self.end,
    {
        self.end
    }
}

/// The highlights a producer stored under one key.
#[derive(PartialEq, Eq, Debug)]
pub struct KeyedHighlights {
    pub key: String,
    pub items: Vec<CustomHighlight>,
}

impl Clone for KeyedHighlights {
    fn clone(&self) -> (r: Self)
        ensures
            r.key@ == self.key@,
            r.items@ == self.items@,
    {
        KeyedHighlights { key: self.key.clone(), items: self.items.clone() }
    }
}

/// Highlights grouped by the key of their producer.
pub type CustomHighlights = Vec<KeyedHighlights>;

/// A line (or another segment) of a text with its offsets.
#[derive(Debug, PartialEq, Eq)]
pub struct Line {
    pub content: String,
    /// offset of the first symbol of the line
    pub start: Integer,
    /// offset just past the last symbol of the line
    pub end: Integer,
    pub line_no: LineNumberResult,
    /// every producer can store additional data along with the line itself
    pub custom_highlights: CustomHighlights,
}

impl Line {
    pub fn new(content: &str, start: Integer, end: Integer) -> (r: Self)
        ensures
            r.content@ == content@,
            r.start == start,
            r.end == end,
            r.line_no == Err::<u64, LineNumberMissingReason>(
                LineNumberMissingReason::LineNumberingTurnedOff,
            ),
            r.custom_highlights@.len() == 0,
    {
        Line {
            content: String::from_str(content),
            start,
            end,
            line_no: Err(LineNumberMissingReason::LineNumberingTurnedOff),
            custom_highlights: Vec::new(),
        }
    }

    pub fn new_with_line_no(content: &str, start: Integer, end: Integer, line_no: u64) -> (r: Self)
        ensures
            r.content@ == content@,
            r.start == start,
            r.end == end,
            r.line_no == Ok::<u64, LineNumberMissingReason>(line_no),
            r.custom_highlights@.len() == 0,
    {
        Line {
            content: String::from_str(content),
            start,
            end,
            line_no: Ok(line_no),
            custom_highlights: Vec::new(),
        }
    }

    pub fn builder() -> (r: LineBuilder)
        ensures
            r.content is None,
            r.start is None,
            r.end is None,
            r.line_no is None,
            r.custom_highlights is None,
    {
        LineBuilder::default()
    }

    /// A builder holding the content, offsets and line number of this line (not its highlights).
    pub fn to_builder(self) -> (r: LineBuilder)
        ensures
            r.content == Some(self.content),
            r.start == Some(self.start),
            r.end == Some(self.end),
            r.line_no == Some(self.line_no),
            r.custom_highlights is None,
    {
        LineBuilder::default().with_start(self.start).with_end(self.end).with_line_no(
            self.line_no,
        ).with_content(self.content)
    }

    /// The closed interval `[start, end]`.
    pub fn as_interval(&self) -> (r: Interval)
        ensures
            r == mk(fixed(self.start, true), fixed(self.end, true)),
    {
        Interval::closed(self.start, self.end)
    }
}

impl Clone for Line {
    fn clone(&self) -> (r: Self)
        ensures
            r.content@ == self.content@,
            r.start == self.start,
            r.end == self.end,
            r.line_no == self.line_no,
            r.custom_highlights@.len() == self.custom_highlights@.len(),
    {
        Line {
            content: self.content.clone(),
            start: self.start,
            end: self.end,
            line_no: self.line_no,
            custom_highlights: self.custom_highlights.clone(),
        }
    }
}

/// Step-by-step construction of a line.
#[derive(Debug, PartialEq, Eq)]
pub struct LineBuilder {
    pub content: Option<String>,
    pub start: Option<Integer>,
    pub end: Option<Integer>,
    pub line_no: Option<LineNumberResult>,
    pub custom_highlights: Option<CustomHighlights>,
}

/// Highlights after `value` was added under `key`.
pub open spec fn highlights_with(h: Seq<KeyedHighlights>, key: Seq<char>, value: Seq<CustomHighlight>) -> Seq<(Seq<char>, Seq<CustomHighlight>)> {
    let v = h.map_values(|e: KeyedHighlights| (e.key@, e.items@));
    if exists|i: int| 0 <= i < v.len() && v[i].0 == key {
        let i = choose|i: int| 0 <= i < v.len() && v[i].0 == key && forall|j: int| 0 <= j < i ==> v[j].0 != key;
        v.update(i, (key, v[i].1 + value))
    } else {
        v.push((key, value))
    }
}

impl LineBuilder {
    pub fn default() -> (r: Self)
        ensures
            r.content is None,
            r.start is None,
            r.end is None,
            r.line_no is None,
            r.custom_highlights is None,
    {
        LineBuilder { content: None, start: None, end: None, line_no: None, custom_highlights: None }
    }

    pub fn with_content(self, content: String) -> (r: Self)
        ensures
            r == (LineBuilder { content: Some(content), ..self }),
    {
        let mut s = self;
        s.content = Some(content);
        s
    }

    pub fn with_start(self, start: Integer) -> (r: Self)
        ensures
            r == (LineBuilder { start: Some(start), ..self }),
    {
        let mut s = self;
        s.start = Some(start);
        s
    }

    pub fn with_end(self, end: Integer) -> (r: Self)
        ensures
            r == (LineBuilder { end: Some(end), ..self }),
    {
        let mut s = self;
        s.end = Some(end);
        s
    }

    pub fn with_line_no(self, n: LineNumberResult) -> (r: Self)
        ensures
            r == (LineBuilder { line_no: Some(n), ..self }),
    {
        let mut s = self;
        s.line_no = Some(n);
        s
    }

    /// Adds one highlight under `key`.
    pub fn with_custom_highlight(self, key: &str, value: CustomHighlight) -> (r: Self)
        ensures
            r.content == self.content,
            r.start == self.start,
            r.end == self.end,
            r.line_no == self.line_no,
            r.custom_highlights is Some,
            r.custom_highlights.unwrap()@.map_values(|e: KeyedHighlights| (e.key@, e.items@))
                == highlights_with(
                match self.custom_highlights {
                    Some(h) => h@,
                    None => Seq::empty(),
                },
                key@,
                seq![value],
            ),
    {
        let mut v = Vec::new();
        v.push(value);
        self.with_custom_highlights(key, v)
    }

    /// Adds highlights under `key`, after those already stored under it.
    pub fn with_custom_highlights(self, key: &str, value: Vec<CustomHighlight>) -> (r: Self)
        ensures
            r.content == self.content,
            r.start == self.start,
            r.end == self.end,
            r.line_no == self.line_no,
            r.custom_highlights is Some,
            r.custom_highlights.unwrap()@.map_values(|e: KeyedHighlights| (e.key@, e.items@))
                == highlights_with(
                match self.custom_highlights {
                    Some(h) => h@,
                    None => Seq::empty(),
                },
                key@,
                value@,
            ),
    {
        let mut s = self;
        let mut h = match s.custom_highlights {
            Some(h) => h,
            None => Vec::new(),
        };
        let ghost h0 = h@;
        let ghost v0 = h0.map_values(|e: KeyedHighlights| (e.key@, e.items@));
        let k = String::from_str(key);
        let mut i: usize = 0;
        while i < h.len() && !(h[i].key == k)
            invariant
                h@ == h0,
                i <= h@.len(),
                k@ == key@,
                forall|j: int| 0 <= j < i ==> v0[j].0 != key@,
                v0 == h0.map_values(|e: KeyedHighlights| (e.key@, e.items@)),
            decreases h@.len() - i,
        {
            i += 1;
        }
        if i < h.len() {
            let mut entry = h.remove(i);
            let ghost e0 = entry;
            let mut value = value;
            let ghost val0 = value@;
            entry.items.append(&mut value);
            h.insert(i, entry);
            proof {
                assert(h@ =~= h0.update(i as int, entry));
                assert(entry.key == e0.key);
                assert(entry.items@ == e0.items@ + val0);
                assert(v0[i as int].0 == key@);
                assert(exists|j: int| 0 <= j < v0.len() && v0[j].0 == key@);
                let c = choose|j: int| 0 <= j < v0.len() && v0[j].0 == key@ && forall|l: int| 0 <= l < j ==> v0[l].0 != key@;
                assert(c == i);
                assert(h@.map_values(|e: KeyedHighlights| (e.key@, e.items@)) =~= v0.update(i as int, (key@, v0[i as int].1 + val0)));
            }
        } else {
            let entry = KeyedHighlights { key: k, items: value };
            h.push(entry);
            proof {
                assert(h@.map_values(|e: KeyedHighlights| (e.key@, e.items@)) =~= v0.push((key@, value@)));
            }
        }
        s.custom_highlights = Some(h);
        s
    }

    /// The line; content and both offsets must have been given.
    pub fn build(self) -> (r: Line)
        requires
            self.content is Some,
            self.start is Some,
            self.end is Some,
        ensures
            r.content == self.content.unwrap(),
            r.start == self.start.unwrap(),
            r.end == self.end.unwrap(),
            r.line_no == match self.line_no {
                Some(n) => n,
                None => Err(LineNumberMissingReason::LineNumberingTurnedOff),
            },
            self.custom_highlights is Some ==> r.custom_highlights == self.custom_highlights.unwrap(),
            self.custom_highlights is None ==> r.custom_highlights@.len() == 0,
    {
        let line_no = match self.line_no {
            Some(n) => n,
            None => Err(LineNumberMissingReason::LineNumberingTurnedOff),
        };
        let custom_highlights = match self.custom_highlights {
            Some(h) => h,
            None => Vec::new(),
        };
        Line {
            content: self.content.unwrap(),
            start: self.start.unwrap(),
            end: self.end.unwrap(),
            line_no,
            custom_highlights,
        }
    }
}

} // verus!
