use vstd::prelude::*;
use vstd::string::StringExecFns;
use crate::data_source::line::LineNumberResult;
use crate::data_source::line_source::LineSourceImpl;
use crate::data_source::read_delimited::{
    count_range, first_line_no, line_no_after, segments, trim_end, DelimiterKind, Direction,
};
use crate::data_source::text::{byte_len, pos};
use crate::interval::Integer;
use crate::model::rendered::{graphemes_of, graphemes_spec, DataRender, LineRender};

verus! {

/// What a line shows: its content, start, end and number.
pub type LineView = (Seq<char>, int, int, LineNumberResult);

pub open spec fn render_view(l: LineRender) -> LineView {
    (l.content@, l.start as int, l.end as int, l.line_no)
}

/// The line that `src` gives when read at offset `o`, forward or backward.
pub open spec fn source_line(src: LineSourceImpl, o: int, backward: bool) -> Option<LineView> {
    let s = src.view();
    let n: int = if backward { -1 } else { 1 };
    let segs = segments(s, DelimiterKind::LineBreak, o, n, true).0;
    if o < 0 || o > byte_len(s) || segs.len() == 0 {
        None
    } else {
        let g = segs[0];
        let t = trim_end(s, g.a, g.b);
        let start = if backward && g.a > 0 {
            (pos(s, g.a - 1) + 1) as int
        } else {
            pos(s, g.a) as int
        };
        Some((
            s.subrange(g.a, t),
            start,
            pos(s, g.b) - (g.b - t),
            line_no_after(first_line_no(src.numbering(), count_range(o as Integer, n as Integer)), g.d, backward),
        ))
    }
}

/// An empty line is shown as a single space.
pub open spec fn shown(v: LineView) -> LineView {
    if v.0.len() == 0 {
        (seq![' '], v.1, v.2, v.3)
    } else {
        v
    }
}

impl Clone for LineRender {
    fn clone(&self) -> (r: Self)
        ensures
            r.content@ == self.content@,
            r.start == self.start,
            r.end == self.end,
            r.line_no == self.line_no,
            r.render@ == self.render@,
    {
        let render = self.render.clone();
        assert(render@ =~= self.render@);
        LineRender {
            content: self.content.clone(),
            start: self.start,
            end: self.end,
            line_no: self.line_no,
            custom_highlights: self.custom_highlights.clone(),
            render,
        }
    }
}

/// Walks the lines from a line of the viewport in one direction: lines of the viewport while
/// there are, then lines read from the data source.
pub struct LineIterator<'a> {
    cache: &'a DataRender,
    datasource: &'a LineSourceImpl,
    direction: Direction,
    current_line: Option<LineRender>,
    line_number: Integer,
    started: bool,
    exhausted: bool,
}

impl<'a> LineIterator<'a> {
    pub closed spec fn spec_cache(&self) -> DataRender {
        *self.cache
    }

    pub closed spec fn spec_datasource(&self) -> LineSourceImpl {
        *self.datasource
    }

    pub closed spec fn spec_direction(&self) -> Direction {
        self.direction
    }

    /// The line reached last, as read (an empty line is not replaced).
    pub closed spec fn spec_current(&self) -> Option<LineView> {
        match self.current_line {
            Some(l) => Some(render_view(l)),
            None => None,
        }
    }

    /// The index in the viewport of the line reached last.
    pub closed spec fn spec_line_number(&self) -> Integer {
        self.line_number
    }

    pub closed spec fn spec_started(&self) -> bool {
        self.started
    }

    pub closed spec fn spec_exhausted(&self) -> bool {
        self.exhausted
    }

    /// The line the next step reaches: first the viewport line `line_number`; then the next
    /// (or previous) viewport line, or else the line read from the data source just past
    /// (or before) the line reached last.
    pub open spec fn step(&self) -> Option<LineView> {
        let cache = self.spec_cache().lines@;
        let ln = self.spec_line_number() as int;
        if self.spec_exhausted() {
            None
        } else if !self.spec_started() {
            if 0 <= ln < cache.len() {
                Some(render_view(cache[ln]))
            } else {
                None
            }
        } else {
            match self.spec_direction() {
                Direction::Forward => if 0 <= ln + 1 < cache.len() {
                    Some(render_view(cache[ln + 1]))
                } else {
                    match self.spec_current() {
                        Some(c) => source_line(self.spec_datasource(), c.2 + 1, false),
                        None => None,
                    }
                },
                Direction::Backward => if 0 <= ln - 1 < cache.len() {
                    Some(render_view(cache[ln - 1]))
                } else {
                    match self.spec_current() {
                        Some(c) => source_line(self.spec_datasource(), c.1 - 1, true),
                        None => None,
                    }
                },
            }
        }
    }

    pub fn new(
        cache: &'a DataRender,
        datasource: &'a LineSourceImpl,
        direction: Direction,
        line_number: Integer,
    ) -> (r: Self)
        ensures
            r.spec_cache() == *cache,
            r.spec_datasource() == *datasource,
            r.spec_direction() == direction,
            r.spec_current() is None,
            r.spec_line_number() == line_number,
            !r.spec_started(),
            !r.spec_exhausted(),
    {
        LineIterator {
            cache,
            datasource,
            direction,
            current_line: None,
            line_number,
            started: false,
            exhausted: false,
        }
    }

    fn read_non_cached_line(&self, backward: bool) -> (r: Option<LineRender>)
        ensures
            match r {
                Some(l) => self.spec_current() matches Some(c) && Some(render_view(l)) == source_line(
                    self.spec_datasource(),
                    if backward { c.1 - 1 } else { c.2 + 1 },
                    backward,
                ),
                None => match self.spec_current() {
                    Some(c) => source_line(self.spec_datasource(), if backward { c.1 - 1 } else { c.2 + 1 }, backward) is None,
                    None => true,
                },
            },
    {
        match &self.current_line {
            None => None,
            Some(current) => {
                if backward {
                    if current.start == i64::MIN {
                        return None;
                    }
                    match self.datasource.read_prev_line(current.start - 1) {
                        Some(line) => Some(LineRender::new(line)),
                        None => None,
                    }
                } else {
                    // past the end of the text there is no line
                    if current.end >= self.datasource.get_length() {
                        return None;
                    }
                    match self.datasource.read_next_line(current.end + 1) {
                        Some(line) => Some(LineRender::new(line)),
                        None => None,
                    }
                }
            },
        }
    }

    /// The line shown for `line_render`: an empty line becomes a single space.
    fn replace_empty_line_with_space(line_render: LineRender) -> (r: LineRender)
        ensures
            render_view(r) == shown(render_view(line_render)),
            r.render@ == if line_render.content@.len() == 0 {
                graphemes_spec(seq![' '])
            } else {
                line_render.render@
            },
    {
        if line_render.content.as_str().unicode_len() == 0 {
            let content = String::from_str(" ");
            proof {
                reveal_strlit(" ");
            }
            let render = graphemes_of(content.as_str());
            LineRender {
                content,
                start: line_render.start,
                end: line_render.end,
                line_no: line_render.line_no,
                custom_highlights: line_render.custom_highlights,
                render,
            }
        } else {
            line_render
        }
    }

    /// The next line, as shown; `None` once the lines run out. The index in the viewport
    /// moves by one for every step after the first (it stays at the limit of `Integer`).
    pub fn next(&mut self) -> (r: Option<LineRender>)
        ensures
            match r {
                Some(l) => old(self).step() matches Some(v) && render_view(l) == shown(v),
                None => old(self).step() is None,
            },
            final(self).spec_exhausted() == (old(self).spec_exhausted() || old(self).step() is None),
            final(self).spec_started() == (old(self).spec_started() || !old(self).spec_exhausted()),
            final(self).spec_current() == if old(self).spec_exhausted() || (!old(self).spec_started() && old(self).step() is None) {
                old(self).spec_current()
            } else {
                old(self).step()
            },
            final(self).spec_line_number() == if old(self).spec_exhausted() || !old(self).spec_started() {
                old(self).spec_line_number()
            } else {
                match old(self).spec_direction() {
                    Direction::Forward => if old(self).spec_line_number() < i64::MAX {
                        (old(self).spec_line_number() + 1) as Integer
                    } else {
                        old(self).spec_line_number()
                    },
                    Direction::Backward => if old(self).spec_line_number() > i64::MIN {
                        (old(self).spec_line_number() - 1) as Integer
                    } else {
                        old(self).spec_line_number()
                    },
                }
            },
            final(self).spec_cache() == old(self).spec_cache(),
            final(self).spec_datasource() == old(self).spec_datasource(),
            final(self).spec_direction() == old(self).spec_direction(),
    {
        if self.exhausted {
            return None;
        }
        let n = self.cache.lines.len();
        if !self.started {
            self.started = true;
            if 0 <= self.line_number && (self.line_number as i128) < (n as i128) {
                let line = self.cache.lines[self.line_number as usize].clone();
                self.current_line = Some(line.clone());
                return Some(Self::replace_empty_line_with_space(line));
            } else {
                self.exhausted = true;
                return None;
            }
        }
        let backward = match self.direction {
            Direction::Forward => false,
            Direction::Backward => true,
        };
        let k: i128 = if backward {
            self.line_number as i128 - 1
        } else {
            self.line_number as i128 + 1
        };
        let next_line = if 0 <= k && k < n as i128 {
            Some(self.cache.lines[k as usize].clone())
        } else {
            self.read_non_cached_line(backward)
        };
        if next_line.is_none() {
            self.exhausted = true;
        }
        self.current_line = match &next_line {
            Some(l) => Some(l.clone()),
            None => None,
        };
        if backward {
            if self.line_number > i64::MIN {
                self.line_number = self.line_number - 1;
            }
        } else {
            if self.line_number < i64::MAX {
                self.line_number = self.line_number + 1;
            }
        }
        match next_line {
            Some(l) => Some(Self::replace_empty_line_with_space(l)),
            None => None,
        }
    }
}

} // verus!
