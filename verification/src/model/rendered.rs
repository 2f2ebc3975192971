use vstd::prelude::*;
use vstd::string::StringSliceAdditionalSpecFns;
use crate::data_source::line::{CustomHighlights, Line, LineBuilder, LineNumberMissingReason, LineNumberResult};
use crate::data_source::read_delimited::Data;
use crate::data_source::text::{char_width_exec, lemma_byte_len_encode, lemma_pos_full, lemma_pos_monotonic, lemma_pos_step, pos, byte_len};
use crate::interval::Integer;

verus! {

/// How one grapheme of a line is shown: each char of the content is one grapheme, shown at the
/// byte offset where it stands.
#[derive(PartialEq, Eq, Structural, Copy, Clone, Debug)]
pub struct GraphemeRender {
    /// byte offset in the content of the line
    pub original_offset: usize,
    /// byte offset in the rendered content
    pub render_offset: usize,
    /// whether this is the first grapheme rendered for its char
    pub is_first_in_original: bool,
}

/// The graphemes of a content: one for each char.
pub open spec fn graphemes_spec(s: Seq<char>) -> Seq<GraphemeRender> {
    Seq::new(s.len(), |i: int| GraphemeRender {
        original_offset: pos(s, i) as usize,
        render_offset: pos(s, i) as usize,
        is_first_in_original: true,
    })
}

/// The graphemes of `s`.
pub fn graphemes_of(s: &str) -> (r: Vec<GraphemeRender>)
    ensures
        r@ == graphemes_spec(s@),
        sorted_by_offset(r@),
{
    let n = s.as_bytes().len();
    proof {
        lemma_byte_len_encode(s@);
        lemma_pos_full(s@);
    }
    let mut r: Vec<GraphemeRender> = Vec::new();
    let mut total: usize = 0;
    for c in it: s.chars()
        invariant
            it.seq() == s@,
            n == byte_len(s@),
            r@ == graphemes_spec(s@).take(it.index() as int),
            total == pos(s@, it.index() as int),
    {
        let ghost k = it.index() as int;
        proof {
            lemma_pos_step(s@, k);
            lemma_pos_monotonic(s@, k + 1, s@.len() as int);
            lemma_pos_full(s@);
            assert(graphemes_spec(s@).take(k + 1) =~= graphemes_spec(s@).take(k).push(
                GraphemeRender { original_offset: total, render_offset: total, is_first_in_original: true },
            ));
        }
        r.push(GraphemeRender { original_offset: total, render_offset: total, is_first_in_original: true });
        total = total + char_width_exec(c) as usize;
    }
    proof {
        assert(graphemes_spec(s@).take(s@.len() as int) =~= graphemes_spec(s@));
        assert forall|i: int, j: int| 0 <= i <= j < r@.len() implies r@[i].original_offset <= r@[j].original_offset by {
            lemma_pos_monotonic(s@, i, j);
            lemma_pos_monotonic(s@, j, s@.len() as int);
            lemma_pos_full(s@);
        }
    }
    r
}

/// A line together with how it is shown.
pub struct LineRender {
    pub content: String,
    /// offset of the first symbol of the line
    pub start: Integer,
    /// offset just past the last symbol of the line
    pub end: Integer,
    pub line_no: LineNumberResult,
    pub custom_highlights: CustomHighlights,
    pub render: Vec<GraphemeRender>,
}

/// How many graphemes of `g` start before byte `offset`.
pub open spec fn count_below(g: Seq<GraphemeRender>, offset: int) -> nat
    decreases g.len(),
{
    if g.len() == 0 {
        0
    } else {
        count_below(g.drop_last(), offset) + (if (g.last().original_offset as int) < offset { 1nat } else { 0nat })
    }
}

/// The grapheme shown for byte `offset` of a line whose graphemes are `g` (sorted by offset):
/// the first one that starts at `offset`, else the last one that starts before it, else the
/// first one.
pub open spec fn grapheme_index(g: Seq<GraphemeRender>, offset: int) -> Option<usize> {
    let k = count_below(g, offset);
    if g.len() == 0 {
        None
    } else if k < g.len() && g[k as int].original_offset == offset {
        Some(k as usize)
    } else if k == 0 {
        Some(0usize)
    } else {
        Some((k - 1) as usize)
    }
}

proof fn lemma_count_below(g: Seq<GraphemeRender>, offset: int, lo: int)
    requires
        0 <= lo <= g.len(),
        forall|k: int| 0 <= k < lo ==> (g[k].original_offset as int) < offset,
        forall|k: int| lo <= k < g.len() ==> (g[k].original_offset as int) >= offset,
    ensures
        count_below(g, offset) == lo,
    decreases g.len(),
{
    if g.len() > 0 {
        if lo == g.len() {
            lemma_count_below(g.drop_last(), offset, lo - 1);
        } else {
            lemma_count_below(g.drop_last(), offset, lo);
        }
    }
}

/// The graphemes are sorted by the offset of their char.
pub open spec fn sorted_by_offset(g: Seq<GraphemeRender>) -> bool {
    forall|i: int, j: int| 0 <= i <= j < g.len() ==> g[i].original_offset <= g[j].original_offset
}

/// Builds a `LineRender` field by field, through a `LineBuilder`.
pub struct LineRenderBuilder {
    pub line_builder: LineBuilder,
}

impl LineRenderBuilder {
    pub fn default() -> (r: Self)
        ensures
            r.line_builder.content is None,
            r.line_builder.start is None,
            r.line_builder.end is None,
            r.line_builder.line_no is None,
            r.line_builder.custom_highlights is None,
    {
        LineRenderBuilder { line_builder: LineBuilder::default() }
    }

    pub fn with_content(self, content: String) -> (r: Self)
        ensures
            r.line_builder == (LineBuilder { content: Some(content), ..self.line_builder }),
    {
        LineRenderBuilder { line_builder: self.line_builder.with_content(content) }
    }

    pub fn with_start(self, start: Integer) -> (r: Self)
        ensures
            r.line_builder == (LineBuilder { start: Some(start), ..self.line_builder }),
    {
        LineRenderBuilder { line_builder: self.line_builder.with_start(start) }
    }

    pub fn with_end(self, end: Integer) -> (r: Self)
        ensures
            r.line_builder == (LineBuilder { end: Some(end), ..self.line_builder }),
    {
        LineRenderBuilder { line_builder: self.line_builder.with_end(end) }
    }

    pub fn with_line_no(self, n: LineNumberResult) -> (r: Self)
        ensures
            r.line_builder == (LineBuilder { line_no: Some(n), ..self.line_builder }),
    {
        LineRenderBuilder { line_builder: self.line_builder.with_line_no(n) }
    }

    /// Replaces the highlights with `custom_highlights`.
    pub fn with_custom_highlights(self, custom_highlights: CustomHighlights) -> (r: Self)
        ensures
            r.line_builder == (LineBuilder { custom_highlights: Some(custom_highlights), ..self.line_builder }),
    {
        let LineRenderBuilder { line_builder } = self;
        LineRenderBuilder { line_builder: LineBuilder { custom_highlights: Some(custom_highlights), ..line_builder } }
    }

    /// The rendered line; content and both offsets must have been given.
    pub fn build(self) -> (r: LineRender)
        requires
            self.line_builder.content is Some,
            self.line_builder.start is Some,
            self.line_builder.end is Some,
        ensures
            r.content@ == self.line_builder.content.unwrap()@,
            r.start == self.line_builder.start.unwrap(),
            r.end == self.line_builder.end.unwrap(),
            r.line_no == match self.line_builder.line_no {
                Some(n) => n,
                None => Err(LineNumberMissingReason::LineNumberingTurnedOff),
            },
            self.line_builder.custom_highlights is Some ==> r.custom_highlights == self.line_builder.custom_highlights.unwrap(),
            self.line_builder.custom_highlights is None ==> r.custom_highlights@.len() == 0,
            r.render@ == graphemes_spec(r.content@),
    {
        LineRender::new(self.line_builder.build())
    }
}

impl LineRender {
    pub fn new(line: Line) -> (r: Self)
        ensures
            r.content@ == line.content@,
            r.start == line.start,
            r.end == line.end,
            r.line_no == line.line_no,
            r.custom_highlights == line.custom_highlights,
            r.render@ == graphemes_spec(line.content@),
            sorted_by_offset(r.render@),
    {
        let render = graphemes_of(line.content.as_str());
        LineRender {
            content: line.content,
            start: line.start,
            end: line.end,
            line_no: line.line_no,
            custom_highlights: line.custom_highlights,
            render,
        }
    }

    /// A builder holding the content, offsets, line number and highlights of this line.
    pub fn to_builder(self) -> (r: LineRenderBuilder)
        ensures
            r.line_builder.content == Some(self.content),
            r.line_builder.start == Some(self.start),
            r.line_builder.end == Some(self.end),
            r.line_builder.line_no == Some(self.line_no),
            r.line_builder.custom_highlights == Some(self.custom_highlights),
    {
        LineRenderBuilder::default().with_content(self.content).with_start(self.start).with_end(self.end).with_line_no(
            self.line_no,
        ).with_custom_highlights(self.custom_highlights)
    }

    /// The grapheme shown for byte `offset` of the line, with its index (see
    /// `find_grapheme_index_by_offset`).
    pub fn find_grapheme_by_offset(&self, offset: Integer) -> (r: Option<(usize, GraphemeRender)>)
        requires
            sorted_by_offset(self.render@),
        ensures
            match grapheme_index(self.render@, offset as int) {
                Some(i) => r == Some((i, self.render@[i as int])),
                None => r is None,
            },
    {
        match self.find_grapheme_index_by_offset(offset) {
            Some(i) => Some((i, self.render[i])),
            None => None,
        }
    }

    /// The index of the grapheme shown for byte `offset` of the line: the first one for that
    /// byte; for a byte inside a grapheme, that grapheme; before all of them, the first one.
    pub fn find_grapheme_index_by_offset(&self, offset: Integer) -> (r: Option<usize>)
        requires
            sorted_by_offset(self.render@),
        ensures
            r == grapheme_index(self.render@, offset as int),
            r matches Some(g) ==> g < self.render@.len(),
    {
        let g = &self.render;
        let n = g.len();
        if n == 0 {
            return None;
        }
        // the number of graphemes that start before `offset`
        let mut lo: usize = 0;
        let mut hi: usize = n;
        while lo < hi
            invariant
                n == g@.len(),
                sorted_by_offset(g@),
                lo <= hi <= n,
                forall|k: int| 0 <= k < lo ==> (g@[k].original_offset as int) < offset,
                forall|k: int| hi <= k < n ==> (g@[k].original_offset as int) >= offset,
            decreases hi - lo,
        {
            let mid = lo + (hi - lo) / 2;
            if (g[mid].original_offset as i128) < (offset as i128) {
                lo = mid + 1;
            } else {
                hi = mid;
            }
        }
        proof {
            lemma_count_below(g@, offset as int, lo as int);
        }
        if lo < n && g[lo].original_offset as i128 == offset as i128 {
            Some(lo)
        } else {
            if lo == 0 {
                Some(0)
            } else {
                Some(lo - 1)
            }
        }
    }
}

/// The lines of a viewport with how they are shown.
pub struct DataRender {
    pub lines: Vec<LineRender>,
    pub start: Option<Integer>,
    pub end: Option<Integer>,
}

impl DataRender {
    pub fn new(raw_data: Data) -> (r: Self)
        ensures
            r.lines@.len() == raw_data.lines@.len(),
            forall|i: int| 0 <= i < r.lines@.len() ==> {
                &&& #[trigger] r.lines@[i].content@ == raw_data.lines@[i].content@
                &&& r.lines@[i].start == raw_data.lines@[i].start
                &&& r.lines@[i].end == raw_data.lines@[i].end
                &&& r.lines@[i].line_no == raw_data.lines@[i].line_no
                &&& r.lines@[i].render@ == graphemes_spec(raw_data.lines@[i].content@)
                &&& sorted_by_offset(r.lines@[i].render@)
            },
            r.start == raw_data.start,
            r.end == raw_data.end,
    {
        let Data { lines, start, end } = raw_data;
        let ghost l0 = lines@;
        let mut rest = lines;
        let mut out: Vec<LineRender> = Vec::new();
        let mut tmp: Vec<Line> = Vec::new();
        // reverse once, so that popping gives the lines in order
        while rest.len() > 0
            invariant
                tmp@.len() + rest@.len() == l0.len(),
                forall|i: int| 0 <= i < rest@.len() ==> #[trigger] rest@[i] == l0[i],
                forall|i: int| 0 <= i < tmp@.len() ==> #[trigger] tmp@[i] == l0[l0.len() - 1 - i],
            decreases rest@.len(),
        {
            let x = rest.pop().unwrap();
            tmp.push(x);
        }
        while tmp.len() > 0
            invariant
                tmp@.len() + out@.len() == l0.len(),
                forall|i: int| 0 <= i < tmp@.len() ==> #[trigger] tmp@[i] == l0[l0.len() - 1 - i],
                forall|i: int| 0 <= i < out@.len() ==> {
                    &&& #[trigger] out@[i].content@ == l0[i].content@
                    &&& out@[i].start == l0[i].start
                    &&& out@[i].end == l0[i].end
                    &&& out@[i].line_no == l0[i].line_no
                    &&& out@[i].render@ == graphemes_spec(l0[i].content@)
                    &&& sorted_by_offset(out@[i].render@)
                },
            decreases tmp@.len(),
        {
            let x = tmp.pop().unwrap();
            out.push(LineRender::new(x));
        }
        DataRender { lines: out, start, end }
    }
}

} // verus!
