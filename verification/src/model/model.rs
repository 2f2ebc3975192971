use vstd::prelude::*;
use vstd::string::StringExecFns;
use crate::data_source::line::{Line, LineNumberMissingReason, LineNumberResult};
use crate::data_source::line_registry::LineRegistryError;
use crate::data_source::line_source::{lines_read, starts_read, LineSourceImpl};
use crate::data_source::read_delimited::{Data, Direction};
use crate::data_source::text::{byte_len, pos, Text, TEXT_LIMIT};
use crate::data_source::tokenizer::skip_token_index;
use crate::interval::Integer;
use crate::model::cursor_shift::CursorShift;
use crate::model::bgp_model::BGPModel;
use crate::model::go_to::GoToLineModel;
use crate::model::go_to_date::{lemma_line_bwd_bounds, lemma_line_fwd_bounds, line_bwd, line_fwd, GoToDateModel};
use crate::model::open_file_model::OpenFileModel;
use crate::model::search_model::SearchModel;
use crate::model::metrics_model::{MetricsModel, MetricsModelEvent};
use crate::model::model_event::{CursorPosition, ModelEvent};
use crate::model::progress_model::ProgressModel;
use crate::model::rendered::{grapheme_index, graphemes_spec, DataRender, GraphemeRender, LineRender, sorted_by_offset};
use crate::model::search::Search;
use crate::selection::Selection;

verus! {

/// A position on screen: a column (in graphemes) and a row (in lines).
#[derive(PartialEq, Eq, Structural, Copy, Clone, Debug)]
pub struct Dimension {
    pub width: Integer,
    pub height: Integer,
}

impl Dimension {
    pub fn new(width: Integer, height: Integer) -> (r: Self)
        ensures
            r == (Dimension { width, height }),
    {
        Dimension { width, height }
    }
}

/// Where the viewport starts: a line start (the point scrolled to last) and a shift from it.
#[derive(PartialEq, Eq, Structural, Copy, Clone, Debug)]
pub struct ViewportAnchor {
    pub starting_point: Integer,
    pub shift: Integer,
}

/// `render` shows the lines of `d`.
pub open spec fn renders(render: DataRender, d: Data) -> bool {
    &&& render.lines@.len() == d.lines@.len()
    &&& forall|i: int| 0 <= i < render.lines@.len() ==> {
        &&& #[trigger] render.lines@[i].content@ == d.lines@[i].content@
        &&& render.lines@[i].start == d.lines@[i].start
        &&& render.lines@[i].end == d.lines@[i].end
        &&& render.lines@[i].line_no == d.lines@[i].line_no
        &&& render.lines@[i].render@ == graphemes_spec(d.lines@[i].content@)
    }
    &&& render.start == d.start
    &&& render.end == d.end
}

/// How many of `lines` start before byte `offset`.
pub open spec fn lines_below(lines: Seq<LineRender>, offset: int) -> nat
    decreases lines.len(),
{
    if lines.len() == 0 {
        0
    } else {
        lines_below(lines.drop_last(), offset) + (if (lines.last().start as int) < offset { 1nat } else { 0nat })
    }
}

/// The position of the cursor at byte `cursor` among the lines shown, if it lies on one of
/// them: the row, and the grapheme within the line.
pub open spec fn cursor_in_lines(lines: Seq<LineRender>, cursor: Integer) -> Option<Dimension> {
    let n = lines_below(lines, cursor as int);
    if n < lines.len() && lines[n as int].start == cursor {
        Some(Dimension { width: 0, height: n as Integer })
    } else if n == 0 {
        None
    } else {
        let line = lines[n - 1];
        if n < lines.len() || cursor <= line.end {
            Some(Dimension {
                width: match grapheme_index(line.render@, cursor - line.start) {
                    Some(g) => g as Integer,
                    None => 0,
                },
                height: (n - 1) as Integer,
            })
        } else {
            None
        }
    }
}

/// The lines of a viewport are in the order of their offsets.
pub open spec fn lines_sorted(lines: Seq<LineRender>) -> bool {
    &&& forall|i: int, j: int| 0 <= i < j < lines.len() ==> lines[i].start < lines[j].start
    &&& forall|i: int| 0 <= i < lines.len() ==> sorted_by_offset(#[trigger] lines[i].render@)
}

/// Every line shown lies within a text that fits the limit, and ends before the next starts.
pub open spec fn lines_bounded(lines: Seq<LineRender>) -> bool {
    &&& forall|k: int| 0 <= k < lines.len() ==> 0 <= #[trigger] lines[k].start <= lines[k].end < TEXT_LIMIT
    &&& forall|k: int| 0 <= k < lines.len() ==> #[trigger] lines[k].render@.len() < TEXT_LIMIT
    &&& forall|k: int| #![trigger lines[k].end, lines[k + 1].start] 0 <= k < lines.len() - 1 ==> lines[k].end < lines[k + 1].start
}

/// The first and last offsets of the lines shown are those of their first and last lines, and
/// there are fewer lines than the limit.
pub open spec fn data_ends(d: DataRender) -> bool {
    &&& d.lines@.len() < TEXT_LIMIT
    &&& d.start == (if d.lines@.len() > 0 { Some(d.lines@[0].start) } else { None::<Integer> })
    &&& d.end == (if d.lines@.len() > 0 { Some(d.lines@[d.lines@.len() - 1].end) } else { None::<Integer> })
}

/// The events announced after the cursor may have moved: its position, when it lies on a line
/// shown.
pub open spec fn cursor_moved_events(data: Option<DataRender>, cursor: Integer) -> Seq<ModelEvent> {
    match data {
        Some(d) => match cursor_in_lines(d.lines@, cursor) {
            Some(cp) => seq![
                ModelEvent::CursorMoved(
                    CursorPosition {
                        line_no: if 0 <= cp.height < d.lines@.len() {
                            d.lines@[cp.height as int].line_no
                        } else {
                            Err(LineNumberMissingReason::MissingData)
                        },
                        position_in_line: cp.width as u64,
                        offset: cursor as u64,
                    },
                ),
            ],
            None => Seq::empty(),
        },
        None => Seq::empty(),
    }
}

/// How many lines are passed reading backward from the line that ends before byte `c` until
/// one starts at or before `offset`; none when the text runs out first.
pub open spec fn lines_up(s: Seq<char>, c: int, offset: int) -> Option<int>
    decreases (if c < 0 { 0 } else { c }),
{
    if c <= 0 {
        None
    } else {
        match line_bwd(s, c - 1) {
            None => None,
            Some((a, e, t)) => if !(a < c) {
                None
            } else if a <= offset {
                Some(1)
            } else {
                match lines_up(s, a as int, offset) {
                    Some(k) => Some(k + 1),
                    None => None,
                }
            },
        }
    }
}

/// How many lines are passed reading forward from the line that starts after byte `c` until
/// one ends at or after `offset`, or the text runs out (that step counts too).
pub open spec fn lines_down(s: Seq<char>, c: int, offset: int) -> int
    decreases (if c < TEXT_LIMIT { TEXT_LIMIT - c } else { 0 }),
{
    if c >= TEXT_LIMIT {
        1
    } else {
        match line_fwd(s, c + 1) {
            None => 1,
            Some((a, e, t)) => if !(c < e < TEXT_LIMIT) {
                1
            } else if e >= offset {
                1
            } else {
                1 + lines_down(s, e, offset)
            },
        }
    }
}

/// The state of the viewer: the source, what is shown of it, the cursor and the selection, and
/// the dialogs. Events to announce are collected in order and taken by the user interface.
pub struct RootModel {
    events: Vec<ModelEvent>,
    file_name: Option<String>,
    is_file_loaded: bool,
    file_size: Integer,
    data: Option<DataRender>,
    viewport_height: Integer,
    viewport_width: Integer,
    scroll_position: ViewportAnchor,
    horizontal_scroll: Integer,
    cursor: Integer,
    selection: Option<Selection>,
    datasource: LineSourceImpl,
    error: Option<String>,
    show_line_numbers: bool,
    search_model: SearchModel,
    current_search: Option<Search>,
    go_to_line_model: GoToLineModel,
    go_to_date_model: GoToDateModel,
    open_file_model: OpenFileModel,
    bgp_model: BGPModel,
    help_open: bool,
    metrics_model: MetricsModel,
    progress_model: ProgressModel,
}

impl RootModel {
    pub closed spec fn spec_events(self) -> Seq<ModelEvent> {
        self.events@
    }

    pub closed spec fn spec_data(self) -> Option<DataRender> {
        self.data
    }

    pub closed spec fn spec_viewport_height(self) -> Integer {
        self.viewport_height
    }

    pub closed spec fn spec_viewport_width(self) -> Integer {
        self.viewport_width
    }

    pub closed spec fn spec_scroll_position(self) -> ViewportAnchor {
        self.scroll_position
    }

    pub closed spec fn spec_horizontal_scroll(self) -> Integer {
        self.horizontal_scroll
    }

    pub closed spec fn spec_cursor(self) -> Integer {
        self.cursor
    }

    pub closed spec fn spec_selection(self) -> Option<Selection> {
        self.selection
    }

    pub closed spec fn spec_datasource(self) -> LineSourceImpl {
        self.datasource
    }

    pub closed spec fn spec_error(self) -> Option<Seq<char>> {
        match self.error {
            Some(e) => Some(e@),
            None => None,
        }
    }

    pub closed spec fn spec_show_line_numbers(self) -> bool {
        self.show_line_numbers
    }

    pub closed spec fn spec_file_size(self) -> Integer {
        self.file_size
    }

    /// The byte where the viewport starts.
    pub open spec fn spec_viewport_offset(self) -> int {
        self.spec_scroll_position().starting_point + self.spec_scroll_position().shift
    }

    /// The lines shown.
    pub open spec fn spec_lines(self) -> Seq<LineRender> {
        match self.spec_data() {
            Some(d) => d.lines@,
            None => Seq::empty(),
        }
    }

    /// The cursor's position among the lines shown.
    pub open spec fn spec_cursor_in_cache(self) -> Option<Dimension> {
        match self.spec_data() {
            Some(d) => cursor_in_lines(d.lines@, self.spec_cursor()),
            None => None,
        }
    }

    #[verifier::type_invariant]
    spec fn wf(self) -> bool {
        &&& 0 <= self.cursor < TEXT_LIMIT
        &&& 0 <= self.scroll_position.starting_point < TEXT_LIMIT
        &&& -TEXT_LIMIT < self.scroll_position.shift < TEXT_LIMIT
        &&& 0 <= self.horizontal_scroll < TEXT_LIMIT
        &&& 0 <= self.viewport_height < TEXT_LIMIT
        &&& 0 <= self.viewport_width < TEXT_LIMIT
        &&& (self.data matches Some(d) ==> lines_sorted(d.lines@) && lines_bounded(d.lines@) && data_ends(d))
    }

    pub fn new() -> (r: Self)
        ensures
            r.spec_events().len() == 0,
            r.spec_data() is None,
            r.spec_viewport_height() == 0,
            r.spec_viewport_width() == 0,
            r.spec_scroll_position() == (ViewportAnchor { starting_point: 0, shift: 0 }),
            r.spec_horizontal_scroll() == 0,
            r.spec_cursor() == 0,
            r.spec_selection() is None,
            r.spec_error() is None,
            r.spec_show_line_numbers(),
            r.spec_datasource().view().len() == 0,
    {
        RootModel {
            events: Vec::new(),
            file_name: None,
            is_file_loaded: false,
            file_size: 0,
            data: None,
            viewport_height: 0,
            viewport_width: 0,
            scroll_position: ViewportAnchor { starting_point: 0, shift: 0 },
            horizontal_scroll: 0,
            cursor: 0,
            selection: None,
            datasource: empty_source(),
            error: None,
            show_line_numbers: true,
            search_model: SearchModel::new(),
            current_search: None,
            go_to_line_model: GoToLineModel::new(),
            go_to_date_model: GoToDateModel::new(),
            open_file_model: OpenFileModel::new(),
            bgp_model: BGPModel::new(),
            help_open: false,
            metrics_model: MetricsModel::new(),
            progress_model: ProgressModel::new(),
        }
    }

    /// Hands out the events collected so far, oldest first.
    pub fn take_events(&mut self) -> (r: Vec<ModelEvent>)
        ensures
            r@ == old(self).spec_events(),
            final(self).spec_events().len() == 0,
            final(self).spec_data() == old(self).spec_data(),
            final(self).spec_cursor() == old(self).spec_cursor(),
            final(self).spec_scroll_position() == old(self).spec_scroll_position(),
    {
        proof {
            use_type_invariant(&*self);
        }
        let mut r = Vec::new();
        std::mem::swap(&mut r, &mut self.events);
        r
    }

    pub fn get_viewport_height(&self) -> (r: Integer)
        ensures
            r == self.spec_viewport_height(),
    {
        self.viewport_height
    }

    pub fn get_horizontal_scroll(&self) -> (r: Integer)
        ensures
            r == self.spec_horizontal_scroll(),
    {
        self.horizontal_scroll
    }

    pub fn get_cursor(&self) -> (r: Integer)
        ensures
            r == self.spec_cursor(),
    {
        self.cursor
    }

    pub fn is_show_line_numbers(&self) -> (r: bool)
        ensures
            r == self.spec_show_line_numbers(),
    {
        self.show_line_numbers
    }

    pub fn get_selection(&self) -> (r: Option<Selection>)
        ensures
            r == self.spec_selection(),
    {
        self.selection
    }

    pub fn data(&self) -> (r: Option<&DataRender>)
        ensures
            r matches Some(d) ==> self.spec_data() == Some(*d),
            r is None ==> self.spec_data() is None,
    {
        self.data.as_ref()
    }

    pub fn error(&self) -> (r: Option<String>)
        ensures
            r matches Some(e) ==> self.spec_error() == Some(e@),
            r is None ==> self.spec_error() is None,
    {
        match &self.error {
            Some(e) => Some(e.clone()),
            None => None,
        }
    }

    /// The position of the cursor among the lines shown, if it lies on one of them.
    pub fn get_cursor_in_cache(&self) -> (r: Option<Dimension>)
        ensures
            r == self.spec_cursor_in_cache(),
    {
        proof {
            use_type_invariant(self);
        }
        let data = match &self.data {
            Some(d) => d,
            None => return None,
        };
        let lines = &data.lines;
        let count = lines.len();
        let mut n: usize = 0;
        while n < count && lines[n].start < self.cursor
            invariant
                count == lines@.len(),
                n <= count,
                lines_sorted(lines@),
                forall|k: int| 0 <= k < n ==> lines@[k].start < self.cursor,
            decreases count - n,
        {
            n += 1;
        }
        proof {
            lemma_lines_below(lines@, self.cursor as int, n as int);
        }
        if n < count && lines[n].start == self.cursor {
            return Some(Dimension::new(0, n as Integer));
        }
        if n == 0 {
            return None;
        }
        let line = &lines[n - 1];
        if n < count || self.cursor <= line.end {
            let g = line.find_grapheme_index_by_offset(self.cursor - line.start);
            let width: Integer = match g {
                Some(g) => g as Integer,
                None => 0,
            };
            Some(Dimension::new(width, (n - 1) as Integer))
        } else {
            None
        }
    }

    /// The lines read for a viewport of height `h` that starts at byte `offset`.
    pub open spec fn lines_at(self, offset: Integer, h: Integer) -> Data {
        choose|d: Data| lines_read(self.spec_datasource().view(), self.spec_datasource().numbering(), offset, h, d)
    }

    /// `d` holds the lines the viewport shows: those read from where it starts.
    pub open spec fn viewport_read(self, d: Data) -> bool {
        lines_read(
            self.spec_datasource().view(),
            self.spec_datasource().numbering(),
            self.spec_viewport_offset() as Integer,
            self.spec_viewport_height(),
            d,
        )
    }

    /// The other fields than the lines shown and the events are as in `other`.
    pub open spec fn same_view(self, other: RootModel) -> bool {
        &&& self.spec_viewport_height() == other.spec_viewport_height()
        &&& self.spec_viewport_width() == other.spec_viewport_width()
        &&& self.spec_scroll_position() == other.spec_scroll_position()
        &&& self.spec_horizontal_scroll() == other.spec_horizontal_scroll()
        &&& self.spec_cursor() == other.spec_cursor()
        &&& self.spec_selection() == other.spec_selection()
        &&& self.spec_datasource() == other.spec_datasource()
        &&& self.spec_error() == other.spec_error()
        &&& self.spec_show_line_numbers() == other.spec_show_line_numbers()
        &&& self.spec_file_size() == other.spec_file_size()
    }

    fn push_event(&mut self, e: ModelEvent)
        ensures
            final(self).spec_events() == old(self).spec_events().push(e),
            final(self).spec_data() == old(self).spec_data(),
            final(self).same_view(*old(self)),
            final(self).same_dialogs(*old(self)),
            final(self).same_content(*old(self)),
    {
        proof {
            use_type_invariant(&*self);
        }
        let mut ev = Vec::new();
        std::mem::swap(&mut ev, &mut self.events);
        ev.push(e);
        self.events = ev;
    }

    /// What is shown of the source and where, the source itself, its name, the background
    /// processes and the progress are as in `other`.
    pub open spec fn same_content(self, other: RootModel) -> bool {
        &&& self.spec_data() == other.spec_data()
        &&& self.spec_viewport_height() == other.spec_viewport_height()
        &&& self.spec_viewport_width() == other.spec_viewport_width()
        &&& self.spec_scroll_position() == other.spec_scroll_position()
        &&& self.spec_horizontal_scroll() == other.spec_horizontal_scroll()
        &&& self.spec_cursor() == other.spec_cursor()
        &&& self.spec_selection() == other.spec_selection()
        &&& self.spec_datasource() == other.spec_datasource()
        &&& self.spec_show_line_numbers() == other.spec_show_line_numbers()
        &&& self.spec_file_size() == other.spec_file_size()
        &&& self.spec_file_name() == other.spec_file_name()
        &&& self.spec_file_loaded() == other.spec_file_loaded()
        &&& self.spec_bgp_model() == other.spec_bgp_model()
        &&& self.spec_progress_model() == other.spec_progress_model()
    }

    /// The dialogs and the current search are as in `other`.
    pub open spec fn same_dialogs(self, other: RootModel) -> bool {
        &&& self.spec_search_visible() == other.spec_search_visible()
        &&& self.spec_open_file_open() == other.spec_open_file_open()
        &&& self.spec_has_current_search() == other.spec_has_current_search()
        &&& self.spec_go_to_line_open() == other.spec_go_to_line_open()
        &&& self.spec_go_to_date_open() == other.spec_go_to_date_open()
        &&& self.spec_help_open() == other.spec_help_open()
        &&& self.spec_metrics_open() == other.spec_metrics_open()
    }

    /// Announces where the cursor stands, when it lies on a line shown.
    fn emit_cursor_moved(&mut self)
        ensures
            final(self).spec_events() == old(self).spec_events() + cursor_moved_events(old(self).spec_data(), old(self).spec_cursor()),
            final(self).spec_data() == old(self).spec_data(),
            final(self).same_view(*old(self)),
    {
        proof {
            use_type_invariant(&*self);
        }
        if let Some(cp) = self.get_cursor_in_cache() {
            let line_no: LineNumberResult = match &self.data {
                Some(d) => if 0 <= cp.height && (cp.height as u64) < (d.lines.len() as u64) {
                    d.lines[cp.height as usize].line_no
                } else {
                    Err(LineNumberMissingReason::MissingData)
                },
                None => Err(LineNumberMissingReason::MissingData),
            };
            let event = ModelEvent::CursorMoved(
                CursorPosition { line_no, position_in_line: cp.width as u64, offset: self.cursor as u64 },
            );
            self.push_event(event);
        }
    }

    /// Shows the lines of `data`; announces that and where the cursor stands.
    #[verifier::rlimit(50)]
    fn set_data(&mut self, data: Data)
        requires
        data.lines@.len() < TEXT_LIMIT,
        data.start == (if data.lines@.len() > 0 { Some(data.lines@[0].start) } else { None::<Integer> }),
        data.end == (if data.lines@.len() > 0 { Some(data.lines@[data.lines@.len() - 1].end) } else { None::<Integer> }),
        forall|k: int| 0 <= k < data.lines@.len() ==> #[trigger] data.lines@[k].content@.len() < TEXT_LIMIT,
            forall|k: int| 0 <= k < data.lines@.len() ==> 0 <= #[trigger] data.lines@[k].start <= data.lines@[k].end < TEXT_LIMIT,
            forall|k: int| #![trigger data.lines@[k].end, data.lines@[k + 1].start] 0 <= k < data.lines@.len() - 1 ==> data.lines@[k].end < data.lines@[k + 1].start,
        ensures
            final(self).spec_data() matches Some(dr) && renders(dr, data),
            final(self).spec_events() == old(self).spec_events() + seq![ModelEvent::DataUpdated]
                + cursor_moved_events(final(self).spec_data(), old(self).spec_cursor()),
            final(self).same_view(*old(self)),
    {
        proof {
            use_type_invariant(&*self);
        }
        let render = render_data(data);
        self.data = Some(render);
        self.push_event(ModelEvent::DataUpdated);
        self.emit_cursor_moved();
    }

    /// Some line shown lacks its number because the registry of line breaks had not reached
    /// it, and the lines shown start within the first `crawled` bytes.
    pub open spec fn awaits_numbers(data: Option<DataRender>, crawled: Integer) -> bool {
        match data {
            Some(d) => {
                &&& exists|i: int| 0 <= i < d.lines@.len() && (#[trigger] d.lines@[i].line_no matches Err(
                    LineNumberMissingReason::Delegate(LineRegistryError::NotReachedYet { .. }),
                ))
                &&& d.start is Some && d.end is Some
                &&& d.start.unwrap() <= d.end.unwrap()
                &&& d.start.unwrap() <= crawled && 0 <= d.end.unwrap() && 0 <= crawled
            },
            None => false,
        }
    }

    /// The registry of line breaks reports that it has crawled `crawled` bytes: when lines
    /// shown wait for their numbers and lie within the crawled part, the viewport is read again
    /// (see `update_viewport_content`, whose answer is returned); otherwise nothing changes.
    pub fn on_line_registry_progress(&mut self, crawled: Integer) -> (r: bool)
        ensures
            !Self::awaits_numbers(old(self).spec_data(), crawled) ==> !r && *final(self) == *old(self),
            Self::awaits_numbers(old(self).spec_data(), crawled) && old(self).spec_viewport_height() != 0 ==> {
                let d = old(self).lines_at(old(self).spec_viewport_offset() as Integer, old(self).spec_viewport_height());
                &&& r == !(d.lines@.len() < old(self).spec_viewport_height() && old(self).spec_viewport_offset() > 0)
                &&& r ==> (final(self).spec_data() matches Some(dr) && renders(dr, d))
                &&& !r ==> *final(self) == *old(self)
            },
    {
        let awaits = match &self.data {
            Some(d) => {
                let mut waiting = false;
                let mut i: usize = 0;
                while i < d.lines.len()
                    invariant
                        i <= d.lines@.len(),
                        waiting <==> exists|k: int| 0 <= k < i && (#[trigger] d.lines@[k].line_no matches Err(
                            LineNumberMissingReason::Delegate(LineRegistryError::NotReachedYet { .. }),
                        )),
                    decreases d.lines@.len() - i,
                {
                    if let Err(LineNumberMissingReason::Delegate(LineRegistryError::NotReachedYet { .. })) = &d.lines[i].line_no {
                        waiting = true;
                    }
                    i += 1;
                }
                match (d.start, d.end) {
                    (Some(s), Some(e)) => waiting && s <= e && s <= crawled && 0 <= e && 0 <= crawled,
                    _ => false,
                }
            },
            None => false,
        };
        if awaits {
            self.update_viewport_content()
        } else {
            false
        }
    }

    /// Reads the lines of the viewport from where it starts. When the end of the source is
    /// reached before the viewport is full (and the viewport does not start at the beginning),
    /// nothing changes and the answer is `false`. A viewport of height 0 needs nothing.
    pub fn update_viewport_content(&mut self) -> (r: bool)
        ensures
            old(self).spec_viewport_height() == 0 ==> r && *final(self) == *old(self),
            old(self).spec_viewport_height() != 0 ==> {
                let d = old(self).lines_at(old(self).spec_viewport_offset() as Integer, old(self).spec_viewport_height());
                &&& r == !(d.lines@.len() < old(self).spec_viewport_height() && old(self).spec_viewport_offset() > 0)
                &&& r ==> (final(self).spec_data() matches Some(dr) && renders(dr, d))
                &&& r ==> final(self).spec_events() == old(self).spec_events() + seq![ModelEvent::DataUpdated]
                    + cursor_moved_events(final(self).spec_data(), old(self).spec_cursor())
                &&& !r ==> *final(self) == *old(self)
            },
            final(self).same_view(*old(self)),
    {
        proof {
            use_type_invariant(&*self);
        }
        if self.viewport_height == 0 {
            return true;
        }
        let offset = self.scroll_position.starting_point + self.scroll_position.shift;
        let data = self.datasource.read_lines(offset, self.viewport_height);
        proof {
            crate::data_source::line_source::lemma_lines_read_forward(
                self.datasource.view(),
                self.datasource.numbering(),
                offset,
                self.viewport_height,
                data,
            );
            crate::data_source::line_source::lemma_starts_read(
                self.datasource.view(),
                self.datasource.numbering(),
                offset,
                self.viewport_height,
                data,
            );
        }
        let length = self.datasource.get_length();
        proof {
            let d = old(self).lines_at(offset, self.viewport_height);
            assert(old(self).viewport_read(data));
            crate::data_source::line_source::lemma_lines_read_unique(
                self.datasource.view(),
                self.datasource.numbering(),
                offset,
                self.viewport_height,
                data,
                d,
            );
        }
        if (data.lines.len() as u64) < (self.viewport_height as u64) && offset > 0 {
            false
        } else {
            let ghost d0 = data;
            self.set_data(data);
            proof {
                let d = old(self).lines_at(offset, old(self).viewport_height);
                lemma_renders_transfer(self.data.unwrap(), d0, d);
            }
            true
        }
    }

    /// The outcome of moving the viewport to `sp`, as `set_scroll_position` reports it.
    pub open spec fn moved_to(self, next: RootModel, sp: ViewportAnchor, r: bool) -> bool {
        if self.spec_scroll_position() == sp {
            r && next == self
        } else if self.spec_viewport_height() == 0 {
            r && next.spec_scroll_position() == sp && next.spec_data() == self.spec_data()
                && next.spec_events() == self.spec_events()
        } else {
            let d = self.lines_at((sp.starting_point + sp.shift) as Integer, self.spec_viewport_height());
            &&& r == !(d.lines@.len() < self.spec_viewport_height() && sp.starting_point + sp.shift > 0)
            &&& r ==> next.spec_scroll_position() == sp && (next.spec_data() matches Some(dr) && renders(dr, d))
                && next.spec_events() == self.spec_events() + seq![ModelEvent::DataUpdated]
                + cursor_moved_events(next.spec_data(), self.spec_cursor())
            &&& !r ==> next.spec_scroll_position() == self.spec_scroll_position()
                && next.spec_data() == self.spec_data() && next.spec_events() == self.spec_events()
        }
    }

    /// Moves the viewport to `sp` and reads its lines; when they cannot fill it, the viewport
    /// stays where it was and the answer is `false`.
    fn set_scroll_position(&mut self, sp: ViewportAnchor) -> (r: bool)
        requires
            0 <= sp.starting_point < TEXT_LIMIT,
            -TEXT_LIMIT < sp.shift < TEXT_LIMIT,
        ensures
            old(self).moved_to(*final(self), sp, r),
            final(self).spec_viewport_height() == old(self).spec_viewport_height(),
            final(self).spec_viewport_width() == old(self).spec_viewport_width(),
            final(self).spec_horizontal_scroll() == old(self).spec_horizontal_scroll(),
            final(self).spec_cursor() == old(self).spec_cursor(),
            final(self).spec_selection() == old(self).spec_selection(),
            final(self).spec_datasource() == old(self).spec_datasource(),
            final(self).spec_error() == old(self).spec_error(),
    {
        proof {
            use_type_invariant(&*self);
        }
        if self.scroll_position != sp {
            let previous = self.scroll_position;
            self.scroll_position = sp;
            if !self.update_viewport_content() {
                self.scroll_position = previous;
                return false;
            }
        }
        true
    }

    pub fn set_viewport_height(&mut self, height: Integer)
        requires
            0 <= height < TEXT_LIMIT,
        ensures
            final(self).spec_viewport_height() == height,
            old(self).spec_viewport_height() == height ==> *final(self) == *old(self),
            final(self).spec_scroll_position() == old(self).spec_scroll_position(),
            final(self).spec_cursor() == old(self).spec_cursor(),
            final(self).spec_datasource() == old(self).spec_datasource(),
    {
        proof {
            use_type_invariant(&*self);
        }
        if self.viewport_height != height {
            self.viewport_height = height;
            self.update_viewport_content();
        }
    }

    pub fn set_viewport_width(&mut self, width: Integer)
        requires
            0 <= width < TEXT_LIMIT,
        ensures
            final(self).spec_viewport_width() == width,
            final(self).spec_data() == old(self).spec_data(),
            final(self).spec_events() == old(self).spec_events(),
            final(self).spec_viewport_height() == old(self).spec_viewport_height(),
            final(self).spec_scroll_position() == old(self).spec_scroll_position(),
            final(self).spec_cursor() == old(self).spec_cursor(),
            final(self).spec_datasource() == old(self).spec_datasource(),
    {
        proof {
            use_type_invariant(&*self);
        }
        self.viewport_width = width;
    }

    /// How far a scroll by `n` lines moves the viewport: forward, to the line `n` below the
    /// first one shown, unless fewer than a viewport of lines follow it (then as far as they
    /// allow); backward, to the line `|n|` above it (or the first line).
    pub open spec fn scroll_delta(self, n: Integer) -> int {
        let first = self.spec_lines()[0].start;
        let s = self.spec_datasource().view();
        let h = self.spec_viewport_height();
        if n > 0 {
            let count = if n + h > i64::MAX { i64::MAX as Integer } else { (n + h) as Integer };
            let starts = starts_read(s, first, count);
            if starts.len() > h && h > 0 {
                starts[starts.len() - h] - first
            } else {
                0
            }
        } else if first > 0 {
            let count = if n == i64::MIN { (i64::MIN + 1) as Integer } else { n };
            let starts = starts_read(s, (first - 1) as Integer, count);
            if starts.len() > 0 {
                starts[0] - first
            } else {
                0
            }
        } else {
            0
        }
    }

    /// Scrolling forward by `n` lines (`n > 0`) reads the lines from the first one shown on, at
    /// most `n` plus a viewport of them; when more than a viewport of lines is read, the new first
    /// line is the one that leaves exactly a viewport of them from it on. It lies `k` lines
    /// (`k` line breaks) below the first one shown, with `0 < k <= n`, and `k == n` when `n` plus a
    /// viewport of lines are read.
    pub proof fn lemma_scroll_forward_moves_down(self, n: Integer)
        requires
            n > 0,
            self.spec_lines().len() > 0,
            self.spec_viewport_height() > 0,
        ensures
            ({
                let first = self.spec_lines()[0].start;
                let s = self.spec_datasource().view();
                let h = self.spec_viewport_height();
                let count = if n + h > i64::MAX { i64::MAX as Integer } else { (n + h) as Integer };
                let starts = starts_read(s, first, count);
                let k = starts.len() - h;
                &&& starts.len() <= count
                &&& forall|i: int, j: int| 0 <= i < j < starts.len() ==> starts[i] < starts[j]
                &&& starts.len() > h ==> {
                    &&& first + self.scroll_delta(n) == starts[k]
                    &&& 0 < k <= n
                    &&& starts.len() == n + h ==> k == n
                    &&& crate::data_source::read_delimited::delims_before(
                        s,
                        crate::data_source::read_delimited::DelimiterKind::LineBreak,
                        crate::data_source::read_delimited::char_index(s, first + self.scroll_delta(n)),
                    ) == crate::data_source::read_delimited::delims_before(
                        s,
                        crate::data_source::read_delimited::DelimiterKind::LineBreak,
                        crate::data_source::read_delimited::char_index(s, first as int),
                    ) + k
                }
                &&& starts.len() <= h ==> self.scroll_delta(n) == 0
            }),
    {
        let first = self.spec_lines()[0].start;
        let s = self.spec_datasource().view();
        let h = self.spec_viewport_height();
        let count = if n + h > i64::MAX { i64::MAX as Integer } else { (n + h) as Integer };
        crate::data_source::line_source::lemma_starts_read_forward(s, first, count);
        let starts = starts_read(s, first, count);
        if starts.len() > h {
            let k = starts.len() - h;
            assert(crate::data_source::read_delimited::delims_before(
                s,
                crate::data_source::read_delimited::DelimiterKind::LineBreak,
                crate::data_source::read_delimited::char_index(s, starts[k]),
            ) == crate::data_source::read_delimited::delims_before(
                s,
                crate::data_source::read_delimited::DelimiterKind::LineBreak,
                crate::data_source::read_delimited::char_index(s, first as int),
            ) + k);
        }
    }

    /// Scrolling back by `|n|` lines (`n < 0`) makes the earliest of the lines read upward from
    /// just before the first line shown the new first line. Those lines start one after another,
    /// at most `|n|` of them, and exactly `|n|` when the text holds that many lines above the
    /// first one shown (at least `|n| - 1` line breaks before the byte just before it, which is
    /// not the text's first char): the first line shown moves `|n|` lines up, with exactly
    /// `|n|` line breaks between its new start and its old one.
    pub proof fn lemma_scroll_back_moves_up(self, n: Integer)
        requires
            i64::MIN < n < 0,
            self.spec_lines().len() > 0,
            self.spec_lines()[0].start > 0,
        ensures
            ({
                let first = self.spec_lines()[0].start;
                let s = self.spec_datasource().view();
                let starts = starts_read(s, (first - 1) as Integer, n);
                &&& starts.len() <= -n
                &&& forall|i: int, j: int| 0 <= i < j < starts.len() ==> starts[i] < starts[j]
                &&& starts.len() > 0 ==> first + self.scroll_delta(n) == starts[0]
                &&& forall|k: int| 0 <= k < starts.len() ==> first + self.scroll_delta(n) <= #[trigger] starts[k]
                &&& (first - 1 <= byte_len(s) && crate::data_source::read_delimited::char_index(s, first - 1) > 0
                    && crate::data_source::read_delimited::delims_before(
                        s,
                        crate::data_source::read_delimited::DelimiterKind::LineBreak,
                        crate::data_source::read_delimited::char_index(s, first - 1),
                    ) + 1 >= -n) ==> starts.len() == -n
                &&& ((exists|i: int| 0 <= i < s.len() && s[i] == '\n' && pos(s, i) == first - 1) && starts.len() == -n)
                    ==> crate::data_source::read_delimited::delims_before(
                        s,
                        crate::data_source::read_delimited::DelimiterKind::LineBreak,
                        crate::data_source::read_delimited::char_index(s, first + self.scroll_delta(n)),
                    ) + (-n) == crate::data_source::read_delimited::delims_before(
                        s,
                        crate::data_source::read_delimited::DelimiterKind::LineBreak,
                        crate::data_source::read_delimited::char_index(s, first as int),
                    )
            }),
    {
        let first = self.spec_lines()[0].start;
        let s = self.spec_datasource().view();
        crate::data_source::line_source::lemma_starts_read_backward(s, (first - 1) as Integer, n);
        if (exists|i: int| 0 <= i < s.len() && s[i] == '\n' && pos(s, i) == first - 1)
            && starts_read(s, (first - 1) as Integer, n).len() == -n {
            crate::data_source::line_source::lemma_starts_read_backward_breaks(s, (first - 1) as Integer, n);
        }
    }

    /// The outcome of a scroll by `n` lines, as `scroll` reports it: the viewport moves by
    /// `scroll_delta(n)` bytes, as `moved_to` says.
    pub open spec fn scroll_outcome(self, next: RootModel, n: Integer, r: bool) -> bool {
        &&& n == 0 ==> r && next == self
        &&& n != 0 && self.spec_lines().len() == 0 ==> !r && next == self
        &&& n != 0 && self.spec_lines().len() > 0 ==> {
            let sp0 = self.spec_scroll_position();
            let shift = sp0.shift + self.scroll_delta(n);
            if -TEXT_LIMIT < shift < TEXT_LIMIT {
                self.moved_to(next, ViewportAnchor { starting_point: sp0.starting_point, shift: shift as Integer }, r)
            } else {
                !r && next == self
            }
        }
    }

    /// Scrolls by `n` lines (down when positive). Fails when nothing is shown, or when the
    /// lines cannot fill the viewport at the new place.
    pub fn scroll(&mut self, n: Integer) -> (r: bool)
        ensures
            old(self).scroll_outcome(*final(self), n, r),
            final(self).spec_selection() == old(self).spec_selection(),
            n == 0 ==> r && *final(self) == *old(self),
            n != 0 && old(self).spec_lines().len() == 0 ==> !r && *final(self) == *old(self),
            n != 0 && old(self).spec_lines().len() > 0 ==> {
                let sp0 = old(self).spec_scroll_position();
                let shift = sp0.shift + old(self).scroll_delta(n);
                if -TEXT_LIMIT < shift < TEXT_LIMIT {
                    old(self).moved_to(*final(self), ViewportAnchor { starting_point: sp0.starting_point, shift: shift as Integer }, r)
                } else {
                    !r && *final(self) == *old(self)
                }
            },
            final(self).spec_cursor() == old(self).spec_cursor(),
            final(self).spec_datasource() == old(self).spec_datasource(),
            final(self).spec_viewport_height() == old(self).spec_viewport_height(),
    {
        proof {
            use_type_invariant(&*self);
        }
        if n == 0 {
            return true;
        }
        let first_start = match &self.data {
            Some(d) => if d.lines.len() > 0 {
                d.lines[0].start
            } else {
                return false;
            },
            None => return false,
        };
        let h = self.viewport_height;
        let ghost s = self.datasource.view();
        let delta: Integer = if n > 0 {
            let count: Integer = if n > i64::MAX - h {
                i64::MAX
            } else {
                n + h
            };
            let d = self.datasource.read_lines(first_start, count);
            proof {
                crate::data_source::line_source::lemma_starts_read(s, self.datasource.numbering(), first_start, count, d);
                crate::data_source::line_source::lemma_lines_read_forward(s, self.datasource.numbering(), first_start, count, d);
            }
            let total = self.datasource.get_length();
            let k = d.lines.len();
            if (k as u64) > (h as u64) && h > 0 {
                let hu = h as usize;
                assert(hu == h);
                d.lines[k - hu].start - first_start
            } else {
                0
            }
        } else if first_start > 0 {
            let count: Integer = if n == i64::MIN {
                i64::MIN + 1
            } else {
                n
            };
            let d = self.datasource.read_lines(first_start - 1, count);
            proof {
                crate::data_source::line_source::lemma_starts_read(s, self.datasource.numbering(), (first_start - 1) as Integer, count, d);
            }
            match d.start {
                Some(offset) => match offset.checked_sub(first_start) {
                    Some(x) => x,
                    None => return false,
                },
                None => 0,
            }
        } else {
            0
        };
        let shift = match self.scroll_position.shift.checked_add(delta) {
            Some(x) => x,
            None => return false,
        };
        let limit = TEXT_LIMIT as Integer;
        if !(-limit < shift && shift < limit) {
            return false;
        }
        let sp = ViewportAnchor { starting_point: self.scroll_position.starting_point, shift };
        self.set_scroll_position(sp)
    }

    /// The horizontal scroll that shows byte `off` of `line`: the scroll stays unless the
    /// grapheme of `off` lies left of it, or beyond the viewport's width.
    pub open spec fn spec_calc_horizontal_scroll(self, line: LineRender, off: Integer) -> int {
        self.hs_of(line.start as int, line.render@, off)
    }

    /// The horizontal scroll that shows byte `off` of a line that starts at `start` and renders
    /// as `g` (see `spec_calc_horizontal_scroll`).
    pub open spec fn hs_of(self, start: int, g: Seq<GraphemeRender>, off: Integer) -> int {
        let h = self.spec_horizontal_scroll() as int;
        let w = self.spec_viewport_width() as int;
        match grapheme_index(g, off - start) {
            Some(index) => if index < h {
                index as int
            } else if index >= h + w {
                index - w + 1
            } else {
                h
            },
            None => h,
        }
    }

    fn calc_horizontal_scroll(&self, line: &LineRender, off: Integer) -> (r: Integer)
        requires
            sorted_by_offset(line.render@),
            line.render@.len() < TEXT_LIMIT,
            0 <= line.start < TEXT_LIMIT,
            0 <= off < TEXT_LIMIT,
        ensures
            r == self.spec_calc_horizontal_scroll(*line, off),
    {
        proof {
            use_type_invariant(self);
        }
        let h = self.horizontal_scroll;
        let w = self.viewport_width;
        assert(line.render@.len() < TEXT_LIMIT);
        match line.find_grapheme_index_by_offset(off - line.start) {
            Some(index) => {
                if (index as u64) < (h as u64) {
                    index as Integer
                } else if (index as u64) >= (h as u64) + (w as u64) {
                    (index as u64 - w as u64 + 1) as Integer
                } else {
                    h
                }
            },
            None => h,
        }
    }

    /// The longest content (in bytes) among the first `h` lines shown.
    pub open spec fn max_content_len(lines: Seq<LineRender>, h: int) -> Option<int>
        decreases lines.len(),
    {
        if lines.len() == 0 || h <= 0 {
            None
        } else {
            let rest = Self::max_content_len(lines.drop_last(), h);
            let own = if lines.len() <= h {
                Some(vstd::utf8::encode_utf8(lines.last().content@).len() as int)
            } else {
                None
            };
            match (rest, own) {
                (Some(a), Some(b)) => Some(if a > b { a } else { b }),
                (Some(a), None) => Some(a),
                (None, Some(b)) => Some(b),
                (None, None) => None,
            }
        }
    }

    /// Scrolls horizontally: to the left always; to the right only while the longest line of
    /// the viewport still fills its width. Announces a change.
    pub fn set_horizontal_scroll(&mut self, horizontal_scroll: Integer) -> (r: bool)
        requires
            0 <= horizontal_scroll < TEXT_LIMIT,
        ensures
            final(self).spec_selection() == old(self).spec_selection(),
            ({
                let h0 = old(self).spec_horizontal_scroll();
                let allowed = if h0 < horizontal_scroll {
                    match Self::max_content_len(old(self).spec_lines(), old(self).spec_viewport_height() as int) {
                        Some(m) => horizontal_scroll + old(self).spec_viewport_width() <= m,
                        None => false,
                    }
                } else {
                    h0 > horizontal_scroll
                };
                &&& r == allowed
                &&& r ==> final(self).spec_horizontal_scroll() == horizontal_scroll
                    && final(self).spec_events() == old(self).spec_events().push(ModelEvent::DataUpdated)
                &&& !r ==> *final(self) == *old(self)
            }),
            final(self).spec_data() == old(self).spec_data(),
            final(self).spec_cursor() == old(self).spec_cursor(),
            final(self).spec_scroll_position() == old(self).spec_scroll_position(),
            final(self).spec_datasource() == old(self).spec_datasource(),
            final(self).spec_viewport_height() == old(self).spec_viewport_height(),
            final(self).spec_viewport_width() == old(self).spec_viewport_width(),
    {
        proof {
            use_type_invariant(&*self);
        }
        if self.horizontal_scroll < horizontal_scroll {
            let max_length = match &self.data {
                Some(d) => Self::longest_content(&d.lines, self.viewport_height),
                None => None,
            };
            if let Some(m) = max_length {
                if (horizontal_scroll as u64) + (self.viewport_width as u64) <= m as u64 {
                    self.horizontal_scroll = horizontal_scroll;
                    self.push_event(ModelEvent::DataUpdated);
                    return true;
                }
            }
            false
        } else if self.horizontal_scroll > horizontal_scroll {
            self.horizontal_scroll = horizontal_scroll;
            self.push_event(ModelEvent::DataUpdated);
            true
        } else {
            false
        }
    }

    fn longest_content(lines: &Vec<LineRender>, h: Integer) -> (r: Option<usize>)
        ensures
            match r {
                Some(m) => Self::max_content_len(lines@, h as int) == Some(m as int),
                None => Self::max_content_len(lines@, h as int) is None,
            },
    {
        let mut best: Option<usize> = None;
        let mut i: usize = 0;
        while i < lines.len()
            invariant
                i <= lines@.len(),
                match best {
                    Some(m) => Self::max_content_len(lines@.take(i as int), h as int) == Some(m as int),
                    None => Self::max_content_len(lines@.take(i as int), h as int) is None,
                },
            decreases lines@.len() - i,
        {
            proof {
                assert(lines@.take(i + 1).drop_last() =~= lines@.take(i as int));
            }
            if (i as u64) < (h as u64) && h > 0 {
                let len = lines[i].content.as_str().as_bytes().len();
                best = match best {
                    Some(m) => Some(if m > len { m } else { len }),
                    None => Some(len),
                };
            }
            i += 1;
        }
        proof {
            assert(lines@.take(i as int) =~= lines@);
        }
        best
    }

    /// Where a forced scroll to byte `offset` puts the viewport: at the line that holds
    /// `offset`, moved up so that the viewport is full when the source ends too soon.
    pub open spec fn forced_start(self, offset: Integer) -> int {
        let s = self.spec_datasource().view();
        let h = self.spec_viewport_height();
        let below = starts_read(s, offset, h);
        let o1 = if below.len() > 0 { below[0] } else { offset as int };
        if below.len() < h {
            let prev = starts_read(s, (o1 - 1) as Integer, -(h - below.len()) as Integer);
            if prev.len() > 0 {
                prev[0]
            } else {
                o1
            }
        } else {
            o1
        }
    }

    /// Moves the viewport to the line that holds byte `offset`, whatever is shown now.
    fn scroll_forcibly(&mut self, offset: Integer) -> (r: bool)
        requires
            0 <= offset < TEXT_LIMIT,
        ensures
            final(self).spec_selection() == old(self).spec_selection(),
            ({
                let o = old(self).forced_start(offset);
                if 0 <= o < TEXT_LIMIT {
                    old(self).moved_to(*final(self), ViewportAnchor { starting_point: o as Integer, shift: 0 }, r)
                } else {
                    !r && *final(self) == *old(self)
                }
            }),
            final(self).spec_cursor() == old(self).spec_cursor(),
            final(self).spec_datasource() == old(self).spec_datasource(),
            final(self).spec_viewport_height() == old(self).spec_viewport_height(),
            final(self).spec_horizontal_scroll() == old(self).spec_horizontal_scroll(),
    {
        proof {
            use_type_invariant(&*self);
        }
        let h = self.viewport_height;
        let ghost s = self.datasource.view();
        let total = self.datasource.get_length();
        let below = self.datasource.read_lines(offset, h);
        proof {
            crate::data_source::line_source::lemma_starts_read(s, self.datasource.numbering(), offset, h, below);
        }
        let mut new_offset: Integer = match below.start {
            Some(o) => o,
            None => offset,
        };
        if (below.lines.len() as u64) < (h as u64) {
            let k = h - below.lines.len() as Integer;
            if new_offset == i64::MIN {
                return false;
            }
            let prev = self.datasource.read_lines(new_offset - 1, -k);
            proof {
                crate::data_source::line_source::lemma_starts_read(s, self.datasource.numbering(), (new_offset - 1) as Integer, (-k) as Integer, prev);
            }
            if let Some(o) = prev.start {
                new_offset = o;
            }
        }
        let limit = TEXT_LIMIT as Integer;
        if !(0 <= new_offset && new_offset < limit) {
            return false;
        }
        self.set_scroll_position(ViewportAnchor { starting_point: new_offset, shift: 0 })
    }

    /// The row of the line shown that holds byte `offset` (one that starts there, else the last
    /// one that starts before it, else the first).
    pub open spec fn row_of(lines: Seq<LineRender>, offset: Integer) -> int {
        let n = lines_below(lines, offset as int);
        if n < lines.len() && lines[n as int].start == offset {
            n as int
        } else if n == 0 {
            0
        } else {
            n - 1
        }
    }

    fn find_row(&self, offset: Integer) -> (r: usize)
        requires
            self.spec_lines().len() > 0,
        ensures
            r == Self::row_of(self.spec_lines(), offset),
            r < self.spec_lines().len(),
    {
        proof {
            use_type_invariant(self);
        }
        let lines = &self.data.as_ref().unwrap().lines;
        let count = lines.len();
        let mut n: usize = 0;
        while n < count && lines[n].start < offset
            invariant
                count == lines@.len(),
                n <= count,
                lines_sorted(lines@),
                forall|k: int| 0 <= k < n ==> lines@[k].start < offset,
            decreases count - n,
        {
            n += 1;
        }
        proof {
            lemma_lines_below(lines@, offset as int, n as int);
        }
        if n < count && lines[n].start == offset {
            n
        } else if n == 0 {
            0
        } else {
            n - 1
        }
    }

    /// Lines are shown.
    pub open spec fn has_lines(self) -> bool {
        self.spec_data() is Some && self.spec_lines().len() > 0
    }

    /// Byte `offset` lies within the lines shown.
    pub open spec fn shows(self, offset: Integer) -> bool {
        self.has_lines() && self.spec_lines()[0].start <= offset <= self.spec_lines()[self.spec_lines().len() - 1].end
    }

    /// Byte `offset` lies 8192 bytes or more away from the lines shown (from the start when
    /// lines are read but none is shown), so that the view jumps to it.
    pub open spec fn far_from(self, offset: Integer) -> bool {
        self.spec_data() is Some && if self.has_lines() {
            let lines = self.spec_lines();
            (offset < lines[0].start && lines[0].start - offset >= 8192)
                || (offset > lines[lines.len() - 1].end && offset - lines[lines.len() - 1].end >= 8192)
        } else {
            offset >= 8192
        }
    }

    /// Where the viewport goes when nothing has been read yet: to the start of the line that
    /// holds `offset`, with the horizontal scroll that shows it (both 0 when no such line can
    /// be shown).
    pub open spec fn first_view_target(self, offset: Integer) -> (int, int) {
        match line_fwd(self.spec_datasource().view(), offset as int) {
            Some((a, e, c)) => if a < TEXT_LIMIT && graphemes_spec(c).len() < TEXT_LIMIT {
                (a as int, self.hs_of(a as int, graphemes_spec(c), offset))
            } else {
                (0, 0)
            },
            None => (0, 0),
        }
    }

    /// The outcome of bringing `offset` into view, except when the view must jump to it:
    /// within the lines shown, the horizontal scroll that shows it, when it may change; near
    /// them, a scroll by the lines to pass; with nothing read, the viewport read anew at the
    /// line that holds `offset`.
    pub open spec fn settled(self, next: RootModel, offset: Integer, r: bool) -> bool {
        let lines = self.spec_lines();
        let s = self.spec_datasource().view();
        &&& self.shows(offset) ==> {
            let line = lines[Self::row_of(lines, offset)];
            let hs = self.spec_calc_horizontal_scroll(line, offset);
            if 0 <= hs < TEXT_LIMIT {
                &&& (r <==> hs != self.spec_horizontal_scroll()
                    && (hs < self.spec_horizontal_scroll() || match Self::max_content_len(lines, self.spec_viewport_height() as int) {
                        Some(m) => hs + self.spec_viewport_width() <= m,
                        None => false,
                    }))
                &&& r ==> next.spec_data() == self.spec_data() && next.spec_scroll_position() == self.spec_scroll_position()
                    && next.spec_horizontal_scroll() == hs
                    && next.spec_events() == self.spec_events().push(ModelEvent::DataUpdated)
                &&& !r ==> next == self
            } else {
                !r && next == self
            }
        }
        &&& self.has_lines() && offset < lines[0].start && lines[0].start - offset < 8192 ==> match lines_up(
            s,
            lines[0].start as int,
            offset as int,
        ) {
            Some(k) => self.scroll_outcome(next, (-k) as Integer, r),
            None => !r && next == self,
        }
        &&& self.has_lines() && offset > lines[lines.len() - 1].end && offset - lines[lines.len() - 1].end < 8192
            ==> self.scroll_outcome(next, lines_down(s, lines[lines.len() - 1].end as int, offset as int) as Integer, r)
        &&& self.spec_data() is Some && !self.has_lines() && offset < 8192 ==> !r && next == self
        &&& self.spec_data() is None ==> {
            let (lo, hs) = self.first_view_target(offset);
            let h = self.spec_viewport_height();
            if 0 <= hs < TEXT_LIMIT {
                &&& next.spec_scroll_position() == (ViewportAnchor { starting_point: lo as Integer, shift: 0 })
                &&& next.spec_horizontal_scroll() == hs
                &&& h == 0 ==> r && next.spec_data() == self.spec_data()
                &&& h != 0 ==> {
                    let d = self.lines_at(lo as Integer, h);
                    &&& r == !(d.lines@.len() < h && lo > 0)
                    &&& r ==> (next.spec_data() matches Some(dr) && renders(dr, d))
                    &&& !r ==> next.spec_data() == self.spec_data()
                }
            } else {
                !r && next == self
            }
        }
    }

    /// The outcome of bringing `offset` into view: as `settled` says; when the view must jump,
    /// it is moved to the line that holds `offset` (see `scroll_forcibly`) and, when that
    /// succeeds, settled from there.
    pub open spec fn brought_into_view(self, next: RootModel, offset: Integer, r: bool) -> bool {
        &&& self.settled(next, offset, r)
        &&& self.far_from(offset) ==> {
            let o = self.forced_start(offset);
            let sp = ViewportAnchor { starting_point: o as Integer, shift: 0 };
            if 0 <= o < TEXT_LIMIT {
                exists|mid: RootModel, moved: bool|
                    #[trigger] self.moved_to(mid, sp, moved)
                    && (moved ==> mid.settled(next, offset, r) && (mid.far_from(offset) ==> !r && next == mid))
                    && (!moved ==> !r && next == mid)
            } else {
                !r && next == self
            }
        }
    }

    /// Makes byte `offset` visible, scrolling vertically or horizontally as needed. Within the
    /// lines shown only the horizontal scroll changes; a little above or below them, the view
    /// scrolls by the number of lines to pass; farther, it jumps to the offset.
    pub fn bring_into_view(&mut self, offset: Integer) -> (r: bool)
        requires
            0 <= offset < TEXT_LIMIT,
        ensures
            final(self).spec_selection() == old(self).spec_selection(),
            final(self).spec_cursor() == old(self).spec_cursor(),
            final(self).spec_datasource() == old(self).spec_datasource(),
            final(self).spec_viewport_height() == old(self).spec_viewport_height(),
            old(self).brought_into_view(*final(self), offset, r),
    {
        self.bring_into_view_with(offset, 1)
    }

    fn bring_into_view_with(&mut self, offset: Integer, jumps: u8) -> (r: bool)
        requires
            0 <= offset < TEXT_LIMIT,
            jumps <= 1,
        ensures
            final(self).spec_selection() == old(self).spec_selection(),
            final(self).spec_cursor() == old(self).spec_cursor(),
            final(self).spec_datasource() == old(self).spec_datasource(),
            final(self).spec_viewport_height() == old(self).spec_viewport_height(),
            jumps > 0 ==> old(self).brought_into_view(*final(self), offset, r),
            jumps == 0 ==> old(self).settled(*final(self), offset, r),
            jumps == 0 && old(self).far_from(offset) ==> !r && *final(self) == *old(self),
        decreases jumps, 1nat,
    {
        proof {
            use_type_invariant(&*self);
        }
        let threshold: Integer = 8192;
        let limit = TEXT_LIMIT as Integer;
        let has_lines = match &self.data {
            Some(d) => d.lines.len() > 0,
            None => false,
        };
        if self.data.is_some() {
            let (start_offset, end_offset) = if has_lines {
                let d = self.data.as_ref().unwrap();
                (d.lines[0].start, d.lines[d.lines.len() - 1].end)
            } else {
                (0, 0)
            };
            if start_offset <= offset && offset <= end_offset && has_lines {
                let row = self.find_row(offset);
                let hs = {
                    let line = &self.data.as_ref().unwrap().lines[row];
                    self.calc_horizontal_scroll(line, offset)
                };
                if !(0 <= hs && hs < limit) {
                    return false;
                }
                self.set_horizontal_scroll(hs)
            } else if offset < start_offset {
                if start_offset - offset < threshold {
                    let mut i: Integer = 0;
                    let mut current = start_offset;
                    let mut success = false;
                    let ghost s = self.datasource.view();
                    loop
                        invariant_except_break
                            offset < current,
                            !success,
                            lines_up(s, start_offset as int, offset as int) == match lines_up(s, current as int, offset as int) {
                                Some(k) => Some(k - i),
                                None => None::<int>,
                            },
                        invariant
                            0 <= current < TEXT_LIMIT,
                            -TEXT_LIMIT < i <= 0,
                            i >= current - start_offset,
                            start_offset < TEXT_LIMIT,
                            s == self.datasource.view(),
                        ensures
                            success ==> lines_up(s, start_offset as int, offset as int) == Some(-i),
                            !success ==> lines_up(s, start_offset as int, offset as int) is None,
                        decreases current,
                    {
                        if current == 0 {
                            break;
                        }
                        match self.datasource.read_prev_line(current - 1) {
                            Some(line) => {
                                proof {
                                    lemma_line_bwd_bounds(s, current - 1);
                                    assert(line_bwd(s, current - 1) == Some((line.start as nat, line.end as int, line.content@)));
                                }
                                if !(0 <= line.start && line.start < current) {
                                    break;
                                }
                                current = line.start;
                                i = i - 1;
                                if current <= offset {
                                    success = true;
                                    break;
                                }
                            },
                            None => {
                                break;
                            },
                        }
                    }
                    if success {
                        self.scroll(i)
                    } else {
                        false
                    }
                } else if jumps > 0 {
                    self.jump_and_settle(offset)
                } else {
                    false
                }
            } else {
                if offset - end_offset < threshold {
                    let mut i: Integer = 0;
                    let mut current = end_offset;
                    let success = true;
                    let ghost s = self.datasource.view();
                    loop
                        invariant_except_break
                            i <= current - end_offset + 1,
                            lines_down(s, end_offset as int, offset as int) == i + lines_down(s, current as int, offset as int),
                        invariant
                            0 <= current < TEXT_LIMIT,
                            0 <= i <= TEXT_LIMIT + 1,
                            0 <= end_offset <= current,
                            limit == TEXT_LIMIT,
                            s == self.datasource.view(),
                        ensures
                            lines_down(s, end_offset as int, offset as int) == i,
                            i >= 1,
                        decreases TEXT_LIMIT - current,
                    {
                        match self.datasource.read_next_line(current + 1) {
                            Some(line) => {
                                proof {
                                    lemma_line_fwd_bounds(s, current + 1);
                                    assert(line_fwd(s, current + 1) == Some((line.start as nat, line.end as int, line.content@)));
                                }
                                if !(current < line.end && line.end < limit) {
                                    i = i + 1;
                                    break;
                                }
                                current = line.end;
                                i = i + 1;
                                if current >= offset {
                                    break;
                                }
                            },
                            None => {
                                i = i + 1;
                                break;
                            },
                        }
                    }
                    if success {
                        self.scroll(i)
                    } else {
                        false
                    }
                } else if jumps > 0 {
                    self.jump_and_settle(offset)
                } else {
                    false
                }
            }
        } else {
            let ghost s = self.datasource.view();
            let (line_offset, horizontal_scroll) = match self.datasource.read_next_line(offset) {
                Some(line) => {
                    proof {
                        lemma_line_fwd_bounds(s, offset as int);
                        assert(line_fwd(s, offset as int) == Some((line.start as nat, line.end as int, line.content@)));
                    }
                    let render = LineRender::new(line);
                    if !(0 <= render.start && render.start < limit && (render.render.len() as u64) < TEXT_LIMIT) {
                        (0, 0)
                    } else {
                        let hs = self.calc_horizontal_scroll(&render, offset);
                        (render.start, hs)
                    }
                },
                None => (0, 0),
            };
            assert((line_offset as int, horizontal_scroll as int) == old(self).first_view_target(offset));
            if !(0 <= horizontal_scroll && horizontal_scroll < limit) {
                return false;
            }
            self.set_anchor_and_horizontal(ViewportAnchor { starting_point: line_offset, shift: 0 }, horizontal_scroll);
            let ghost mid = *self;
            let r = self.update_viewport_content();
            proof {
                assert(mid.lines_at(line_offset, mid.spec_viewport_height()) == old(self).lines_at(line_offset, old(self).spec_viewport_height()));
            }
            r
        }
    }

    /// Moves the viewport to the line that holds `offset`, then settles it from there.
    fn jump_and_settle(&mut self, offset: Integer) -> (r: bool)
        requires
            0 <= offset < TEXT_LIMIT,
        ensures
            final(self).spec_selection() == old(self).spec_selection(),
            final(self).spec_cursor() == old(self).spec_cursor(),
            final(self).spec_datasource() == old(self).spec_datasource(),
            final(self).spec_viewport_height() == old(self).spec_viewport_height(),
            ({
                let o = old(self).forced_start(offset);
                let sp = ViewportAnchor { starting_point: o as Integer, shift: 0 };
                if 0 <= o < TEXT_LIMIT {
                    exists|mid: RootModel, moved: bool|
                        #[trigger] old(self).moved_to(mid, sp, moved)
                        && (moved ==> mid.settled(*final(self), offset, r) && (mid.far_from(offset) ==> !r && *final(self) == mid))
                        && (!moved ==> !r && *final(self) == mid)
                } else {
                    !r && *final(self) == *old(self)
                }
            }),
        decreases 1nat, 0nat,
    {
        let ghost o = self.forced_start(offset);
        let ghost sp = ViewportAnchor { starting_point: o as Integer, shift: 0 };
        let moved = self.scroll_forcibly(offset);
        let ghost mid = *self;
        if moved {
            let r = self.bring_into_view_with(offset, 0);
            proof {
                if 0 <= o < TEXT_LIMIT {
                    assert(old(self).moved_to(mid, sp, true));
                    assert(mid.settled(*self, offset, r));
                }
            }
            r
        } else {
            proof {
                if 0 <= o < TEXT_LIMIT {
                    assert(old(self).moved_to(mid, sp, false));

                }
            }
            false
        }
    }

    fn set_anchor_and_horizontal(&mut self, sp: ViewportAnchor, horizontal_scroll: Integer)
        requires
            0 <= sp.starting_point < TEXT_LIMIT,
            -TEXT_LIMIT < sp.shift < TEXT_LIMIT,
            0 <= horizontal_scroll < TEXT_LIMIT,
        ensures
            final(self).spec_selection() == old(self).spec_selection(),
            final(self).spec_scroll_position() == sp,
            final(self).spec_horizontal_scroll() == horizontal_scroll,
            final(self).spec_data() == old(self).spec_data(),
            final(self).spec_events() == old(self).spec_events(),
            final(self).spec_cursor() == old(self).spec_cursor(),
            final(self).spec_datasource() == old(self).spec_datasource(),
            final(self).spec_viewport_height() == old(self).spec_viewport_height(),
            final(self).spec_viewport_width() == old(self).spec_viewport_width(),
    {
        proof {
            use_type_invariant(&*self);
        }
        self.scroll_position = sp;
        self.horizontal_scroll = horizontal_scroll;
    }

    /// A selection between two boundaries given in any order; none when they coincide.
    pub open spec fn created(a: Integer, b: Integer) -> Option<Selection> {
        if a < b {
            Some(Selection { start: a, end: b })
        } else if a == b {
            None
        } else {
            Some(Selection { start: b, end: a })
        }
    }

    /// The selection after the cursor moves from `cursor` to `pos`: when the selection is
    /// adjusted, the end where the cursor stood follows it; otherwise the selection is dropped.
    pub open spec fn selection_after(sel: Option<Selection>, cursor: Integer, pos: Integer, adjust: bool) -> Option<Selection> {
        match sel {
            Some(s) => if adjust {
                if cursor == s.end {
                    Self::created(s.start, pos)
                } else if cursor == s.start {
                    Self::created(pos, s.end)
                } else {
                    sel
                }
            } else {
                None
            },
            None => if adjust {
                Self::created(cursor, pos)
            } else {
                None
            },
        }
    }

    /// Extending a selection from the end where the cursor stands keeps its other end: moving
    /// from its end to `pos` selects between its start and `pos`, moving from its start selects
    /// between `pos` and its end (the two boundaries in order, nothing when they meet). Without
    /// a selection, the cursor's old place and `pos` are selected; without `adjust` the selection
    /// is dropped.
    pub proof fn lemma_extending_keeps_other_end(sel: Selection, cursor: Integer, pos: Integer)
        ensures
            cursor == sel.end ==> Self::selection_after(Some(sel), cursor, pos, true) == (if sel.start < pos {
                Some(Selection { start: sel.start, end: pos })
            } else if sel.start == pos {
                None
            } else {
                Some(Selection { start: pos, end: sel.start })
            }),
            cursor == sel.start && cursor != sel.end ==> Self::selection_after(Some(sel), cursor, pos, true) == (if pos < sel.end {
                Some(Selection { start: pos, end: sel.end })
            } else if pos == sel.end {
                None
            } else {
                Some(Selection { start: sel.end, end: pos })
            }),
            cursor != sel.start && cursor != sel.end ==> Self::selection_after(Some(sel), cursor, pos, true) == Some(sel),
            Self::selection_after(None, cursor, pos, true) == (if cursor < pos {
                Some(Selection { start: cursor, end: pos })
            } else if cursor == pos {
                None
            } else {
                Some(Selection { start: pos, end: cursor })
            }),
            Self::selection_after(Some(sel), cursor, pos, false) is None,
            Self::selection_after(None, cursor, pos, false) is None,
    {
    }

    fn set_selection(&mut self, selection: Option<Selection>)
        ensures
            final(self).spec_selection() == selection,
            final(self).spec_data() == old(self).spec_data(),
            final(self).spec_events() == old(self).spec_events(),
            final(self).spec_cursor() == old(self).spec_cursor(),
            final(self).spec_scroll_position() == old(self).spec_scroll_position(),
            final(self).spec_horizontal_scroll() == old(self).spec_horizontal_scroll(),
            final(self).spec_datasource() == old(self).spec_datasource(),
            final(self).spec_viewport_height() == old(self).spec_viewport_height(),
            final(self).spec_viewport_width() == old(self).spec_viewport_width(),
            final(self).spec_error() == old(self).spec_error(),
    {
        proof {
            use_type_invariant(&*self);
        }
        self.selection = selection;
    }

    fn set_cursor(&mut self, pos: Integer)
        requires
            0 <= pos < TEXT_LIMIT,
        ensures
            final(self).spec_cursor() == pos,
            final(self).spec_events() == if old(self).spec_cursor() != pos {
                old(self).spec_events() + cursor_moved_events(old(self).spec_data(), pos)
            } else {
                old(self).spec_events()
            },
            final(self).spec_data() == old(self).spec_data(),
            final(self).spec_selection() == old(self).spec_selection(),
            final(self).spec_scroll_position() == old(self).spec_scroll_position(),
            final(self).spec_horizontal_scroll() == old(self).spec_horizontal_scroll(),
            final(self).spec_datasource() == old(self).spec_datasource(),
            final(self).spec_viewport_height() == old(self).spec_viewport_height(),
            final(self).spec_viewport_width() == old(self).spec_viewport_width(),
            final(self).spec_error() == old(self).spec_error(),
    {
        proof {
            use_type_invariant(&*self);
        }
        if self.cursor != pos {
            self.cursor = pos;
            self.emit_cursor_moved();
        }
    }

    /// `mid` is this state with the cursor moved to `pos`, the selection following it as
    /// `selection_after` says, and the view as it was.
    pub open spec fn cursor_moved_to(self, mid: RootModel, pos: Integer, adjust_selection: bool) -> bool {
        &&& mid.spec_cursor() == pos
        &&& mid.spec_selection() == Self::selection_after(self.spec_selection(), self.spec_cursor(), pos, adjust_selection)
        &&& mid.spec_data() == self.spec_data()
        &&& mid.spec_scroll_position() == self.spec_scroll_position()
        &&& mid.spec_horizontal_scroll() == self.spec_horizontal_scroll()
        &&& mid.spec_viewport_height() == self.spec_viewport_height()
        &&& mid.spec_viewport_width() == self.spec_viewport_width()
        &&& mid.spec_datasource() == self.spec_datasource()
    }

    /// Moves the cursor to byte `pos` and brings it into view; with `adjust_selection` the
    /// selection follows the cursor, otherwise it is dropped.
    pub fn move_cursor_to_offset(&mut self, pos: Integer, adjust_selection: bool) -> (r: bool)
        requires
            0 <= pos < TEXT_LIMIT,
        ensures
            final(self).spec_cursor() == pos,
            final(self).spec_selection() == Self::selection_after(old(self).spec_selection(), old(self).spec_cursor(), pos, adjust_selection),
            final(self).spec_datasource() == old(self).spec_datasource(),
            exists|mid: RootModel| #[trigger] old(self).cursor_moved_to(mid, pos, adjust_selection) && mid.brought_into_view(*final(self), pos, r),
    {
        proof {
            use_type_invariant(&*self);
        }
        let cursor = self.cursor;
        match self.selection {
            Some(selection) => {
                if adjust_selection {
                    if cursor == selection.end {
                        self.set_selection(Self::create_selection(selection.start, pos));
                    } else if cursor == selection.start {
                        self.set_selection(Self::create_selection(pos, selection.end));
                    }
                } else {
                    self.set_selection(None);
                }
            },
            None => {
                if adjust_selection {
                    self.set_selection(Self::create_selection(cursor, pos));
                }
            },
        }
        self.set_cursor(pos);
        let ghost mid = *self;
        let r = self.bring_into_view(pos);
        assert(old(self).cursor_moved_to(mid, pos, adjust_selection));
        r
    }

    fn create_selection(a: Integer, b: Integer) -> (r: Option<Selection>)
        ensures
            r == Self::created(a, b),
    {
        match Selection::create(a, b) {
            Some(s) => Some(*s),
            None => None,
        }
    }

    /// Selects the whole source and moves the cursor to its beginning.
    pub fn select_all(&mut self)
        ensures
            final(self).spec_cursor() == 0,
            final(self).spec_selection() == Self::selection_after(
                Some(Selection { start: 0, end: byte_len(old(self).spec_datasource().view()) as Integer }),
                old(self).spec_cursor(),
                0,
                true,
            ),
    {
        let length = self.datasource.get_length();
        self.set_selection(Some(Selection { start: 0, end: length }));
        self.move_cursor_to_offset(0, true);
    }

    /// The selected text, if anything is selected.
    pub fn get_selected_content(&self) -> (r: Option<String>)
        ensures
            self.spec_selection() is None ==> r is None,
            self.spec_selection() matches Some(sel) ==> match r {
                Some(t) => t@ == self.spec_datasource().view().subrange(
                    crate::data_source::read_delimited::char_index(self.spec_datasource().view(), sel.start as int),
                    crate::data_source::read_delimited::char_index(self.spec_datasource().view(), sel.end as int),
                ) && 0 <= sel.start <= sel.end,
                None => sel.start < 0 || sel.end < sel.start,
            },
    {
        match self.selection {
            Some(selection) => match self.datasource.read_raw(selection.start, selection.end) {
                Ok(s) => Some(s),
                Err(_) => None,
            },
            None => None,
        }
    }

    /// Moves the cursor to the end of the source.
    pub fn move_cursor_to_end(&mut self) -> (r: bool)
        ensures
            final(self).spec_cursor() == byte_len(old(self).spec_datasource().view()),
            final(self).spec_selection() == Self::selection_after(old(self).spec_selection(), old(self).spec_cursor(), byte_len(old(self).spec_datasource().view()) as Integer, false),
    {
        let length = self.datasource.get_length();
        self.move_cursor_to_offset(length, false)
    }

    /// Shows an error; a previous one is dropped first.
    pub fn set_error(&mut self, err: String)
        ensures
            final(self).spec_error() == Some(err@),
            final(self).spec_events() == (if old(self).spec_error() is Some {
                old(self).spec_events().push(ModelEvent::Error(None))
            } else {
                old(self).spec_events()
            }).push(ModelEvent::Error(Some(err))),
            final(self).spec_data() == old(self).spec_data(),
            final(self).spec_cursor() == old(self).spec_cursor(),
    {
        self.reset_error();
        let shown = err.clone();
        self.set_error_field(err);
        self.push_event(ModelEvent::Error(Some(shown)));
    }

    fn set_error_field(&mut self, err: String)
        ensures
            final(self).spec_error() == Some(err@),
            final(self).spec_events() == old(self).spec_events(),
            final(self).spec_data() == old(self).spec_data(),
            final(self).spec_cursor() == old(self).spec_cursor(),
    {
        proof {
            use_type_invariant(&*self);
        }
        self.error = Some(err);
    }

    /// Drops the error shown, if any; tells whether there was one.
    pub fn reset_error(&mut self) -> (r: bool)
        ensures
            r == old(self).spec_error() is Some,
            final(self).same_dialogs(*old(self)),
            final(self).spec_error() is None,
            final(self).spec_events() == if r {
                old(self).spec_events().push(ModelEvent::Error(None))
            } else {
                old(self).spec_events()
            },
            final(self).spec_data() == old(self).spec_data(),
            final(self).spec_cursor() == old(self).spec_cursor(),
            final(self).same_content(*old(self)),
    {
        proof {
            use_type_invariant(&*self);
        }
        if self.error.is_some() {
            self.error = None;
            self.push_event(ModelEvent::Error(None));
            true
        } else {
            false
        }
    }

    /// The byte the cursor goes to on `line` when it keeps column `width` (in graphemes): the
    /// grapheme at that column, else the last one, else the line's start.
    pub open spec fn offset_in_line(line: LineRender, width: Integer) -> int {
        Self::offset_in_graphemes(line.start as int, line.render@, width)
    }

    /// The byte at column `width` of a line that starts at `start` and renders as `g`: the
    /// grapheme at that column, else the last one, else the line's start.
    pub open spec fn offset_in_graphemes(start: int, g: Seq<GraphemeRender>, width: Integer) -> int {
        let off = if 0 <= width < g.len() {
            g[width as int].render_offset as int
        } else if g.len() > 0 {
            g[g.len() - 1].render_offset as int
        } else {
            0
        };
        start + off
    }

    /// Where the cursor goes on a line that starts at `start` and renders as `g`, keeping
    /// column `width`; it stays at the cursor when that byte lies beyond the limits.
    pub open spec fn land_on(self, start: int, g: Seq<GraphemeRender>, width: Integer) -> int {
        let o = Self::offset_in_graphemes(start, g, width);
        if 0 <= start < TEXT_LIMIT && 0 <= o < TEXT_LIMIT {
            o
        } else {
            self.spec_cursor() as int
        }
    }

    /// The lines `read_lines(offset, n)` gives on the source.
    pub open spec fn read_spec(self, offset: Integer, n: Integer) -> Data {
        choose|d: Data| lines_read(self.spec_datasource().view(), self.spec_datasource().numbering(), offset, n, d)
    }

    /// Where the cursor goes when it moves `dy` lines from position `p` among the lines shown,
    /// keeping its column: on the line shown there; beyond the lines shown, on the line that
    /// far below the last (or above the first) as read from the source, or the last (first)
    /// line read, or else the last (first) line shown.
    pub open spec fn vertical_target(self, dy: Integer, p: Dimension) -> int {
        let lines = self.spec_lines();
        let n = lines.len() as int;
        let y = p.height + dy;
        if 0 <= y < n {
            self.land_on(lines[y].start as int, lines[y].render@, p.width)
        } else {
            let cand: Option<Line> = if y >= 0 {
                let y2 = y - n;
                let d = self.read_spec((lines[n - 1].end + 1) as Integer, (y2 + 1) as Integer);
                if y2 < d.lines@.len() {
                    Some(d.lines@[y2])
                } else if d.lines@.len() > 0 {
                    Some(d.lines@.last())
                } else {
                    None
                }
            } else if lines[0].start == 0 {
                None
            } else {
                let d = self.read_spec((lines[0].start - 1) as Integer, y as Integer);
                if d.lines@.len() > 0 {
                    Some(d.lines@[0])
                } else {
                    None
                }
            };
            match cand {
                Some(l) => self.land_on(l.start as int, graphemes_spec(l.content@), p.width),
                None => if y >= 0 {
                    self.land_on(lines[n - 1].start as int, lines[n - 1].render@, p.width)
                } else {
                    self.land_on(lines[0].start as int, lines[0].render@, p.width)
                },
            }
        }
    }

    fn calc_offset_in_line(line: &LineRender, width: Integer) -> (r: Option<Integer>)
        ensures
            r matches Some(o) ==> o == Self::offset_in_line(*line, width) && 0 <= o < TEXT_LIMIT,
            r is None ==> !(0 <= Self::offset_in_line(*line, width) < TEXT_LIMIT) || !(0 <= line.start < TEXT_LIMIT),
    {
        let g = &line.render;
        let off: usize = if 0 <= width && (width as u64) < (g.len() as u64) {
            g[width as usize].render_offset
        } else if g.len() > 0 {
            g[g.len() - 1].render_offset
        } else {
            0
        };
        let limit = TEXT_LIMIT as Integer;
        if line.start < 0 || line.start >= limit || (off as u64) >= TEXT_LIMIT {
            return None;
        }
        let o = line.start + off as Integer;
        if o < limit {
            Some(o)
        } else {
            None
        }
    }

    /// Where the cursor goes when it moves `dy` lines from `pos` (its position among the lines
    /// shown), keeping its column: on a line shown, or on one read before or after them.
    fn move_cursor_vertically(&self, dy: Integer, pos: Dimension) -> (r: Integer)
        requires
            self.spec_lines().len() > 0,
            0 <= pos.height < self.spec_lines().len(),
            -TEXT_LIMIT < dy < TEXT_LIMIT,
        ensures
            0 <= r < TEXT_LIMIT,
            0 <= pos.height + dy < self.spec_lines().len() && 0 <= Self::offset_in_line(self.spec_lines()[pos.height + dy], pos.width) < TEXT_LIMIT
                ==> r == Self::offset_in_line(self.spec_lines()[pos.height + dy], pos.width),
            r == self.vertical_target(dy, pos),
    {
        proof {
            use_type_invariant(self);
        }
        let data = self.data.as_ref().unwrap();
        let n = data.lines.len();
        let y = pos.height + dy;
        if 0 <= y && (y as u64) < (n as u64) {
            return match Self::calc_offset_in_line(&data.lines[y as usize], pos.width) {
                Some(o) => o,
                None => self.cursor,
            };
        }
        let line: Option<LineRender> = if y >= 0 {
            let y2 = y - n as Integer;
            let offset: Integer = match data.end {
                Some(x) => x + 1,
                None => 0,
            };
            let mut new_lines = self.datasource.read_lines(offset, y2 + 1).lines;
            if (y2 as u64) < (new_lines.len() as u64) {
                Some(LineRender::new(new_lines.remove(y2 as usize)))
            } else {
                match new_lines.pop() {
                    Some(l) => Some(LineRender::new(l)),
                    None => None,
                }
            }
        } else {
            let start = match data.start {
                Some(x) => x,
                None => 0,
            };
            if start == 0 {
                None
            } else {
                let mut new_lines = self.datasource.read_lines(start - 1, y).lines;
                if new_lines.len() > 0 {
                    Some(LineRender::new(new_lines.remove(0)))
                } else {
                    None
                }
            }
        };
        let found = match &line {
            Some(l) => Self::calc_offset_in_line(l, pos.width),
            None => {
                let fallback = if y >= 0 {
                    &data.lines[n - 1]
                } else {
                    &data.lines[0]
                };
                Self::calc_offset_in_line(fallback, pos.width)
            },
        };
        match found {
            Some(o) => o,
            None => self.cursor,
        }
    }

    /// The graphemes a line shows: an empty line shows one space.
    pub open spec fn shown_graphemes(line: LineRender) -> Seq<GraphemeRender> {
        if line.content@.len() == 0 {
            seq![GraphemeRender { original_offset: 0, render_offset: 0, is_first_in_original: true }]
        } else {
            line.render@
        }
    }

    /// The first grapheme at index `e` or after it that starts a char.
    pub open spec fn first_at_or_after(g: Seq<GraphemeRender>, e: int) -> Option<int>
        decreases g.len() - e,
    {
        if e < 0 || e >= g.len() {
            None
        } else if g[e].is_first_in_original {
            Some(e)
        } else {
            Self::first_at_or_after(g, e + 1)
        }
    }

    /// The last grapheme at index `e` or before it that starts a char.
    pub open spec fn first_at_or_before(g: Seq<GraphemeRender>, e: int) -> Option<int>
        decreases e + 1,
    {
        if e < 0 {
            None
        } else if e >= g.len() {
            Self::first_at_or_before(g, g.len() - 1)
        } else if g[e].is_first_in_original {
            Some(e)
        } else {
            Self::first_at_or_before(g, e - 1)
        }
    }

    fn shown_of(line: &LineRender) -> (r: Vec<GraphemeRender>)
        ensures
            r@ == Self::shown_graphemes(*line),
    {
        if line.content.as_str().is_empty() {
            let mut v = Vec::new();
            v.push(GraphemeRender { original_offset: 0, render_offset: 0, is_first_in_original: true });
            v
        } else {
            let mut v = Vec::new();
            let mut i: usize = 0;
            while i < line.render.len()
                invariant
                    i <= line.render@.len(),
                    v@ == line.render@.take(i as int),
                decreases line.render@.len() - i,
            {
                proof {
                    assert(line.render@.take(i + 1) =~= line.render@.take(i as int).push(line.render@[i as int]));
                }
                v.push(line.render[i]);
                i += 1;
            }
            proof {
                assert(line.render@.take(i as int) =~= line.render@);
            }
            v
        }
    }

    fn find_forward(g: &Vec<GraphemeRender>, e: Integer) -> (r: Option<usize>)
        requires
            0 <= e,
        ensures
            match r {
                Some(k) => Self::first_at_or_after(g@, e as int) == Some(k as int) && k < g@.len(),
                None => Self::first_at_or_after(g@, e as int) is None,
            },
    {
        if (e as u64) >= (g.len() as u64) {
            return None;
        }
        let mut k: usize = e as usize;
        while k < g.len()
            invariant
                e <= k <= g@.len(),
                Self::first_at_or_after(g@, e as int) == Self::first_at_or_after(g@, k as int),
            decreases g@.len() - k,
        {
            if g[k].is_first_in_original {
                return Some(k);
            }
            k += 1;
        }
        None
    }

    fn find_backward(g: &Vec<GraphemeRender>, e: Integer) -> (r: Option<usize>)
        requires
            0 <= e,
        ensures
            match r {
                Some(k) => Self::first_at_or_before(g@, e as int) == Some(k as int) && k < g@.len(),
                None => Self::first_at_or_before(g@, e as int) is None,
            },
    {
        if g.len() == 0 {
            proof {
                reveal_with_fuel(RootModel::first_at_or_before, 3);
            }
            return None;
        }
        let mut k: usize = if (e as u64) >= (g.len() as u64) {
            g.len() - 1
        } else {
            e as usize
        };
        proof {
            if e >= g@.len() {
                reveal_with_fuel(RootModel::first_at_or_before, 2);
            }
        }
        loop
            invariant
                k < g@.len(),
                Self::first_at_or_before(g@, e as int) == Self::first_at_or_before(g@, k as int),
            decreases k,
        {
            if g[k].is_first_in_original {
                return Some(k);
            }
            if k == 0 {
                proof {
                    reveal_with_fuel(RootModel::first_at_or_before, 2);
                }
                return None;
            }
            k -= 1;
        }
    }

    /// The graphemes a line with content `c` shows once rendered: an empty line shows one space.
    pub open spec fn shown_of_content(c: Seq<char>) -> Seq<GraphemeRender> {
        if c.len() == 0 {
            seq![GraphemeRender { original_offset: 0, render_offset: 0, is_first_in_original: true }]
        } else {
            graphemes_spec(c)
        }
    }

    /// One line of a horizontal move over the graphemes `g` of a line from `start` to `end`,
    /// from column `p` (counted from the end when negative, -1 being past the last grapheme):
    /// the byte of the first grapheme that starts a char at column `p + dx` or beyond it
    /// (before it, moving backward); else what remains of the move for the next line (the
    /// column there, the graphemes still to pass) and the place to stop at when no line
    /// follows (this line's end, or its start moving backward).
    pub open spec fn step_spec(g: Seq<GraphemeRender>, start: int, end: int, p: int, dx: int, forward: bool) -> Result<int, (int, int, int)> {
        let p = if p < 0 { p + g.len() + 1 } else { p };
        let e = p + dx;
        if e >= 0 {
            let k = if forward { Self::first_at_or_after(g, e) } else { Self::first_at_or_before(g, e) };
            match k {
                Some(k) => if start + g[k].original_offset < TEXT_LIMIT {
                    Ok(start + g[k].original_offset)
                } else {
                    Err((0, 0, end))
                },
                None => Err((0, dx - (g.len() - p), end)),
            }
        } else {
            Err((-1, dx + p, start))
        }
    }

    /// The line next to the one numbered `n` (among the lines shown) that runs from `start`
    /// to `end`, going forward or backward: the line shown there, else the line read from the
    /// source; its start, end and shown graphemes.
    pub open spec fn next_line_spec(self, n: int, start: int, end: int, forward: bool) -> Option<(int, int, Seq<GraphemeRender>)> {
        let m = if forward { n + 1 } else { n - 1 };
        let lines = self.spec_lines();
        if 0 <= m < lines.len() {
            Some((lines[m].start as int, lines[m].end as int, Self::shown_graphemes(lines[m])))
        } else {
            let s = self.spec_datasource().view();
            let read = if forward {
                line_fwd(s, end + 1)
            } else if start > 0 {
                line_bwd(s, start - 1)
            } else {
                None
            };
            match read {
                Some((a, e, c)) => Some((a as int, e, Self::shown_of_content(c))),
                None => None,
            }
        }
    }

    /// The rest of a horizontal move that did not end on the line numbered `n` (from `start`
    /// to `end`): line after line, `p` and `rest` being the column and the graphemes still to
    /// pass, and `best` where to stop when no further line can be read.
    pub open spec fn walk_spec(self, n: int, start: int, end: int, p: int, rest: int, best: int, forward: bool) -> int
        decreases (if forward { if end < TEXT_LIMIT { TEXT_LIMIT - end } else { 0 } } else { if start < -1 { 0 } else { start + 1 } }),
    {
        if !(-TEXT_LIMIT < rest < TEXT_LIMIT) {
            best
        } else {
            match self.next_line_spec(n, start, end, forward) {
                None => best,
                Some((s2, e2, g2)) => {
                    let progress = if forward { e2 > end } else { s2 < start };
                    if !progress || !(0 <= s2 <= e2 < TEXT_LIMIT) || g2.len() >= TEXT_LIMIT || !(0 <= start <= end < TEXT_LIMIT) {
                        best
                    } else {
                        let m = if forward { n + 1 } else { n - 1 };
                        let nn = if m < 0 { 0 } else if m > self.spec_lines().len() { self.spec_lines().len() as int } else { m };
                        match Self::step_spec(g2, s2, e2, p, rest, forward) {
                            Ok(o) => o,
                            Err(c) => self.walk_spec(nn, s2, e2, c.0, c.1, c.2, forward),
                        }
                    }
                },
            }
        }
    }

    /// One line of a horizontal move: the byte reached on it, or what remains of the move
    /// (column on the next line, graphemes still to pass, and the best place so far).
    fn step_in_line(
        graphemes: &Vec<GraphemeRender>,
        start: Integer,
        end: Integer,
        position_in_line: Integer,
        dx: Integer,
        forward: bool,
    ) -> (r: Result<Integer, (Integer, Integer, Integer)>)
        requires
            0 <= start <= end < TEXT_LIMIT,
            -TEXT_LIMIT < dx < TEXT_LIMIT,
            -1 <= position_in_line < TEXT_LIMIT,
            graphemes@.len() < TEXT_LIMIT,
        ensures
            ({
                let p = if position_in_line < 0 { position_in_line + graphemes@.len() + 1 } else { position_in_line as int };
                let e = p + dx;
                let k = if forward { Self::first_at_or_after(graphemes@, e) } else { Self::first_at_or_before(graphemes@, e) };
                &&& (e >= 0 && k is Some && 0 <= start + graphemes@[k.unwrap()].original_offset < TEXT_LIMIT)
                    ==> r == Ok::<Integer, (Integer, Integer, Integer)>((start + graphemes@[k.unwrap()].original_offset) as Integer)
                &&& r matches Ok(o) ==> 0 <= o < TEXT_LIMIT
                &&& r matches Err(c) ==> -1 <= c.0 < TEXT_LIMIT && 0 <= c.2 < TEXT_LIMIT
                &&& match Self::step_spec(graphemes@, start as int, end as int, position_in_line as int, dx as int, forward) {
                    Ok(o) => r == Ok::<Integer, (Integer, Integer, Integer)>(o as Integer),
                    Err(c) => r matches Err(c2) && c2.0 == c.0 && c2.1 == c.1 && c2.2 == c.2,
                }
            }),
    {
        let len = graphemes.len() as Integer;
        let limit = TEXT_LIMIT as Integer;
        let mut p = position_in_line;
        if p < 0 {
            p = p + len + 1;
        }
        let expected = p + dx;
        if expected >= 0 {
            let k = if forward {
                Self::find_forward(graphemes, expected)
            } else {
                Self::find_backward(graphemes, expected)
            };
            if let Some(k) = k {
                let off = graphemes[k].original_offset;
                if (off as u64) < TEXT_LIMIT && start + (off as Integer) < limit {
                    return Ok(start + off as Integer);
                }
                return Err((0, 0, end));
            }
            let d = len - p;
            Err((0, dx - d, end))
        } else {
            Err((-1, dx + p, start))
        }
    }

    /// Where the cursor goes when it moves `dx` graphemes from `pos` (its position among the
    /// lines shown), across line ends: to the grapheme that far on the cursor's line when there
    /// is one, else on the following (or preceding) lines; at the end of the source, the end of
    /// the last line reached.
    fn move_cursor_horizontally(&self, dx: Integer, pos: Dimension) -> (r: Integer)
        requires
            self.spec_lines().len() > 0,
            0 <= pos.height < self.spec_lines().len(),
            0 <= pos.width < TEXT_LIMIT,
            -TEXT_LIMIT < dx < TEXT_LIMIT,
        ensures
            0 <= r < TEXT_LIMIT,
            ({
                let line = self.spec_lines()[pos.height as int];
                match Self::step_spec(Self::shown_graphemes(line), line.start as int, line.end as int, pos.width as int, dx as int, dx >= 0) {
                    Ok(o) => r == o,
                    Err(c) => r == self.walk_spec(pos.height as int, line.start as int, line.end as int, c.0, c.1, c.2, dx >= 0),
                }
            }),
            ({
                let line = self.spec_lines()[pos.height as int];
                let g = Self::shown_graphemes(line);
                let e = pos.width + dx;
                let k = if dx >= 0 { Self::first_at_or_after(g, e) } else { Self::first_at_or_before(g, e) };
                e >= 0 && k is Some && 0 <= line.start + g[k.unwrap()].original_offset < TEXT_LIMIT
                    ==> r == line.start + g[k.unwrap()].original_offset
            }),
    {
        proof {
            use_type_invariant(self);
        }
        let limit = TEXT_LIMIT as Integer;
        let forward = dx >= 0;
        let data = self.data.as_ref().unwrap();
        let n = data.lines.len();
        let first = &data.lines[pos.height as usize];
        let mut start: Integer = first.start;
        let mut end: Integer = first.end;
        let mut graphemes = Self::shown_of(first);
        proof {
            if first.content@.len() != 0 {
                assert(graphemes@.len() < TEXT_LIMIT);
            }
        }
        let ghost dx0 = dx;
        let (mut position_in_line, mut remaining, mut best) = match Self::step_in_line(&graphemes, start, end, pos.width, dx, forward) {
            Ok(o) => return o,
            Err(c) => c,
        };
        let ghost in_line = {
            let line = self.spec_lines()[pos.height as int];
            let g = Self::shown_graphemes(line);
            let e = pos.width + dx0;
            let k = if dx0 >= 0 { Self::first_at_or_after(g, e) } else { Self::first_at_or_before(g, e) };
            e >= 0 && k is Some && 0 <= line.start + g[k.unwrap()].original_offset < TEXT_LIMIT
        };
        assert(!in_line);
        let mut line_number: Integer = pos.height;
        let ghost target = self.walk_spec(pos.height as int, start as int, end as int, position_in_line as int, remaining as int, best as int, forward);
        loop
            invariant
                !in_line,
                dx0 == dx,
                forward == (dx0 >= 0),
                target == self.walk_spec(line_number as int, start as int, end as int, position_in_line as int, remaining as int, best as int, forward),
                ({
                    let line = self.spec_lines()[pos.height as int];
                    match Self::step_spec(Self::shown_graphemes(line), line.start as int, line.end as int, pos.width as int, dx as int, dx >= 0) {
                        Ok(o) => false,
                        Err(c) => target == self.walk_spec(pos.height as int, line.start as int, line.end as int, c.0, c.1, c.2, dx >= 0),
                    }
                }),
                self.data is Some,
                data == self.data.unwrap(),
                in_line == {
                    let line = self.spec_lines()[pos.height as int];
                    let g = Self::shown_graphemes(line);
                    let e = pos.width + dx0;
                    let k = if dx0 >= 0 { Self::first_at_or_after(g, e) } else { Self::first_at_or_before(g, e) };
                    e >= 0 && k is Some && 0 <= line.start + g[k.unwrap()].original_offset < TEXT_LIMIT
                },
                0 <= start <= end < TEXT_LIMIT,
                -1 <= position_in_line < TEXT_LIMIT,
                graphemes@.len() < TEXT_LIMIT,
                0 <= best < TEXT_LIMIT,
                limit == TEXT_LIMIT,
                n == data.lines@.len(),
                n < TEXT_LIMIT,
                0 <= line_number < TEXT_LIMIT,
                lines_sorted(data.lines@),
                lines_bounded(data.lines@),
            decreases (if forward { TEXT_LIMIT - end } else { start + 1 }),
        {
            if !(-limit < remaining && remaining < limit) {
                return best;
            }
            let next_number: Integer = if forward { line_number + 1 } else { line_number - 1 };
            let next: Option<(Integer, Integer, Vec<GraphemeRender>)> = if 0 <= next_number && (next_number as u64) < (n as u64) {
                let l = &data.lines[next_number as usize];
                let sh = Self::shown_of(l);
                assert(self.spec_lines() == data.lines@);
                assert(self.next_line_spec(line_number as int, start as int, end as int, forward) == Some((l.start as int, l.end as int, sh@)));
                Some((l.start, l.end, sh))
            } else {
                let ghost sv = self.datasource.view();
                let read = if forward {
                    let rl = self.datasource.read_next_line(end + 1);
                    proof {
                        lemma_line_fwd_bounds(sv, end + 1);
                        if rl is Some {
                            let l = rl.unwrap();
                            assert(line_fwd(sv, end + 1) == Some((l.start as nat, l.end as int, l.content@)));
                        }
                    }
                    rl
                } else if start > 0 {
                    let rl = self.datasource.read_prev_line(start - 1);
                    proof {
                        lemma_line_bwd_bounds(sv, start - 1);
                        if rl is Some {
                            let l = rl.unwrap();
                            assert(line_bwd(sv, start - 1) == Some((l.start as nat, l.end as int, l.content@)));
                        }
                    }
                    rl
                } else {
                    None
                };
                match read {
                    Some(l) => {
                        let render = LineRender::new(l);
                        let shown = Self::shown_of(&render);
                        proof {
                            assert(shown@ == Self::shown_of_content(render.content@));
                            assert(self.spec_lines() == data.lines@);
                            assert(self.next_line_spec(line_number as int, start as int, end as int, forward) == Some((render.start as int, render.end as int, shown@)));
                        }
                        Some((render.start, render.end, shown))
                    },
                    None => None,
                }
            };
            assert(match next {
                Some((a, b, g)) => self.next_line_spec(line_number as int, start as int, end as int, forward) == Some((a as int, b as int, g@)),
                None => self.next_line_spec(line_number as int, start as int, end as int, forward) is None,
            });
            match next {
                Some((s2, e2, g2)) => {
                    let progress = if forward { e2 > end } else { s2 < start };
                    if !progress || !(0 <= s2 && s2 <= e2 && e2 < limit) || (g2.len() as u64) >= TEXT_LIMIT {
                        return best;
                    }
                    start = s2;
                    end = e2;
                    graphemes = g2;
                    line_number = if next_number < 0 {
                        0
                    } else if (next_number as u64) > (n as u64) {
                        n as Integer
                    } else {
                        next_number
                    };
                    match Self::step_in_line(&graphemes, start, end, position_in_line, remaining, forward) {
                        Ok(o) => return o,
                        Err(c) => {
                            position_in_line = c.0;
                            remaining = c.1;
                            best = c.2;
                        },
                    }
                },
                None => {
                    return best;
                },
            }
        }
    }

    /// The byte a token move from the cursor reaches: the start of the next (or previous) token,
    /// else the cursor itself.
    pub open spec fn token_target(self, direction: Direction) -> int {
        let v = self.spec_datasource().view();
        let c = self.spec_cursor();
        if c > byte_len(v) {
            c as int
        } else {
            match skip_token_index(v, c as int, direction) {
                Some(k) => (pos(v, k) as Integer) as int,
                None => c as int,
            }
        }
    }

    /// Where the cursor goes when it moves as `delta` says from position `p` among the lines
    /// shown: by graphemes, across lines shown or read (`walk_spec`); by lines, to the line
    /// shown or read that far (`vertical_target`); by tokens.
    pub open spec fn shift_target(self, delta: CursorShift, p: Dimension) -> int {
        let lines = self.spec_lines();
        let in_cache = 0 <= p.height < lines.len() && 0 <= p.width < TEXT_LIMIT;
        match delta {
            CursorShift::X(x) => if in_cache && -TEXT_LIMIT < x < TEXT_LIMIT {
                let line = lines[p.height as int];
                match Self::step_spec(Self::shown_graphemes(line), line.start as int, line.end as int, p.width as int, x as int, x >= 0) {
                    Ok(o) => o,
                    Err(c) => self.walk_spec(p.height as int, line.start as int, line.end as int, c.0, c.1, c.2, x >= 0),
                }
            } else {
                self.spec_cursor() as int
            },
            CursorShift::Y(y) => if in_cache && -TEXT_LIMIT < y < TEXT_LIMIT {
                self.vertical_target(y, p)
            } else {
                self.spec_cursor() as int
            },
            CursorShift::TokenForward => {
                let t = self.token_target(Direction::Forward);
                if 0 <= t < TEXT_LIMIT { t } else { self.spec_cursor() as int }
            },
            CursorShift::TokenBackward => {
                let t = self.token_target(Direction::Backward);
                if 0 <= t < TEXT_LIMIT { t } else { self.spec_cursor() as int }
            },
        }
    }

    /// Moves the cursor as `delta` says (by graphemes, lines or tokens) from where it stands
    /// among the lines shown, and brings it into view; nothing happens when it stands outside
    /// them.
    pub fn move_cursor(&mut self, delta: CursorShift, adjust_selection: bool)
        ensures
            old(self).spec_cursor_in_cache() is None ==> *final(self) == *old(self),
            final(self).spec_datasource() == old(self).spec_datasource(),
            old(self).spec_cursor_in_cache() matches Some(p) ==> {
                &&& 0 <= final(self).spec_cursor() < TEXT_LIMIT
                &&& final(self).spec_selection() == Self::selection_after(
                    old(self).spec_selection(),
                    old(self).spec_cursor(),
                    final(self).spec_cursor(),
                    adjust_selection,
                )
                &&& final(self).spec_cursor() == old(self).shift_target(delta, p)
            },
    {
        proof {
            use_type_invariant(&*self);
        }
        let current_pos = match self.get_cursor_in_cache() {
            Some(p) => p,
            None => return,
        };
        let limit = TEXT_LIMIT as Integer;
        let n = match &self.data {
            Some(d) => d.lines.len(),
            None => 0,
        };
        let in_cache = 0 <= current_pos.height && (current_pos.height as u64) < (n as u64) && 0 <= current_pos.width
            && current_pos.width < limit;
        let new_offset: Integer = match delta {
            CursorShift::X(x) => if in_cache && -limit < x && x < limit {
                self.move_cursor_horizontally(x, current_pos)
            } else {
                self.cursor
            },
            CursorShift::Y(y) => if in_cache && -limit < y && y < limit {
                self.move_cursor_vertically(y, current_pos)
            } else {
                self.cursor
            },
            CursorShift::TokenForward => match self.datasource.skip_token(self.cursor, Direction::Forward) {
                Ok(o) => o,
                Err(_) => self.cursor,
            },
            CursorShift::TokenBackward => match self.datasource.skip_token(self.cursor, Direction::Backward) {
                Ok(o) => o,
                Err(_) => self.cursor,
            },
        };
        let new_offset = if 0 <= new_offset && new_offset < limit {
            new_offset
        } else {
            self.cursor
        };
        self.move_cursor_to_offset(new_offset, adjust_selection);
    }

    /// The cursor's position on screen: its column counted from the first grapheme shown
    /// (after the horizontal scroll), and its row; none when it is not visible.
    pub fn get_cursor_on_screen(&self) -> (r: Option<Dimension>)
        ensures
            r == match self.spec_cursor_in_cache() {
                Some(p) => {
                    let lines = self.spec_lines();
                    let hs = self.spec_horizontal_scroll();
                    if 0 <= p.height < lines.len() && 0 <= hs < lines[p.height as int].render@.len()
                        && p.width >= lines[p.height as int].render@[hs as int].render_offset {
                        Some(Dimension {
                            width: (p.width - lines[p.height as int].render@[hs as int].render_offset) as Integer,
                            height: p.height,
                        })
                    } else {
                        None
                    }
                },
                None => None,
            },
    {
        proof {
            use_type_invariant(self);
        }
        let p = match self.get_cursor_in_cache() {
            Some(p) => p,
            None => return None,
        };
        let data = self.data.as_ref().unwrap();
        let hs = self.horizontal_scroll;
        if !(0 <= p.height && (p.height as u64) < (data.lines.len() as u64)) {
            return None;
        }
        let line = &data.lines[p.height as usize];
        if !(0 <= hs && (hs as u64) < (line.render.len() as u64)) {
            return None;
        }
        let g = line.render[hs as usize];
        if p.width >= 0 && (p.width as u64) >= (g.render_offset as u64) {
            Some(Dimension::new(p.width - g.render_offset as Integer, p.height))
        } else {
            None
        }
    }

    /// Shows or hides line numbers.
    pub fn set_show_line_numbers(&mut self, show_line_numbers: bool)
        ensures
            final(self).spec_show_line_numbers() == show_line_numbers,
            final(self).spec_datasource().spec_tracks_line_numbers() == show_line_numbers,
            final(self).spec_datasource().view() == old(self).spec_datasource().view(),
            final(self).spec_data() == old(self).spec_data(),
    {
        proof {
            use_type_invariant(&*self);
        }
        self.show_line_numbers = show_line_numbers;
        let mut ds = empty_source();
        std::mem::swap(&mut ds, &mut self.datasource);
        ds.track_line_number(show_line_numbers);
        self.datasource = ds;
    }

    /// The name of the file last set, as its chars.
    pub closed spec fn spec_file_name(self) -> Option<Seq<char>> {
        match self.file_name {
            Some(n) => Some(n@),
            None => None,
        }
    }

    /// Whether a file name has been set since the model was made.
    pub closed spec fn spec_file_loaded(self) -> bool {
        self.is_file_loaded
    }

    /// Whether the file named `value` has to be loaded: when it differs from the file shown,
    /// or nothing was loaded yet. The name is then remembered.
    pub fn set_file_name(&mut self, value: Option<&str>) -> (r: bool)
        ensures
            r == (old(self).spec_file_name() != (match value {
                Some(v) => Some(v@),
                None => None::<Seq<char>>,
            }) || !old(self).spec_file_loaded()),
            r ==> final(self).spec_file_name() == (match value {
                Some(v) => Some(v@),
                None => None::<Seq<char>>,
            }) && final(self).spec_file_loaded(),
            !r ==> *final(self) == *old(self),
            final(self).spec_data() == old(self).spec_data(),
            final(self).spec_cursor() == old(self).spec_cursor(),
            final(self).spec_datasource() == old(self).spec_datasource(),
    {
        proof {
            use_type_invariant(&*self);
        }
        let same = match (&self.file_name, value) {
            (Some(a), Some(b)) => crate::profiles::action_description::str_eq(a.as_str(), b),
            (None, None) => true,
            _ => false,
        };
        if !same || !self.is_file_loaded {
            let name = match value {
                Some(v) => Some(String::from_str(v)),
                None => None,
            };
            self.set_name_loaded(name);
            true
        } else {
            false
        }
    }

    fn set_name_loaded(&mut self, name: Option<String>)
        ensures
            final(self).spec_file_name() == (match name {
                Some(n) => Some(n@),
                None => None::<Seq<char>>,
            }),
            final(self).spec_file_loaded(),
            *final(self) == (RootModel { file_name: name, is_file_loaded: true, ..*old(self) }),
            final(self).spec_data() == old(self).spec_data(),
            final(self).spec_cursor() == old(self).spec_cursor(),
            final(self).spec_datasource() == old(self).spec_datasource(),
    {
        proof {
            use_type_invariant(&*self);
        }
        self.file_name = name;
        self.is_file_loaded = true;
    }

    /// Shows a new source: the cursor and the scroll go back to the beginning, line numbers
    /// are tracked as set, the file name and size are announced, and the viewport is read.
    pub fn load_text(&mut self, file_name: &str, text: Text) -> (r: bool)
        ensures
            final(self).spec_datasource().view() == text.view(),
            final(self).spec_datasource().spec_tracks_line_numbers() == old(self).spec_show_line_numbers(),
            final(self).spec_cursor() == 0,
            final(self).spec_horizontal_scroll() == 0,
            final(self).spec_file_size() == byte_len(text.view()),
    {
        proof {
            use_type_invariant(&*self);
        }
        let mut ds = LineSourceImpl::new(text);
        if self.show_line_numbers {
            ds.track_line_number(true);
        }
        let size = ds.get_length();
        self.reset_with(ds, size);
        self.push_event(ModelEvent::FileName(String::from_str(file_name), size as u64));
        self.update_viewport_content()
    }

    fn reset_with(&mut self, ds: LineSourceImpl, size: Integer)
        requires
            0 <= size < TEXT_LIMIT,
        ensures
            final(self).spec_datasource() == ds,
            final(self).spec_cursor() == 0,
            final(self).spec_horizontal_scroll() == 0,
            final(self).spec_scroll_position() == (ViewportAnchor { starting_point: 0, shift: 0 }),
            final(self).spec_file_size() == size,
            final(self).spec_show_line_numbers() == old(self).spec_show_line_numbers(),
            final(self).spec_events() == old(self).spec_events(),
    {
        proof {
            use_type_invariant(&*self);
        }
        self.cursor = 0;
        self.scroll_position = ViewportAnchor { starting_point: 0, shift: 0 };
        self.horizontal_scroll = 0;
        self.datasource = ds;
        self.file_size = size;
    }

    pub fn quit(&mut self)
        ensures
            final(self).spec_events() == old(self).spec_events().push(ModelEvent::Quit),
    {
        self.push_event(ModelEvent::Quit);
    }

    /// Shows or hides the search field; announces a change.
    pub fn set_search_visible(&mut self, visible: bool)
        ensures
            final(self).spec_search_visible() == visible,
            final(self).spec_open_file_open() == old(self).spec_open_file_open(),
            final(self).spec_has_current_search() == old(self).spec_has_current_search(),
            final(self).spec_error() == old(self).spec_error(),
            final(self).spec_events() == if old(self).spec_search_visible() != visible {
                old(self).spec_events().push(ModelEvent::SearchOpen(visible))
            } else {
                old(self).spec_events()
            },
            final(self).spec_go_to_line_open() == old(self).spec_go_to_line_open(),
            final(self).spec_go_to_date_open() == old(self).spec_go_to_date_open(),
            final(self).spec_help_open() == old(self).spec_help_open(),
            final(self).spec_metrics_open() == old(self).spec_metrics_open(),
            final(self).same_content(*old(self)),
    {
        proof {
            use_type_invariant(&*self);
        }
        if self.search_model.visible != visible {
            self.set_search_visible_field(visible);
            self.push_event(ModelEvent::SearchOpen(visible));
        }
    }

    fn set_search_visible_field(&mut self, visible: bool)
        ensures
            final(self).spec_search_visible() == visible,
            final(self).spec_open_file_open() == old(self).spec_open_file_open(),
            final(self).spec_has_current_search() == old(self).spec_has_current_search(),
            final(self).spec_go_to_line_open() == old(self).spec_go_to_line_open(),
            final(self).spec_go_to_date_open() == old(self).spec_go_to_date_open(),
            final(self).spec_help_open() == old(self).spec_help_open(),
            final(self).spec_metrics_open() == old(self).spec_metrics_open(),
            final(self).spec_events() == old(self).spec_events(),
            final(self).spec_error() == old(self).spec_error(),
            final(self).same_content(*old(self)),
    {
        proof {
            use_type_invariant(&*self);
        }
        self.search_model.visible = visible;
    }

    pub closed spec fn spec_search_visible(self) -> bool {
        self.search_model.visible
    }

    pub closed spec fn spec_open_file_open(self) -> bool {
        self.open_file_model.is_open
    }

    pub closed spec fn spec_has_current_search(self) -> bool {
        self.current_search is Some
    }

    pub closed spec fn spec_go_to_line_open(self) -> bool {
        self.go_to_line_model.is_open
    }

    pub closed spec fn spec_go_to_date_open(self) -> bool {
        self.go_to_date_model.go_to_model.is_open
    }

    pub closed spec fn spec_help_open(self) -> bool {
        self.help_open
    }

    pub closed spec fn spec_metrics_open(self) -> bool {
        self.metrics_model.is_open
    }

    pub closed spec fn spec_go_to_line_model(self) -> GoToLineModel {
        self.go_to_line_model
    }

    pub closed spec fn spec_metrics_model(self) -> MetricsModel {
        self.metrics_model
    }

    pub closed spec fn spec_progress_model(self) -> ProgressModel {
        self.progress_model
    }

    pub closed spec fn spec_current_search(self) -> Option<Search> {
        self.current_search
    }

    pub closed spec fn spec_search_model(self) -> SearchModel {
        self.search_model
    }

    pub closed spec fn spec_go_to_date_model(self) -> GoToDateModel {
        self.go_to_date_model
    }

    pub closed spec fn spec_open_file_model(self) -> OpenFileModel {
        self.open_file_model
    }

    pub closed spec fn spec_bgp_model(self) -> BGPModel {
        self.bgp_model
    }

    pub fn get_search_model(&self) -> (r: &SearchModel)
        ensures
            *r == self.spec_search_model(),
    {
        &self.search_model
    }

    pub fn get_go_to_date_model(&self) -> (r: &GoToDateModel)
        ensures
            *r == self.spec_go_to_date_model(),
    {
        &self.go_to_date_model
    }

    pub fn get_open_file_model(&self) -> (r: &OpenFileModel)
        ensures
            *r == self.spec_open_file_model(),
    {
        &self.open_file_model
    }

    pub fn get_bgp_model(&self) -> (r: &BGPModel)
        ensures
            *r == self.spec_bgp_model(),
    {
        &self.bgp_model
    }

    pub fn get_go_to_line_model(&self) -> (r: &GoToLineModel)
        ensures
            *r == self.spec_go_to_line_model(),
    {
        &self.go_to_line_model
    }

    pub fn get_metrics_model(&self) -> (r: &MetricsModel)
        ensures
            *r == self.spec_metrics_model(),
    {
        &self.metrics_model
    }

    pub fn get_progress_model(&self) -> (r: &ProgressModel)
        ensures
            *r == self.spec_progress_model(),
    {
        &self.progress_model
    }

    pub fn get_current_search(&self) -> (r: Option<&Search>)
        ensures
            match self.spec_current_search() {
                Some(s) => r matches Some(x) && *x == s,
                None => r is None,
            },
    {
        match &self.current_search {
            Some(s) => Some(s),
            None => None,
        }
    }

    /// Opens or closes a dialog (without announcing it).
    pub fn set_dialogs(&mut self, open_file_open: bool, help_open: bool, go_to_date_open: bool)
        ensures
            final(self).spec_open_file_open() == open_file_open,
            final(self).spec_search_visible() == old(self).spec_search_visible(),
            final(self).spec_has_current_search() == old(self).spec_has_current_search(),
            final(self).spec_go_to_line_open() == old(self).spec_go_to_line_open(),
            final(self).spec_metrics_open() == old(self).spec_metrics_open(),
            final(self).spec_error() == old(self).spec_error(),
            final(self).spec_help_open() == help_open,
            final(self).spec_go_to_date_open() == go_to_date_open,
            final(self).spec_events() == old(self).spec_events(),
            final(self).same_content(*old(self)),
    {
        proof {
            use_type_invariant(&*self);
        }
        self.open_file_model.is_open = open_file_open;
        self.help_open = help_open;
        self.go_to_date_model.go_to_model.is_open = go_to_date_open;
    }

    /// Replaces the current search and announces the hint to show (none without a search).
    pub fn set_current_search(&mut self, search: Option<Search>, next_hotkeys: &str, prev_hotkeys: &str)
        ensures
            final(self).spec_has_current_search() == search is Some,
            final(self).spec_search_visible() == old(self).spec_search_visible(),
            final(self).spec_open_file_open() == old(self).spec_open_file_open(),
            final(self).spec_help_open() == old(self).spec_help_open(),
            final(self).spec_error() == old(self).spec_error(),
            final(self).spec_events().len() == old(self).spec_events().len() + 1,
            final(self).spec_events().drop_last() == old(self).spec_events(),
            search is None ==> (final(self).spec_events().last() matches ModelEvent::Hint(h) && h@.len() == 0),
            final(self).spec_go_to_line_open() == old(self).spec_go_to_line_open(),
            final(self).spec_go_to_date_open() == old(self).spec_go_to_date_open(),
            final(self).spec_metrics_open() == old(self).spec_metrics_open(),
            final(self).same_content(*old(self)),
    {
        proof {
            use_type_invariant(&*self);
        }
        let hint = if search.is_some() {
            Search::get_hint(next_hotkeys, prev_hotkeys)
        } else {
            String::new()
        };
        self.set_search_field(search);
        self.push_event(ModelEvent::Hint(hint));
    }

    fn set_search_field(&mut self, search: Option<Search>)
        ensures
            final(self).spec_has_current_search() == search is Some,
            final(self).spec_search_visible() == old(self).spec_search_visible(),
            final(self).spec_open_file_open() == old(self).spec_open_file_open(),
            final(self).spec_go_to_line_open() == old(self).spec_go_to_line_open(),
            final(self).spec_go_to_date_open() == old(self).spec_go_to_date_open(),
            final(self).spec_help_open() == old(self).spec_help_open(),
            final(self).spec_metrics_open() == old(self).spec_metrics_open(),
            final(self).spec_error() == old(self).spec_error(),
            final(self).spec_events() == old(self).spec_events(),
            final(self).same_content(*old(self)),
    {
        proof {
            use_type_invariant(&*self);
        }
        self.current_search = search;
    }

    /// Escape closes what is on top, one thing at a time: the error, the "open file" dialog,
    /// the search field, the current search; then the help, metrics and "go to" dialogs (all
    /// of them). Each change is announced.
    pub fn on_esc(&mut self)
        ensures
            final(self).same_content(*old(self)),
            old(self).spec_error() is Some ==> final(self).spec_error() is None
                && final(self).same_dialogs(*old(self))
                && final(self).spec_events() == old(self).spec_events().push(ModelEvent::Error(None)),
            old(self).spec_error() is None ==> final(self).spec_error() is None,
            old(self).spec_error() is None && old(self).spec_open_file_open() ==> !final(self).spec_open_file_open()
                && final(self).spec_search_visible() == old(self).spec_search_visible()
                && final(self).spec_has_current_search() == old(self).spec_has_current_search()
                && final(self).spec_help_open() == old(self).spec_help_open()
                && final(self).spec_metrics_open() == old(self).spec_metrics_open()
                && final(self).spec_go_to_line_open() == old(self).spec_go_to_line_open()
                && final(self).spec_go_to_date_open() == old(self).spec_go_to_date_open()
                && final(self).spec_events() == old(self).spec_events().push(ModelEvent::OpenFileDialog(false)),
            old(self).spec_error() is None && !old(self).spec_open_file_open() && old(self).spec_search_visible()
                ==> !final(self).spec_search_visible()
                && final(self).spec_open_file_open() == old(self).spec_open_file_open()
                && final(self).spec_has_current_search() == old(self).spec_has_current_search()
                && final(self).spec_help_open() == old(self).spec_help_open()
                && final(self).spec_metrics_open() == old(self).spec_metrics_open()
                && final(self).spec_go_to_line_open() == old(self).spec_go_to_line_open()
                && final(self).spec_go_to_date_open() == old(self).spec_go_to_date_open()
                && final(self).spec_events() == old(self).spec_events().push(ModelEvent::SearchOpen(false)),
            old(self).spec_error() is None && !old(self).spec_open_file_open() && !old(self).spec_search_visible()
                && old(self).spec_has_current_search() ==> !final(self).spec_has_current_search()
                && final(self).spec_open_file_open() == old(self).spec_open_file_open()
                && final(self).spec_search_visible() == old(self).spec_search_visible()
                && final(self).spec_help_open() == old(self).spec_help_open()
                && final(self).spec_metrics_open() == old(self).spec_metrics_open()
                && final(self).spec_go_to_line_open() == old(self).spec_go_to_line_open()
                && final(self).spec_go_to_date_open() == old(self).spec_go_to_date_open()
                && final(self).spec_events().drop_last() == old(self).spec_events()
                && (final(self).spec_events().last() matches ModelEvent::Hint(h) && h@.len() == 0),
            old(self).spec_error() is None && !old(self).spec_open_file_open() && !old(self).spec_search_visible()
                && !old(self).spec_has_current_search() ==> !final(self).spec_help_open() && !final(self).spec_metrics_open()
                && !final(self).spec_go_to_line_open() && !final(self).spec_go_to_date_open()
                && !final(self).spec_open_file_open() && !final(self).spec_search_visible()
                && !final(self).spec_has_current_search()
                && final(self).spec_events() == old(self).spec_events() + (if old(self).spec_metrics_open() {
                    seq![ModelEvent::MetricsEvent(MetricsModelEvent::Open(false))]
                } else {
                    Seq::empty()
                }) + (if old(self).spec_go_to_line_open() {
                    seq![ModelEvent::GoToOpen(false)]
                } else {
                    Seq::empty()
                }) + (if old(self).spec_go_to_date_open() {
                    seq![ModelEvent::GoToDateOpen(false)]
                } else {
                    Seq::empty()
                }),
    {
        proof {
            use_type_invariant(&*self);
        }
        if self.reset_error() {
            return;
        }
        if self.open_file_model.is_open {
            self.set_dialogs(false, self.help_open, self.go_to_date_model.go_to_model.is_open);
            self.push_event(ModelEvent::OpenFileDialog(false));
            return;
        }
        if self.search_model.visible {
            self.set_search_visible(false);
            return;
        }
        if self.current_search.is_some() {
            self.set_current_search(None, "", "");
            return;
        }
        let go_to_date_was_open = self.go_to_date_model.go_to_model.is_open;
        self.set_dialogs(false, false, false);
        self.close_metrics_and_go_to(go_to_date_was_open);
    }

    fn close_metrics_and_go_to(&mut self, go_to_date_was_open: bool)
        ensures
            !final(self).spec_metrics_open(),
            !final(self).spec_go_to_line_open(),
            final(self).spec_help_open() == old(self).spec_help_open(),
            final(self).spec_go_to_date_open() == old(self).spec_go_to_date_open(),
            final(self).spec_open_file_open() == old(self).spec_open_file_open(),
            final(self).spec_search_visible() == old(self).spec_search_visible(),
            final(self).spec_has_current_search() == old(self).spec_has_current_search(),
            final(self).spec_error() == old(self).spec_error(),
            final(self).same_content(*old(self)),
            final(self).spec_events() == old(self).spec_events() + (if old(self).spec_metrics_open() {
                seq![ModelEvent::MetricsEvent(MetricsModelEvent::Open(false))]
            } else {
                Seq::empty()
            }) + (if old(self).spec_go_to_line_open() {
                seq![ModelEvent::GoToOpen(false)]
            } else {
                Seq::empty()
            }) + (if go_to_date_was_open {
                seq![ModelEvent::GoToDateOpen(false)]
            } else {
                Seq::empty()
            }),
    {
        proof {
            use_type_invariant(&*self);
        }
        let ghost ev0 = self.spec_events();
        let ghost part1: Seq<ModelEvent> = if self.spec_metrics_open() {
            seq![ModelEvent::MetricsEvent(MetricsModelEvent::Open(false))]
        } else {
            Seq::empty()
        };
        let ghost part2: Seq<ModelEvent> = if self.spec_go_to_line_open() {
            seq![ModelEvent::GoToOpen(false)]
        } else {
            Seq::empty()
        };
        let ghost part3: Seq<ModelEvent> = if go_to_date_was_open {
            seq![ModelEvent::GoToDateOpen(false)]
        } else {
            Seq::empty()
        };
        let mut metrics = MetricsModel::new();
        std::mem::swap(&mut metrics, &mut self.metrics_model);
        let e1 = metrics.set_open(false);
        self.metrics_model = metrics;
        if let Some(e) = e1 {
            self.push_event(ModelEvent::MetricsEvent(e));
        }
        assert(self.spec_events() =~= ev0 + part1);
        let ghost ev1 = self.spec_events();
        let mut go_to = GoToLineModel::new();
        std::mem::swap(&mut go_to, &mut self.go_to_line_model);
        let e2 = go_to.set_is_open(false);
        self.go_to_line_model = go_to;
        if let Some(v) = e2 {
            self.push_event(ModelEvent::GoToOpen(v));
        }
        assert(self.spec_events() =~= ev1 + part2);
        let ghost ev2 = self.spec_events();
        if go_to_date_was_open {
            self.push_event(ModelEvent::GoToDateOpen(false));
        }
        assert(self.spec_events() =~= ev2 + part3);
    }
}

/// A source without text.
fn empty_source() -> (r: LineSourceImpl)
    ensures
        r.view().len() == 0,
        !r.spec_tracks_line_numbers(),
{
    proof {
        reveal_strlit("");
    }
    LineSourceImpl::from_str("")
}

proof fn lemma_renders_transfer(dr: DataRender, d1: Data, d2: Data)
    requires
        renders(dr, d1),
        d1.lines@.len() == d2.lines@.len(),
        forall|k: int| 0 <= k < d1.lines@.len() ==> {
            &&& #[trigger] d1.lines@[k].content@ == d2.lines@[k].content@
            &&& d1.lines@[k].start == d2.lines@[k].start
            &&& d1.lines@[k].end == d2.lines@[k].end
            &&& d1.lines@[k].line_no == d2.lines@[k].line_no
        },
        d1.start == d2.start,
        d1.end == d2.end,
    ensures
        renders(dr, d2),
{
    assert forall|i: int| 0 <= i < dr.lines@.len() implies {
        &&& #[trigger] dr.lines@[i].content@ == d2.lines@[i].content@
        &&& dr.lines@[i].start == d2.lines@[i].start
        &&& dr.lines@[i].end == d2.lines@[i].end
        &&& dr.lines@[i].line_no == d2.lines@[i].line_no
        &&& dr.lines@[i].render@ == graphemes_spec(d2.lines@[i].content@)
    } by {
        assert(dr.lines@[i].content@ == d1.lines@[i].content@);
        assert(d1.lines@[i].content@ == d2.lines@[i].content@);
        assert(dr.lines@[i].start == d1.lines@[i].start);
        assert(dr.lines@[i].render@ == graphemes_spec(d1.lines@[i].content@));
        assert(dr.lines@[i].render@ == graphemes_spec(d2.lines@[i].content@));
        assert(dr.lines@[i].end == d2.lines@[i].end);
        assert(dr.lines@[i].line_no == d2.lines@[i].line_no);
    }
    assert(dr.start == d2.start);
    assert(dr.end == d2.end);
    assert(dr.lines@.len() == d2.lines@.len());
}

fn render_data(data: Data) -> (r: DataRender)
    requires
        data.lines@.len() < TEXT_LIMIT,
        data.start == (if data.lines@.len() > 0 { Some(data.lines@[0].start) } else { None::<Integer> }),
        data.end == (if data.lines@.len() > 0 { Some(data.lines@[data.lines@.len() - 1].end) } else { None::<Integer> }),
        forall|k: int| 0 <= k < data.lines@.len() ==> #[trigger] data.lines@[k].content@.len() < TEXT_LIMIT,
        forall|k: int| 0 <= k < data.lines@.len() ==> 0 <= #[trigger] data.lines@[k].start <= data.lines@[k].end < TEXT_LIMIT,
        forall|k: int| #![trigger data.lines@[k].end, data.lines@[k + 1].start] 0 <= k < data.lines@.len() - 1 ==> data.lines@[k].end < data.lines@[k + 1].start,
    ensures
        renders(r, data),
        lines_sorted(r.lines@),
        lines_bounded(r.lines@),
        data_ends(r),
{
    let ghost d0 = data;
    let render = DataRender::new(data);
    proof {
        lemma_render_wf(render, d0);
        assert forall|i: int| 0 <= i < render.lines@.len() implies {
            &&& #[trigger] render.lines@[i].content@ == d0.lines@[i].content@
            &&& render.lines@[i].start == d0.lines@[i].start
            &&& render.lines@[i].end == d0.lines@[i].end
            &&& render.lines@[i].line_no == d0.lines@[i].line_no
            &&& render.lines@[i].render@ == graphemes_spec(d0.lines@[i].content@)
        } by {
            assert(render.lines@[i].content@ == d0.lines@[i].content@);
            assert(render.lines@[i].start == d0.lines@[i].start);
            assert(render.lines@[i].line_no == d0.lines@[i].line_no);
            assert(render.lines@[i].render@ == graphemes_spec(d0.lines@[i].content@));
        }
        assert(renders(render, d0));
        if render.lines@.len() > 0 {
            assert(render.lines@[0].content@ == d0.lines@[0].content@);
            let last = render.lines@.len() - 1;
            assert(render.lines@[last].content@ == d0.lines@[last].content@);
        }
    }
    render
}

proof fn lemma_render_wf(render: DataRender, d0: Data)
    requires
        forall|k: int| 0 <= k < d0.lines@.len() ==> #[trigger] d0.lines@[k].content@.len() < TEXT_LIMIT,
        forall|k: int| 0 <= k < d0.lines@.len() ==> 0 <= #[trigger] d0.lines@[k].start <= d0.lines@[k].end < TEXT_LIMIT,
        forall|k: int| #![trigger d0.lines@[k].end, d0.lines@[k + 1].start] 0 <= k < d0.lines@.len() - 1 ==> d0.lines@[k].end < d0.lines@[k + 1].start,
        render.lines@.len() == d0.lines@.len(),
        forall|i: int| 0 <= i < render.lines@.len() ==> {
            &&& #[trigger] render.lines@[i].content@ == d0.lines@[i].content@
            &&& render.lines@[i].start == d0.lines@[i].start
            &&& render.lines@[i].end == d0.lines@[i].end
            &&& sorted_by_offset(render.lines@[i].render@)
            &&& render.lines@[i].render@ == graphemes_spec(d0.lines@[i].content@)
        },
    ensures
        lines_sorted(render.lines@),
        lines_bounded(render.lines@),
{
    assert forall|i: int, j: int| 0 <= i < j < render.lines@.len() implies render.lines@[i].start < render.lines@[j].start by {
        lemma_sorted_starts(d0.lines@, i, j);
        assert(render.lines@[i].content@ == d0.lines@[i].content@);
        assert(render.lines@[j].content@ == d0.lines@[j].content@);
    }
    assert forall|k: int| #![trigger render.lines@[k].end, render.lines@[k + 1].start] 0 <= k < render.lines@.len() - 1 implies render.lines@[k].end < render.lines@[k + 1].start by {
        assert(render.lines@[k].content@ == d0.lines@[k].content@);
        assert(render.lines@[k + 1].content@ == d0.lines@[k + 1].content@);
    }
    assert forall|i: int| 0 <= i < render.lines@.len() implies sorted_by_offset(#[trigger] render.lines@[i].render@) by {
        assert(render.lines@[i].content@ == d0.lines@[i].content@);
    }
    assert forall|k: int| 0 <= k < render.lines@.len() implies 0 <= #[trigger] render.lines@[k].start <= render.lines@[k].end < TEXT_LIMIT by {
        assert(render.lines@[k].content@ == d0.lines@[k].content@);
    }
    assert forall|k: int| 0 <= k < render.lines@.len() implies #[trigger] render.lines@[k].render@.len() < TEXT_LIMIT by {
        assert(render.lines@[k].content@ == d0.lines@[k].content@);
        assert(render.lines@[k].render@ == graphemes_spec(d0.lines@[k].content@));
        assert(d0.lines@[k].content@.len() < TEXT_LIMIT);
    }
}

proof fn lemma_sorted_starts(lines: Seq<Line>, i: int, j: int)
    requires
        0 <= i < j < lines.len(),
        forall|k: int| 0 <= k < lines.len() ==> #[trigger] lines[k].start <= lines[k].end,
        forall|k: int| #![trigger lines[k].end, lines[k + 1].start] 0 <= k < lines.len() - 1 ==> lines[k].end < lines[k + 1].start,
    ensures
        lines[i].start < lines[j].start,
    decreases j - i,
{
    if j > i + 1 {
        lemma_sorted_starts(lines, i, j - 1);
    }
    let k = j - 1;
    assert(lines[k].end < lines[k + 1].start);
}

proof fn lemma_lines_below(lines: Seq<LineRender>, offset: int, n: int)
    requires
        0 <= n <= lines.len(),
        lines_sorted(lines),
        forall|k: int| 0 <= k < n ==> (lines[k].start as int) < offset,
        n < lines.len() ==> (lines[n].start as int) >= offset,
    ensures
        lines_below(lines, offset) == n,
    decreases lines.len(),
{
    if lines.len() > 0 {
        let m = lines.len() - 1;
        assert forall|i: int, j: int| 0 <= i < j < lines.drop_last().len() implies lines.drop_last()[i].start < lines.drop_last()[j].start by {
            assert(lines[i].start < lines[j].start);
        }
        assert forall|i: int| 0 <= i < lines.drop_last().len() implies sorted_by_offset(#[trigger] lines.drop_last()[i].render@) by {
            assert(sorted_by_offset(lines[i].render@));
        }
        if n == lines.len() {
            lemma_lines_below(lines.drop_last(), offset, n - 1);
        } else {
            if n < m {
                assert(lines[n].start < lines[m].start);
            }
            lemma_lines_below(lines.drop_last(), offset, n);
        }
    }
}

} // verus!
