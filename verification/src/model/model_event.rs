use vstd::prelude::*;
use crate::data_source::line::LineNumberResult;
use crate::model::bgp_model::BGPModelEvent;
use crate::model::metrics_model::MetricsModelEvent;
use crate::model::open_file_model::OpenFileModelEvent;
use crate::model::progress_model::ProgressModelEvent;
use crate::search::searcher::SearchResult;

verus! {

/// Where the cursor stands, as shown to the user.
#[derive(PartialEq, Eq, Debug)]
pub struct CursorPosition {
    pub line_no: LineNumberResult,
    pub position_in_line: u64,
    pub offset: u64,
}

/// What the model announces to the user interface.
#[derive(Debug)]
pub enum ModelEvent {
    OpenFileDialog(bool),
    OpenFileModelEventWrapper(OpenFileModelEvent),
    OpenFile(String),
    FileName(String, u64),
    Repaint,
    DataUpdated,
    CursorMoved(CursorPosition),
    SearchOpen(bool),
    Search(SearchResult),
    SearchFromCursor,
    GoToOpen(bool),
    GoToDateOpen(bool),
    MetricsEvent(MetricsModelEvent),
    ProgressEvent(ProgressModelEvent),
    BGPEvent(BGPModelEvent),
    Hint(String),
    Error(Option<String>),
    Quit,
}

} // verus!
