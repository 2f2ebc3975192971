use vstd::prelude::*;

verus! {

/// What changed in the metrics dialog.
#[derive(PartialEq, Eq, Structural, Copy, Clone, Debug)]
pub enum MetricsModelEvent {
    Open(bool),
}

/// Whether the metrics dialog is shown.
pub struct MetricsModel {
    pub is_open: bool,
}

impl MetricsModel {
    pub fn new() -> (r: Self)
        ensures
            !r.is_open,
    {
        MetricsModel { is_open: false }
    }

    pub fn is_open(&self) -> (r: bool)
        ensures
            r == self.is_open,
    {
        self.is_open
    }

    /// Opens or closes the dialog; `Open` with the new state is announced when that changes
    /// anything.
    pub fn set_open(&mut self, is_open: bool) -> (r: Option<MetricsModelEvent>)
        ensures
            final(self).is_open == is_open,
            r == (if old(self).is_open != is_open { Some(MetricsModelEvent::Open(is_open)) } else { None }),
    {
        if self.is_open != is_open {
            self.is_open = is_open;
            Some(MetricsModelEvent::Open(is_open))
        } else {
            None
        }
    }
}

} // verus!
