use vstd::prelude::*;

verus! {

/// What changed in the modal progress dialog.
#[derive(PartialEq, Eq, Structural, Copy, Clone, Debug)]
pub enum ProgressModelEvent {
    Toggle,
    TitleUpdated,
    DescriptionUpdated,
    ProgressUpdated,
}

/// The state of the modal progress dialog; each setter returns the event to announce, if any.
pub struct ProgressModel {
    pub is_open: bool,
    pub title: String,
    pub description: String,
    /// 0 - 100
    pub progress: u8,
}

impl ProgressModel {
    pub fn new() -> (r: Self)
        ensures
            !r.is_open,
            r.title@ == Seq::<char>::empty(),
            r.description@ == Seq::<char>::empty(),
            r.progress == 0,
    {
        ProgressModel { is_open: false, title: String::new(), description: String::new(), progress: 0 }
    }

    pub fn is_open(&self) -> (r: bool)
        ensures
            r == self.is_open,
    {
        self.is_open
    }

    /// Opens or closes the dialog; `Toggle` is announced when that changes anything.
    pub fn set_open(&mut self, is_open: bool) -> (r: Option<ProgressModelEvent>)
        ensures
            final(self).is_open == is_open,
            final(self).title == old(self).title,
            final(self).description == old(self).description,
            final(self).progress == old(self).progress,
            r == (if old(self).is_open != is_open { Some(ProgressModelEvent::Toggle) } else { None }),
    {
        if self.is_open != is_open {
            self.is_open = is_open;
            Some(ProgressModelEvent::Toggle)
        } else {
            None
        }
    }

    pub fn get_title(&self) -> (r: &str)
        ensures
            r@ == self.title@,
    {
        self.title.as_str()
    }

    pub fn set_title(&mut self, title: String) -> (r: ProgressModelEvent)
        ensures
            final(self).title == title,
            final(self).is_open == old(self).is_open,
            final(self).description == old(self).description,
            final(self).progress == old(self).progress,
            r == ProgressModelEvent::TitleUpdated,
    {
        self.title = title;
        ProgressModelEvent::TitleUpdated
    }

    pub fn get_description(&self) -> (r: &str)
        ensures
            r@ == self.description@,
    {
        self.description.as_str()
    }

    pub fn set_description(&mut self, description: String) -> (r: ProgressModelEvent)
        ensures
            final(self).description == description,
            final(self).is_open == old(self).is_open,
            final(self).title == old(self).title,
            final(self).progress == old(self).progress,
            r == ProgressModelEvent::DescriptionUpdated,
    {
        self.description = description;
        ProgressModelEvent::DescriptionUpdated
    }

    pub fn get_progress(&self) -> (r: u8)
        ensures
            r == self.progress,
    {
        self.progress
    }

    /// Sets the progress; `ProgressUpdated` is announced when it changes.
    pub fn set_progress(&mut self, progress: u8) -> (r: Option<ProgressModelEvent>)
        ensures
            final(self).progress == progress,
            final(self).is_open == old(self).is_open,
            final(self).title == old(self).title,
            final(self).description == old(self).description,
            r == (if old(self).progress != progress { Some(ProgressModelEvent::ProgressUpdated) } else { None }),
    {
        if self.progress != progress {
            self.progress = progress;
            Some(ProgressModelEvent::ProgressUpdated)
        } else {
            None
        }
    }

    /// Shows the dialog for a task that starts: sets its title and description and opens the
    /// dialog. Returns the events in the order they are announced.
    pub fn start(&mut self, title: String, description: String) -> (r: Vec<ProgressModelEvent>)
        ensures
            final(self).title == title,
            final(self).description == description,
            final(self).is_open,
            final(self).progress == old(self).progress,
            r@ == (if old(self).is_open {
                seq![ProgressModelEvent::TitleUpdated, ProgressModelEvent::DescriptionUpdated]
            } else {
                seq![ProgressModelEvent::TitleUpdated, ProgressModelEvent::DescriptionUpdated, ProgressModelEvent::Toggle]
            }),
    {
        let mut r = Vec::new();
        r.push(self.set_title(title));
        r.push(self.set_description(description));
        if let Some(e) = self.set_open(true) {
            r.push(e);
        }
        r
    }
}

} // verus!
