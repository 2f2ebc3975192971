use vstd::prelude::*;
use vstd::string::{StringExecFns, StringSliceAdditionalSpecFns};
use crate::data_source::text::{byte_len, Text, TEXT_LIMIT};

verus! {

/// Where the bytes of a source come from.
pub trait LineSourceBackend {
    /// The length of the source in bytes.
    spec fn spec_length(&self) -> nat;

    fn get_length(&self) -> (r: u64)
        ensures
            r == self.spec_length();
}

/// A source read from a file; the file is opened by the application.
pub struct FileBackend {
    file_name: String,
}

impl FileBackend {
    pub closed spec fn spec_file_name(&self) -> Seq<char> {
        self.file_name@
    }

    pub fn new(file_name: &str) -> (r: Self)
        ensures
            r.spec_file_name() == file_name@,
    {
        FileBackend { file_name: String::from_str(file_name) }
    }

    pub fn file_name(&self) -> (r: &str)
        ensures
            r@ == self.spec_file_name(),
    {
        self.file_name.as_str()
    }
}

/// A source held in memory.
pub struct StrBackend {
    text: Text,
}

impl StrBackend {
    pub closed spec fn view(&self) -> Seq<char> {
        self.text.view()
    }

    pub fn new(s: &str) -> (r: Self)
        requires
            s.spec_bytes().len() < TEXT_LIMIT,
        ensures
            r.view() == s@,
    {
        StrBackend { text: Text::from_str(s) }
    }

    /// The text of the source.
    pub fn text(&self) -> (r: Text)
        ensures
            r.view() == self.view(),
    {
        self.text.copy()
    }
}

impl LineSourceBackend for StrBackend {
    open spec fn spec_length(&self) -> nat {
        byte_len(self.view())
    }

    fn get_length(&self) -> (r: u64) {
        self.text.total() as u64
    }
}

} // verus!
