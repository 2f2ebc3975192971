use vstd::prelude::*;
use vstd::string::StringExecFns;

verus! {

/// The named elements of the main window.
#[derive(PartialEq, Eq, Structural, Copy, Clone, Debug)]
pub enum UIElementName {
    MainContent,
    Status,
    SearchField,
}

/// The name under which an element is registered.
pub open spec fn element_name(e: UIElementName) -> Seq<char> {
    match e {
        UIElementName::MainContent => "main_content"@,
        UIElementName::Status => "status"@,
        UIElementName::SearchField => "search_field"@,
    }
}

impl UIElementName {
    pub fn to_string(&self) -> (r: String)
        ensures
            r@ == element_name(*self),
    {
        match self {
            UIElementName::MainContent => String::from_str("main_content"),
            UIElementName::Status => String::from_str("status"),
            UIElementName::SearchField => String::from_str("search_field"),
        }
    }
}

} // verus!
