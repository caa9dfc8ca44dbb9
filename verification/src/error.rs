//! The errors of the library, and what they say.

use crate::text::chars_of;
use vstd::prelude::*;
use vstd::string::StringExecFns;

verus! {

/// Why the library could not do what was asked.
#[derive(Debug)]
pub enum SearchError {
    /// A line of the configuration is no engine; the line is carried as it was read.
    MalformedLine(String),
    /// The catalog holds no engine of this name; the name is carried as it was asked for.
    EngineNotFound(String),
}

/// A `SearchError` by what it carries.
pub enum SearchErrorView {
    MalformedLine(Seq<char>),
    EngineNotFound(Seq<char>),
}

impl View for SearchError {
    type V = SearchErrorView;

    open spec fn view(&self) -> SearchErrorView {
        match self {
            SearchError::MalformedLine(line) => SearchErrorView::MalformedLine(line@),
            SearchError::EngineNotFound(name) => SearchErrorView::EngineNotFound(name@),
        }
    }
}

/// What an error says. A malformed line that begins with a tab has no name;
/// any other malformed line has no URL.
pub open spec fn message_of(e: SearchErrorView) -> Seq<char> {
    match e {
        SearchErrorView::MalformedLine(line) => if line.len() > 0 && line[0] == '\t' {
            "line has no name: "@ + line
        } else {
            "line has no url: "@ + line
        },
        SearchErrorView::EngineNotFound(name) => "engine not found: "@ + name,
    }
}

impl SearchError {
    /// The error in words, for the user.
    pub fn message(&self) -> (text: String)
        ensures
            text@ == message_of(self@),
    {
        match self {
            SearchError::MalformedLine(line) => {
                let chars = chars_of(line.as_str());
                let head = if chars.len() > 0 && chars[0] == '\t' {
                    "line has no name: "
                } else {
                    "line has no url: "
                };
                String::from_str(head).concat(line.as_str())
            },
            SearchError::EngineNotFound(name) => String::from_str("engine not found: ").concat(
                name.as_str(),
            ),
        }
    }
}

} // verus!
