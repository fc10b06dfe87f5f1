use vstd::prelude::*;
use vstd::string::*;
use crate::text::join3;

verus! {

/// Why an operation on the configuration or a command was refused.
#[derive(Debug, Clone, PartialEq, Eq)]
pub enum BeError {
    /// The tag is empty.
    EmptyTag,
    /// The tag holds a character outside `[a-zA-Z0-9_-]`.
    InvalidTag(String),
    /// The tag is the name of a built-in subcommand.
    ReservedTag(String),
    /// A command is already saved under the tag.
    TagExists(String),
    /// No command is saved under the tag.
    TagNotFound(String),
    /// An edit names neither a new command nor a new description.
    NothingToEdit,
    /// A run names a tag under which no command is saved.
    UnknownTag(String),
    /// A run names no tag at all.
    NoTagProvided,
}

/// A `BeError` with its text taken by value.
pub enum ErrorView {
    EmptyTag,
    InvalidTag(Seq<char>),
    ReservedTag(Seq<char>),
    TagExists(Seq<char>),
    TagNotFound(Seq<char>),
    NothingToEdit,
    UnknownTag(Seq<char>),
    NoTagProvided,
}

impl View for BeError {
    type V = ErrorView;

    open spec fn view(&self) -> ErrorView {
        match self {
            BeError::EmptyTag => ErrorView::EmptyTag,
            BeError::InvalidTag(t) => ErrorView::InvalidTag(t@),
            BeError::ReservedTag(t) => ErrorView::ReservedTag(t@),
            BeError::TagExists(t) => ErrorView::TagExists(t@),
            BeError::TagNotFound(t) => ErrorView::TagNotFound(t@),
            BeError::NothingToEdit => ErrorView::NothingToEdit,
            BeError::UnknownTag(t) => ErrorView::UnknownTag(t@),
            BeError::NoTagProvided => ErrorView::NoTagProvided,
        }
    }
}

impl ErrorView {
    /// The message shown to the user for this error.
    pub open spec fn text(self) -> Seq<char> {
        match self {
            ErrorView::EmptyTag => "Tag name cannot be empty"@,
            ErrorView::InvalidTag(t) => "Tag '"@ + t
                + "' contains invalid characters. Only [a-zA-Z0-9_-] allowed."@,
            ErrorView::ReservedTag(t) => "Tag '"@ + t + "' conflicts with a built-in subcommand."@,
            ErrorView::TagExists(t) => "Tag '"@ + t + "' already exists. Use `be edit` to modify it."@,
            ErrorView::TagNotFound(t) => "Tag '"@ + t + "' not found."@,
            ErrorView::NothingToEdit => "Nothing to edit. Provide -c <cmd> and/or -d <desc>."@,
            ErrorView::UnknownTag(t) => "Unknown tag '"@ + t
                + "'. Use `be list` to see available commands."@,
            ErrorView::NoTagProvided => "No tag provided"@,
        }
    }
}

impl BeError {
    /// The message shown to the user for this error.
    pub fn message(&self) -> (r: String)
        ensures
            r@ == self@.text(),
    {
        match self {
            BeError::EmptyTag => String::from_str("Tag name cannot be empty"),
            BeError::InvalidTag(t) => join3(
                "Tag '",
                t.as_str(),
                "' contains invalid characters. Only [a-zA-Z0-9_-] allowed.",
            ),
            BeError::ReservedTag(t) => join3(
                "Tag '",
                t.as_str(),
                "' conflicts with a built-in subcommand.",
            ),
            BeError::TagExists(t) => join3(
                "Tag '",
                t.as_str(),
                "' already exists. Use `be edit` to modify it.",
            ),
            BeError::TagNotFound(t) => join3("Tag '", t.as_str(), "' not found."),
            BeError::NothingToEdit => String::from_str(
                "Nothing to edit. Provide -c <cmd> and/or -d <desc>.",
            ),
            BeError::UnknownTag(t) => join3(
                "Unknown tag '",
                t.as_str(),
                "'. Use `be list` to see available commands.",
            ),
            BeError::NoTagProvided => String::from_str("No tag provided"),
        }
    }
}

} // verus!
