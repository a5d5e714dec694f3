//! The record that a file read hands to its caller.

use vstd::prelude::*;

verus! {

/// A Markdown file as read from storage: where it was found and what it
/// holds.
#[derive(Debug, Clone)]
pub struct FileContent {
    pub path: String,
    pub content: String,
}

/// The mathematical content of a [`FileContent`].
pub struct FileContentView {
    pub path: Seq<char>,
    pub content: Seq<char>,
}

impl View for FileContent {
    type V = FileContentView;

    open spec fn view(&self) -> FileContentView {
        FileContentView { path: self.path@, content: self.content@ }
    }
}

} // verus!
