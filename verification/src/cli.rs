//! The command surface as plain data: what an invocation asks the store to
//! do. The surrounding binary parses arguments into these.

use vstd::prelude::*;

verus! {

/// One parsed invocation.
pub struct Cli {
    pub command: Commands,
}

/// The commands the tool offers, each mapping to one store operation.
pub enum Commands {
    /// Add a new link with a title, URL, optional description and tags.
    Add { title: String, url: String, tags: Vec<String>, description: Option<String> },
    /// List all saved links.
    List,
    /// Search links by keyword in title, URL, or tags.
    Search { query: String },
    /// Open a link by id or title.
    Open { target: String },
    /// Remove a link by id.
    Remove { id: usize },
    /// Update a link by id or title.
    Edit { target: String },
}

} // verus!
