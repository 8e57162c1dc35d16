//! The transport that a recuperator fetches its pages with.

use vstd::prelude::*;

verus! {

/// Fetches the page that answers a query. Nothing is promised of a
/// transport: it may fail, and what it returns need not be well-formed
/// markup.
pub trait Requester {
    /// What a failed fetch reports.
    type Error;

    /// Fetches the page for `query`: its markup as text, or an error.
    fn request(&self, query: &str) -> Result<String, Self::Error>;
}

} // verus!
