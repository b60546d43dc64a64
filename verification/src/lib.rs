pub mod article;
pub mod routes;
pub mod date;
pub mod watch;

use vstd::prelude::*;

verus! {

/// The errors the core can report: a date string that does not conform to
/// the `YYYY-MM-DD` format, and a directory that could not be listed.
#[derive(Debug, Clone, Copy, PartialEq, Eq, Structural)]
pub enum CoreError {
    MalformedDate,
    ListingUnavailable,
}

} // verus!
