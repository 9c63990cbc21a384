//! The errors that building a message can meet.

use vstd::prelude::*;
use http::header::InvalidHeaderValue;

verus! {

/// An error met while building a message.
#[derive(Debug)]
pub enum Error {
    /// A header value held a byte that header values may not hold.
    InvalidHeaderValue(InvalidHeaderValue),
}

} // verus!
