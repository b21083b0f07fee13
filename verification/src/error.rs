//! Errors of the library.

use vstd::prelude::*;

verus! {

/// An error of the store or of a request.
#[derive(Debug)]
pub enum Error {
    /// A request that could not be made, with the reason.
    GenericRequest(String),
}

} // verus!
