//! The embedding-provider side of the system, as the library sees it.
//!
//! The provider itself is a remote HTTP service: the application sends the
//! text and receives a fixed-length vector of floating-point numbers.  The
//! library's logic never reads the numbers, only the vector's length, which
//! fixes a collection's dimensionality; so an embedding call is represented
//! here by its outcome: the length of the returned vector, or the error.

use vstd::prelude::*;

verus! {

/// An embedding-provider failure: the HTTP call or the decoding of its
/// response body failed, with the underlying error's description.
#[derive(Debug)]
pub enum EmbeddingError {
    RequestError(String),
}

impl EmbeddingError {
    /// The underlying error's description.
    pub open spec fn spec_message(self) -> Seq<char> {
        match self {
            EmbeddingError::RequestError(m) => m@,
        }
    }

    /// The underlying error's description.
    pub fn message(&self) -> (r: &String)
        ensures
            r@ == self.spec_message(),
    {
        match self {
            EmbeddingError::RequestError(m) => m,
        }
    }
}

impl Clone for EmbeddingError {
    fn clone(&self) -> (r: Self)
        ensures
            r == *self,
    {
        match self {
            EmbeddingError::RequestError(m) => EmbeddingError::RequestError(m.clone()),
        }
    }
}

/// What one embedding call produced: a vector, represented by its length,
/// or a provider failure.
pub enum EmbedOutcome {
    /// The provider returned a vector of `dim` numbers.
    Embedded { dim: u64 },
    /// The call failed before any vector was returned.
    Failed { error: EmbeddingError },
}

} // verus!
