//! A topic/idea note-taking library backed by a remote vector store and a
//! text-embedding provider.
//!
//! The library holds the logic of the system: the idea data model, the payload
//! shape attached to every stored vector, an executable model of the vector
//! store's collection and point semantics, the topic-storage layer that
//! composes embedding and store operations, and the daemon's request/response
//! protocol with its binary wire codec.  The remote calls themselves (HTTP to
//! the embedding provider, the vector-database client, the local socket) are
//! made by the surrounding application, which feeds their outcomes into the
//! functions here.

pub mod payload;
pub mod embedding;
pub mod idea;
pub mod store;
pub mod topic;
pub mod protocol;
pub mod daemon;
pub mod codec;
