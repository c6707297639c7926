//! A client library for a clustered SQL + BLOB database that speaks
//! HTTP and JSON: request encoding, response decoding, typed result
//! rows, endpoint selection and a content-addressed blob protocol.

use vstd::prelude::*;

pub mod common;
pub mod error;
pub mod json;
pub mod row;
pub mod rowiterator;
pub mod backend;
pub mod dbcluster;
pub mod sql;
pub mod blob;

verus! {

/// A cluster reached over the default HTTP transport.
pub type Cluster = dbcluster::DBCluster<backend::DefaultHTTPBackend>;

/// The marker for queries without parameters.
pub type NoParams = sql::Nothing;

} // verus!
