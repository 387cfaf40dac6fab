//! Resolution of GraphQL operations against an entity store that data sources
//! fill with ordered mutation events.

pub mod components;
pub mod error;
pub mod execution;
pub mod introspection;
pub mod query;
pub mod response;
pub mod schema;
pub mod store;
pub mod subscription;
pub mod values;

use vstd::prelude::*;

verus! {

/// Port on which the HTTP transport serves queries.
pub const GRAPHQL_HTTP_PORT: u16 = 8000;

/// Port on which the WebSocket transport serves subscriptions.
pub const GRAPHQL_WS_PORT: u16 = 8001;

} // verus!
