//! A multi-tenant knowledge-graph store: typed nodes and edges, a
//! cache-friendly "capsule" view derived over nodes, and a durable outbox
//! that propagates change events to subscribers.
//!
//! Identifiers are 128-bit values, timestamps are unix seconds, and opaque
//! JSON blobs are carried as text; the transport adapters around this crate
//! convert to and from their wire representations.

pub mod bus;
pub mod capsule;
pub mod edges;
pub mod embeddings;
pub mod ident;
pub mod node;
pub mod order;
pub mod outbox;
pub mod paging;
pub mod service;
pub mod similarity;
pub mod store;
pub mod translate;
