//! A typed binding layer between a host and a sandboxed guest: an interface
//! schema, the canonical flat encoding of its values, the per-instance handle
//! table, and the bridge that carries one export call at a time across host
//! suspension points.

pub mod abi;
pub mod bridge;
pub mod compare;
pub mod convert;
pub mod env;
pub mod framing;
pub mod guest;
pub mod handles;
pub mod instantiate;
pub mod ranking;
pub mod schema;
pub mod shapes;
pub mod stat;
pub mod store;
pub mod transfer;
pub mod types;
pub mod validate;
pub mod value;
pub mod world;
