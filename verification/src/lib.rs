//! Execution core of a typed query engine: a registry of type descriptors,
//! a uniform field-resolution protocol, an output assembler that keeps the
//! request order, and a reflection layer that serves the schema through the
//! same protocol.

pub mod context;
pub mod error;
pub mod introspection;
pub mod query;
pub mod query_root;
pub mod registry;
pub mod resolve;
pub mod value;
