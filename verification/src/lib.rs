//! Foundational namespace primitives for a hierarchical, distributed storage
//! system: canonicalization of absolute paths, allocation of unique
//! identifiers for namespace nodes and blocks, random identities for storage
//! nodes, and the shared error taxonomy.

pub mod error;
pub mod ids;
pub mod numfmt;
pub mod path;

pub use error::HdfsError;
pub use ids::BlockId;
pub use ids::DatanodeId;
pub use ids::INodeId;
pub use ids::IdGen;
pub use ids::LeaseId;
pub use path::normalize;
pub use path::PathAbs;
