//! Namespaced vector space abstraction with an in-memory nearest-neighbor
//! backed implementation: namespace lifecycle, the interface every backend
//! satisfies, content-derived identifiers bridging object identity to index
//! identity, and the rebuild discipline that keeps the derived index in sync
//! with the authoritative raw-vector mapping.
//!
//! Embeddings are vectors of fixed-point `i32` coordinates, and the
//! in-memory index ranks by exact squared Euclidean distance with ties
//! broken toward the smaller id. Exact answers satisfy an interface that
//! promises no more than approximate ones, and integer coordinates keep
//! every distance provably within `i128`; an adapter that quantizes a
//! float-vector model lives outside the verified library. Only the
//! in-memory backend is provided here: a remote backend must satisfy the
//! same `VectorSpace` contract.
#![verifier::loop_isolation(false)]

pub mod assoc;
pub mod dist;
pub mod embed;
pub mod error;
pub mod hora;
pub mod input;
pub mod namespace;
pub mod output;
pub mod render;
pub mod search;
pub mod space;

pub use embed::Embed;
pub use error::AsimovError;
pub use hora::HoraCollection;
pub use hora::HoraDb;
pub use input::Embeddable;
pub use input::Input;
pub use namespace::Namespace;
pub use namespace::valid_namespace;
pub use output::RawString;
pub use space::VectorSpace;
