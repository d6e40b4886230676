//! The non-deterministic input subsystem ("advice provider") of a proving
//! virtual machine: an advice stack, an advice key-value map and a
//! content-addressed Merkle store, each in a plain and a recording variant,
//! unified behind one provider capability.

pub mod felt;
pub mod word;
pub mod errors;
pub mod node_index;
pub mod kv;
pub mod merkle;
pub mod provider;
pub mod laws;
