//! A verified persistent store for an end-to-end-encryption client.
//!
//! The store keeps cryptographic session state, device identities,
//! cross-signing trust hierarchies and replay-protection records, all scoped
//! to one local account.  Serialized ("pickled") snapshots of cryptographic
//! objects are carried as opaque text; the store only indexes their envelope
//! fields.  The row image lives in [`tables::Tables`]; [`store::Store`] adds
//! the in-memory caches and the account gate on top of it.

pub mod seq_find;
pub mod records;
pub mod json;
pub mod ids;
pub mod sets;
pub mod listops;
pub mod pickle;
pub mod tables;
pub mod cache;
pub mod store;
pub mod laws;
pub mod wf;
