//! A growable, versioned store of per-owner records whose addresses are
//! derived from a namespace label and the owner's identity.
pub mod address;
pub mod codec;
pub mod error;
pub mod instruction;
pub mod principal;
pub mod processor;
pub mod reserve;
pub mod store;
