//! Quorum-attested message relay between chains: sequencing, attestation
//! aggregation, promotion and dispatch, with every rule stated as a contract.

pub mod cbor;
pub mod digest;
pub mod dispatch;
pub mod error;
pub mod greeting;
pub mod keys;
pub mod laws;
pub mod message;
pub mod model;
pub mod order;
pub mod ordered_map;
pub mod ordered_set;
pub mod pending;
pub mod principal;
pub mod state;
