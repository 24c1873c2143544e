//! Gadgets that compile the verification steps of a hash-based proof system
//! into programs for a small stack machine: field-element commitments,
//! Fiat-Shamir channel mixing, proof-of-work checks and the verifier pipeline
//! that strings them together. Each gadget is proved against a model of the
//! machine in `machine`.

pub mod hash;
pub mod script;
pub mod machine;
pub mod commitment;
pub mod channel;
pub mod pcs;
pub mod pipeline;
pub mod pow;
pub mod pow_laws;
