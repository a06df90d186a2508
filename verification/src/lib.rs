//! Foundry: a product-owned evidence contract, the proof plan it expands
//! into, the receipts that proofs seal, and the support ledger that is
//! derived from judged evidence.

pub mod text;
pub mod error;
pub mod contract;
pub mod receipt;
pub mod plan;
pub mod digest;
pub mod support;
pub mod toolchain;
pub mod manifest;
pub mod laws;
