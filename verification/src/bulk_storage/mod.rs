//! Bulk storage extraction: many slots per `eth_call`.
//!
//! A small extractor program, injected by a code override, turns one call into
//! a read of thousands of storage slots. This module plans the calls, encodes
//! what is sent, and decodes what comes back into one result per requested
//! slot.

pub mod answer_laws;
pub mod config;
pub mod dispatch;
pub mod fetcher;
pub mod laws;
pub mod packing;
pub mod planning;
pub mod programs;
pub mod response;
