//! Encoder and decoder for the packed account-list buffer that a runtime hands
//! to an on-chain program at invocation time.

pub mod account;
pub mod codec;
pub mod fixtures;
pub mod format;
pub mod laws;
pub mod parse_lemmas;
pub mod wire;
