//! A signing authority that gates privileged device operations behind M-of-N
//! approval: approval tallying and its policy, the request state machine, and the
//! encoding of raw device signatures into externally verifiable artifacts.

pub mod types;
pub mod policy;
pub mod encoder;
pub mod engine;
pub mod laws;
