//! The hash suite and the signature suite.

pub mod hash;
pub mod signatures;
