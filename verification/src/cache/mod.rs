//! Response cache helpers.

pub mod key;
