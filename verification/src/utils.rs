//! Shared substrate: the binary codec.

pub mod boxable;
