//! A small UDP listener library: parsing of `key=value` configuration text
//! into a case-insensitive mapping, and the per-datagram decisions of a
//! receive loop (truncation, UTF-8 decoding, and the "exit" sentinel).
//!
//! All file and socket handling lives outside this crate; the functions here
//! work on plain values and carry contracts that pin their results down.

pub mod config;
pub mod datagram;
