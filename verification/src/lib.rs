//! Library for the `soundlabelinfo.sli` binary container: a fixed-layout
//! table of tone records, each tying a hashed label identifier to a sound
//! bank and tone number.
//!
//! The crate has three parts: a binary codec for the container
//! ([`codec`]), the deterministic label hasher that produces the 64-bit
//! identifiers stored in the container ([`hash`]), and a registry that
//! resolves identifiers back to human-readable labels for textual
//! display ([`registry`], [`text`]).

pub mod codec;
pub mod hash;
pub mod registry;
pub mod text;
