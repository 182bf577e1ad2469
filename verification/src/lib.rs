//! Masked byte-pattern search and patching.
//!
//! A pattern is a fixed-length sequence of tokens, each either a concrete
//! byte or a wildcard that matches any byte. The library compiles
//! human-readable token strings into patterns, finds the first offset of a
//! buffer that matches a pattern under the wildcard mask, and overwrites
//! matched regions with replacement bytes.

pub mod pattern;
pub mod scan;
pub mod patch;
