//! Self-documenting helpers that turn numbers into formatted text: binary,
//! octal and hexadecimal renderings (space- or zero-padded), decimal display
//! and debug renderings, and a helper that regroups a string's characters
//! into separated chunks.

pub mod fmt;
