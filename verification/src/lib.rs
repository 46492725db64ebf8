//! Marshaling layer for a binding over a C-convention native library.
//!
//! Converts between C-style conventions (raw pointer results, sentinel
//! return codes, null-terminated strings, fixed-size character buffers)
//! and idiomatic result/string types, so that higher-level binding code
//! never touches sentinel-value error codes directly.

pub mod util;
