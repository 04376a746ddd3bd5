//! Decoding JSON5 text into the values of a host runtime.
//!
//! A decode call takes an [`Input`](input::Input), reads it as one text
//! ([`input::normalize`]), has a JSON5 parser turn the text into a value tree
//! ([`Val`]), and bridges the tree into the value that the host is to build
//! ([`val_to_python`]). The parser is handed in by the caller; the library
//! decides everything around it: which inputs hold text, which numbers become
//! integers, and how each failure is reported ([`JsonError`]).

pub mod binary64;
pub mod bridge;
pub mod decode;
pub mod error;
pub mod host;
pub mod input;
pub mod value;

pub use crate::bridge::val_to_python;
pub use crate::decode::{loads, loads_bytes, loads_str};
pub use crate::error::JsonError;
pub use crate::value::Val;
