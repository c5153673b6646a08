//! Save-file names: `[__<internal>__]user<tag>[_<version>].dat[.bak<id>]`.
//!
//! A name is decoded into a [`save_info_struct::SaveNameInfo`] by
//! [`parser::parse`] and written back by
//! [`save_info_struct::SaveNameInfo::to_string`]. The grammar is stated once,
//! over sequences of characters, in [`grammar`]; the executable matchers are
//! proved against it, and [`laws`] proves that decoding and writing undo each
//! other.

pub mod failure;
pub mod grammar;
pub mod laws;
pub mod lemmas;
mod matchers;
pub mod parser;
pub mod save_info_struct;
