//! Identifier reconciliation for a file-based product taxonomy: partial
//! category and attribute records are given durable ids, linked into an
//! ownership forest by name, validated against append-only id ledgers and
//! a configured rule set, and planned for write-back. Every decision the
//! pipeline takes is implemented here under a verified contract; reading
//! and writing the fragments, the ledgers and the configuration stay with
//! the caller.

use vstd::prelude::*;

pub mod attributes;
pub mod categories;
pub mod ci;
pub mod config;
pub mod config_reader;
pub mod error;
mod idgen;
pub mod tracking;
pub mod validator;

verus! {

/// The character sequences of a sequence of strings.
pub open spec fn str_views(strings: Seq<String>) -> Seq<Seq<char>> {
    strings.map_values(|s: String| s@)
}

} // verus!
