//! Core engine of `rvl`: compares two CSV snapshots and produces one of three
//! verdicts — real change, no real change, or an enumerated refusal.
//!
//! Everything in this crate works on raw bytes. Floating-point arithmetic
//! (delta evaluation, coverage ratios, number formatting) cannot be verified
//! here and is performed by the surrounding binary, which feeds the results
//! back in as plain values (IEEE bit patterns for ordering, formatted byte
//! strings for rendering).

pub mod blank;
pub mod bytes;
pub mod codes;
pub mod columns;
pub mod delimiter;
pub mod details;
pub mod dialect;
pub mod exit;
pub mod headers;
pub mod heap;
pub mod human;
pub mod ident_human;
pub mod ident_json;
pub mod input;
pub mod json_out;
pub mod key_discovery;
pub mod key_join;
pub mod key_parse;
pub mod missing;
pub mod missingness;
pub mod no_numeric;
pub mod numbers;
pub mod numeric;
pub mod order;
pub mod parser;
pub mod pipeline;
pub mod process;
pub mod records;
pub mod row_order;
pub mod sep;
pub mod shuffle;
pub mod trim;

use vstd::prelude::*;

verus! {

} // verus!
