//! Pairwise genetic-distance computation over biallelic genotype calls.
//!
//! The library decodes raw per-record genotype payloads into per-sample
//! dosage codes, aggregates them into per-sample series, merges series
//! produced per contig, filters out sites any sample marks as excluded,
//! and computes an exact symmetric matrix of pairwise allele-sharing
//! distances, each represented as a sum of absolute dosage differences
//! together with the number of jointly called sites.

pub mod codec;
pub mod distance;
pub mod filter;
pub mod matrix;
pub mod pipeline;
pub mod series;

use vstd::prelude::*;

verus! {

/// The kinds of unrecoverable failure the pipeline distinguishes.
#[derive(Clone, Copy, Debug, PartialEq, Eq, Structural)]
pub enum CoreError {
    /// Input or index file missing or unreadable.
    IoNotFound,
    /// A header or record does not match the expected binary layout.
    FormatError,
    /// A decoded allele index lies outside the declared allele range.
    EncodingViolation,
    /// A contig name yields no valid query region or index entry.
    RegionError,
}

} // verus!
