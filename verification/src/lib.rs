//! A compact two-level lookup structure for the Unicode `Bidi_Class`
//! character property.
//!
//! A sorted, non-overlapping table of codepoint ranges ([`RangeTable`]) is
//! compiled ([`compile`]) into a deduplicated array of fixed-size blocks plus
//! a per-region offset index ([`CompiledTable`]), and a constant-time
//! accessor ([`bidi_class`], [`CompiledTable::classify`]) reads the
//! classification back.  Compilation is proved to preserve every
//! classification: the accessor agrees with the range table on every covered
//! codepoint and returns the table's default beyond it.

use vstd::prelude::*;

pub mod class;
pub mod compiled;
pub mod compiler;
pub mod laws;
pub mod model;
pub mod ranges;

pub use class::is_rtl;
pub use class::BidiClass;
pub use compiled::bidi_class;
pub use compiled::CompiledTable;
pub use compiler::compile;
pub use ranges::BuildError;
pub use ranges::CodepointRange;
pub use ranges::RangeTable;

verus! {

/// Number of codepoints covered by one block.  A power of two, so that a
/// codepoint splits into a block address (high bits) and an index within the
/// block (low bits) by shift and mask, with no division.
pub const BLOCK_SIZE: usize = 256;

/// Number of low-order bits that index within a block: log2 of `BLOCK_SIZE`.
pub const BLOCK_SHIFT: u32 = 8;

/// Mask selecting the within-block index bits: `BLOCK_SIZE - 1`.
pub const BLOCK_MASK: u32 = 255;

} // verus!
