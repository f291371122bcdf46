//! The frozen artifact of compilation and its constant-time accessor: a
//! flattened array of deduplicated blocks, a per-region offset index into
//! it, and the highest explicitly covered codepoint.

use vstd::prelude::*;

use vstd::arithmetic::div_mod::lemma_div_is_ordered;

use crate::class::BidiClass;
use crate::BLOCK_MASK;
use crate::BLOCK_SHIFT;
use crate::BLOCK_SIZE;

verus! {

/// The immutable output of block compilation.  `blocks` is the
/// concatenation of the deduplicated blocks in first-seen order; `offsets`
/// maps each block-aligned address region of the covered span to the
/// starting index of its block within `blocks`.
#[derive(Debug)]
pub struct CompiledTable {
    /// Concatenation of the unique `BLOCK_SIZE`-sized blocks.
    pub blocks: Vec<BidiClass>,
    /// For each address region of `0..=last_codepoint`, the starting index
    /// of the region's block in `blocks`.
    pub offsets: Vec<u32>,
    /// Highest codepoint explicitly covered by the compiled ranges.
    pub last_codepoint: u32,
    /// The class of every codepoint beyond `last_codepoint`.
    pub default: BidiClass,
}

impl CompiledTable {
    /// Structural invariant: one offset entry per address region of the
    /// covered span, and every entry leaves room for a whole block inside
    /// `blocks`.
    pub open spec fn wf(self) -> bool {
        &&& self.offsets@.len() == self.last_codepoint as int / (BLOCK_SIZE as int) + 1
        &&& forall|i: int|
            0 <= i < self.offsets@.len() ==> self.offsets@[i] as int + (BLOCK_SIZE as int)
                <= self.blocks@.len()
    }

    /// The classification the table assigns to `c`: the entry of `c`'s
    /// region's block at `c`'s within-block index, or the default class
    /// beyond the covered span.
    pub open spec fn spec_classify(self, c: u32) -> BidiClass {
        if c > self.last_codepoint {
            self.default
        } else {
            self.blocks@[self.offsets@[c as int / (BLOCK_SIZE as int)] + c as int % (
            BLOCK_SIZE as int)]
        }
    }

    /// Two-level constant-time lookup: the high bits of the codepoint pick
    /// an offset entry, the low bits pick within the resolved block.  Total
    /// over the whole `u32` domain; beyond the covered span the default
    /// class is returned without touching the arrays.
    pub fn classify(&self, codepoint: u32) -> (class: BidiClass)
        requires
            self.wf(),
        ensures
            class == self.spec_classify(codepoint),
    {
        if codepoint > self.last_codepoint {
            self.default
        } else {
            proof {
                assert(codepoint >> 8u32 == codepoint / 256u32) by (bit_vector);
                assert(codepoint & 255u32 == codepoint % 256u32) by (bit_vector);
                assert(codepoint % 256u32 < 256u32) by (bit_vector);
                lemma_div_is_ordered(codepoint as int, self.last_codepoint as int, 256);
            }
            let region = (codepoint >> BLOCK_SHIFT) as usize;
            let low = (codepoint & BLOCK_MASK) as usize;
            let block_start = self.offsets[region];
            // Reading the length binds it to a machine word, bounding the
            // index arithmetic below.
            let _array_len = self.blocks.len();
            self.blocks[block_start as usize + low]
        }
    }
}

/// The `Bidi_Class` of a single character, read from a compiled table.
pub fn bidi_class(c: char, table: &CompiledTable) -> (class: BidiClass)
    requires
        table.wf(),
    ensures
        class == table.spec_classify(c as u32),
{
    table.classify(c as u32)
}

} // verus!
