//! The block compiler: partitions the covered codepoint span into
//! fixed-size blocks, materializes each block from the range table,
//! deduplicates equal blocks, and emits the flattened block array together
//! with the per-region offset index.

use vstd::prelude::*;

use crate::class::BidiClass;
use crate::compiled::CompiledTable;
use crate::model::block_at;
use crate::model::find_block;
use crate::model::lemma_find_block_absent;
use crate::model::lemma_find_block_first;
use crate::model::lemma_find_block_present;
use crate::model::lemma_find_block_push;
use crate::model::region_block;
use crate::model::unique_blocks;
use crate::ranges::lemma_max_end_last;
use crate::ranges::lookup_in;
use crate::ranges::max_end;
use crate::ranges::BuildError;
use crate::ranges::CodepointRange;
use crate::ranges::RangeTable;
use crate::BLOCK_SIZE;

verus! {

/// Number of block-aligned address regions spanned by `0..=max_end(rs)`:
/// the length of the offset table.
pub open spec fn region_count(rs: Seq<CodepointRange>) -> int {
    max_end(rs) / (BLOCK_SIZE as int) + 1
}

/// The exact relation between a range list with its default class and a
/// compiled table: the covered span, the deduplicated block list in
/// first-seen order, and every offset entry are all pinned, so one input
/// admits exactly one compiled table.
pub open spec fn compiles_to(rs: Seq<CodepointRange>, default: BidiClass, t: CompiledTable) -> bool {
    let n = region_count(rs);
    let ub = unique_blocks(rs, default, n);
    &&& rs.len() > 0
    &&& t.default == default
    &&& t.last_codepoint as int == max_end(rs)
    &&& t.offsets@.len() == n
    &&& forall|r: int|
        0 <= r < n ==> t.offsets@[r] as int == (BLOCK_SIZE as int) * find_block(
            ub,
            region_block(rs, default, r),
        )
    &&& t.blocks@.len() == (BLOCK_SIZE as int) * ub.len()
    &&& forall|k: int|
        0 <= k < ub.len() ==> block_at(t.blocks@, k) == ub[k]
}

/// Whether the block stored at block index `at` of the flattened array
/// equals the candidate block, element by element.
fn block_matches_at(blocks: &Vec<BidiClass>, at: usize, cand: &Vec<BidiClass>) -> (matches: bool)
    requires
        (at as int + 1) * (BLOCK_SIZE as int) <= blocks@.len(),
        cand@.len() == BLOCK_SIZE as int,
    ensures
        matches == (block_at(blocks@, at as int) == cand@),
{
    // Reading the length binds it to a machine word, bounding the index
    // arithmetic below.
    let _array_len = blocks.len();
    let base = at * BLOCK_SIZE;
    let ghost sub = block_at(blocks@, at as int);
    let mut k: usize = 0;
    while k < BLOCK_SIZE
        invariant
            k <= BLOCK_SIZE,
            base as int == at as int * (BLOCK_SIZE as int),
            base + BLOCK_SIZE <= blocks@.len(),
            cand@.len() == BLOCK_SIZE as int,
            sub == blocks@.subrange(base as int, base as int + (BLOCK_SIZE as int)),
            forall|j: int| 0 <= j < k ==> blocks@[base as int + j] == cand@[j],
        decreases BLOCK_SIZE - k,
    {
        if blocks[base + k] != cand[k] {
            proof {
                assert(sub[k as int] == blocks@[base as int + k as int]);
            }
            return false;
        }
        k += 1;
    }
    proof {
        assert forall|j: int| 0 <= j < (BLOCK_SIZE as int) implies sub[j] == cand@[j] by {
            assert(sub[j] == blocks@[base as int + j]);
        }
        assert(sub =~= cand@);
    }
    true
}

/// Linear scan of the deduplicated blocks gathered so far for one equal to
/// the candidate; returns the first matching block index, or `n_unique`
/// when no block matches.
fn find_matching_block(blocks: &Vec<BidiClass>, n_unique: usize, cand: &Vec<BidiClass>) -> (position:
    usize)
    requires
        blocks@.len() == n_unique as int * (BLOCK_SIZE as int),
        cand@.len() == BLOCK_SIZE as int,
    ensures
        position <= n_unique,
        forall|j: int|
            0 <= j < position ==> block_at(blocks@, j) != cand@,
        position < n_unique ==> block_at(blocks@, position as int) == cand@,
{
    let mut at: usize = 0;
    while at < n_unique
        invariant
            at <= n_unique,
            blocks@.len() == n_unique as int * (BLOCK_SIZE as int),
            cand@.len() == BLOCK_SIZE as int,
            forall|j: int|
                0 <= j < at ==> block_at(blocks@, j) != cand@,
        decreases n_unique - at,
    {
        if block_matches_at(blocks, at, cand) {
            return at;
        }
        at += 1;
    }
    n_unique
}

/// Compiles a range table into its two-level lookup structure.
///
/// The scan walks the address regions of `0..=max_end` in order,
/// materializes each region's block by one lookup per codepoint, reuses the
/// first earlier block equal to it or appends it as new, and records the
/// region's starting offset into the flattened block array.  An empty range
/// list has no covered span and is rejected.
///
/// The postcondition pins the entire output ([`compiles_to`]), from which
/// the classification-preservation, default, compression and determinism
/// laws follow (see [`crate::laws`]).
pub fn compile(table: &RangeTable) -> (result: Result<CompiledTable, BuildError>)
    requires
        table.wf(),
    ensures
        result is Ok <==> table.ranges@.len() > 0,
        result is Err ==> result->Err_0 == BuildError::EmptyRanges,
        result is Ok ==> result->Ok_0.wf(),
        result is Ok ==> compiles_to(table.ranges@, table.default, result->Ok_0),
{
    let n_ranges = table.ranges.len();
    if n_ranges == 0 {
        return Err(BuildError::EmptyRanges);
    }
    let last_codepoint = table.ranges[n_ranges - 1].end;
    proof {
        lemma_max_end_last(table.ranges@);
    }
    let n_regions: usize = (last_codepoint / 256) as usize + 1;
    assert(n_regions <= 0x1000000);

    let ghost rs = table.ranges@;
    let ghost dflt = table.default;
    let mut blocks: Vec<BidiClass> = Vec::new();
    let mut offsets: Vec<u32> = Vec::new();
    let mut n_unique: usize = 0;
    let mut r: usize = 0;
    while r < n_regions
        invariant
            table.wf(),
            rs == table.ranges@,
            dflt == table.default,
            r <= n_regions,
            n_regions == region_count(rs),
            n_regions <= 0x1000000,
            n_unique as int == unique_blocks(rs, dflt, r as int).len(),
            n_unique <= r,
            blocks@.len() == n_unique as int * (BLOCK_SIZE as int),
            forall|k: int|
                0 <= k < n_unique ==> block_at(blocks@, k) == unique_blocks(rs, dflt, r as int)[k],
            offsets@.len() == r,
            forall|i: int|
                0 <= i < r ==> offsets@[i] as int == (BLOCK_SIZE as int) * find_block(
                    unique_blocks(rs, dflt, r as int),
                    region_block(rs, dflt, i),
                ),
            forall|i: int|
                0 <= i < r ==> unique_blocks(rs, dflt, r as int).contains(
                    region_block(rs, dflt, i),
                ),
        decreases n_regions - r,
    {
        // Materialize this region's block, one range-table lookup per
        // codepoint.
        let mut cand: Vec<BidiClass> = Vec::new();
        let mut k: usize = 0;
        while k < BLOCK_SIZE
            invariant
                table.wf(),
                rs == table.ranges@,
                dflt == table.default,
                k <= BLOCK_SIZE,
                r < 0x1000000,
                cand@.len() == k as int,
                forall|j: int|
                    0 <= j < k ==> cand@[j] == lookup_in(rs, dflt, r as int * (BLOCK_SIZE as int) + j),
            decreases BLOCK_SIZE - k,
        {
            let cp: u32 = (r as u32) * 256 + (k as u32);
            let cls = table.lookup(cp);
            cand.push(cls);
            k += 1;
        }
        proof {
            assert(cand@ =~= region_block(rs, dflt, r as int));
        }

        let position = find_matching_block(&blocks, n_unique, &cand);
        let ghost ub_r = unique_blocks(rs, dflt, r as int);
        let ghost b = region_block(rs, dflt, r as int);
        let ghost old_blocks = blocks@;
        let offset_val: u32;
        if position < n_unique {
            // Compression hit: reuse the first equal block.
            proof {
                assert(ub_r[position as int] == b);
                assert(ub_r.contains(b)) by {
                    assert((position as int) < ub_r.len() && ub_r[position as int] == b);
                }
                assert forall|j: int| 0 <= j < position implies ub_r[j] != b by {
                    assert(block_at(blocks@, j) == ub_r[j]);
                    assert(block_at(blocks@, j) != cand@);
                }
                lemma_find_block_first(ub_r, b, position as int);
            }
            offset_val = (position * BLOCK_SIZE) as u32;
        } else {
            // New block: append it to the flattened array.
            proof {
                assert forall|j: int| 0 <= j < ub_r.len() implies ub_r[j] != b by {
                    assert(block_at(blocks@, j) == ub_r[j]);
                    assert(block_at(blocks@, j) != cand@);
                }
                assert(!ub_r.contains(b));
                lemma_find_block_absent(ub_r, b);
            }
            offset_val = (n_unique * BLOCK_SIZE) as u32;
            blocks.append(&mut cand);
            n_unique = n_unique + 1;
        }
        offsets.push(offset_val);
        proof {
            let ub_r1 = unique_blocks(rs, dflt, r as int + 1);
            assert(ub_r1 == if ub_r.contains(b) {
                ub_r
            } else {
                ub_r.push(b)
            });
            if ub_r.contains(b) {
                assert forall|i: int|
                    0 <= i < r + 1 implies offsets@[i] as int == (BLOCK_SIZE as int) * find_block(
                    ub_r1,
                    region_block(rs, dflt, i),
                ) by {}
            } else {
                // The appended block sits at the end of both the flattened
                // array and the deduplicated list.
                assert(blocks@ == old_blocks + b);
                assert forall|k2: int|
                    0 <= k2 < n_unique implies block_at(blocks@, k2) == ub_r1[k2] by {
                    if k2 < n_unique - 1 {
                        assert(block_at(blocks@, k2) =~= block_at(old_blocks, k2));
                        assert(ub_r1[k2] == ub_r[k2]);
                    } else {
                        assert(block_at(blocks@, k2) =~= b);
                        assert(ub_r1[k2] == b);
                    }
                }
                assert forall|i: int|
                    0 <= i < r + 1 implies offsets@[i] as int == (BLOCK_SIZE as int) * find_block(
                    ub_r1,
                    region_block(rs, dflt, i),
                ) by {
                    if i < r {
                        lemma_find_block_push(ub_r, b, region_block(rs, dflt, i));
                    } else {
                        assert(ub_r1[ub_r.len() as int] == b);
                        assert forall|j: int| 0 <= j < ub_r.len() implies ub_r1[j] != b by {
                            assert(ub_r1[j] == ub_r[j]);
                        }
                        lemma_find_block_first(ub_r1, b, ub_r.len() as int);
                    }
                }
                assert forall|i: int|
                    0 <= i < r + 1 implies ub_r1.contains(region_block(rs, dflt, i)) by {
                    if i < r {
                        lemma_find_block_push(ub_r, b, region_block(rs, dflt, i));
                    } else {
                        assert(ub_r1[ub_r.len() as int] == b);
                    }
                }
            }
        }
        r += 1;
    }

    proof {
        let n = region_count(rs);
        let ub = unique_blocks(rs, dflt, n);
        assert forall|i: int|
            0 <= i < offsets@.len() implies offsets@[i] as int + (BLOCK_SIZE as int)
            <= blocks@.len() by {
            lemma_find_block_present(ub, region_block(rs, dflt, i));
        }
    }
    Ok(
        CompiledTable {
            blocks,
            offsets,
            last_codepoint,
            default: table.default,
        },
    )
}

} // verus!
