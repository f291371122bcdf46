//! The laws of compilation, proved once and for all from the compiler's
//! postcondition: compilation preserves every classification, codepoints
//! beyond the covered span carry the default, deduplication never enlarges
//! storage, and one input admits exactly one compiled table.

use vstd::prelude::*;

use vstd::arithmetic::div_mod::lemma_div_is_ordered;
use vstd::arithmetic::div_mod::lemma_fundamental_div_mod;
use vstd::arithmetic::div_mod::lemma_mod_bound;

use crate::class::BidiClass;
use crate::compiled::CompiledTable;
use crate::compiler::compiles_to;
use crate::compiler::region_count;
use crate::model::block_at;
use crate::model::find_block;
use crate::model::lemma_find_block_present;
use crate::model::lemma_unique_blocks_contains;
use crate::model::lemma_unique_blocks_distinct;
use crate::model::lemma_unique_blocks_len;
use crate::model::region_block;
use crate::model::unique_blocks;
use crate::ranges::lookup_in;
use crate::ranges::max_end;
use crate::ranges::CodepointRange;
use crate::BLOCK_SIZE;

verus! {

/// Round-trip equivalence: on every codepoint of the covered span
/// `0..=last_codepoint`, the compiled table classifies exactly as the range
/// list it was compiled from — compilation alters no observable
/// classification.
pub proof fn lemma_round_trip(rs: Seq<CodepointRange>, default: BidiClass, t: CompiledTable, c: u32)
    requires
        compiles_to(rs, default, t),
        c <= t.last_codepoint,
    ensures
        t.spec_classify(c) == lookup_in(rs, default, c as int),
{
    let bs = BLOCK_SIZE as int;
    let n = region_count(rs);
    let ub = unique_blocks(rs, default, n);
    let region = c as int / bs;
    let low = c as int % bs;
    lemma_fundamental_div_mod(c as int, bs);
    lemma_mod_bound(c as int, bs);
    lemma_div_is_ordered(c as int, max_end(rs), bs);
    assert(0 <= region < n);
    lemma_unique_blocks_contains(rs, default, n, region);
    lemma_find_block_present(ub, region_block(rs, default, region));
    let f = find_block(ub, region_block(rs, default, region));
    assert(t.offsets@[region] as int == bs * f);
    assert(block_at(t.blocks@, f) == ub[f]);
    assert(block_at(t.blocks@, f)[low] == t.blocks@[f * bs + low]);
    assert(region_block(rs, default, region)[low] == lookup_in(rs, default, region * bs + low));
}

/// Default beyond range: every codepoint past `last_codepoint` is
/// classified as the dataset's default, with no table access involved.
pub proof fn lemma_default_beyond_range(
    rs: Seq<CodepointRange>,
    default: BidiClass,
    t: CompiledTable,
    c: u32,
)
    requires
        compiles_to(rs, default, t),
        c > t.last_codepoint,
    ensures
        t.spec_classify(c) == default,
{
}

/// Compression monotonicity: the deduplicated block array never exceeds one
/// block per address region, so it is no larger than the undeduplicated
/// layout of one block for each offset entry.
pub proof fn lemma_compression_monotonic(rs: Seq<CodepointRange>, default: BidiClass, t: CompiledTable)
    requires
        compiles_to(rs, default, t),
    ensures
        t.blocks@.len() <= t.offsets@.len() * (BLOCK_SIZE as int),
{
    lemma_unique_blocks_len(rs, default, region_count(rs));
}

/// The deduplication guarantee of the block table itself: no two blocks of
/// the compiled block array are equal, so each physical block stands for a
/// distinct property pattern.
pub proof fn lemma_blocks_distinct(
    rs: Seq<CodepointRange>,
    default: BidiClass,
    t: CompiledTable,
    i: int,
    j: int,
)
    requires
        compiles_to(rs, default, t),
        0 <= i < j,
        (j + 1) * (BLOCK_SIZE as int) <= t.blocks@.len(),
    ensures
        block_at(t.blocks@, i) != block_at(t.blocks@, j),
{
    let n = region_count(rs);
    let ub = unique_blocks(rs, default, n);
    assert(j < ub.len());
    lemma_unique_blocks_distinct(rs, default, n, i, j);
}

/// Determinism: the compiler's postcondition pins every part of the output,
/// so two compiled tables of the same range list and default are identical —
/// same block array, same offset array, same covered span, same default.
pub proof fn lemma_compile_deterministic(
    rs: Seq<CodepointRange>,
    default: BidiClass,
    t1: CompiledTable,
    t2: CompiledTable,
)
    requires
        compiles_to(rs, default, t1),
        compiles_to(rs, default, t2),
    ensures
        t1.blocks@ == t2.blocks@,
        t1.offsets@ == t2.offsets@,
        t1.last_codepoint == t2.last_codepoint,
        t1.default == t2.default,
{
    let bs = BLOCK_SIZE as int;
    let n = region_count(rs);
    let ub = unique_blocks(rs, default, n);
    assert forall|i: int| 0 <= i < n implies t1.offsets@[i] == t2.offsets@[i] by {
        assert(t1.offsets@[i] as int == t2.offsets@[i] as int);
    }
    assert(t1.offsets@ =~= t2.offsets@);
    assert forall|j: int| 0 <= j < t1.blocks@.len() implies t1.blocks@[j] == t2.blocks@[j] by {
        let k = j / bs;
        let low = j % bs;
        lemma_fundamental_div_mod(j, bs);
        lemma_mod_bound(j, bs);
        assert(0 <= k < ub.len());
        assert(block_at(t1.blocks@, k)[low] == t1.blocks@[k * bs + low]);
        assert(block_at(t2.blocks@, k)[low] == t2.blocks@[k * bs + low]);
        assert(block_at(t1.blocks@, k) == ub[k]);
        assert(block_at(t2.blocks@, k) == ub[k]);
    }
    assert(t1.blocks@ =~= t2.blocks@);
}

} // verus!
