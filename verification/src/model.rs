//! The mathematical model of block compilation: the fully materialized block
//! of each address region, the deduplicated block list in first-seen order,
//! and the position of a block within that list.

use vstd::prelude::*;

use crate::class::BidiClass;
use crate::ranges::lookup_in;
use crate::ranges::CodepointRange;
use crate::BLOCK_SIZE;

verus! {

/// The fully materialized block of address region `r`: the classifications
/// of the `BLOCK_SIZE` consecutive codepoints starting at `r * BLOCK_SIZE`,
/// as the range list `rs` with default `default` assigns them.
pub open spec fn region_block(rs: Seq<CodepointRange>, default: BidiClass, r: int) -> Seq<
    BidiClass,
> {
    Seq::new(BLOCK_SIZE as nat, |k: int| lookup_in(rs, default, r * (BLOCK_SIZE as int) + k))
}

/// The deduplicated block list after scanning address regions `0..n` in
/// order: each region's materialized block is appended only when no earlier
/// region produced an equal block, so the list holds the distinct blocks in
/// first-seen order.
pub open spec fn unique_blocks(rs: Seq<CodepointRange>, default: BidiClass, n: int) -> Seq<
    Seq<BidiClass>,
>
    decreases n,
{
    if n <= 0 {
        Seq::empty()
    } else {
        let prev = unique_blocks(rs, default, n - 1);
        let b = region_block(rs, default, n - 1);
        if prev.contains(b) {
            prev
        } else {
            prev.push(b)
        }
    }
}

/// The block stored at block index `k` of a flattened block array: the
/// `BLOCK_SIZE` elements starting at `k * BLOCK_SIZE`.
pub open spec fn block_at(s: Seq<BidiClass>, k: int) -> Seq<BidiClass> {
    s.subrange(k * (BLOCK_SIZE as int), (k + 1) * (BLOCK_SIZE as int))
}

/// The index of the first occurrence of block `b` in the list `s`, or
/// `s.len()` when `b` does not occur.
pub open spec fn find_block(s: Seq<Seq<BidiClass>>, b: Seq<BidiClass>) -> int
    decreases s.len(),
{
    if s.len() == 0 {
        0
    } else if s[0] == b {
        0
    } else {
        1 + find_block(s.drop_first(), b)
    }
}

/// `find_block` answers the first occurrence: if `b` sits at `k` and nowhere
/// earlier, `find_block` returns `k`.
pub proof fn lemma_find_block_first(s: Seq<Seq<BidiClass>>, b: Seq<BidiClass>, k: int)
    requires
        0 <= k < s.len(),
        s[k] == b,
        forall|j: int| 0 <= j < k ==> s[j] != b,
    ensures
        find_block(s, b) == k,
    decreases s.len(),
{
    if k > 0 {
        assert(s[0] != b);
        assert(s.drop_first()[k - 1] == s[k]);
        assert forall|j: int| 0 <= j < k - 1 implies s.drop_first()[j] != b by {
            assert(s.drop_first()[j] == s[j + 1]);
        }
        lemma_find_block_first(s.drop_first(), b, k - 1);
    }
}

/// When `b` occurs nowhere in `s`, `find_block` returns `s.len()`.
pub proof fn lemma_find_block_absent(s: Seq<Seq<BidiClass>>, b: Seq<BidiClass>)
    requires
        forall|j: int| 0 <= j < s.len() ==> s[j] != b,
    ensures
        find_block(s, b) == s.len(),
    decreases s.len(),
{
    if s.len() > 0 {
        assert forall|j: int| 0 <= j < s.drop_first().len() implies s.drop_first()[j] != b by {
            assert(s.drop_first()[j] == s[j + 1]);
        }
        lemma_find_block_absent(s.drop_first(), b);
    }
}

/// When `b` occurs in `s`, `find_block` lands on an occurrence of `b`, and
/// on no later index than any occurrence.
pub proof fn lemma_find_block_present(s: Seq<Seq<BidiClass>>, b: Seq<BidiClass>)
    requires
        s.contains(b),
    ensures
        0 <= find_block(s, b) < s.len(),
        s[find_block(s, b)] == b,
        forall|j: int| 0 <= j < find_block(s, b) ==> s[j] != b,
    decreases s.len(),
{
    if s[0] == b {
    } else {
        let w = choose|w: int| 0 <= w < s.len() && s[w] == b;
        assert(s.drop_first()[w - 1] == s[w]);
        assert(s.drop_first().contains(b));
        lemma_find_block_present(s.drop_first(), b);
        let f = find_block(s.drop_first(), b);
        assert(s[f + 1] == s.drop_first()[f]);
        assert forall|j: int| 0 <= j < f + 1 implies s[j] != b by {
            if j > 0 {
                assert(s.drop_first()[j - 1] == s[j]);
            }
        }
    }
}

/// Appending a block at the end does not move the first occurrence of a
/// block already present.
pub proof fn lemma_find_block_push(s: Seq<Seq<BidiClass>>, b: Seq<BidiClass>, x: Seq<BidiClass>)
    requires
        s.contains(x),
    ensures
        s.push(b).contains(x),
        find_block(s.push(b), x) == find_block(s, x),
{
    lemma_find_block_present(s, x);
    let f = find_block(s, x);
    assert(s.push(b)[f] == s[f]);
    assert forall|j: int| 0 <= j < f implies s.push(b)[j] != x by {
        assert(s.push(b)[j] == s[j]);
    }
    lemma_find_block_first(s.push(b), x, f);
}

/// The deduplicated list over `n` regions holds at most `n` blocks:
/// deduplication never exceeds one block per region.
pub proof fn lemma_unique_blocks_len(rs: Seq<CodepointRange>, default: BidiClass, n: int)
    requires
        n >= 0,
    ensures
        unique_blocks(rs, default, n).len() <= n,
    decreases n,
{
    if n > 0 {
        lemma_unique_blocks_len(rs, default, n - 1);
    }
}

/// No two entries of the deduplicated list are equal: a block is appended
/// only when absent, so the list is duplicate-free.
pub proof fn lemma_unique_blocks_distinct(
    rs: Seq<CodepointRange>,
    default: BidiClass,
    n: int,
    i: int,
    j: int,
)
    requires
        0 <= i < j < unique_blocks(rs, default, n).len(),
    ensures
        unique_blocks(rs, default, n)[i] != unique_blocks(rs, default, n)[j],
    decreases n,
{
    let prev = unique_blocks(rs, default, n - 1);
    let b = region_block(rs, default, n - 1);
    if prev.contains(b) || j < prev.len() {
        lemma_unique_blocks_distinct(rs, default, n - 1, i, j);
    } else {
        // `b` was appended at `j == prev.len()`, so it equals no earlier
        // entry: otherwise `prev` would already contain it.
        if prev[i] == b {
            assert(prev.contains(b));
        }
        assert(prev.push(b)[i] == prev[i]);
    }
}

/// Every region scanned so far has its materialized block somewhere in the
/// deduplicated list.
pub proof fn lemma_unique_blocks_contains(
    rs: Seq<CodepointRange>,
    default: BidiClass,
    n: int,
    r: int,
)
    requires
        0 <= r < n,
    ensures
        unique_blocks(rs, default, n).contains(region_block(rs, default, r)),
    decreases n,
{
    let prev = unique_blocks(rs, default, n - 1);
    let b = region_block(rs, default, n - 1);
    if r == n - 1 {
        if !prev.contains(b) {
            assert(prev.push(b)[prev.len() as int] == b);
        }
    } else {
        lemma_unique_blocks_contains(rs, default, n - 1, r);
        let x = region_block(rs, default, r);
        if !prev.contains(b) {
            let w = choose|w: int| 0 <= w < prev.len() && prev[w] == x;
            assert(prev.push(b)[w] == prev[w]);
        }
    }
}

} // verus!
