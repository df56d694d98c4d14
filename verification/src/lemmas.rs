//! Facts about the block-by-block hashing of byte sequences.
use vstd::prelude::*;
use crate::spec::{hash_blocks, hash_prefix, unprocessed};

verus! {

/// The first `n` blocks decide the hash value after `n` blocks.
pub proof fn lemma_hash_prefix_agree(h: Seq<u32>, a: Seq<u8>, b: Seq<u8>, n: nat)
    requires
        a.len() >= 64 * n,
        b.len() >= 64 * n,
        a.subrange(0, 64 * n as int) == b.subrange(0, 64 * n as int),
    ensures
        hash_prefix(h, a, n) == hash_prefix(h, b, n),
    decreases n,
{
    if n > 0 {
        let m = (n - 1) as nat;
        assert(a.subrange(0, 64 * m as int) =~= a.subrange(0, 64 * n as int).subrange(0, 64 * m as int));
        assert(b.subrange(0, 64 * m as int) =~= b.subrange(0, 64 * n as int).subrange(0, 64 * m as int));
        lemma_hash_prefix_agree(h, a, b, m);
        assert(a.subrange(64 * m as int, 64 * n as int) =~= a.subrange(0, 64 * n as int).subrange(
            64 * m as int,
            64 * n as int,
        ));
        assert(b.subrange(64 * m as int, 64 * n as int) =~= b.subrange(0, 64 * n as int).subrange(
            64 * m as int,
            64 * n as int,
        ));
    }
}

/// Hashing the blocks of `p + z`, where `p` is whole blocks, is hashing `z` from the hash of `p`.
pub proof fn lemma_hash_prefix_append(h: Seq<u32>, p: Seq<u8>, z: Seq<u8>, n: nat)
    requires
        p.len() % 64 == 0,
        64 * n <= z.len(),
    ensures
        hash_prefix(h, p + z, p.len() / 64 + n) == hash_prefix(hash_blocks(h, p), z, n),
    decreases n,
{
    let q = p.len() / 64;
    if n == 0 {
        assert((p + z).subrange(0, 64 * q as int) =~= p.subrange(0, 64 * q as int));
        lemma_hash_prefix_agree(h, p + z, p, q);
    } else {
        let m = (n - 1) as nat;
        lemma_hash_prefix_append(h, p, z, m);
        assert((p + z).subrange(64 * (q + m) as int, 64 * (q + n) as int) =~= z.subrange(64 * m as int, 64 * n as int));
    }
}

/// Hashing the blocks of `p + z`, where `p` is whole blocks, is hashing the blocks of `z`
/// from the hash of `p`.
pub proof fn lemma_hash_blocks_append(h: Seq<u32>, p: Seq<u8>, z: Seq<u8>)
    requires
        p.len() % 64 == 0,
    ensures
        hash_blocks(h, p + z) == hash_blocks(hash_blocks(h, p), z),
{
    assert((p + z).len() / 64 == p.len() / 64 + z.len() / 64);
    lemma_hash_prefix_append(h, p, z, z.len() / 64);
}

/// Hashing the blocks of `x + y` is hashing the blocks of the unprocessed tail of `x`
/// followed by `y`, from the hash of the blocks of `x`.
pub proof fn lemma_hash_blocks_split(h: Seq<u32>, x: Seq<u8>, y: Seq<u8>)
    ensures
        hash_blocks(h, x + y) == hash_blocks(hash_blocks(h, x), unprocessed(x) + y),
        unprocessed(x + y) == unprocessed(unprocessed(x) + y),
{
    let q = x.len() / 64;
    let p = x.take(64 * q as int);
    assert(x + y =~= p + (unprocessed(x) + y));
    lemma_hash_blocks_append(h, p, unprocessed(x) + y);
    assert(p.subrange(0, 64 * q as int) =~= x.subrange(0, 64 * q as int));
    lemma_hash_prefix_agree(h, p, x, q);
    let s = unprocessed(x) + y;
    assert((x + y).len() / 64 == q + s.len() / 64);
    assert(unprocessed(x + y) =~= unprocessed(s));
}

} // verus!
