//! Chain hash over token ids and a byte checksum for corruption detection.
//! Both are FNV-1a, folded one unit at a time, so a longer prefix's hash is
//! obtained by folding onto the shorter prefix's [`ChainHash`] instead of
//! starting again from the first token.

use crate::bytes::le_bytes;
use vstd::prelude::*;

verus! {

pub const FNV_OFFSET: u64 = 0xcbf2_9ce4_8422_2325;

pub const FNV_PRIME: u64 = 0x0000_0100_0000_01b3;

/// One FNV-1a step: mix a byte in, then multiply modulo the word size.
pub open spec fn fnv_step(h: u64, b: u8) -> u64 {
    (((h ^ (b as u64)) * FNV_PRIME) % 0x1_0000_0000_0000_0000) as u64
}

/// FNV-1a over `data`, continuing from the state `h`.
pub open spec fn fnv(h: u64, data: Seq<u8>) -> u64
    decreases data.len(),
{
    if data.len() == 0 {
        h
    } else {
        fnv_step(fnv(h, data.drop_last()), data.last())
    }
}

/// The bytes a token sequence is hashed as: four little-endian bytes each.
pub open spec fn token_bytes(tokens: Seq<u32>) -> Seq<u8>
    decreases tokens.len(),
{
    if tokens.len() == 0 {
        Seq::empty()
    } else {
        token_bytes(tokens.drop_last()) + le_bytes(tokens.last() as nat, 4)
    }
}

/// The chain hash of a token sequence.
pub open spec fn chain_hash(tokens: Seq<u32>) -> u64 {
    fnv(FNV_OFFSET, token_bytes(tokens))
}

/// Hashing a concatenation is hashing the second part from the state the
/// first part left.
pub proof fn lemma_fnv_concat(h: u64, a: Seq<u8>, b: Seq<u8>)
    ensures
        fnv(h, a + b) == fnv(fnv(h, a), b),
    decreases b.len(),
{
    if b.len() == 0 {
        assert(a + b =~= a);
    } else {
        lemma_fnv_concat(h, a, b.drop_last());
        assert((a + b).drop_last() =~= a + b.drop_last());
        assert((a + b).last() == b.last());
    }
}

/// The bytes of a concatenation of token sequences.
pub proof fn lemma_token_bytes_concat(a: Seq<u32>, b: Seq<u32>)
    ensures
        token_bytes(a + b) == token_bytes(a) + token_bytes(b),
    decreases b.len(),
{
    if b.len() == 0 {
        assert(a + b =~= a);
        assert(token_bytes(a) + token_bytes(b) =~= token_bytes(a));
    } else {
        lemma_token_bytes_concat(a, b.drop_last());
        assert((a + b).drop_last() =~= a + b.drop_last());
        assert(token_bytes(a + b) =~= token_bytes(a) + token_bytes(b));
    }
}

/// Resuming from a checkpoint matches hashing from scratch: the hash of
/// `head + tail` is the hash of `tail` continued from the hash of `head`.
pub proof fn law_resume_from_checkpoint(head: Seq<u32>, tail: Seq<u32>)
    ensures
        chain_hash(head + tail) == fnv(chain_hash(head), token_bytes(tail)),
{
    lemma_token_bytes_concat(head, tail);
    lemma_fnv_concat(FNV_OFFSET, token_bytes(head), token_bytes(tail));
}

/// The inverse of the FNV prime modulo the word size.
const FNV_PRIME_INVERSE: u64 = 0xce96_5057_aff6_957b;

/// A hash step never merges two states: mixing the same byte into different
/// states leaves them different.
proof fn lemma_fnv_step_injective(h1: u64, b1: u8, h2: u64, b2: u8)
    ensures
        fnv_step(h1, b1) == fnv_step(h2, b2) ==> h1 ^ (b1 as u64) == h2 ^ (b2 as u64),
        h1 ^ (b1 as u64) == h2 ^ (b1 as u64) ==> h1 == h2,
        h1 ^ (b1 as u64) == h1 ^ (b2 as u64) ==> b1 == b2,
{
    lemma_prime_invertible(h1 ^ (b1 as u64));
    lemma_prime_invertible(h2 ^ (b2 as u64));
    assert(h1 ^ (b1 as u64) == h2 ^ (b1 as u64) ==> h1 == h2) by (bit_vector);
    assert(h1 ^ (b1 as u64) == h1 ^ (b2 as u64) ==> b1 == b2) by (bit_vector);
}

/// Multiplying by the prime is undone by multiplying by its inverse.
proof fn lemma_prime_invertible(x: u64)
    ensures
        (((x * FNV_PRIME) % 0x1_0000_0000_0000_0000) * FNV_PRIME_INVERSE)
            % 0x1_0000_0000_0000_0000 == x,
{
    let m: int = 0x1_0000_0000_0000_0000;
    let p: int = FNV_PRIME as int;
    let q: int = FNV_PRIME_INVERSE as int;
    assert(p * q == 0xce_9650_590f * m + 1);
    vstd::arithmetic::div_mod::lemma_mul_mod_noop_left(x * p, q, m);
    assert((x * p) * q == (0xce_9650_590f * x) * m + x) by (nonlinear_arith)
        requires
            p * q == 0xce_9650_590f * m + 1,
    ;
    vstd::arithmetic::div_mod::lemma_mod_multiples_vanish(0xce_9650_590f * x, x as int, m);
    assert(m * (0xce_9650_590f * x) == (0xce_9650_590f * x) * m) by (nonlinear_arith);
    vstd::arithmetic::div_mod::lemma_small_mod(x as nat, m as nat);
}

/// A checksum detects any change confined to one byte: two byte sequences of
/// the same length that differ in exactly one place have different checksums.
pub proof fn law_checksum_detects_one_changed_byte(a: Seq<u8>, b: Seq<u8>, at: int)
    requires
        a.len() == b.len(),
        0 <= at < a.len(),
        a[at] != b[at],
        forall|i: int| 0 <= i < a.len() && i != at ==> a[i] == b[i],
    ensures
        fnv(FNV_OFFSET, a) != fnv(FNV_OFFSET, b),
    decreases a.len(),
{
    let a0 = a.drop_last();
    let b0 = b.drop_last();
    lemma_fnv_step_injective(fnv(FNV_OFFSET, a0), a.last(), fnv(FNV_OFFSET, b0), b.last());
    if at == a.len() - 1 {
        assert(a0 =~= b0);
    } else {
        law_checksum_detects_one_changed_byte(a0, b0, at);
    }
}

/// Running FNV-1a state over a token sequence.
#[derive(Debug, Clone, Copy, PartialEq, Eq, Hash)]
pub struct ChainHash(u64);

impl View for ChainHash {
    type V = u64;

    closed spec fn view(&self) -> u64 {
        self.0
    }
}

impl Default for ChainHash {
    fn default() -> (r: Self)
        ensures
            r@ == chain_hash(Seq::empty()),
    {
        ChainHash(FNV_OFFSET)
    }
}

impl ChainHash {
    /// The hash of the empty prefix.
    pub fn new() -> (r: Self)
        ensures
            r@ == chain_hash(Seq::empty()),
    {
        ChainHash(FNV_OFFSET)
    }

    /// The hash value.
    pub fn value(self) -> (r: u64)
        ensures
            r == self@,
    {
        self.0
    }

    /// Folds one more token into the running hash.
    pub fn fold(self, token_id: u32) -> (r: Self)
        ensures
            r@ == fnv(self@, le_bytes(token_id as nat, 4)),
    {
        let mut h: u64 = self.0;
        let mut rest: u32 = token_id;
        let mut i: usize = 0;
        let ghost all = le_bytes(token_id as nat, 4);
        proof {
            crate::bytes::lemma_le_bytes_len(token_id as nat, 4);
            assert(all.skip(0) =~= all);
            assert(all.take(0) =~= Seq::<u8>::empty());
        }
        while i < 4
            invariant
                i <= 4,
                all == le_bytes(token_id as nat, 4),
                all.len() == 4,
                all.skip(i as int) == le_bytes(rest as nat, (4 - i) as nat),
                h == fnv(self.0, all.take(i as int)),
            decreases 4 - i,
        {
            let b: u8 = (rest % 256) as u8;
            proof {
                let tail = le_bytes((rest / 256) as nat, (3 - i) as nat);
                assert(all.skip(i as int) == seq![b] + tail);
                assert(all[i as int] == all.skip(i as int)[0]);
                assert(all.skip(i + 1) =~= (seq![b] + tail).drop_first());
                assert(all.skip(i + 1) =~= tail);
                assert(all.take(i + 1).drop_last() =~= all.take(i as int));
                assert(all.take(i + 1).last() == b);
            }
            h = mix(h, b);
            rest = rest / 256;
            i = i + 1;
        }
        proof {
            assert(all.take(4) =~= all);
        }
        ChainHash(h)
    }

    /// Folds a run of tokens into the running hash.
    pub fn fold_all(self, token_ids: &[u32]) -> (r: Self)
        ensures
            r@ == fnv(self@, token_bytes(token_ids@)),
    {
        let mut h: ChainHash = self;
        let mut i: usize = 0;
        proof {
            assert(token_ids@.take(0) =~= Seq::<u32>::empty());
        }
        while i < token_ids.len()
            invariant
                i <= token_ids@.len(),
                h@ == fnv(self@, token_bytes(token_ids@.take(i as int))),
            decreases token_ids@.len() - i,
        {
            proof {
                let next = token_ids@.take(i + 1);
                assert(next.drop_last() =~= token_ids@.take(i as int));
                lemma_fnv_concat(
                    self@,
                    token_bytes(token_ids@.take(i as int)),
                    le_bytes(token_ids@[i as int] as nat, 4),
                );
            }
            h = h.fold(token_ids[i]);
            i = i + 1;
        }
        proof {
            assert(token_ids@.take(i as int) =~= token_ids@);
        }
        h
    }

    /// Hashes a token sequence from scratch.
    pub fn of(token_ids: &[u32]) -> (r: u64)
        ensures
            r == chain_hash(token_ids@),
    {
        ChainHash::new().fold_all(token_ids).value()
    }
}

/// One executable FNV-1a step.
fn mix(h: u64, b: u8) -> (r: u64)
    ensures
        r == fnv_step(h, b),
{
    (h ^ (b as u64)).wrapping_mul(FNV_PRIME)
}

/// FNV-1a over raw bytes.
pub fn checksum_bytes(data: &[u8]) -> (r: u64)
    ensures
        r == fnv(FNV_OFFSET, data@),
{
    let mut h: u64 = FNV_OFFSET;
    let mut i: usize = 0;
    proof {
        assert(data@.take(0) =~= Seq::<u8>::empty());
    }
    while i < data.len()
        invariant
            i <= data@.len(),
            h == fnv(FNV_OFFSET, data@.take(i as int)),
        decreases data@.len() - i,
    {
        proof {
            assert(data@.take(i + 1).drop_last() =~= data@.take(i as int));
        }
        h = mix(h, data[i]);
        i = i + 1;
    }
    proof {
        assert(data@.take(i as int) =~= data@);
    }
    h
}

} // verus!
