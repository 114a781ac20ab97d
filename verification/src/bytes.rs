//! Little-endian words: how unsigned integers of a fixed width are laid out
//! in a byte sequence, and how a run of such words is laid out.

use vstd::prelude::*;

verus! {

/// The `width` low bytes of `x`, least significant first.
pub open spec fn le_bytes(x: nat, width: nat) -> Seq<u8>
    decreases width,
{
    if width == 0 {
        Seq::empty()
    } else {
        seq![(x % 256) as u8] + le_bytes(x / 256, (width - 1) as nat)
    }
}

/// The number a little-endian byte sequence stands for.
pub open spec fn le_value(s: Seq<u8>) -> nat
    decreases s.len(),
{
    if s.len() == 0 {
        0
    } else {
        s[0] as nat + 256 * le_value(s.drop_first())
    }
}

/// The first number that `width` bytes cannot hold.
pub open spec fn le_limit(width: nat) -> nat
    decreases width,
{
    if width == 0 {
        1
    } else {
        256 * le_limit((width - 1) as nat)
    }
}

/// The words of `v`, each on `width` bytes, one after the other.
pub open spec fn words(v: Seq<nat>, width: nat) -> Seq<u8>
    decreases v.len(),
{
    if v.len() == 0 {
        Seq::empty()
    } else {
        le_bytes(v[0], width) + words(v.drop_first(), width)
    }
}

/// A little-endian word has exactly its width in bytes.
pub proof fn lemma_le_bytes_len(x: nat, width: nat)
    ensures
        le_bytes(x, width).len() == width,
    decreases width,
{
    if width > 0 {
        lemma_le_bytes_len(x / 256, (width - 1) as nat);
    }
}

/// Words of one width take that width each.
pub proof fn lemma_words_len(v: Seq<nat>, width: nat)
    ensures
        words(v, width).len() == v.len() * width,
    decreases v.len(),
{
    if v.len() > 0 {
        lemma_le_bytes_len(v[0], width);
        lemma_words_len(v.drop_first(), width);
        assert(v.len() * width == width + (v.len() - 1) * width) by (nonlinear_arith);
    } else {
        assert(0 * width == 0) by (nonlinear_arith);
    }
}

/// Reading a word back gives the number that was written, for every number
/// that fits the width.
pub proof fn lemma_le_value_of_bytes(x: nat, width: nat)
    requires
        x < le_limit(width),
    ensures
        le_value(le_bytes(x, width)) == x,
    decreases width,
{
    lemma_le_bytes_len(x, width);
    if width > 0 {
        let w: nat = (width - 1) as nat;
        lemma_le_value_of_bytes(x / 256, w);
        assert(le_bytes(x, width).drop_first() =~= le_bytes(x / 256, w));
    }
}

/// Writing back what was read gives the same bytes, and what was read fits
/// the width.
pub proof fn lemma_le_bytes_of_value(s: Seq<u8>)
    ensures
        le_bytes(le_value(s), s.len()) == s,
        le_value(s) < le_limit(s.len()),
    decreases s.len(),
{
    if s.len() > 0 {
        let t = s.drop_first();
        lemma_le_bytes_of_value(t);
        assert(le_value(s) % 256 == s[0] as nat);
        assert(le_value(s) / 256 == le_value(t));
        assert(seq![s[0]] + t =~= s);
    }
}

/// The widths in use hold exactly the machine integers of that size.
pub proof fn lemma_le_limits()
    ensures
        le_limit(1) == 0x100,
        le_limit(2) == 0x1_0000,
        le_limit(4) == 0x1_0000_0000,
        le_limit(8) == 0x1_0000_0000_0000_0000,
{
    reveal_with_fuel(le_limit, 9);
}

/// Appending one word to a run appends its bytes.
pub proof fn lemma_words_push(v: Seq<nat>, x: nat, width: nat)
    ensures
        words(v.push(x), width) == words(v, width) + le_bytes(x, width),
    decreases v.len(),
{
    let p = v.push(x);
    if v.len() == 0 {
        assert(p.drop_first() =~= Seq::<nat>::empty());
        assert(words(p.drop_first(), width) =~= Seq::<u8>::empty());
        assert(words(p, width) =~= le_bytes(x, width));
        assert(words(v, width) + le_bytes(x, width) =~= le_bytes(x, width));
    } else {
        lemma_words_push(v.drop_first(), x, width);
        assert(p.drop_first() =~= v.drop_first().push(x));
        assert(words(p, width) =~= words(v, width) + le_bytes(x, width));
    }
}

/// Appends the `width` low bytes of `x`, least significant first.
pub fn push_le(out: &mut Vec<u8>, x: u64, width: usize)
    ensures
        final(out)@ == old(out)@ + le_bytes(x as nat, width as nat),
{
    let mut rest: u64 = x;
    let mut left: usize = width;
    let ghost start = out@;
    while left > 0
        invariant
            left <= width,
            start + le_bytes(x as nat, width as nat) == out@ + le_bytes(
                rest as nat,
                left as nat,
            ),
        decreases left,
    {
        let ghost before = out@;
        out.push((rest % 256) as u8);
        proof {
            let tail = le_bytes((rest / 256) as nat, (left - 1) as nat);
            assert(le_bytes(rest as nat, left as nat) == seq![(rest % 256) as u8] + tail);
            assert(before + (seq![(rest % 256) as u8] + tail) =~= out@ + tail);
        }
        rest = rest / 256;
        left = left - 1;
    }
    proof {
        assert(out@ + le_bytes(rest as nat, 0) =~= out@);
    }
}

/// Reads the number that a little-endian byte slice of at most eight bytes
/// stands for.
pub fn read_le(s: &[u8]) -> (x: u64)
    requires
        s@.len() <= 8,
    ensures
        x as nat == le_value(s@),
{
    let mut i: usize = s.len();
    let mut acc: u64 = 0;
    proof {
        assert(s@.skip(s@.len() as int) =~= Seq::<u8>::empty());
        assert(le_limit(0) == 1);
    }
    while i > 0
        invariant
            i <= s@.len() <= 8,
            acc as nat == le_value(s@.skip(i as int)),
        decreases i,
    {
        proof {
            let tail = s@.skip(i as int);
            let whole = s@.skip(i - 1);
            assert(whole.drop_first() =~= tail);
            assert(whole[0] == s@[i - 1]);
            lemma_le_bytes_of_value(whole);
            lemma_le_limit_mono(whole.len(), 8);
            lemma_le_limits();
        }
        acc = s[i - 1] as u64 + 256 * acc;
        i = i - 1;
    }
    proof {
        assert(s@.skip(0) =~= s@);
    }
    acc
}

/// A wider word holds at least as much.
proof fn lemma_le_limit_mono(a: nat, b: nat)
    requires
        a <= b,
    ensures
        le_limit(a) <= le_limit(b),
        1 <= le_limit(a),
    decreases b,
{
    if a < b {
        lemma_le_limit_mono(a, (b - 1) as nat);
    } else if a > 0 {
        lemma_le_limit_mono((a - 1) as nat, (a - 1) as nat);
    }
}

/// Whether two byte slices hold the same bytes.
pub fn same_bytes(a: &[u8], b: &[u8]) -> (r: bool)
    ensures
        r == (a@ == b@),
{
    if a.len() != b.len() {
        return false;
    }
    let mut i: usize = 0;
    while i < a.len()
        invariant
            i <= a@.len() == b@.len(),
            forall|j: int| 0 <= j < i ==> a@[j] == b@[j],
        decreases a@.len() - i,
    {
        if a[i] != b[i] {
            return false;
        }
        i = i + 1;
    }
    assert(a@ =~= b@);
    true
}

/// Whether two token sequences are the same.
pub fn same_tokens(a: &[u32], b: &[u32]) -> (r: bool)
    ensures
        r == (a@ == b@),
{
    if a.len() != b.len() {
        return false;
    }
    let mut i: usize = 0;
    while i < a.len()
        invariant
            i <= a@.len() == b@.len(),
            forall|j: int| 0 <= j < i ==> a@[j] == b@[j],
        decreases a@.len() - i,
    {
        if a[i] != b[i] {
            return false;
        }
        i = i + 1;
    }
    assert(a@ =~= b@);
    true
}

/// A copy of the token ids from `from` to `to`.
pub fn copy_tokens(ids: &[u32], from: usize, to: usize) -> (r: Vec<u32>)
    requires
        from <= to <= ids@.len(),
    ensures
        r@ == ids@.subrange(from as int, to as int),
{
    let mut out: Vec<u32> = Vec::new();
    let mut i: usize = from;
    while i < to
        invariant
            from <= i <= to <= ids@.len(),
            out@ == ids@.subrange(from as int, i as int),
        decreases to - i,
    {
        out.push(ids[i]);
        i = i + 1;
        proof {
            assert(out@ =~= ids@.subrange(from as int, i as int));
        }
    }
    out
}

} // verus!
