//! Binary form of a [`SnapshotData`]. Every read is bounds-checked and
//! reports [`DecodeError`]: truncated or corrupted bytes degrade to
//! "unreadable", never to a panic.

use super::types::{
    attn_view, attn_views, gdn_view, gdn_views, AttnLayerBytes, AttnModel, GdnLayerBytes, GdnModel,
    SnapshotData, SnapshotModel,
};
use crate::bytes::{
    le_bytes, le_limit, le_value, lemma_le_bytes_len, lemma_le_bytes_of_value, lemma_le_limits,
    lemma_le_value_of_bytes, lemma_words_len, lemma_words_push, push_le, read_le, words,
};
use vstd::prelude::*;
use vstd::slice::slice_subrange;

verus! {

// ---------------------------------------------------------------------------
// The format.
// ---------------------------------------------------------------------------

/// The byte a signed code is stored as.
pub open spec fn code_byte(x: i8) -> nat {
    if x < 0 {
        (x + 256) as nat
    } else {
        x as nat
    }
}

pub open spec fn nats_u32(s: Seq<u32>) -> Seq<nat> {
    s.map_values(|x: u32| x as nat)
}

pub open spec fn nats_u16(s: Seq<u16>) -> Seq<nat> {
    s.map_values(|x: u16| x as nat)
}

pub open spec fn nats_u8(s: Seq<u8>) -> Seq<nat> {
    s.map_values(|x: u8| x as nat)
}

pub open spec fn nats_i8(s: Seq<i8>) -> Seq<nat> {
    s.map_values(|x: i8| code_byte(x))
}

/// A run of words: an eight-byte count, then the words.
pub open spec fn enc_run(v: Seq<nat>, width: nat) -> Seq<u8> {
    le_bytes(v.len(), 8) + words(v, width)
}

pub open spec fn enc_u32s(s: Seq<u32>) -> Seq<u8> {
    enc_run(nats_u32(s), 4)
}

pub open spec fn enc_u16s(s: Seq<u16>) -> Seq<u8> {
    enc_run(nats_u16(s), 2)
}

pub open spec fn enc_u8s(s: Seq<u8>) -> Seq<u8> {
    enc_run(nats_u8(s), 1)
}

pub open spec fn enc_i8s(s: Seq<i8>) -> Seq<u8> {
    enc_run(nats_i8(s), 1)
}

/// A linear-attention layer: a tag, then the two state vectors.
pub open spec fn enc_gdn(layer: Option<GdnModel>) -> Seq<u8> {
    match layer {
        None => seq![0u8],
        Some(g) => seq![1u8] + (enc_u32s(g.conv_state) + enc_u32s(g.state)),
    }
}

/// A full-attention layer: a tag for the storage, then its vectors.
pub open spec fn enc_attn(layer: Option<AttnModel>) -> Seq<u8> {
    match layer {
        None => seq![0u8],
        Some(AttnModel::DenseF16 { k, v }) => seq![1u8] + (enc_u16s(k) + enc_u16s(v)),
        Some(AttnModel::DenseF32 { k, v }) => seq![2u8] + (enc_u32s(k) + enc_u32s(v)),
        Some(
            AttnModel::Mixed {
                sink_k,
                sink_v,
                window_k,
                window_v,
                bulk_k_codes,
                bulk_k_scales,
                bulk_v_codes,
                bulk_v_scales,
                window_base,
                v_bits,
            },
        ) => seq![3u8] + (enc_u16s(sink_k) + (enc_u16s(sink_v) + (enc_u16s(window_k) + (enc_u16s(
            window_v,
        ) + (enc_i8s(bulk_k_codes) + (enc_u32s(bulk_k_scales) + (enc_u8s(bulk_v_codes) + (enc_u32s(
            bulk_v_scales,
        ) + (le_bytes(window_base as nat, 4) + le_bytes(v_bits as nat, 1)))))))))),
    }
}

pub open spec fn enc_gdns(layers: Seq<Option<GdnModel>>) -> Seq<u8>
    decreases layers.len(),
{
    if layers.len() == 0 {
        Seq::empty()
    } else {
        enc_gdn(layers[0]) + enc_gdns(layers.drop_first())
    }
}

pub open spec fn enc_attns(layers: Seq<Option<AttnModel>>) -> Seq<u8>
    decreases layers.len(),
{
    if layers.len() == 0 {
        Seq::empty()
    } else {
        enc_attn(layers[0]) + enc_attns(layers.drop_first())
    }
}

/// The bytes of a snapshot: position, token ids, the linear-attention layers
/// and the full-attention layers, each list behind its count.
pub open spec fn encoded(d: SnapshotModel) -> Seq<u8> {
    le_bytes(d.position as nat, 4) + (enc_u32s(d.token_ids) + (le_bytes(d.gdn.len(), 8) + (enc_gdns(
        d.gdn,
    ) + (le_bytes(d.attn.len(), 8) + enc_attns(d.attn)))))
}

/// A length that an eight-byte count can hold.
pub open spec fn countable(n: nat) -> bool {
    n <= u64::MAX
}

pub open spec fn gdn_countable(layer: Option<GdnModel>) -> bool {
    match layer {
        None => true,
        Some(g) => countable(g.conv_state.len()) && countable(g.state.len()),
    }
}

pub open spec fn attn_countable(layer: Option<AttnModel>) -> bool {
    match layer {
        None => true,
        Some(AttnModel::DenseF16 { k, v }) => countable(k.len()) && countable(v.len()),
        Some(AttnModel::DenseF32 { k, v }) => countable(k.len()) && countable(v.len()),
        Some(
            AttnModel::Mixed {
                sink_k,
                sink_v,
                window_k,
                window_v,
                bulk_k_codes,
                bulk_k_scales,
                bulk_v_codes,
                bulk_v_scales,
                ..
            },
        ) => countable(sink_k.len()) && countable(sink_v.len()) && countable(window_k.len())
            && countable(window_v.len()) && countable(bulk_k_codes.len()) && countable(
            bulk_k_scales.len(),
        ) && countable(bulk_v_codes.len()) && countable(bulk_v_scales.len()),
    }
}

impl SnapshotModel {
    /// Every length fits its eight-byte count.
    pub open spec fn encodable(self) -> bool {
        &&& countable(self.token_ids.len())
        &&& countable(self.gdn.len())
        &&& countable(self.attn.len())
        &&& forall|i: int| 0 <= i < self.gdn.len() ==> gdn_countable(#[trigger] self.gdn[i])
        &&& forall|i: int| 0 <= i < self.attn.len() ==> attn_countable(#[trigger] self.attn[i])
    }
}

/// `bytes` starts with the encoding of `d`. What follows it is ignored.
pub open spec fn decodes_to(bytes: Seq<u8>, d: SnapshotModel) -> bool {
    d.encodable() && encoded(d).is_prefix_of(bytes)
}

// ---------------------------------------------------------------------------
// Reading, as a function on byte sequences: the value and what is left.
// ---------------------------------------------------------------------------

/// The next little-endian word.
pub open spec fn parse_uint(s: Seq<u8>, width: nat) -> Option<(nat, Seq<u8>)> {
    if s.len() < width {
        None
    } else {
        Some((le_value(s.take(width as int)), s.skip(width as int)))
    }
}

/// The next `n` words.
pub open spec fn parse_words(s: Seq<u8>, n: nat, width: nat) -> Option<(Seq<nat>, Seq<u8>)>
    decreases n,
{
    if n == 0 {
        Some((Seq::empty(), s))
    } else {
        match parse_uint(s, width) {
            None => None,
            Some((x, r)) => match parse_words(r, (n - 1) as nat, width) {
                None => None,
                Some((v, r2)) => Some((seq![x] + v, r2)),
            },
        }
    }
}

/// A count and that many words.
pub open spec fn parse_run(s: Seq<u8>, width: nat) -> Option<(Seq<nat>, Seq<u8>)> {
    match parse_uint(s, 8) {
        None => None,
        Some((n, r)) => parse_words(r, n, width),
    }
}

spec fn byte_code(x: nat) -> i8 {
    if x >= 128 {
        (x - 256) as i8
    } else {
        x as i8
    }
}

/// A list of four-byte words.
pub open spec fn parse_u32s(s: Seq<u8>) -> Option<(Seq<u32>, Seq<u8>)> {
    match parse_run(s, 4) {
        None => None,
        Some((v, r)) => Some((v.map_values(|x: nat| x as u32), r)),
    }
}

spec fn parse_u16s(s: Seq<u8>) -> Option<(Seq<u16>, Seq<u8>)> {
    match parse_run(s, 2) {
        None => None,
        Some((v, r)) => Some((v.map_values(|x: nat| x as u16), r)),
    }
}

spec fn parse_u8s(s: Seq<u8>) -> Option<(Seq<u8>, Seq<u8>)> {
    match parse_run(s, 1) {
        None => None,
        Some((v, r)) => Some((v.map_values(|x: nat| x as u8), r)),
    }
}

spec fn parse_i8s(s: Seq<u8>) -> Option<(Seq<i8>, Seq<u8>)> {
    match parse_run(s, 1) {
        None => None,
        Some((v, r)) => Some((v.map_values(|x: nat| byte_code(x)), r)),
    }
}

spec fn parse_gdn(s: Seq<u8>) -> Option<(Option<GdnModel>, Seq<u8>)> {
    if s.len() == 0 {
        None
    } else if s[0] == 0 {
        Some((None, s.skip(1)))
    } else if s[0] == 1 {
        match parse_u32s(s.skip(1)) {
            None => None,
            Some((conv_state, r)) => match parse_u32s(r) {
                None => None,
                Some((state, r2)) => Some((Some(GdnModel { conv_state, state }), r2)),
            },
        }
    } else {
        None
    }
}

spec fn parse_dense16(s: Seq<u8>) -> Option<(Option<AttnModel>, Seq<u8>)> {
    match parse_u16s(s) {
        None => None,
        Some((k, r)) => match parse_u16s(r) {
            None => None,
            Some((v, r2)) => Some((Some(AttnModel::DenseF16 { k, v }), r2)),
        },
    }
}

spec fn parse_dense32(s: Seq<u8>) -> Option<(Option<AttnModel>, Seq<u8>)> {
    match parse_u32s(s) {
        None => None,
        Some((k, r)) => match parse_u32s(r) {
            None => None,
            Some((v, r2)) => Some((Some(AttnModel::DenseF32 { k, v }), r2)),
        },
    }
}

/// The half-precision part of a mixed layer.
spec fn parse_halves(s: Seq<u8>) -> Option<((Seq<u16>, Seq<u16>, Seq<u16>, Seq<u16>), Seq<u8>)> {
    match parse_u16s(s) {
        None => None,
        Some((a, r1)) => match parse_u16s(r1) {
            None => None,
            Some((b, r2)) => match parse_u16s(r2) {
                None => None,
                Some((c, r3)) => match parse_u16s(r3) {
                    None => None,
                    Some((d, r4)) => Some(((a, b, c, d), r4)),
                },
            },
        },
    }
}

/// The quantized part of a mixed layer.
spec fn parse_bulk(s: Seq<u8>) -> Option<((Seq<i8>, Seq<u32>, Seq<u8>, Seq<u32>), Seq<u8>)> {
    match parse_i8s(s) {
        None => None,
        Some((a, r1)) => match parse_u32s(r1) {
            None => None,
            Some((b, r2)) => match parse_u8s(r2) {
                None => None,
                Some((c, r3)) => match parse_u32s(r3) {
                    None => None,
                    Some((d, r4)) => Some(((a, b, c, d), r4)),
                },
            },
        },
    }
}

spec fn parse_mixed(s: Seq<u8>) -> Option<(Option<AttnModel>, Seq<u8>)> {
    match parse_halves(s) {
        None => None,
        Some((h, r1)) => match parse_bulk(r1) {
            None => None,
            Some((b, r2)) => match parse_uint(r2, 4) {
                None => None,
                Some((window_base, r3)) => match parse_uint(r3, 1) {
                    None => None,
                    Some((v_bits, r4)) => Some(
                        (
                            Some(
                                AttnModel::Mixed {
                                    sink_k: h.0,
                                    sink_v: h.1,
                                    window_k: h.2,
                                    window_v: h.3,
                                    bulk_k_codes: b.0,
                                    bulk_k_scales: b.1,
                                    bulk_v_codes: b.2,
                                    bulk_v_scales: b.3,
                                    window_base: window_base as u32,
                                    v_bits: v_bits as u8,
                                },
                            ),
                            r4,
                        ),
                    ),
                },
            },
        },
    }
}

spec fn parse_attn(s: Seq<u8>) -> Option<(Option<AttnModel>, Seq<u8>)> {
    if s.len() == 0 {
        None
    } else if s[0] == 0 {
        Some((None, s.skip(1)))
    } else if s[0] == 1 {
        parse_dense16(s.skip(1))
    } else if s[0] == 2 {
        parse_dense32(s.skip(1))
    } else if s[0] == 3 {
        parse_mixed(s.skip(1))
    } else {
        None
    }
}

spec fn parse_gdns(s: Seq<u8>, n: nat) -> Option<(Seq<Option<GdnModel>>, Seq<u8>)>
    decreases n,
{
    if n == 0 {
        Some((Seq::empty(), s))
    } else {
        match parse_gdn(s) {
            None => None,
            Some((x, r)) => match parse_gdns(r, (n - 1) as nat) {
                None => None,
                Some((v, r2)) => Some((seq![x] + v, r2)),
            },
        }
    }
}

spec fn parse_attns(s: Seq<u8>, n: nat) -> Option<(Seq<Option<AttnModel>>, Seq<u8>)>
    decreases n,
{
    if n == 0 {
        Some((Seq::empty(), s))
    } else {
        match parse_attn(s) {
            None => None,
            Some((x, r)) => match parse_attns(r, (n - 1) as nat) {
                None => None,
                Some((v, r2)) => Some((seq![x] + v, r2)),
            },
        }
    }
}

spec fn parse_snapshot(s: Seq<u8>) -> Option<(SnapshotModel, Seq<u8>)> {
    match parse_uint(s, 4) {
        None => None,
        Some((position, r1)) => match parse_u32s(r1) {
            None => None,
            Some((token_ids, r2)) => match parse_uint(r2, 8) {
                None => None,
                Some((gn, r3)) => match parse_gdns(r3, gn) {
                    None => None,
                    Some((gdn, r4)) => match parse_uint(r4, 8) {
                        None => None,
                        Some((an, r5)) => match parse_attns(r5, an) {
                            None => None,
                            Some((attn, r6)) => Some(
                                (
                                    SnapshotModel {
                                        position: position as u32,
                                        token_ids,
                                        gdn,
                                        attn,
                                    },
                                    r6,
                                ),
                            ),
                        },
                    },
                },
            },
        },
    }
}

// ---------------------------------------------------------------------------
// Reading undoes writing, and writing undoes reading.
// ---------------------------------------------------------------------------

/// Concatenation can be bracketed either way.
proof fn lemma_assoc(a: Seq<u8>, b: Seq<u8>, c: Seq<u8>)
    ensures
        (a + b) + c == a + (b + c),
{
    assert((a + b) + c =~= a + (b + c));
}

proof fn lemma_uint_back(x: nat, width: nat, rest: Seq<u8>)
    requires
        x < le_limit(width),
    ensures
        parse_uint(le_bytes(x, width) + rest, width) == Some((x, rest)),
{
    lemma_le_bytes_len(x, width);
    lemma_le_value_of_bytes(x, width);
    let s = le_bytes(x, width) + rest;
    assert(s.take(width as int) =~= le_bytes(x, width));
    assert(s.skip(width as int) =~= rest);
}

proof fn lemma_uint_forth(s: Seq<u8>, width: nat)
    ensures
        match parse_uint(s, width) {
            None => true,
            Some((x, r)) => x < le_limit(width) && s == le_bytes(x, width) + r && r.len() + width
                == s.len(),
        },
{
    if s.len() >= width {
        lemma_le_bytes_of_value(s.take(width as int));
        assert(s =~= s.take(width as int) + s.skip(width as int));
    }
}

proof fn lemma_words_back(v: Seq<nat>, width: nat, rest: Seq<u8>)
    requires
        forall|i: int| 0 <= i < v.len() ==> #[trigger] v[i] < le_limit(width),
    ensures
        parse_words(words(v, width) + rest, v.len(), width) == Some((v, rest)),
    decreases v.len(),
{
    if v.len() == 0 {
        assert(words(v, width) + rest =~= rest);
        assert(v =~= Seq::empty());
    } else {
        let t = v.drop_first();
        assert forall|i: int| 0 <= i < t.len() implies #[trigger] t[i] < le_limit(width) by {
            assert(t[i] == v[i + 1]);
        }
        lemma_words_back(t, width, rest);
        assert(v[0] < le_limit(width));
        lemma_uint_back(v[0], width, words(t, width) + rest);
        assert(words(v, width) + rest =~= le_bytes(v[0], width) + (words(t, width) + rest));
        assert(seq![v[0]] + t =~= v);
    }
}

proof fn lemma_words_forth(s: Seq<u8>, n: nat, width: nat)
    ensures
        match parse_words(s, n, width) {
            None => true,
            Some((v, r)) => v.len() == n && s == words(v, width) + r && r.len() + n * width
                == s.len() && forall|i: int|
                0 <= i < n ==> #[trigger] v[i] < le_limit(width),
        },
    decreases n,
{
    if n == 0 {
        assert(words(Seq::empty(), width) + s =~= s);
        assert(n * width == 0) by (nonlinear_arith)
            requires
                n == 0,
        ;
    } else {
        lemma_uint_forth(s, width);
        match parse_uint(s, width) {
            None => {},
            Some((x, r)) => {
                lemma_words_forth(r, (n - 1) as nat, width);
                match parse_words(r, (n - 1) as nat, width) {
                    None => {},
                    Some((v, r2)) => {
                        let w = seq![x] + v;
                        assert(w.drop_first() =~= v);
                        assert(words(w, width) + r2 =~= le_bytes(x, width) + (words(v, width)
                            + r2));
                        assert(n * width == width + (n - 1) * width) by (nonlinear_arith);
                        assert forall|i: int| 0 <= i < n implies #[trigger] w[i] < le_limit(
                            width,
                        ) by {
                            if i > 0 {
                                assert(w[i] == v[i - 1]);
                            }
                        }
                    },
                }
            },
        }
    }
}

proof fn lemma_run_back(v: Seq<nat>, width: nat, rest: Seq<u8>)
    requires
        countable(v.len()),
        forall|i: int| 0 <= i < v.len() ==> #[trigger] v[i] < le_limit(width),
    ensures
        parse_run(enc_run(v, width) + rest, width) == Some((v, rest)),
{
    lemma_le_limits();
    lemma_uint_back(v.len(), 8, words(v, width) + rest);
    assert(enc_run(v, width) + rest =~= le_bytes(v.len(), 8) + (words(v, width) + rest));
    lemma_words_back(v, width, rest);
}

proof fn lemma_run_forth(s: Seq<u8>, width: nat)
    ensures
        match parse_run(s, width) {
            None => true,
            Some((v, r)) => countable(v.len()) && s == enc_run(v, width) + r && forall|i: int|
                0 <= i < v.len() ==> #[trigger] v[i] < le_limit(width),
        },
{
    lemma_le_limits();
    lemma_uint_forth(s, 8);
    match parse_uint(s, 8) {
        None => {},
        Some((n, r)) => {
            lemma_words_forth(r, n, width);
            match parse_words(r, n, width) {
                None => {},
                Some((v, r2)) => {
                    assert(enc_run(v, width) + r2 =~= le_bytes(n, 8) + (words(v, width) + r2));
                },
            }
        },
    }
}

proof fn lemma_u32s_back(v: Seq<u32>, rest: Seq<u8>)
    requires
        countable(v.len()),
    ensures
        parse_u32s(enc_u32s(v) + rest) == Some((v, rest)),
{
    lemma_le_limits();
    lemma_run_back(nats_u32(v), 4, rest);
    assert(nats_u32(v).map_values(|x: nat| x as u32) =~= v);
}

proof fn lemma_u32s_forth(s: Seq<u8>)
    ensures
        match parse_u32s(s) {
            None => true,
            Some((v, r)) => countable(v.len()) && s == enc_u32s(v) + r,
        },
{
    lemma_le_limits();
    lemma_run_forth(s, 4);
    match parse_run(s, 4) {
        None => {},
        Some((v, r)) => {
            assert(nats_u32(v.map_values(|x: nat| x as u32)) =~= v);
        },
    }
}

/// A count of eight bytes, and four bytes for each word.
proof fn lemma_u32s_len(v: Seq<u32>)
    ensures
        enc_u32s(v).len() == 8 + 4 * v.len(),
{
    lemma_le_bytes_len(v.len(), 8);
    lemma_words_len(nats_u32(v), 4);
}

proof fn lemma_u16s_back(v: Seq<u16>, rest: Seq<u8>)
    requires
        countable(v.len()),
    ensures
        parse_u16s(enc_u16s(v) + rest) == Some((v, rest)),
{
    lemma_le_limits();
    lemma_run_back(nats_u16(v), 2, rest);
    assert(nats_u16(v).map_values(|x: nat| x as u16) =~= v);
}

proof fn lemma_u16s_forth(s: Seq<u8>)
    ensures
        match parse_u16s(s) {
            None => true,
            Some((v, r)) => countable(v.len()) && s == enc_u16s(v) + r,
        },
{
    lemma_le_limits();
    lemma_run_forth(s, 2);
    match parse_run(s, 2) {
        None => {},
        Some((v, r)) => {
            assert(nats_u16(v.map_values(|x: nat| x as u16)) =~= v);
        },
    }
}

proof fn lemma_u8s_back(v: Seq<u8>, rest: Seq<u8>)
    requires
        countable(v.len()),
    ensures
        parse_u8s(enc_u8s(v) + rest) == Some((v, rest)),
{
    lemma_le_limits();
    lemma_run_back(nats_u8(v), 1, rest);
    assert(nats_u8(v).map_values(|x: nat| x as u8) =~= v);
}

proof fn lemma_u8s_forth(s: Seq<u8>)
    ensures
        match parse_u8s(s) {
            None => true,
            Some((v, r)) => countable(v.len()) && s == enc_u8s(v) + r,
        },
{
    lemma_le_limits();
    lemma_run_forth(s, 1);
    match parse_run(s, 1) {
        None => {},
        Some((v, r)) => {
            assert(nats_u8(v.map_values(|x: nat| x as u8)) =~= v);
        },
    }
}

proof fn lemma_i8s_back(v: Seq<i8>, rest: Seq<u8>)
    requires
        countable(v.len()),
    ensures
        parse_i8s(enc_i8s(v) + rest) == Some((v, rest)),
{
    lemma_le_limits();
    lemma_run_back(nats_i8(v), 1, rest);
    assert(nats_i8(v).map_values(|x: nat| byte_code(x)) =~= v);
}

proof fn lemma_i8s_forth(s: Seq<u8>)
    ensures
        match parse_i8s(s) {
            None => true,
            Some((v, r)) => countable(v.len()) && s == enc_i8s(v) + r,
        },
{
    lemma_le_limits();
    lemma_run_forth(s, 1);
    match parse_run(s, 1) {
        None => {},
        Some((v, r)) => {
            assert(nats_i8(v.map_values(|x: nat| byte_code(x))) =~= v);
        },
    }
}

proof fn lemma_gdn_back(layer: Option<GdnModel>, rest: Seq<u8>)
    requires
        gdn_countable(layer),
    ensures
        parse_gdn(enc_gdn(layer) + rest) == Some((layer, rest)),
{
    let s = enc_gdn(layer) + rest;
    match layer {
        None => {
            assert(s.skip(1) =~= rest);
        },
        Some(g) => {
            let tail = enc_u32s(g.state) + rest;
            lemma_u32s_back(g.conv_state, tail);
            lemma_u32s_back(g.state, rest);
            assert(s.skip(1) =~= enc_u32s(g.conv_state) + tail);
        },
    }
}

proof fn lemma_gdn_forth(s: Seq<u8>)
    ensures
        match parse_gdn(s) {
            None => true,
            Some((layer, r)) => gdn_countable(layer) && s == enc_gdn(layer) + r && r.len()
                < s.len(),
        },
{
    if s.len() > 0 {
        let b = s.skip(1);
        lemma_u32s_forth(b);
        if let Some((conv_state, r)) = parse_u32s(b) {
            lemma_u32s_forth(r);
        }
        match parse_gdn(s) {
            None => {},
            Some((layer, r)) => {
                assert(s =~= seq![s[0]] + b);
                assert(s =~= enc_gdn(layer) + r);
            },
        }
    }
}

proof fn lemma_attn_back(layer: Option<AttnModel>, rest: Seq<u8>)
    requires
        attn_countable(layer),
    ensures
        parse_attn(enc_attn(layer) + rest) == Some((layer, rest)),
{
    let s = enc_attn(layer) + rest;
    match layer {
        None => {
            assert(s.skip(1) =~= rest);
        },
        Some(AttnModel::DenseF16 { k, v }) => {
            lemma_u16s_back(k, enc_u16s(v) + rest);
            lemma_u16s_back(v, rest);
            assert(s.skip(1) =~= enc_u16s(k) + (enc_u16s(v) + rest));
        },
        Some(AttnModel::DenseF32 { k, v }) => {
            lemma_u32s_back(k, enc_u32s(v) + rest);
            lemma_u32s_back(v, rest);
            assert(s.skip(1) =~= enc_u32s(k) + (enc_u32s(v) + rest));
        },
        Some(
            AttnModel::Mixed {
                sink_k,
                sink_v,
                window_k,
                window_v,
                bulk_k_codes,
                bulk_k_scales,
                bulk_v_codes,
                bulk_v_scales,
                window_base,
                v_bits,
            },
        ) => {
            lemma_le_limits();
            let t10 = le_bytes(v_bits as nat, 1) + rest;
            let t9 = le_bytes(window_base as nat, 4) + t10;
            let t8 = enc_u32s(bulk_v_scales) + t9;
            let t7 = enc_u8s(bulk_v_codes) + t8;
            let t6 = enc_u32s(bulk_k_scales) + t7;
            let t5 = enc_i8s(bulk_k_codes) + t6;
            let t4 = enc_u16s(window_v) + t5;
            let t3 = enc_u16s(window_k) + t4;
            let t2 = enc_u16s(sink_v) + t3;
            let t1 = enc_u16s(sink_k) + t2;
            lemma_u16s_back(sink_k, t2);
            lemma_u16s_back(sink_v, t3);
            lemma_u16s_back(window_k, t4);
            lemma_u16s_back(window_v, t5);
            lemma_i8s_back(bulk_k_codes, t6);
            lemma_u32s_back(bulk_k_scales, t7);
            lemma_u8s_back(bulk_v_codes, t8);
            lemma_u32s_back(bulk_v_scales, t9);
            lemma_uint_back(window_base as nat, 4, t10);
            lemma_uint_back(v_bits as nat, 1, rest);
            let e9 = le_bytes(window_base as nat, 4);
            let e10 = le_bytes(v_bits as nat, 1);
            let u9 = e9 + e10;
            let u8_ = enc_u32s(bulk_v_scales) + u9;
            let u7 = enc_u8s(bulk_v_codes) + u8_;
            let u6 = enc_u32s(bulk_k_scales) + u7;
            let u5 = enc_i8s(bulk_k_codes) + u6;
            let u4 = enc_u16s(window_v) + u5;
            let u3 = enc_u16s(window_k) + u4;
            let u2 = enc_u16s(sink_v) + u3;
            let u1 = enc_u16s(sink_k) + u2;
            lemma_assoc(e9, e10, rest);
            lemma_assoc(enc_u32s(bulk_v_scales), u9, rest);
            lemma_assoc(enc_u8s(bulk_v_codes), u8_, rest);
            lemma_assoc(enc_u32s(bulk_k_scales), u7, rest);
            lemma_assoc(enc_i8s(bulk_k_codes), u6, rest);
            lemma_assoc(enc_u16s(window_v), u5, rest);
            lemma_assoc(enc_u16s(window_k), u4, rest);
            lemma_assoc(enc_u16s(sink_v), u3, rest);
            lemma_assoc(enc_u16s(sink_k), u2, rest);
            assert(u1 + rest == t1);
            lemma_assoc(seq![3u8], u1, rest);
            assert(s == seq![3u8] + t1);
            assert(s[0] == 3u8);
            assert(s.skip(1) =~= t1);
        },
    }
}

proof fn lemma_halves_forth(s: Seq<u8>)
    ensures
        match parse_halves(s) {
            None => true,
            Some((h, r)) => countable(h.0.len()) && countable(h.1.len()) && countable(h.2.len())
                && countable(h.3.len()) && s == enc_u16s(h.0) + (enc_u16s(h.1) + (enc_u16s(h.2) + (
            enc_u16s(h.3) + r))),
        },
{
    lemma_u16s_forth(s);
    if let Some((a, r1)) = parse_u16s(s) {
        lemma_u16s_forth(r1);
        if let Some((b, r2)) = parse_u16s(r1) {
            lemma_u16s_forth(r2);
            if let Some((c, r3)) = parse_u16s(r2) {
                lemma_u16s_forth(r3);
            }
        }
    }
}

proof fn lemma_bulk_forth(s: Seq<u8>)
    ensures
        match parse_bulk(s) {
            None => true,
            Some((b, r)) => countable(b.0.len()) && countable(b.1.len()) && countable(b.2.len())
                && countable(b.3.len()) && s == enc_i8s(b.0) + (enc_u32s(b.1) + (enc_u8s(b.2) + (
            enc_u32s(b.3) + r))),
        },
{
    lemma_i8s_forth(s);
    if let Some((a, r1)) = parse_i8s(s) {
        lemma_u32s_forth(r1);
        if let Some((b, r2)) = parse_u32s(r1) {
            lemma_u8s_forth(r2);
            if let Some((c, r3)) = parse_u8s(r2) {
                lemma_u32s_forth(r3);
            }
        }
    }
}

proof fn lemma_mixed_forth(s: Seq<u8>)
    ensures
        match parse_mixed(s) {
            None => true,
            Some((layer, r)) => layer is Some && layer->0 is Mixed && attn_countable(layer)
                && seq![3u8] + s == enc_attn(layer) + r,
        },
{
    lemma_le_limits();
    lemma_halves_forth(s);
    if let Some((h, r1)) = parse_halves(s) {
        lemma_bulk_forth(r1);
        if let Some((b, r2)) = parse_bulk(r1) {
            lemma_uint_forth(r2, 4);
            if let Some((window_base, r3)) = parse_uint(r2, 4) {
                lemma_uint_forth(r3, 1);
                if let Some((v_bits, r4)) = parse_uint(r3, 1) {
                    let t9 = le_bytes(window_base, 4) + (le_bytes(v_bits, 1) + r4);
                    let layer = parse_mixed(s).unwrap().0;
                    let u10 = le_bytes(window_base, 4) + le_bytes(v_bits, 1);
                    let u8_ = enc_u32s(b.3) + u10;
                    let u7 = enc_u8s(b.2) + u8_;
                    let u6 = enc_u32s(b.1) + u7;
                    let u5 = enc_i8s(b.0) + u6;
                    let u4 = enc_u16s(h.3) + u5;
                    let u3 = enc_u16s(h.2) + u4;
                    let u2 = enc_u16s(h.1) + u3;
                    let u1 = enc_u16s(h.0) + u2;
                    assert(enc_attn(layer) == seq![3u8] + u1);
                    lemma_assoc(le_bytes(window_base, 4), le_bytes(v_bits, 1), r4);
                    lemma_assoc(enc_u32s(b.3), u10, r4);
                    lemma_assoc(enc_u8s(b.2), u8_, r4);
                    lemma_assoc(enc_u32s(b.1), u7, r4);
                    lemma_assoc(enc_i8s(b.0), u6, r4);
                    lemma_assoc(enc_u16s(h.3), u5, r4);
                    lemma_assoc(enc_u16s(h.2), u4, r4);
                    lemma_assoc(enc_u16s(h.1), u3, r4);
                    lemma_assoc(enc_u16s(h.0), u2, r4);
                    lemma_assoc(seq![3u8], u1, r4);
                }
            }
        }
    }
}

proof fn lemma_attn_forth(s: Seq<u8>)
    ensures
        match parse_attn(s) {
            None => true,
            Some((layer, r)) => attn_countable(layer) && s == enc_attn(layer) + r && r.len()
                < s.len(),
        },
{
    if s.len() > 0 {
        let b = s.skip(1);
        assert(s =~= seq![s[0]] + b);
        if s[0] == 0 {
        } else if s[0] == 1 {
            lemma_u16s_forth(b);
            if let Some((k, r)) = parse_u16s(b) {
                lemma_u16s_forth(r);
            }
            match parse_attn(s) {
                None => {},
                Some((layer, r)) => {
                    assert(s =~= enc_attn(layer) + r);
                },
            }
        } else if s[0] == 2 {
            lemma_u32s_forth(b);
            if let Some((k, r)) = parse_u32s(b) {
                lemma_u32s_forth(r);
            }
            match parse_attn(s) {
                None => {},
                Some((layer, r)) => {
                    assert(s =~= enc_attn(layer) + r);
                },
            }
        } else if s[0] == 3 {
            lemma_mixed_forth(b);
        }
    }
}

proof fn lemma_gdns_back(layers: Seq<Option<GdnModel>>, rest: Seq<u8>)
    requires
        forall|i: int| 0 <= i < layers.len() ==> gdn_countable(#[trigger] layers[i]),
    ensures
        parse_gdns(enc_gdns(layers) + rest, layers.len()) == Some((layers, rest)),
    decreases layers.len(),
{
    if layers.len() == 0 {
        assert(enc_gdns(layers) + rest =~= rest);
        assert(layers =~= Seq::empty());
    } else {
        let t = layers.drop_first();
        assert forall|i: int| 0 <= i < t.len() implies gdn_countable(#[trigger] t[i]) by {
            assert(t[i] == layers[i + 1]);
        }
        lemma_gdns_back(t, rest);
        lemma_gdn_back(layers[0], enc_gdns(t) + rest);
        assert(enc_gdns(layers) + rest =~= enc_gdn(layers[0]) + (enc_gdns(t) + rest));
        assert(seq![layers[0]] + t =~= layers);
    }
}

proof fn lemma_gdns_forth(s: Seq<u8>, n: nat)
    ensures
        match parse_gdns(s, n) {
            None => true,
            Some((v, r)) => v.len() == n && s == enc_gdns(v) + r && r.len() + n <= s.len()
                && forall|i: int| 0 <= i < n ==> gdn_countable(#[trigger] v[i]),
        },
    decreases n,
{
    if n == 0 {
        assert(enc_gdns(Seq::empty()) + s =~= s);
    } else {
        lemma_gdn_forth(s);
        match parse_gdn(s) {
            None => {},
            Some((x, r)) => {
                lemma_gdns_forth(r, (n - 1) as nat);
                match parse_gdns(r, (n - 1) as nat) {
                    None => {},
                    Some((v, r2)) => {
                        let w = seq![x] + v;
                        assert(w.drop_first() =~= v);
                        assert(enc_gdns(w) + r2 =~= enc_gdn(x) + (enc_gdns(v) + r2));
                        assert forall|i: int| 0 <= i < n implies gdn_countable(#[trigger] w[i]) by {
                            if i > 0 {
                                assert(w[i] == v[i - 1]);
                            }
                        }
                    },
                }
            },
        }
    }
}

proof fn lemma_attns_back(layers: Seq<Option<AttnModel>>, rest: Seq<u8>)
    requires
        forall|i: int| 0 <= i < layers.len() ==> attn_countable(#[trigger] layers[i]),
    ensures
        parse_attns(enc_attns(layers) + rest, layers.len()) == Some((layers, rest)),
    decreases layers.len(),
{
    if layers.len() == 0 {
        assert(enc_attns(layers) + rest =~= rest);
        assert(layers =~= Seq::empty());
    } else {
        let t = layers.drop_first();
        assert forall|i: int| 0 <= i < t.len() implies attn_countable(#[trigger] t[i]) by {
            assert(t[i] == layers[i + 1]);
        }
        lemma_attns_back(t, rest);
        lemma_attn_back(layers[0], enc_attns(t) + rest);
        assert(enc_attns(layers) + rest =~= enc_attn(layers[0]) + (enc_attns(t) + rest));
        assert(seq![layers[0]] + t =~= layers);
    }
}

proof fn lemma_attns_forth(s: Seq<u8>, n: nat)
    ensures
        match parse_attns(s, n) {
            None => true,
            Some((v, r)) => v.len() == n && s == enc_attns(v) + r && r.len() + n <= s.len()
                && forall|i: int| 0 <= i < n ==> attn_countable(#[trigger] v[i]),
        },
    decreases n,
{
    if n == 0 {
        assert(enc_attns(Seq::empty()) + s =~= s);
    } else {
        lemma_attn_forth(s);
        match parse_attn(s) {
            None => {},
            Some((x, r)) => {
                lemma_attns_forth(r, (n - 1) as nat);
                match parse_attns(r, (n - 1) as nat) {
                    None => {},
                    Some((v, r2)) => {
                        let w = seq![x] + v;
                        assert(w.drop_first() =~= v);
                        assert(enc_attns(w) + r2 =~= enc_attn(x) + (enc_attns(v) + r2));
                        assert forall|i: int| 0 <= i < n implies attn_countable(
                            #[trigger] w[i],
                        ) by {
                            if i > 0 {
                                assert(w[i] == v[i - 1]);
                            }
                        }
                    },
                }
            },
        }
    }
}

proof fn lemma_snapshot_back(d: SnapshotModel, rest: Seq<u8>)
    requires
        d.encodable(),
    ensures
        parse_snapshot(encoded(d) + rest) == Some((d, rest)),
{
    lemma_le_limits();
    let t6 = enc_attns(d.attn) + rest;
    let t5 = le_bytes(d.attn.len(), 8) + t6;
    let t4 = enc_gdns(d.gdn) + t5;
    let t3 = le_bytes(d.gdn.len(), 8) + t4;
    let t2 = enc_u32s(d.token_ids) + t3;
    let t1 = le_bytes(d.position as nat, 4) + t2;
    lemma_uint_back(d.position as nat, 4, t2);
    lemma_u32s_back(d.token_ids, t3);
    lemma_uint_back(d.gdn.len(), 8, t4);
    lemma_gdns_back(d.gdn, t5);
    lemma_uint_back(d.attn.len(), 8, t6);
    lemma_attns_back(d.attn, rest);
    let u5 = le_bytes(d.attn.len(), 8) + enc_attns(d.attn);
    let u4 = enc_gdns(d.gdn) + u5;
    let u3 = le_bytes(d.gdn.len(), 8) + u4;
    let u2 = enc_u32s(d.token_ids) + u3;
    lemma_assoc(le_bytes(d.attn.len(), 8), enc_attns(d.attn), rest);
    lemma_assoc(enc_gdns(d.gdn), u5, rest);
    lemma_assoc(le_bytes(d.gdn.len(), 8), u4, rest);
    lemma_assoc(enc_u32s(d.token_ids), u3, rest);
    lemma_assoc(le_bytes(d.position as nat, 4), u2, rest);
    assert(encoded(d) + rest == t1);
}

proof fn lemma_snapshot_forth(s: Seq<u8>)
    ensures
        match parse_snapshot(s) {
            None => true,
            Some((d, r)) => d.encodable() && s == encoded(d) + r,
        },
{
    lemma_le_limits();
    lemma_uint_forth(s, 4);
    if let Some((position, r1)) = parse_uint(s, 4) {
        lemma_u32s_forth(r1);
        if let Some((token_ids, r2)) = parse_u32s(r1) {
            lemma_uint_forth(r2, 8);
            if let Some((gn, r3)) = parse_uint(r2, 8) {
                lemma_gdns_forth(r3, gn);
                if let Some((gdn, r4)) = parse_gdns(r3, gn) {
                    lemma_uint_forth(r4, 8);
                    if let Some((an, r5)) = parse_uint(r4, 8) {
                        lemma_attns_forth(r5, an);
                        if let Some((attn, r6)) = parse_attns(r5, an) {
                            let d = SnapshotModel {
                                position: position as u32,
                                token_ids,
                                gdn,
                                attn,
                            };
                            assert(parse_snapshot(s) == Some((d, r6)));
                            let u5 = le_bytes(an, 8) + enc_attns(attn);
                            let u4 = enc_gdns(gdn) + u5;
                            let u3 = le_bytes(gn, 8) + u4;
                            let u2 = enc_u32s(token_ids) + u3;
                            let u1 = le_bytes(position, 4) + u2;
                            assert(encoded(d) == u1);
                            lemma_assoc(le_bytes(an, 8), enc_attns(attn), r6);
                            lemma_assoc(enc_gdns(gdn), u5, r6);
                            lemma_assoc(le_bytes(gn, 8), u4, r6);
                            lemma_assoc(enc_u32s(token_ids), u3, r6);
                            lemma_assoc(le_bytes(position, 4), u2, r6);
                        }
                    }
                }
            }
        }
    }
}

/// Decoding is exactly parsing.
proof fn lemma_decodes_iff(bytes: Seq<u8>, d: SnapshotModel)
    ensures
        decodes_to(bytes, d) <==> (parse_snapshot(bytes) is Some && parse_snapshot(bytes).unwrap().0
            == d),
{
    if decodes_to(bytes, d) {
        let rest = bytes.skip(encoded(d).len() as int);
        assert(bytes =~= encoded(d) + rest);
        lemma_snapshot_back(d, rest);
    }
    lemma_snapshot_forth(bytes);
    if let Some((x, r)) = parse_snapshot(bytes) {
        assert(encoded(x).is_prefix_of(encoded(x) + r));
    }
}

// ---------------------------------------------------------------------------
// Laws.
// ---------------------------------------------------------------------------

/// A byte sequence decodes to at most one snapshot.
pub proof fn law_decoding_is_unambiguous(bytes: Seq<u8>, a: SnapshotModel, b: SnapshotModel)
    requires
        decodes_to(bytes, a),
        decodes_to(bytes, b),
    ensures
        a == b,
{
    lemma_decodes_iff(bytes, a);
    lemma_decodes_iff(bytes, b);
}

/// Decoding what was encoded gives the snapshot back, whatever bytes follow,
/// and nothing else.
pub proof fn law_decode_inverts_encode(d: SnapshotModel, trailing: Seq<u8>)
    requires
        d.encodable(),
    ensures
        decodes_to(encoded(d) + trailing, d),
        forall|x: SnapshotModel| decodes_to(encoded(d) + trailing, x) ==> x == d,
{
    assert(encoded(d).is_prefix_of(encoded(d) + trailing));
    assert forall|x: SnapshotModel| decodes_to(encoded(d) + trailing, x) implies x == d by {
        law_decoding_is_unambiguous(encoded(d) + trailing, x, d);
    }
}

/// Two snapshots with the same encoding are the same snapshot.
pub proof fn law_encoding_is_injective(a: SnapshotModel, b: SnapshotModel)
    requires
        a.encodable(),
        b.encodable(),
        encoded(a) == encoded(b),
    ensures
        a == b,
{
    law_decode_inverts_encode(a, Seq::empty());
    assert(encoded(a) + Seq::<u8>::empty() =~= encoded(a));
    assert(encoded(b).is_prefix_of(encoded(a)));
    assert(decodes_to(encoded(a) + Seq::<u8>::empty(), b));
}

/// Truncated bytes are unreadable: no proper prefix of an encoding decodes.
pub proof fn law_truncated_bytes_do_not_decode(d: SnapshotModel, cut: int)
    requires
        d.encodable(),
        0 <= cut < encoded(d).len(),
    ensures
        forall|x: SnapshotModel| !decodes_to(encoded(d).take(cut), x),
{
    assert forall|x: SnapshotModel| !decodes_to(encoded(d).take(cut), x) by {
        if decodes_to(encoded(d).take(cut), x) {
            assert forall|i: int| 0 <= i < encoded(x).len() implies encoded(x)[i] == encoded(
                d,
            )[i] by {
                assert(encoded(d).take(cut)[i] == encoded(d)[i]);
                assert(encoded(x)[i] == encoded(d).take(cut).subrange(
                    0,
                    encoded(x).len() as int,
                )[i]);
            }
            assert(encoded(x) =~= encoded(d).subrange(0, encoded(x).len() as int));
            assert(encoded(d) + Seq::<u8>::empty() =~= encoded(d));
            law_decode_inverts_encode(d, Seq::empty());
            assert(decodes_to(encoded(d), x));
        }
    }
}

/// A list of four-byte words is read back whatever follows it, and exactly
/// its count and its words are used up.
pub proof fn law_word_list_is_read_back(v: Seq<u32>, trailing: Seq<u8>)
    requires
        countable(v.len()),
    ensures
        parse_u32s(enc_u32s(v) + trailing) == Some((v, trailing)),
        enc_u32s(v).len() == 8 + 4 * v.len(),
{
    lemma_u32s_back(v, trailing);
    lemma_u32s_len(v);
}

/// A truncated list of four-byte words is not read.
pub proof fn law_truncated_word_list_is_refused(v: Seq<u32>, cut: int)
    requires
        countable(v.len()),
        0 <= cut < enc_u32s(v).len(),
    ensures
        parse_u32s(enc_u32s(v).take(cut)) is None,
{
    let all = enc_u32s(v);
    let s = all.take(cut);
    lemma_u32s_forth(s);
    if let Some((x, r)) = parse_u32s(s) {
        let tail = r + all.skip(cut);
        lemma_u32s_back(x, tail);
        assert(all =~= s + all.skip(cut));
        assert((enc_u32s(x) + r) + all.skip(cut) =~= enc_u32s(x) + tail);
        lemma_u32s_back(v, Seq::empty());
        assert(all + Seq::<u8>::empty() =~= all);
        assert(tail.len() > 0);
    }
}

// ---------------------------------------------------------------------------
// Writer.
// ---------------------------------------------------------------------------

/// A growing byte buffer.
pub struct Writer(Vec<u8>);

impl View for Writer {
    type V = Seq<u8>;

    closed spec fn view(&self) -> Seq<u8> {
        self.0@
    }
}

impl Writer {
    /// An empty buffer.
    pub fn new() -> (r: Self)
        ensures
            r@ == Seq::<u8>::empty(),
    {
        Writer(Vec::new())
    }

    /// The bytes written so far.
    pub fn into_bytes(self) -> (r: Vec<u8>)
        ensures
            r@ == self@,
    {
        self.0
    }

    /// Writes one byte.
    pub fn u8(&mut self, v: u8)
        ensures
            final(self)@ == old(self)@ + seq![v],
    {
        self.0.push(v);
        proof {
            assert(self@ =~= old(self)@ + seq![v]);
        }
    }

    /// Writes four bytes.
    pub fn u32(&mut self, v: u32)
        ensures
            final(self)@ == old(self)@ + le_bytes(v as nat, 4),
    {
        push_le(&mut self.0, v as u64, 4);
    }

    /// Writes eight bytes.
    pub fn u64(&mut self, v: u64)
        ensures
            final(self)@ == old(self)@ + le_bytes(v as nat, 8),
    {
        push_le(&mut self.0, v, 8);
    }

    /// Writes a run of single-precision bit patterns.
    pub fn f32_slice(&mut self, v: &[u32])
        ensures
            final(self)@ == old(self)@ + enc_u32s(v@),
    {
        self.u32_slice(v);
    }

    /// Writes a run of half-precision bit patterns.
    pub fn f16_slice(&mut self, v: &[u16])
        ensures
            final(self)@ == old(self)@ + enc_u16s(v@),
    {
        let ghost start = self@;
        let ghost all = nats_u16(v@);
        self.u64(v.len() as u64);
        let mut i: usize = 0;
        proof {
            assert(all.take(0) =~= Seq::<nat>::empty());
            assert(words(all.take(0), 2) =~= Seq::<u8>::empty());
            assert(self@ =~= start + (le_bytes(v@.len(), 8) + words(all.take(0), 2)));
        }
        while i < v.len()
            invariant
                i <= v@.len(),
                all == nats_u16(v@),
                self@ == start + (le_bytes(v@.len(), 8) + words(all.take(i as int), 2)),
            decreases v@.len() - i,
        {
            let ghost before = self@;
            push_le(&mut self.0, v[i] as u64, 2);
            proof {
                assert(all.take(i + 1) =~= all.take(i as int).push(all[i as int]));
                lemma_words_push(all.take(i as int), all[i as int], 2);
                assert(self@ =~= start + (le_bytes(v@.len(), 8) + words(all.take(i + 1), 2)));
            }
            i = i + 1;
        }
        proof {
            assert(all.take(i as int) =~= all);
        }
    }

    /// Writes a run of signed codes, one byte each.
    pub fn i8_slice(&mut self, v: &[i8])
        ensures
            final(self)@ == old(self)@ + enc_i8s(v@),
    {
        let ghost start = self@;
        let ghost all = nats_i8(v@);
        self.u64(v.len() as u64);
        let mut i: usize = 0;
        proof {
            assert(all.take(0) =~= Seq::<nat>::empty());
            assert(words(all.take(0), 1) =~= Seq::<u8>::empty());
            assert(self@ =~= start + (le_bytes(v@.len(), 8) + words(all.take(0), 1)));
        }
        while i < v.len()
            invariant
                i <= v@.len(),
                all == nats_i8(v@),
                self@ == start + (le_bytes(v@.len(), 8) + words(all.take(i as int), 1)),
            decreases v@.len() - i,
        {
            push_le(&mut self.0, to_code_byte(v[i]) as u64, 1);
            proof {
                assert(all.take(i + 1) =~= all.take(i as int).push(all[i as int]));
                lemma_words_push(all.take(i as int), all[i as int], 1);
                assert(self@ =~= start + (le_bytes(v@.len(), 8) + words(all.take(i + 1), 1)));
            }
            i = i + 1;
        }
        proof {
            assert(all.take(i as int) =~= all);
        }
    }

    /// Writes a run of bytes.
    pub fn u8_slice(&mut self, v: &[u8])
        ensures
            final(self)@ == old(self)@ + enc_u8s(v@),
    {
        let ghost start = self@;
        let ghost all = nats_u8(v@);
        self.u64(v.len() as u64);
        let mut i: usize = 0;
        proof {
            assert(all.take(0) =~= Seq::<nat>::empty());
            assert(words(all.take(0), 1) =~= Seq::<u8>::empty());
            assert(self@ =~= start + (le_bytes(v@.len(), 8) + words(all.take(0), 1)));
        }
        while i < v.len()
            invariant
                i <= v@.len(),
                all == nats_u8(v@),
                self@ == start + (le_bytes(v@.len(), 8) + words(all.take(i as int), 1)),
            decreases v@.len() - i,
        {
            push_le(&mut self.0, v[i] as u64, 1);
            proof {
                assert(all.take(i + 1) =~= all.take(i as int).push(all[i as int]));
                lemma_words_push(all.take(i as int), all[i as int], 1);
                assert(self@ =~= start + (le_bytes(v@.len(), 8) + words(all.take(i + 1), 1)));
            }
            i = i + 1;
        }
        proof {
            assert(all.take(i as int) =~= all);
        }
    }

    /// Writes a run of four-byte words.
    pub fn u32_slice(&mut self, v: &[u32])
        ensures
            final(self)@ == old(self)@ + enc_u32s(v@),
    {
        let ghost start = self@;
        let ghost all = nats_u32(v@);
        self.u64(v.len() as u64);
        let mut i: usize = 0;
        proof {
            assert(all.take(0) =~= Seq::<nat>::empty());
            assert(words(all.take(0), 4) =~= Seq::<u8>::empty());
            assert(self@ =~= start + (le_bytes(v@.len(), 8) + words(all.take(0), 4)));
        }
        while i < v.len()
            invariant
                i <= v@.len(),
                all == nats_u32(v@),
                self@ == start + (le_bytes(v@.len(), 8) + words(all.take(i as int), 4)),
            decreases v@.len() - i,
        {
            push_le(&mut self.0, v[i] as u64, 4);
            proof {
                assert(all.take(i + 1) =~= all.take(i as int).push(all[i as int]));
                lemma_words_push(all.take(i as int), all[i as int], 4);
                assert(self@ =~= start + (le_bytes(v@.len(), 8) + words(all.take(i + 1), 4)));
            }
            i = i + 1;
        }
        proof {
            assert(all.take(i as int) =~= all);
        }
    }

    /// Writes one linear-attention layer.
    pub fn gdn(&mut self, layer: &Option<GdnLayerBytes>)
        ensures
            final(self)@ == old(self)@ + enc_gdn(gdn_view(*layer)),
    {
        let ghost start = self@;
        match layer {
            None => self.u8(0),
            Some(g) => {
                self.u8(1);
                self.f32_slice(g.conv_state.as_slice());
                self.f32_slice(g.state.as_slice());
            },
        }
        proof {
            assert(self@ =~= start + enc_gdn(gdn_view(*layer)));
        }
    }

    /// Writes one full-attention layer.
    pub fn attn(&mut self, layer: &Option<AttnLayerBytes>)
        ensures
            final(self)@ == old(self)@ + enc_attn(attn_view(*layer)),
    {
        let ghost start = self@;
        match layer {
            None => self.u8(0),
            Some(AttnLayerBytes::DenseF16 { k, v }) => {
                self.u8(1);
                self.f16_slice(k.as_slice());
                self.f16_slice(v.as_slice());
                proof {
                    assert(self@ =~= start + enc_attn(attn_view(*layer)));
                }
            },
            Some(AttnLayerBytes::DenseF32 { k, v }) => {
                self.u8(2);
                self.f32_slice(k.as_slice());
                self.f32_slice(v.as_slice());
                proof {
                    assert(self@ =~= start + enc_attn(attn_view(*layer)));
                }
            },
            Some(
                AttnLayerBytes::Mixed {
                    sink_k,
                    sink_v,
                    window_k,
                    window_v,
                    bulk_k_codes,
                    bulk_k_scales,
                    bulk_v_codes,
                    bulk_v_scales,
                    window_base,
                    v_bits,
                },
            ) => {
                self.u8(3);
                let ghost s0 = self@;
                self.f16_slice(sink_k.as_slice());
                let ghost s1 = self@;
                self.f16_slice(sink_v.as_slice());
                let ghost s2 = self@;
                self.f16_slice(window_k.as_slice());
                let ghost s3 = self@;
                self.f16_slice(window_v.as_slice());
                let ghost s4 = self@;
                self.i8_slice(bulk_k_codes.as_slice());
                let ghost s5 = self@;
                self.f32_slice(bulk_k_scales.as_slice());
                let ghost s6 = self@;
                self.u8_slice(bulk_v_codes.as_slice());
                let ghost s7 = self@;
                self.f32_slice(bulk_v_scales.as_slice());
                let ghost s8 = self@;
                self.u32(*window_base);
                self.u8(*v_bits);
                proof {
                    lemma_one_byte(*v_bits);
                    let e9 = le_bytes(*window_base as nat, 4);
                    let e10 = le_bytes(*v_bits as nat, 1);
                    let u9 = e9 + e10;
                    let u8_ = enc_u32s(bulk_v_scales@) + u9;
                    let u7 = enc_u8s(bulk_v_codes@) + u8_;
                    let u6 = enc_u32s(bulk_k_scales@) + u7;
                    let u5 = enc_i8s(bulk_k_codes@) + u6;
                    let u4 = enc_u16s(window_v@) + u5;
                    let u3 = enc_u16s(window_k@) + u4;
                    let u2 = enc_u16s(sink_v@) + u3;
                    let u1 = enc_u16s(sink_k@) + u2;
                    lemma_assoc(s8, e9, e10);
                    lemma_assoc(s7, enc_u32s(bulk_v_scales@), u9);
                    lemma_assoc(s6, enc_u8s(bulk_v_codes@), u8_);
                    lemma_assoc(s5, enc_u32s(bulk_k_scales@), u7);
                    lemma_assoc(s4, enc_i8s(bulk_k_codes@), u6);
                    lemma_assoc(s3, enc_u16s(window_v@), u5);
                    lemma_assoc(s2, enc_u16s(window_k@), u4);
                    lemma_assoc(s1, enc_u16s(sink_v@), u3);
                    lemma_assoc(s0, enc_u16s(sink_k@), u2);
                    lemma_assoc(start, seq![3u8], u1);
                    assert(self@ == start + (seq![3u8] + u1));
                    assert(enc_attn(attn_view(*layer)) == seq![3u8] + u1);
                }
            },
        }
    }
}

/// One byte is its own one-byte word.
proof fn lemma_one_byte(b: u8)
    ensures
        le_bytes(b as nat, 1) == seq![b],
{
    reveal_with_fuel(le_bytes, 2);
    assert(le_bytes(b as nat, 1) =~= seq![b]);
}

fn to_code_byte(x: i8) -> (r: u8)
    ensures
        r as nat == code_byte(x),
{
    if x < 0 {
        (x as i16 + 256) as u8
    } else {
        x as u8
    }
}

fn from_code_byte(b: u8) -> (r: i8)
    ensures
        r == byte_code(b as nat),
{
    if b >= 128 {
        (b as i16 - 256) as i8
    } else {
        b as i8
    }
}

/// Serialises a snapshot.
pub fn encode(data: &SnapshotData) -> (r: Vec<u8>)
    ensures
        r@ == encoded(data@),
        data@.encodable(),
{
    let mut w = Writer::new();
    w.u32(data.position);
    w.u32_slice(data.token_ids.as_slice());
    w.u64(data.gdn.len() as u64);
    let ghost g = data@.gdn;
    let ghost a = data@.attn;
    let ghost head = w@;
    let mut i: usize = 0;
    proof {
        assert(g.take(0) =~= Seq::empty());
        assert(enc_gdns(g.take(0)) =~= Seq::empty());
        assert(w@ =~= head + enc_gdns(g.take(0)));
    }
    while i < data.gdn.len()
        invariant
            g == gdn_views(data.gdn@),
            i <= data.gdn@.len(),
            w@ == head + enc_gdns(g.take(i as int)),
        decreases data.gdn@.len() - i,
    {
        proof {
            assert(g[i as int] == gdn_view(data.gdn@[i as int]));
            lemma_gdns_push(g.take(i as int), g[i as int]);
            assert(g.take(i + 1) =~= g.take(i as int).push(g[i as int]));
        }
        w.gdn(&data.gdn[i]);
        proof {
            assert(w@ =~= head + enc_gdns(g.take(i + 1)));
        }
        i = i + 1;
    }
    w.u64(data.attn.len() as u64);
    let ghost mid = w@;
    let mut j: usize = 0;
    proof {
        assert(g.take(i as int) =~= g);
        assert(a.take(0) =~= Seq::empty());
        assert(enc_attns(a.take(0)) =~= Seq::empty());
        assert(w@ =~= mid + enc_attns(a.take(0)));
    }
    while j < data.attn.len()
        invariant
            a == attn_views(data.attn@),
            j <= data.attn@.len(),
            w@ == mid + enc_attns(a.take(j as int)),
        decreases data.attn@.len() - j,
    {
        proof {
            assert(a[j as int] == attn_view(data.attn@[j as int]));
            lemma_attns_push(a.take(j as int), a[j as int]);
            assert(a.take(j + 1) =~= a.take(j as int).push(a[j as int]));
        }
        w.attn(&data.attn[j]);
        proof {
            assert(w@ =~= mid + enc_attns(a.take(j + 1)));
        }
        j = j + 1;
    }
    proof {
        assert(a.take(j as int) =~= a);
        assert(w@ =~= encoded(data@));
        lemma_held_is_encodable(data);
    }
    w.into_bytes()
}

/// What a vector holds always fits an eight-byte count.
proof fn lemma_held_is_encodable(data: &SnapshotData)
    ensures
        data@.encodable(),
{
    let d = data@;
    assert(data.token_ids.len() <= u64::MAX);
    assert(data.gdn.len() <= u64::MAX);
    assert(data.attn.len() <= u64::MAX);
    assert forall|i: int| 0 <= i < d.gdn.len() implies gdn_countable(#[trigger] d.gdn[i]) by {
        match data.gdn@[i] {
            None => {},
            Some(g) => {
                assert(g.conv_state.len() <= u64::MAX);
                assert(g.state.len() <= u64::MAX);
            },
        }
    }
    assert forall|i: int| 0 <= i < d.attn.len() implies attn_countable(#[trigger] d.attn[i]) by {
        match data.attn@[i] {
            None => {},
            Some(AttnLayerBytes::DenseF16 { k, v }) => {
                assert(k.len() <= u64::MAX);
                assert(v.len() <= u64::MAX);
            },
            Some(AttnLayerBytes::DenseF32 { k, v }) => {
                assert(k.len() <= u64::MAX);
                assert(v.len() <= u64::MAX);
            },
            Some(
                AttnLayerBytes::Mixed {
                    sink_k,
                    sink_v,
                    window_k,
                    window_v,
                    bulk_k_codes,
                    bulk_k_scales,
                    bulk_v_codes,
                    bulk_v_scales,
                    ..
                },
            ) => {
                assert(sink_k.len() <= u64::MAX);
                assert(sink_v.len() <= u64::MAX);
                assert(window_k.len() <= u64::MAX);
                assert(window_v.len() <= u64::MAX);
                assert(bulk_k_codes.len() <= u64::MAX);
                assert(bulk_k_scales.len() <= u64::MAX);
                assert(bulk_v_codes.len() <= u64::MAX);
                assert(bulk_v_scales.len() <= u64::MAX);
            },
        }
    }
}

proof fn lemma_gdns_push(v: Seq<Option<GdnModel>>, x: Option<GdnModel>)
    ensures
        enc_gdns(v.push(x)) == enc_gdns(v) + enc_gdn(x),
    decreases v.len(),
{
    let p = v.push(x);
    if v.len() == 0 {
        assert(p.drop_first() =~= Seq::empty());
        assert(enc_gdns(p.drop_first()) =~= Seq::empty());
        assert(enc_gdns(p) =~= enc_gdns(v) + enc_gdn(x));
    } else {
        lemma_gdns_push(v.drop_first(), x);
        assert(p.drop_first() =~= v.drop_first().push(x));
        assert(enc_gdns(p) =~= enc_gdns(v) + enc_gdn(x));
    }
}

proof fn lemma_attns_push(v: Seq<Option<AttnModel>>, x: Option<AttnModel>)
    ensures
        enc_attns(v.push(x)) == enc_attns(v) + enc_attn(x),
    decreases v.len(),
{
    let p = v.push(x);
    if v.len() == 0 {
        assert(p.drop_first() =~= Seq::empty());
        assert(enc_attns(p.drop_first()) =~= Seq::empty());
        assert(enc_attns(p) =~= enc_attns(v) + enc_attn(x));
    } else {
        lemma_attns_push(v.drop_first(), x);
        assert(p.drop_first() =~= v.drop_first().push(x));
        assert(enc_attns(p) =~= enc_attns(v) + enc_attn(x));
    }
}

/// The bytes are not the encoding of a snapshot.
#[derive(Debug, Clone, Copy, PartialEq, Eq, Structural)]
pub struct DecodeError;


// ---------------------------------------------------------------------------
// Reader.
// ---------------------------------------------------------------------------

/// A cursor over encoded bytes.
struct Reader<'a> {
    buf: &'a [u8],
    pos: usize,
}

/// A run of words that can be read has its bytes present.
proof fn lemma_words_need_bytes(s: Seq<u8>, width: nat)
    requires
        width > 0,
    ensures
        match parse_uint(s, 8) {
            None => true,
            Some((n, r)) => parse_words(r, n, width) is Some ==> n <= r.len(),
        },
{
    if let Some((n, r)) = parse_uint(s, 8) {
        lemma_words_forth(r, n, width);
        assert(n <= n * width) by (nonlinear_arith)
            requires
                width > 0,
        ;
    }
}

impl<'a> Reader<'a> {
    spec fn wf(&self) -> bool {
        self.pos <= self.buf@.len()
    }

    /// The bytes not read yet.
    spec fn rest(&self) -> Seq<u8> {
        self.buf@.skip(self.pos as int)
    }

    fn new(buf: &'a [u8]) -> (r: Self)
        ensures
            r.wf(),
            r.buf == buf,
            r.rest() == buf@,
    {
        let r = Reader { buf, pos: 0 };
        assert(buf@.skip(0) =~= buf@);
        r
    }

    /// The next `len` bytes.
    fn take(&mut self, len: usize) -> (res: Result<&'a [u8], DecodeError>)
        requires
            old(self).wf(),
        ensures
            final(self).wf(),
            final(self).buf == old(self).buf,
            if old(self).rest().len() < len {
                res is Err && final(self).rest() == old(self).rest() && final(self).pos == old(
                    self,
                ).pos
            } else {
                &&& res is Ok
                &&& res->Ok_0@ == old(self).rest().take(len as int)
                &&& final(self).pos == old(self).pos + len
                &&& final(self).rest() == old(self).rest().skip(len as int)
            },
    {
        if self.buf.len() - self.pos < len {
            return Err(DecodeError);
        }
        let end: usize = self.pos + len;
        let slice = slice_subrange(self.buf, self.pos, end);
        proof {
            assert(slice@ =~= self.rest().take(len as int));
            assert(self.buf@.skip(end as int) =~= self.rest().skip(len as int));
        }
        self.pos = end;
        Ok(slice)
    }

    /// The next little-endian word of up to eight bytes.
    fn word(&mut self, width: usize) -> (res: Result<u64, DecodeError>)
        requires
            old(self).wf(),
            width <= 8,
        ensures
            final(self).wf(),
            final(self).buf == old(self).buf,
            match parse_uint(old(self).rest(), width as nat) {
                None => res is Err,
                Some((x, r)) => res is Ok && res->Ok_0 as nat == x && final(self).rest() == r,
            },
    {
        match self.take(width) {
            Ok(b) => Ok(read_le(b)),
            Err(e) => Err(e),
        }
    }

    fn u8(&mut self) -> (res: Result<u8, DecodeError>)
        requires
            old(self).wf(),
        ensures
            final(self).wf(),
            final(self).buf == old(self).buf,
            if old(self).rest().len() == 0 {
                res is Err
            } else {
                &&& res is Ok
                &&& res->Ok_0 == old(self).rest()[0]
                &&& final(self).rest() == old(self).rest().skip(1)
            },
    {
        match self.take(1) {
            Ok(b) => Ok(b[0]),
            Err(e) => Err(e),
        }
    }

    fn u32(&mut self) -> (res: Result<u32, DecodeError>)
        requires
            old(self).wf(),
        ensures
            final(self).wf(),
            final(self).buf == old(self).buf,
            match parse_uint(old(self).rest(), 4) {
                None => res is Err,
                Some((x, r)) => res is Ok && res->Ok_0 as nat == x && final(self).rest() == r,
            },
    {
        proof {
            lemma_le_limits();
            lemma_uint_forth(self.rest(), 4);
        }
        match self.word(4) {
            Ok(x) => Ok(x as u32),
            Err(e) => Err(e),
        }
    }

    /// An eight-byte count, as a machine size.
    fn len_usize(&mut self) -> (res: Result<usize, DecodeError>)
        requires
            old(self).wf(),
        ensures
            final(self).wf(),
            final(self).buf == old(self).buf,
            old(self).rest().len() <= usize::MAX,
            match parse_uint(old(self).rest(), 8) {
                None => res is Err,
                Some((x, r)) => if x <= usize::MAX {
                    res is Ok && res->Ok_0 as nat == x && final(self).rest() == r
                } else {
                    res is Err
                },
            },
    {
        let total: usize = self.buf.len();
        assert(self.rest().len() <= total);
        match self.word(8) {
            Ok(x) => if x <= usize::MAX as u64 {
                Ok(x as usize)
            } else {
                Err(DecodeError)
            },
            Err(e) => Err(e),
        }
    }

    /// A run of four-byte words.
    fn u32_slice(&mut self) -> (res: Result<Vec<u32>, DecodeError>)
        requires
            old(self).wf(),
        ensures
            final(self).wf(),
            final(self).buf == old(self).buf,
            match parse_u32s(old(self).rest()) {
                None => res is Err,
                Some((v, r)) => {
                    &&& res is Ok
                    &&& res->Ok_0@ == v
                    &&& final(self).rest() == r
                    &&& final(self).pos == old(self).pos + 8 + 4 * v.len()
                },
            },
    {
        let ghost start = self.rest();
        proof {
            lemma_words_need_bytes(start, 4);
            lemma_u32s_forth(start);
            if let Some((v, r)) = parse_u32s(start) {
                lemma_u32s_len(v);
            }
        }
        let n: usize = match self.len_usize() {
            Ok(n) => n,
            Err(e) => {
                return Err(e);
            },
        };
        let ghost first = self.rest();
        let mut out: Vec<u32> = Vec::new();
        let mut i: usize = 0;
        let ghost mut got: Seq<nat> = Seq::empty();
        proof {
            let p = parse_words(first, n as nat, 4);
            if let Some((v, r)) = p {
                assert(Seq::<nat>::empty() + v =~= v);
            }
        }
        while i < n
            invariant
                self.wf(),
                self.buf == old(self).buf,
                i <= n,
                parse_uint(start, 8) == Some((n as nat, first)),
                out@ =~= got.map_values(|x: nat| x as u32),
                match parse_words(self.rest(), (n - i) as nat, 4) {
                    None => parse_words(first, n as nat, 4) is None,
                    Some((v, r)) => parse_words(first, n as nat, 4) == Some((got + v, r)),
                },
                start == old(self).rest(),
            decreases n - i,
        {
            let ghost here = self.rest();
            let x: u64 = match self.word(4) {
                Ok(x) => x,
                Err(e) => {
                    return Err(e);
                },
            };
            proof {
                lemma_le_limits();
                lemma_uint_forth(here, 4);
                let tail = parse_words(self.rest(), (n - i - 1) as nat, 4);
                if let Some((v, r)) = tail {
                    assert(got + (seq![x as nat] + v) =~= got.push(x as nat) + v);
                }
                got = got.push(x as nat);
            }
            out.push(x as u32);
            i = i + 1;
        }
        proof {
            assert(got + Seq::<nat>::empty() =~= got);
        }
        Ok(out)
    }

    /// A run of half-precision bit patterns.
    fn f16_slice(&mut self) -> (res: Result<Vec<u16>, DecodeError>)
        requires
            old(self).wf(),
        ensures
            final(self).wf(),
            final(self).buf == old(self).buf,
            match parse_u16s(old(self).rest()) {
                None => res is Err,
                Some((v, r)) => res is Ok && res->Ok_0@ == v && final(self).rest() == r,
            },
    {
        let ghost start = self.rest();
        proof {
            lemma_words_need_bytes(start, 2);
        }
        let n: usize = match self.len_usize() {
            Ok(n) => n,
            Err(e) => {
                return Err(e);
            },
        };
        let ghost first = self.rest();
        let mut out: Vec<u16> = Vec::new();
        let mut i: usize = 0;
        let ghost mut got: Seq<nat> = Seq::empty();
        proof {
            let p = parse_words(first, n as nat, 2);
            if let Some((v, r)) = p {
                assert(Seq::<nat>::empty() + v =~= v);
            }
        }
        while i < n
            invariant
                self.wf(),
                self.buf == old(self).buf,
                i <= n,
                parse_uint(start, 8) == Some((n as nat, first)),
                out@ =~= got.map_values(|x: nat| x as u16),
                match parse_words(self.rest(), (n - i) as nat, 2) {
                    None => parse_words(first, n as nat, 2) is None,
                    Some((v, r)) => parse_words(first, n as nat, 2) == Some((got + v, r)),
                },
                start == old(self).rest(),
            decreases n - i,
        {
            let ghost here = self.rest();
            let x: u64 = match self.word(2) {
                Ok(x) => x,
                Err(e) => {
                    return Err(e);
                },
            };
            proof {
                lemma_le_limits();
                lemma_uint_forth(here, 2);
                let tail = parse_words(self.rest(), (n - i - 1) as nat, 2);
                if let Some((v, r)) = tail {
                    assert(got + (seq![x as nat] + v) =~= got.push(x as nat) + v);
                }
                got = got.push(x as nat);
            }
            out.push(x as u16);
            i = i + 1;
        }
        proof {
            assert(got + Seq::<nat>::empty() =~= got);
        }
        Ok(out)
    }

    /// A run of signed codes.
    fn i8_slice(&mut self) -> (res: Result<Vec<i8>, DecodeError>)
        requires
            old(self).wf(),
        ensures
            final(self).wf(),
            final(self).buf == old(self).buf,
            match parse_i8s(old(self).rest()) {
                None => res is Err,
                Some((v, r)) => res is Ok && res->Ok_0@ == v && final(self).rest() == r,
            },
    {
        let ghost start = self.rest();
        proof {
            lemma_words_need_bytes(start, 1);
        }
        let n: usize = match self.len_usize() {
            Ok(n) => n,
            Err(e) => {
                return Err(e);
            },
        };
        let ghost first = self.rest();
        let mut out: Vec<i8> = Vec::new();
        let mut i: usize = 0;
        let ghost mut got: Seq<nat> = Seq::empty();
        proof {
            let p = parse_words(first, n as nat, 1);
            if let Some((v, r)) = p {
                assert(Seq::<nat>::empty() + v =~= v);
            }
        }
        while i < n
            invariant
                self.wf(),
                self.buf == old(self).buf,
                i <= n,
                parse_uint(start, 8) == Some((n as nat, first)),
                out@ =~= got.map_values(|x: nat| byte_code(x)),
                match parse_words(self.rest(), (n - i) as nat, 1) {
                    None => parse_words(first, n as nat, 1) is None,
                    Some((v, r)) => parse_words(first, n as nat, 1) == Some((got + v, r)),
                },
                start == old(self).rest(),
            decreases n - i,
        {
            let ghost here = self.rest();
            let x: u64 = match self.word(1) {
                Ok(x) => x,
                Err(e) => {
                    return Err(e);
                },
            };
            proof {
                lemma_le_limits();
                lemma_uint_forth(here, 1);
                let tail = parse_words(self.rest(), (n - i - 1) as nat, 1);
                if let Some((v, r)) = tail {
                    assert(got + (seq![x as nat] + v) =~= got.push(x as nat) + v);
                }
                got = got.push(x as nat);
            }
            out.push(from_code_byte(x as u8));
            i = i + 1;
        }
        proof {
            assert(got + Seq::<nat>::empty() =~= got);
        }
        Ok(out)
    }

    /// A run of bytes.
    fn u8_slice(&mut self) -> (res: Result<Vec<u8>, DecodeError>)
        requires
            old(self).wf(),
        ensures
            final(self).wf(),
            final(self).buf == old(self).buf,
            match parse_u8s(old(self).rest()) {
                None => res is Err,
                Some((v, r)) => res is Ok && res->Ok_0@ == v && final(self).rest() == r,
            },
    {
        let ghost start = self.rest();
        proof {
            lemma_words_need_bytes(start, 1);
        }
        let n: usize = match self.len_usize() {
            Ok(n) => n,
            Err(e) => {
                return Err(e);
            },
        };
        let ghost first = self.rest();
        let mut out: Vec<u8> = Vec::new();
        let mut i: usize = 0;
        let ghost mut got: Seq<nat> = Seq::empty();
        proof {
            let p = parse_words(first, n as nat, 1);
            if let Some((v, r)) = p {
                assert(Seq::<nat>::empty() + v =~= v);
            }
        }
        while i < n
            invariant
                self.wf(),
                self.buf == old(self).buf,
                i <= n,
                parse_uint(start, 8) == Some((n as nat, first)),
                out@ =~= got.map_values(|x: nat| x as u8),
                match parse_words(self.rest(), (n - i) as nat, 1) {
                    None => parse_words(first, n as nat, 1) is None,
                    Some((v, r)) => parse_words(first, n as nat, 1) == Some((got + v, r)),
                },
                start == old(self).rest(),
            decreases n - i,
        {
            let ghost here = self.rest();
            let x: u64 = match self.word(1) {
                Ok(x) => x,
                Err(e) => {
                    return Err(e);
                },
            };
            proof {
                lemma_le_limits();
                lemma_uint_forth(here, 1);
                let tail = parse_words(self.rest(), (n - i - 1) as nat, 1);
                if let Some((v, r)) = tail {
                    assert(got + (seq![x as nat] + v) =~= got.push(x as nat) + v);
                }
                got = got.push(x as nat);
            }
            out.push(x as u8);
            i = i + 1;
        }
        proof {
            assert(got + Seq::<nat>::empty() =~= got);
        }
        Ok(out)
    }

    /// A run of single-precision bit patterns.
    fn f32_slice(&mut self) -> (res: Result<Vec<u32>, DecodeError>)
        requires
            old(self).wf(),
        ensures
            final(self).wf(),
            final(self).buf == old(self).buf,
            match parse_u32s(old(self).rest()) {
                None => res is Err,
                Some((v, r)) => res is Ok && res->Ok_0@ == v && final(self).rest() == r,
            },
    {
        self.u32_slice()
    }

    fn gdn(&mut self) -> (res: Result<Option<GdnLayerBytes>, DecodeError>)
        requires
            old(self).wf(),
        ensures
            final(self).wf(),
            final(self).buf == old(self).buf,
            match parse_gdn(old(self).rest()) {
                None => res is Err,
                Some((v, r)) => res is Ok && gdn_view(res->Ok_0) == v && final(self).rest() == r,
            },
    {
        match self.u8()? {
            0 => Ok(None),
            1 => {
                let conv_state = self.f32_slice()?;
                let state = self.f32_slice()?;
                Ok(Some(GdnLayerBytes { conv_state, state }))
            },
            _ => Err(DecodeError),
        }
    }

    /// The body of a mixed layer.
    fn mixed(&mut self) -> (res: Result<AttnLayerBytes, DecodeError>)
        requires
            old(self).wf(),
        ensures
            final(self).wf(),
            final(self).buf == old(self).buf,
            match parse_mixed(old(self).rest()) {
                None => res is Err,
                Some((v, r)) => res is Ok && Some(res->Ok_0@) == v && final(self).rest() == r,
            },
    {
        let sink_k = self.f16_slice()?;
        let sink_v = self.f16_slice()?;
        let window_k = self.f16_slice()?;
        let window_v = self.f16_slice()?;
        let bulk_k_codes = self.i8_slice()?;
        let bulk_k_scales = self.f32_slice()?;
        let bulk_v_codes = self.u8_slice()?;
        let bulk_v_scales = self.f32_slice()?;
        let window_base: u32 = self.u32()?;
        proof {
            let r = self.rest();
            if r.len() > 0 {
                assert(r.take(1).drop_first() =~= Seq::<u8>::empty());
                reveal_with_fuel(le_value, 2);
                assert(le_value(r.take(1)) == r[0] as nat);
            }
        }
        let v_bits: u8 = self.u8()?;
        Ok(
            AttnLayerBytes::Mixed {
                sink_k,
                sink_v,
                window_k,
                window_v,
                bulk_k_codes,
                bulk_k_scales,
                bulk_v_codes,
                bulk_v_scales,
                window_base,
                v_bits,
            },
        )
    }

    fn attn(&mut self) -> (res: Result<Option<AttnLayerBytes>, DecodeError>)
        requires
            old(self).wf(),
        ensures
            final(self).wf(),
            final(self).buf == old(self).buf,
            match parse_attn(old(self).rest()) {
                None => res is Err,
                Some((v, r)) => res is Ok && attn_view(res->Ok_0) == v && final(self).rest() == r,
            },
    {
        match self.u8()? {
            0 => Ok(None),
            1 => {
                let k = self.f16_slice()?;
                let v = self.f16_slice()?;
                Ok(Some(AttnLayerBytes::DenseF16 { k, v }))
            },
            2 => {
                let k = self.f32_slice()?;
                let v = self.f32_slice()?;
                Ok(Some(AttnLayerBytes::DenseF32 { k, v }))
            },
            3 => {
                let layer = self.mixed()?;
                Ok(Some(layer))
            },
            _ => Err(DecodeError),
        }
    }
}

/// Reads a counted list of layers.
fn read_gdns(r: &mut Reader) -> (res: Result<Vec<Option<GdnLayerBytes>>, DecodeError>)
    requires
        old(r).wf(),
    ensures
        final(r).wf(),
        final(r).buf == old(r).buf,
        match parse_uint(old(r).rest(), 8) {
            None => res is Err,
            Some((n, r1)) => match parse_gdns(r1, n) {
                None => res is Err,
                Some((v, r2)) => res is Ok && gdn_views(res->Ok_0@) == v && final(r).rest() == r2,
            },
        },
{
    let ghost start = r.rest();
    proof {
        if let Some((n, r1)) = parse_uint(start, 8) {
            lemma_gdns_forth(r1, n);
        }
    }
    let n: usize = r.len_usize()?;
    let ghost first = r.rest();
    let mut out: Vec<Option<GdnLayerBytes>> = Vec::new();
    let mut i: usize = 0;
    proof {
        assert(gdn_views(out@) =~= Seq::empty());
        if let Some((v, r2)) = parse_gdns(first, n as nat) {
            assert(gdn_views(out@) + v =~= v);
        }
    }
    while i < n
        invariant
            r.wf(),
            r.buf == old(r).buf,
            i <= n,
            start == old(r).rest(),
            parse_uint(start, 8) == Some((n as nat, first)),
            match parse_gdns(r.rest(), (n - i) as nat) {
                None => parse_gdns(first, n as nat) is None,
                Some((v, r2)) => parse_gdns(first, n as nat) == Some((gdn_views(out@) + v, r2)),
            },
        decreases n - i,
    {
        let ghost before = gdn_views(out@);
        let layer = r.gdn()?;
        let ghost x = gdn_view(layer);
        out.push(layer);
        proof {
            assert(gdn_views(out@) =~= before.push(x));
            if let Some((v, r2)) = parse_gdns(r.rest(), (n - i - 1) as nat) {
                assert(before + (seq![x] + v) =~= before.push(x) + v);
            }
        }
        i = i + 1;
    }
    proof {
        assert(gdn_views(out@) + Seq::empty() =~= gdn_views(out@));
    }
    Ok(out)
}

/// Reads a counted list of layers.
fn read_attns(r: &mut Reader) -> (res: Result<Vec<Option<AttnLayerBytes>>, DecodeError>)
    requires
        old(r).wf(),
    ensures
        final(r).wf(),
        final(r).buf == old(r).buf,
        match parse_uint(old(r).rest(), 8) {
            None => res is Err,
            Some((n, r1)) => match parse_attns(r1, n) {
                None => res is Err,
                Some((v, r2)) => res is Ok && attn_views(res->Ok_0@) == v && final(r).rest() == r2,
            },
        },
{
    let ghost start = r.rest();
    proof {
        if let Some((n, r1)) = parse_uint(start, 8) {
            lemma_attns_forth(r1, n);
        }
    }
    let n: usize = r.len_usize()?;
    let ghost first = r.rest();
    let mut out: Vec<Option<AttnLayerBytes>> = Vec::new();
    let mut i: usize = 0;
    proof {
        assert(attn_views(out@) =~= Seq::empty());
        if let Some((v, r2)) = parse_attns(first, n as nat) {
            assert(attn_views(out@) + v =~= v);
        }
    }
    while i < n
        invariant
            r.wf(),
            r.buf == old(r).buf,
            i <= n,
            start == old(r).rest(),
            parse_uint(start, 8) == Some((n as nat, first)),
            match parse_attns(r.rest(), (n - i) as nat) {
                None => parse_attns(first, n as nat) is None,
                Some((v, r2)) => parse_attns(first, n as nat) == Some((attn_views(out@) + v, r2)),
            },
        decreases n - i,
    {
        let ghost before = attn_views(out@);
        let layer = r.attn()?;
        let ghost x = attn_view(layer);
        out.push(layer);
        proof {
            assert(attn_views(out@) =~= before.push(x));
            if let Some((v, r2)) = parse_attns(r.rest(), (n - i - 1) as nat) {
                assert(before + (seq![x] + v) =~= before.push(x) + v);
            }
        }
        i = i + 1;
    }
    proof {
        assert(attn_views(out@) + Seq::empty() =~= attn_views(out@));
    }
    Ok(out)
}

/// Parses a snapshot. It succeeds exactly on the byte sequences that start
/// with the encoding of one, and returns that one.
pub fn decode(bytes: &[u8]) -> (res: Result<SnapshotData, DecodeError>)
    ensures
        match res {
            Ok(d) => decodes_to(bytes@, d@),
            Err(_) => forall|d: SnapshotModel| !decodes_to(bytes@, d),
        },
{
    proof {
        assert forall|d: SnapshotModel| decodes_to(bytes@, d) implies parse_snapshot(bytes@) is Some
            && parse_snapshot(bytes@).unwrap().0 == d by {
            lemma_decodes_iff(bytes@, d);
        }
        lemma_le_limits();
        lemma_uint_forth(bytes@, 4);
    }
    let mut r = Reader::new(bytes);
    let position: u32 = r.u32()?;
    let token_ids = r.u32_slice()?;
    let gdn = read_gdns(&mut r)?;
    let attn = read_attns(&mut r)?;
    let data = SnapshotData { position, token_ids, gdn, attn };
    proof {
        lemma_decodes_iff(bytes@, data@);
    }
    Ok(data)
}

} // verus!
