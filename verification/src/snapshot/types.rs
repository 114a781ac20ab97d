//! Data of a captured conversation state: its identity (model, cache
//! configuration, prefix) and the per-layer payload. Floating-point values
//! are carried as their bit patterns.

use crate::load_opts::KvCacheMode;
use vstd::prelude::*;

verus! {

/// The bit pattern of a single-precision value.
pub type F32Bits = u32;

/// The bit pattern of a half-precision value.
pub type F16Bits = u16;

/// Cheap identity of the checkpoint a snapshot was captured against: path
/// plus file size.
#[derive(Debug, PartialEq, Eq, Hash)]
pub struct ModelStamp {
    pub gguf_path: String,
    pub file_len: u64,
}

impl View for ModelStamp {
    type V = (Seq<char>, u64);

    open spec fn view(&self) -> (Seq<char>, u64) {
        (self.gguf_path@, self.file_len)
    }
}

impl Clone for ModelStamp {
    fn clone(&self) -> (r: Self)
        ensures
            r@ == self@,
    {
        ModelStamp { gguf_path: self.gguf_path.clone(), file_len: self.file_len }
    }
}

impl ModelStamp {
    /// Whether two stamps name the same checkpoint.
    pub fn same(&self, other: &ModelStamp) -> (r: bool)
        ensures
            r == (self@ == other@),
    {
        self.gguf_path == other.gguf_path && self.file_len == other.file_len
    }
}

/// The cache configuration a snapshot's layout depends on.
#[derive(Debug, Clone, Copy, PartialEq, Eq, Hash, Structural)]
pub struct KvConfigStamp {
    pub mode: KvCacheMode,
    pub ctx: usize,
}

/// One linear-attention layer's convolution and recurrence state.
#[derive(Debug, Clone, PartialEq)]
pub struct GdnLayerBytes {
    pub conv_state: Vec<F32Bits>,
    pub state: Vec<F32Bits>,
}

/// What a [`GdnLayerBytes`] holds.
#[verifier::ext_equal]
pub struct GdnModel {
    pub conv_state: Seq<u32>,
    pub state: Seq<u32>,
}

impl View for GdnLayerBytes {
    type V = GdnModel;

    open spec fn view(&self) -> GdnModel {
        GdnModel { conv_state: self.conv_state@, state: self.state@ }
    }
}

impl GdnModel {
    /// Bytes of payload: four per value.
    pub open spec fn byte_size(self) -> nat {
        (self.conv_state.len() + self.state.len()) * 4
    }
}

impl GdnLayerBytes {
    /// Bytes of payload this layer's state takes.
    pub fn byte_size(&self) -> (r: usize)
        requires
            self@.byte_size() <= usize::MAX,
        ensures
            r == self@.byte_size(),
    {
        (self.conv_state.len() + self.state.len()) * 4
    }
}

/// One full-attention layer's key/value state. Every vector holds only what
/// was filled at capture time, never the allocated capacity.
#[allow(inconsistent_fields)]
#[derive(Debug, Clone, PartialEq)]
pub enum AttnLayerBytes {
    DenseF16 { k: Vec<F16Bits>, v: Vec<F16Bits> },
    DenseF32 { k: Vec<F32Bits>, v: Vec<F32Bits> },
    Mixed {
        sink_k: Vec<F16Bits>,
        sink_v: Vec<F16Bits>,
        window_k: Vec<F16Bits>,
        window_v: Vec<F16Bits>,
        bulk_k_codes: Vec<i8>,
        bulk_k_scales: Vec<F32Bits>,
        bulk_v_codes: Vec<u8>,
        bulk_v_scales: Vec<F32Bits>,
        window_base: u32,
        v_bits: u8,
    },
}

/// What an [`AttnLayerBytes`] holds.
#[allow(inconsistent_fields)]
#[verifier::ext_equal]
pub enum AttnModel {
    DenseF16 { k: Seq<u16>, v: Seq<u16> },
    DenseF32 { k: Seq<u32>, v: Seq<u32> },
    Mixed {
        sink_k: Seq<u16>,
        sink_v: Seq<u16>,
        window_k: Seq<u16>,
        window_v: Seq<u16>,
        bulk_k_codes: Seq<i8>,
        bulk_k_scales: Seq<u32>,
        bulk_v_codes: Seq<u8>,
        bulk_v_scales: Seq<u32>,
        window_base: u32,
        v_bits: u8,
    },
}

impl View for AttnLayerBytes {
    type V = AttnModel;

    open spec fn view(&self) -> AttnModel {
        match *self {
            AttnLayerBytes::DenseF16 { k, v } => AttnModel::DenseF16 { k: k@, v: v@ },
            AttnLayerBytes::DenseF32 { k, v } => AttnModel::DenseF32 { k: k@, v: v@ },
            AttnLayerBytes::Mixed {
                sink_k,
                sink_v,
                window_k,
                window_v,
                bulk_k_codes,
                bulk_k_scales,
                bulk_v_codes,
                bulk_v_scales,
                window_base,
                v_bits,
            } => AttnModel::Mixed {
                sink_k: sink_k@,
                sink_v: sink_v@,
                window_k: window_k@,
                window_v: window_v@,
                bulk_k_codes: bulk_k_codes@,
                bulk_k_scales: bulk_k_scales@,
                bulk_v_codes: bulk_v_codes@,
                bulk_v_scales: bulk_v_scales@,
                window_base,
                v_bits,
            },
        }
    }
}

impl AttnModel {
    /// Bytes of payload: two per half, four per single, one per code.
    pub open spec fn byte_size(self) -> nat {
        match self {
            AttnModel::DenseF16 { k, v } => (k.len() + v.len()) * 2,
            AttnModel::DenseF32 { k, v } => (k.len() + v.len()) * 4,
            AttnModel::Mixed {
                sink_k,
                sink_v,
                window_k,
                window_v,
                bulk_k_codes,
                bulk_k_scales,
                bulk_v_codes,
                bulk_v_scales,
                ..
            } => (sink_k.len() + sink_v.len() + window_k.len() + window_v.len()) * 2
                + bulk_k_codes.len() + bulk_k_scales.len() * 4 + bulk_v_codes.len()
                + bulk_v_scales.len() * 4,
        }
    }
}

impl AttnLayerBytes {
    /// Bytes of payload this layer's state takes.
    pub fn byte_size(&self) -> (r: usize)
        requires
            self@.byte_size() <= usize::MAX,
        ensures
            r == self@.byte_size(),
    {
        match self {
            AttnLayerBytes::DenseF16 { k, v } => (k.len() + v.len()) * 2,
            AttnLayerBytes::DenseF32 { k, v } => (k.len() + v.len()) * 4,
            AttnLayerBytes::Mixed {
                sink_k,
                sink_v,
                window_k,
                window_v,
                bulk_k_codes,
                bulk_k_scales,
                bulk_v_codes,
                bulk_v_scales,
                ..
            } => (sink_k.len() + sink_v.len() + window_k.len() + window_v.len()) * 2
                + bulk_k_codes.len() + bulk_k_scales.len() * 4 + bulk_v_codes.len()
                + bulk_v_scales.len() * 4,
        }
    }
}

/// The full content of one immutable snapshot: the position, the token ids
/// of the prefix it was captured from, and every layer's state.
#[derive(Debug, Clone, PartialEq)]
pub struct SnapshotData {
    pub position: u32,
    pub token_ids: Vec<u32>,
    pub gdn: Vec<Option<GdnLayerBytes>>,
    pub attn: Vec<Option<AttnLayerBytes>>,
}

/// What a [`SnapshotData`] holds.
#[verifier::ext_equal]
pub struct SnapshotModel {
    pub position: u32,
    pub token_ids: Seq<u32>,
    pub gdn: Seq<Option<GdnModel>>,
    pub attn: Seq<Option<AttnModel>>,
}

/// The content of an optional linear-attention layer.
pub open spec fn gdn_view(layer: Option<GdnLayerBytes>) -> Option<GdnModel> {
    match layer {
        None => None,
        Some(g) => Some(g@),
    }
}

/// The content of an optional full-attention layer.
pub open spec fn attn_view(layer: Option<AttnLayerBytes>) -> Option<AttnModel> {
    match layer {
        None => None,
        Some(a) => Some(a@),
    }
}

/// The contents of a run of linear-attention layers.
pub open spec fn gdn_views(layers: Seq<Option<GdnLayerBytes>>) -> Seq<Option<GdnModel>> {
    layers.map_values(|l: Option<GdnLayerBytes>| gdn_view(l))
}

/// The contents of a run of full-attention layers.
pub open spec fn attn_views(layers: Seq<Option<AttnLayerBytes>>) -> Seq<Option<AttnModel>> {
    layers.map_values(|l: Option<AttnLayerBytes>| attn_view(l))
}

impl View for SnapshotData {
    type V = SnapshotModel;

    open spec fn view(&self) -> SnapshotModel {
        SnapshotModel {
            position: self.position,
            token_ids: self.token_ids@,
            gdn: gdn_views(self.gdn@),
            attn: attn_views(self.attn@),
        }
    }
}

/// Payload bytes of a run of linear-attention layers; absent ones take none.
pub open spec fn gdn_total(layers: Seq<Option<GdnModel>>) -> nat
    decreases layers.len(),
{
    if layers.len() == 0 {
        0
    } else {
        gdn_total(layers.drop_last()) + match layers.last() {
            None => 0,
            Some(g) => g.byte_size(),
        }
    }
}

/// Payload bytes of a run of full-attention layers; absent ones take none.
pub open spec fn attn_total(layers: Seq<Option<AttnModel>>) -> nat
    decreases layers.len(),
{
    if layers.len() == 0 {
        0
    } else {
        attn_total(layers.drop_last()) + match layers.last() {
            None => 0,
            Some(a) => a.byte_size(),
        }
    }
}

proof fn lemma_gdn_total_take(layers: Seq<Option<GdnModel>>, n: int)
    requires
        0 <= n <= layers.len(),
    ensures
        gdn_total(layers.take(n)) <= gdn_total(layers),
    decreases layers.len() - n,
{
    if n < layers.len() {
        lemma_gdn_total_take(layers, n + 1);
        assert(layers.take(n + 1).drop_last() =~= layers.take(n));
    } else {
        assert(layers.take(n) =~= layers);
    }
}

proof fn lemma_attn_total_take(layers: Seq<Option<AttnModel>>, n: int)
    requires
        0 <= n <= layers.len(),
    ensures
        attn_total(layers.take(n)) <= attn_total(layers),
    decreases layers.len() - n,
{
    if n < layers.len() {
        lemma_attn_total_take(layers, n + 1);
        assert(layers.take(n + 1).drop_last() =~= layers.take(n));
    } else {
        assert(layers.take(n) =~= layers);
    }
}

impl SnapshotModel {
    /// Bytes of payload: every layer's, plus four per token id.
    pub open spec fn byte_size(self) -> nat {
        gdn_total(self.gdn) + attn_total(self.attn) + self.token_ids.len() * 4
    }
}

impl SnapshotData {
    /// Bytes of payload this snapshot takes.
    pub fn byte_size(&self) -> (r: usize)
        requires
            self@.byte_size() <= usize::MAX,
        ensures
            r == self@.byte_size(),
    {
        let mut total: usize = 0;
        let mut i: usize = 0;
        let ghost g = self@.gdn;
        let ghost a = self@.attn;
        proof {
            assert(g.take(0) =~= Seq::empty());
            assert(a.take(0) =~= Seq::empty());
        }
        while i < self.gdn.len()
            invariant
                g == gdn_views(self.gdn@),
                i <= self.gdn@.len(),
                gdn_total(g) <= usize::MAX,
                total == gdn_total(g.take(i as int)),
            decreases self.gdn@.len() - i,
        {
            proof {
                assert(g.take(i + 1).drop_last() =~= g.take(i as int));
                assert(g.take(i + 1).last() == gdn_view(self.gdn@[i as int]));
                lemma_gdn_total_take(g, i + 1);
            }
            match &self.gdn[i] {
                None => {},
                Some(layer) => {
                    total = total + layer.byte_size();
                },
            }
            i = i + 1;
        }
        proof {
            assert(g.take(i as int) =~= g);
        }
        let mut j: usize = 0;
        while j < self.attn.len()
            invariant
                a == attn_views(self.attn@),
                j <= self.attn@.len(),
                gdn_total(g) + attn_total(a) <= usize::MAX,
                total == gdn_total(g) + attn_total(a.take(j as int)),
            decreases self.attn@.len() - j,
        {
            proof {
                assert(a.take(j + 1).drop_last() =~= a.take(j as int));
                assert(a.take(j + 1).last() == attn_view(self.attn@[j as int]));
                lemma_attn_total_take(a, j + 1);
            }
            match &self.attn[j] {
                None => {},
                Some(layer) => {
                    total = total + layer.byte_size();
                },
            }
            j = j + 1;
        }
        proof {
            assert(a.take(j as int) =~= a);
        }
        total + self.token_ids.len() * 4
    }
}

/// Identity a stored snapshot is addressed by. The chain hash is a fast
/// pre-filter only: a match is accepted on the token ids themselves.
#[derive(Debug, PartialEq, Eq, Hash)]
pub struct SnapshotKey {
    pub model: ModelStamp,
    pub kv: KvConfigStamp,
    pub position: u32,
    pub chain_hash: u64,
}

/// What a [`SnapshotKey`] holds.
pub struct KeyModel {
    pub model: (Seq<char>, u64),
    pub kv: KvConfigStamp,
    pub position: u32,
    pub chain_hash: u64,
}

impl View for SnapshotKey {
    type V = KeyModel;

    open spec fn view(&self) -> KeyModel {
        KeyModel {
            model: self.model@,
            kv: self.kv,
            position: self.position,
            chain_hash: self.chain_hash,
        }
    }
}

impl SnapshotKey {
    /// Whether two keys address the same snapshot.
    pub fn same(&self, other: &SnapshotKey) -> (r: bool)
        ensures
            r == (self@ == other@),
    {
        self.model.same(&other.model) && self.kv == other.kv && self.position == other.position
            && self.chain_hash == other.chain_hash
    }
}

} // verus!
