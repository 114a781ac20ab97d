//! What can go wrong, as data. Rendering a message is left to the caller.

use vstd::prelude::*;

verus! {

/// An axis of a routed-expert tensor.
#[derive(Debug, Clone, Copy, PartialEq, Eq, Structural)]
pub enum TensorAxis {
    /// Reduction width.
    N,
    /// Output rows.
    M,
    Experts,
}

/// A part of a mixed cache's captured state.
#[derive(Debug, Clone, Copy, PartialEq, Eq, Structural)]
pub enum PlaneField {
    SinkK,
    SinkV,
    WindowK,
    WindowV,
    BulkKCodes,
    BulkKScales,
    BulkVCodes,
    BulkVScales,
}

/// A configuration, checkpoint or internal-consistency error.
#[derive(Debug, Clone, Copy, PartialEq, Eq, Structural)]
pub enum ConfigError {
    /// The router produced a negative expert index.
    InvalidExpertIndex { raw: i32, expert_count: u32 },
    /// The router selected an expert the model does not have.
    ExpertOutOfRange { expert: u32, expert_count: u32 },
    /// A routed-expert tensor must have three dimensions.
    TensorNotThreeDimensional { dims: usize },
    /// A tensor dimension does not fit 32 bits.
    TensorDimOverflow { axis: TensorAxis, value: u64 },
    /// A routed-expert tensor does not have the shape the model declares.
    TensorShapeMismatch { n: u32, m: u32, experts: u32 },
    /// The element type has no block layout.
    NoBlockLayout,
    /// An expert's elements do not fill whole blocks.
    NotBlockMultiple { elements: usize, block: usize },
    /// A tensor's byte size does not fit a machine word.
    TensorBytesOverflow,
    /// A tensor has another number of bytes than its shape calls for.
    TensorBytesMismatch { found: usize, expected: usize },
    /// An expert's slice lies outside the tensor.
    ExpertSliceOutOfRange { expert: u32, bytes: usize, per_expert: usize },
    /// Draft-prediction blocks leave no forward-pass layers.
    NoForwardLayers { block_count: u32, nextn_layers: u32 },
    /// An expert count or width is zero.
    ZeroExpertDims,
    /// The number of selected experts is zero or exceeds the number there is.
    BadExpertUsedCount { used: u32, count: u32 },
    /// The embedding tensor must have two dimensions.
    EmbeddingNotTwoDimensional,
    /// The vocabulary size does not fit 32 bits.
    VocabOverflow { value: u64 },
    /// A state-space dimension is zero.
    ZeroSsmDims,
    /// The inner size is not a multiple of the value heads.
    InnerSizeNotMultiple { inner_size: u32, num_v_heads: u32 },
    /// The value heads are not a multiple of the key heads.
    ValueHeadsNotMultiple { num_v_heads: u32, num_k_heads: u32 },
    /// A model dimension is zero.
    ZeroModelDims,
    /// An attention dimension is zero.
    ZeroHeadDims,
    /// The query heads are not a multiple of the key/value heads.
    HeadsNotMultiple { head_count: u32, head_count_kv: u32 },
    /// The rotary width is zero, odd, or wider than a head.
    BadRopeDim { rope_dim_count: u32, head_dim: u32 },
    /// The vocabulary is empty.
    ZeroVocab,
    /// The model has no linear-attention layer.
    NoLinearLayers,
    /// A captured layer meant for a mixed cache is not one of those.
    PlaneNotMixed,
    /// A captured mixed layer stores its values in another width.
    VBitsMismatch { found: u8, expected: u8 },
    /// A part of a captured mixed layer has another length.
    PlaneLen { field: PlaneField, found: usize, expected: usize },
    /// No window of this cache starts there.
    WindowBase { window_base: u32, sink_len: u32, window_len: u32 },
    /// A captured dense layer has another length.
    PrefixLen { found: usize, expected: usize },
    /// A captured dense layer has another element type.
    PlaneDtype,
    /// A captured linear-attention layer has other lengths.
    GdnLen { conv_found: usize, conv_expected: usize, state_found: usize, state_expected: usize },
    /// A snapshot has another number of layers.
    LayerCount {
        gdn_found: usize,
        gdn_expected: usize,
        attn_found: usize,
        attn_expected: usize,
    },
    /// A snapshot has linear-attention state where the model has none, or
    /// the other way round.
    GdnKindMismatch,
    /// A snapshot has full-attention state where the model has none, or the
    /// other way round.
    AttnKindMismatch,
    /// A layer has no linear-attention state.
    NoGdnState { layer: usize },
    /// A layer has no key/value plane.
    NoAttnPlane { layer: usize },
    /// A layer that has to be dense uses the mixed cache.
    MixedPlane { layer: usize },
    /// Rewind storage was made for another cache.
    RewindLayout,
    /// A snapshot's tokens are not those that led to the current position.
    SnapshotTokens { found: usize, position: u32 },
    /// A rewind point's tokens are not those that led to the current position.
    RewindTokens { found: usize, position: u32 },
    /// A layer's weights are not of its kind.
    WeightKindMismatch { layer: usize },
    /// A chunk is longer than the chunk buffers hold.
    ChunkTooLong { chunk_len: usize, cap: u32 },
    /// A mixture-of-experts layer without the checkpoint it reads from.
    MoeNoCheckpoint,
    /// A mixture-of-experts layer without its configuration.
    MoeNoConfig,
    /// A mixture-of-experts layer without its buffers.
    MoeNoScratch,
    /// No mixture-of-experts layer waits for such a routing.
    MoeNoLayer,
    /// An expert was chosen more often in a chunk than the group buffers hold.
    GroupTooLarge { expert: u32, rows: usize, cap: u32 },
    /// The router's answer has another length than was asked for.
    RoutingLen { found: usize, expected: usize },
    /// A quantized cache needs a sink and a window of at least one position
    /// each, a window the kernels can launch, and both together shorter than
    /// the sequence.
    SinkWindow { sink: u32, window: u32, ctx: usize },
    /// A size of the model does not fit a machine word.
    SizeOverflow,
    /// The query projection must have two dimensions.
    QueryNotTwoDimensional,
    /// The query projection's rows do not fit 32 bits.
    QueryRowsOverflow { rows: u64 },
    /// The query projection has neither one nor two rows per query element.
    QueryRows { rows: u32, q_dim: u32 },
}

/// A metadata key of a checkpoint.
#[derive(Debug, Clone, Copy, PartialEq, Eq, Structural)]
pub enum MetaKey {
    Architecture,
    NextnPredictLayers,
    BlockCount,
    EmbeddingLength,
    HeadCount,
    HeadCountKv,
    KeyLength,
    RopeFreqBase,
    RopeDimensionCount,
    LayerNormRmsEpsilon,
    ContextLength,
    ExpertCount,
    ExpertUsedCount,
    ExpertFeedForwardLength,
    ExpertSharedFeedForwardLength,
    FeedForwardLength,
    TokenEmbedding,
    SsmConvKernel,
    SsmGroupCount,
    SsmTimeStepRank,
    SsmInnerSize,
    SsmStateSize,
}

/// Why a metadata value could not be had.
#[derive(Debug, Clone, Copy, PartialEq, Eq, Structural)]
pub enum MetaFault {
    Missing,
    /// Present, but not of the expected type.
    Unreadable,
}

/// Everything that can go wrong.
#[derive(Debug)]
pub enum RocmlError {
    Config(ConfigError),
    /// A metadata value could not be read.
    Metadata { key: MetaKey, fault: MetaFault },
    UnsupportedArchitecture { found: String },
    /// A sequence would outgrow the cache.
    ContextOverflow { requested: u32, max_seq: u32 },
    /// A sequence that long does not fit the device's memory.
    VramBudget { requested_ctx: usize, suggested_max_ctx: usize, breakdown: String },
    UnknownModel { name: String, known_names: String },
    ModelFileMissing { name: String, path: String, repo: String, file: String, local_dir: String },
}

/// What a [`RocmlError`] says.
#[verifier::ext_equal]
pub enum ErrorModel {
    Config(ConfigError),
    Metadata { key: MetaKey, fault: MetaFault },
    UnsupportedArchitecture { found: Seq<char> },
    ContextOverflow { requested: u32, max_seq: u32 },
    VramBudget { requested_ctx: usize, suggested_max_ctx: usize, breakdown: Seq<char> },
    UnknownModel { name: Seq<char>, known_names: Seq<char> },
    ModelFileMissing {
        name: Seq<char>,
        path: Seq<char>,
        repo: Seq<char>,
        file: Seq<char>,
        local_dir: Seq<char>,
    },
}

impl View for RocmlError {
    type V = ErrorModel;

    open spec fn view(&self) -> ErrorModel {
        match *self {
            RocmlError::Config(e) => ErrorModel::Config(e),
            RocmlError::Metadata { key, fault } => ErrorModel::Metadata { key, fault },
            RocmlError::UnsupportedArchitecture { found } => ErrorModel::UnsupportedArchitecture {
                found: found@,
            },
            RocmlError::ContextOverflow { requested, max_seq } => ErrorModel::ContextOverflow {
                requested,
                max_seq,
            },
            RocmlError::VramBudget { requested_ctx, suggested_max_ctx, breakdown } => {
                ErrorModel::VramBudget { requested_ctx, suggested_max_ctx, breakdown: breakdown@ }
            },
            RocmlError::UnknownModel { name, known_names } => ErrorModel::UnknownModel {
                name: name@,
                known_names: known_names@,
            },
            RocmlError::ModelFileMissing { name, path, repo, file, local_dir } => {
                ErrorModel::ModelFileMissing {
                    name: name@,
                    path: path@,
                    repo: repo@,
                    file: file@,
                    local_dir: local_dir@,
                }
            },
        }
    }
}

} // verus!
