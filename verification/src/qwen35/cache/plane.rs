//! State that is stored densely: a linear-attention layer's convolution and
//! recurrence state, and a full-attention layer's key/value plane.

use super::copies::{head_copies, head_prefix_copies, RangeCopy};
use super::rows::{push_rows, row_ops};
use crate::error::ConfigError;
use crate::load_opts::KvDtype;
use crate::qwen35::config::GdnConfig;
use crate::qwen35::forward::plan::{start, At, Buf, Op};
use crate::snapshot::types::{AttnLayerBytes, AttnModel, GdnLayerBytes, GdnModel};
use vstd::prelude::*;

verus! {

/// Element counts of a linear-attention layer's state, which does not grow
/// with the sequence.
#[derive(Debug, Clone, Copy, PartialEq, Eq, Structural)]
pub struct GdnLayerState {
    /// Convolution history: every channel's last inputs.
    pub conv_len: usize,
    /// Recurrence state: one matrix per value head.
    pub state_len: usize,
}

/// Elements of convolution history.
pub open spec fn conv_elems(gdn: GdnConfig) -> int {
    gdn.conv_dim * (gdn.conv_kernel - 1)
}

/// Elements of recurrence state.
pub open spec fn state_elems(gdn: GdnConfig) -> int {
    gdn.num_v_heads * gdn.head_k_dim * gdn.head_v_dim
}

/// A layer's state for these dimensions.
pub open spec fn gdn_state(gdn: GdnConfig) -> GdnLayerState {
    GdnLayerState { conv_len: conv_elems(gdn) as usize, state_len: state_elems(gdn) as usize }
}

/// What capturing or restoring a linear-attention layer moves: all of its
/// state.
#[derive(Debug, Clone, Copy, PartialEq, Eq, Structural)]
pub struct GdnTransfer {
    pub conv_len: usize,
    pub state_len: usize,
}

/// What moves a layer's state.
pub open spec fn gdn_transfer(s: GdnLayerState) -> GdnTransfer {
    GdnTransfer { conv_len: s.conv_len, state_len: s.state_len }
}

/// What keeps a captured linear-attention layer from being restored.
pub open spec fn gdn_restore_error(s: GdnLayerState, g: GdnModel) -> Option<ConfigError> {
    if g.conv_state.len() != s.conv_len || g.state.len() != s.state_len {
        Some(
            ConfigError::GdnLen {
                conv_found: g.conv_state.len() as usize,
                conv_expected: s.conv_len,
                state_found: g.state.len() as usize,
                state_expected: s.state_len,
            },
        )
    } else {
        None
    }
}

impl GdnLayerState {
    /// The state of a layer with these dimensions.
    pub fn new(gdn: &GdnConfig) -> (r: Self)
        requires
            gdn.conv_kernel >= 1,
            conv_elems(*gdn) <= usize::MAX,
            gdn.num_v_heads * gdn.head_k_dim <= usize::MAX,
            state_elems(*gdn) <= usize::MAX,
        ensures
            r == gdn_state(*gdn),
    {
        GdnLayerState {
            conv_len: gdn.conv_dim as usize * (gdn.conv_kernel as usize - 1),
            state_len: gdn.num_v_heads as usize * gdn.head_k_dim as usize
                * gdn.head_v_dim as usize,
        }
    }

    /// What capturing the layer moves.
    pub fn capture(&self) -> (r: GdnTransfer)
        ensures
            r == gdn_transfer(*self),
    {
        GdnTransfer { conv_len: self.conv_len, state_len: self.state_len }
    }

    /// Checks a captured layer, and tells what putting it back moves.
    pub fn restore(&self, bytes: &GdnLayerBytes) -> (r: Result<GdnTransfer, ConfigError>)
        ensures
            match gdn_restore_error(*self, bytes@) {
                Some(e) => r == Err::<GdnTransfer, ConfigError>(e),
                None => r == Ok::<GdnTransfer, ConfigError>(gdn_transfer(*self)),
            },
    {
        if bytes.conv_state.len() != self.conv_len || bytes.state.len() != self.state_len {
            return Err(
                ConfigError::GdnLen {
                    conv_found: bytes.conv_state.len(),
                    conv_expected: self.conv_len,
                    state_found: bytes.state.len(),
                    state_expected: self.state_len,
                },
            );
        }
        Ok(self.capture())
    }
}

/// A dense key/value plane: `[kv_head][max_seq][head_dim]` for keys and for
/// values.
#[derive(Debug, Clone, Copy, PartialEq, Eq, Structural)]
pub struct AttnPlane {
    dtype: KvDtype,
}

/// What a plane with elements of this type is.
pub closed spec fn plane_of(dtype: KvDtype) -> AttnPlane {
    AttnPlane { dtype }
}

/// What capturing or restoring a dense layer moves, for keys and values
/// alike: every head's filled positions.
#[derive(Debug)]
pub struct DenseTransfer {
    pub dtype: KvDtype,
    /// Elements on the host, of each of the two.
    pub len: usize,
    pub copies: Vec<RangeCopy>,
}

/// The sizes of a plane can be addressed.
pub open spec fn plane_fits(n_kv_heads: u32, max_seq: u32, head_dim: u32) -> bool {
    &&& n_kv_heads * max_seq <= usize::MAX
    &&& max_seq * head_dim <= usize::MAX
    &&& n_kv_heads * max_seq * head_dim <= usize::MAX
}

/// Whether a transfer moves the first `filled` positions of a plane.
pub open spec fn dense_transfers(
    dtype: KvDtype,
    n_kv_heads: u32,
    max_seq: u32,
    head_dim: u32,
    filled: u32,
    t: DenseTransfer,
) -> bool {
    &&& t.dtype == dtype
    &&& t.len == n_kv_heads * filled * head_dim
    &&& t.copies@ == head_copies(
        n_kv_heads as nat,
        (max_seq * head_dim) as nat,
        (filled * head_dim) as nat,
    )
}

/// What keeps a captured dense layer from being restored; the first check
/// that fails decides.
pub open spec fn dense_restore_error(dtype: KvDtype, expected: nat, a: AttnModel) -> Option<
    ConfigError,
> {
    let (k, v) = match a {
        AttnModel::DenseF16 { k, v } => (k.len(), v.len()),
        AttnModel::DenseF32 { k, v } => (k.len(), v.len()),
        _ => (0, 0),
    };
    let same = match a {
        AttnModel::DenseF16 { .. } => dtype == KvDtype::F16,
        AttnModel::DenseF32 { .. } => dtype == KvDtype::F32,
        _ => false,
    };
    if !same {
        Some(ConfigError::PlaneDtype)
    } else if k != expected {
        Some(ConfigError::PrefixLen { found: k as usize, expected: expected as usize })
    } else if v != expected {
        Some(ConfigError::PrefixLen { found: v as usize, expected: expected as usize })
    } else {
        None
    }
}

/// Bytes a capture of a dense layer takes.
pub open spec fn dense_bytes(dtype: KvDtype, elems: int) -> int {
    match dtype {
        KvDtype::F16 => elems * 2 * 2,
        KvDtype::F32 => elems * 4 * 2,
    }
}

/// The predicted size of a dense capture is the size of what is captured,
/// and what is captured can be restored.
pub proof fn law_dense_capture_is_predicted_and_accepted(dtype: KvDtype, elems: nat, a: AttnModel)
    requires
        match a {
            AttnModel::DenseF16 { k, v } => dtype == KvDtype::F16 && k.len() == elems && v.len()
                == elems,
            AttnModel::DenseF32 { k, v } => dtype == KvDtype::F32 && k.len() == elems && v.len()
                == elems,
            _ => false,
        },
    ensures
        a.byte_size() == dense_bytes(dtype, elems as int),
        dense_restore_error(dtype, elems, a) is None,
{
}

/// The products a plane's sizes are made of.
proof fn lemma_filled_fits(n: u32, max_seq: u32, hd: u32, filled: u32)
    requires
        plane_fits(n, max_seq, hd),
        filled <= max_seq,
    ensures
        0 <= n * filled <= n * max_seq,
        0 <= filled * hd <= max_seq * hd,
        0 <= n * filled * hd <= n * max_seq * hd,
        n * (max_seq * hd) == n * max_seq * hd,
{
    assert(0 <= n * filled <= n * max_seq && 0 <= filled * hd <= max_seq * hd)
        by (nonlinear_arith)
        requires
            filled <= max_seq,
    ;
    assert(0 <= n * filled * hd <= n * max_seq * hd) by (nonlinear_arith)
        requires
            0 <= n * filled <= n * max_seq,
    ;
    assert(n * (max_seq * hd) == n * max_seq * hd) by (nonlinear_arith);
}

/// Fails when a captured dense layer has another length than expected.
pub fn check_len(actual: usize, expected: usize) -> (r: Result<(), ConfigError>)
    ensures
        r == (if actual != expected {
            Err::<(), ConfigError>(ConfigError::PrefixLen { found: actual, expected })
        } else {
            Ok::<(), ConfigError>(())
        }),
{
    if actual != expected {
        return Err(ConfigError::PrefixLen { found: actual, expected });
    }
    Ok(())
}

impl AttnPlane {
    /// A plane with elements of this type.
    pub fn new(dtype: KvDtype) -> (r: Self)
        ensures
            r == plane_of(dtype),
            r.spec_dtype() == dtype,
    {
        AttnPlane { dtype }
    }

    /// Element type.
    pub closed spec fn spec_dtype(&self) -> KvDtype {
        self.dtype
    }

    /// Element type.
    pub fn dtype(&self) -> (r: KvDtype)
        ensures
            r == self.spec_dtype(),
            *self == plane_of(r),
    {
        self.dtype
    }

    /// Elements of the key buffer, and of the value buffer.
    pub fn plane_len(&self, n_kv_heads: u32, max_seq: u32, head_dim: u32) -> (r: usize)
        requires
            plane_fits(n_kv_heads, max_seq, head_dim),
        ensures
            r == n_kv_heads * max_seq * head_dim,
    {
        n_kv_heads as usize * max_seq as usize * head_dim as usize
    }

    /// Writes one position's keys and values.
    pub fn append(
        &self,
        ops: &mut Vec<Op>,
        pos: u32,
        max_seq: u32,
        n_kv_heads: u32,
        head_dim: u32,
    )
        requires
            pos < max_seq,
            plane_fits(n_kv_heads, max_seq, head_dim),
        ensures
            final(ops)@ == old(ops)@ + row_ops(
                self.spec_dtype(),
                Buf::PlaneK,
                Buf::PlaneV,
                max_seq,
                pos,
                n_kv_heads as nat,
                head_dim,
            ),
    {
        push_rows(
            ops,
            self.dtype,
            Buf::PlaneK,
            Buf::PlaneV,
            max_seq,
            pos,
            n_kv_heads,
            head_dim,
        );
    }

    /// Where a head starts in the plane.
    pub fn head_plane_offset(&self, kvh: u32, max_seq: u32, head_dim: u32) -> (r: usize)
        requires
            kvh * max_seq <= usize::MAX,
            kvh * max_seq * head_dim <= usize::MAX,
        ensures
            r == kvh * max_seq * head_dim,
    {
        kvh as usize * max_seq as usize * head_dim as usize
    }

    /// Where the keys start.
    pub fn k_ptr(&self) -> (r: At)
        ensures
            r == start(Buf::PlaneK),
    {
        start(Buf::PlaneK)
    }

    /// Where the values start.
    pub fn v_ptr(&self) -> (r: At)
        ensures
            r == start(Buf::PlaneV),
    {
        start(Buf::PlaneV)
    }

    /// What capturing the first `filled` positions moves.
    pub fn capture(&self, n_kv_heads: u32, max_seq: u32, head_dim: u32, filled: u32) -> (r:
        DenseTransfer)
        requires
            filled <= max_seq,
            plane_fits(n_kv_heads, max_seq, head_dim),
        ensures
            dense_transfers(self.spec_dtype(), n_kv_heads, max_seq, head_dim, filled, r),
    {
        proof {
            lemma_filled_fits(n_kv_heads, max_seq, head_dim, filled);
        }
        let hd: usize = head_dim as usize;
        DenseTransfer {
            dtype: self.dtype,
            len: n_kv_heads as usize * filled as usize * hd,
            copies: head_prefix_copies(
                n_kv_heads as usize,
                max_seq as usize * hd,
                filled as usize * hd,
            ),
        }
    }

    /// Checks a captured layer; what is left is to move the data.
    pub fn restore(
        &self,
        bytes: &AttnLayerBytes,
        n_kv_heads: u32,
        max_seq: u32,
        head_dim: u32,
        filled: u32,
    ) -> (r: Result<DenseTransfer, ConfigError>)
        requires
            filled <= max_seq,
            plane_fits(n_kv_heads, max_seq, head_dim),
        ensures
            match r {
                Err(e) => dense_restore_error(
                    self.spec_dtype(),
                    (n_kv_heads * filled * head_dim) as nat,
                    bytes@,
                ) == Some(e),
                Ok(t) => {
                    &&& dense_restore_error(
                        self.spec_dtype(),
                        (n_kv_heads * filled * head_dim) as nat,
                        bytes@,
                    ) is None
                    &&& dense_transfers(
                        self.spec_dtype(),
                        n_kv_heads,
                        max_seq,
                        head_dim,
                        filled,
                        t,
                    )
                },
            },
    {
        proof {
            lemma_filled_fits(n_kv_heads, max_seq, head_dim, filled);
        }
        let expected: usize = n_kv_heads as usize * filled as usize * head_dim as usize;
        let (k, v): (usize, usize) = match (self.dtype, bytes) {
            (KvDtype::F16, AttnLayerBytes::DenseF16 { k, v }) => (k.len(), v.len()),
            (KvDtype::F32, AttnLayerBytes::DenseF32 { k, v }) => (k.len(), v.len()),
            _ => {
                return Err(ConfigError::PlaneDtype);
            },
        };
        match check_len(k, expected) {
            Err(e) => {
                return Err(e);
            },
            Ok(_) => {},
        }
        match check_len(v, expected) {
            Err(e) => {
                return Err(e);
            },
            Ok(_) => {},
        }
        Ok(self.capture(n_kv_heads, max_seq, head_dim, filled))
    }

    /// Bytes a capture of the first `filled` positions takes.
    pub fn snapshot_byte_size(&self, n_kv_heads: u32, head_dim: u32, filled: u32) -> (r: usize)
        requires
            n_kv_heads * filled <= usize::MAX,
            dense_bytes(self.spec_dtype(), n_kv_heads * filled * head_dim) <= usize::MAX,
        ensures
            r == dense_bytes(self.spec_dtype(), n_kv_heads * filled * head_dim),
    {
        proof {
            assert(0 <= n_kv_heads * filled * head_dim) by (nonlinear_arith);
        }
        let elems: usize = n_kv_heads as usize * filled as usize * head_dim as usize;
        match self.dtype {
            KvDtype::F16 => elems * 2 * 2,
            KvDtype::F32 => elems * 4 * 2,
        }
    }
}

} // verus!
