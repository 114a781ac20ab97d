//! Routed-expert tensors: where one expert's bytes lie inside a tensor that
//! holds every expert of a layer, one after the other.

use crate::error::{ConfigError, TensorAxis};
use vstd::prelude::*;

verus! {

/// A routed-expert tensor's shape and the bytes each expert takes.
#[derive(Debug, Clone, Copy, PartialEq, Eq, Structural)]
pub struct ExpertTensorMeta {
    /// Output rows.
    pub m: u32,
    /// Reduction width.
    pub n: u32,
    pub per_expert_bytes: usize,
}

/// What a tensor is stored as: its dimensions (innermost first), the block
/// layout of its element type, and its length in bytes.
pub struct StoredTensor {
    pub shape: Seq<u64>,
    pub block_elements: nat,
    pub block_bytes: nat,
    pub data_len: nat,
}

/// Bytes one expert takes: whole blocks for `m * n` elements.
pub open spec fn expert_bytes_of(m: nat, n: nat, block_elements: nat, block_bytes: nat) -> nat {
    (m * n / block_elements) * block_bytes
}

/// What is wrong with a stored tensor, if anything; the first check that
/// fails decides.
pub open spec fn tensor_error(t: StoredTensor, m: u32, n: u32, experts: u32) -> Option<ConfigError> {
    if t.shape.len() != 3 {
        Some(ConfigError::TensorNotThreeDimensional { dims: t.shape.len() as usize })
    } else if t.shape[0] > u32::MAX {
        Some(ConfigError::TensorDimOverflow { axis: TensorAxis::N, value: t.shape[0] })
    } else if t.shape[1] > u32::MAX {
        Some(ConfigError::TensorDimOverflow { axis: TensorAxis::M, value: t.shape[1] })
    } else if t.shape[2] > u32::MAX {
        Some(ConfigError::TensorDimOverflow { axis: TensorAxis::Experts, value: t.shape[2] })
    } else if t.shape[0] != n || t.shape[1] != m || t.shape[2] != experts {
        Some(
            ConfigError::TensorShapeMismatch {
                n: t.shape[0] as u32,
                m: t.shape[1] as u32,
                experts: t.shape[2] as u32,
            },
        )
    } else if t.block_elements == 0 {
        Some(ConfigError::NoBlockLayout)
    } else if (m * n) as nat % t.block_elements != 0 {
        Some(
            ConfigError::NotBlockMultiple {
                elements: (m * n) as usize,
                block: t.block_elements as usize,
            },
        )
    } else {
        let each = expert_bytes_of(m as nat, n as nat, t.block_elements, t.block_bytes);
        if each * experts as nat > usize::MAX {
            Some(ConfigError::TensorBytesOverflow)
        } else if t.data_len != each * experts as nat {
            Some(
                ConfigError::TensorBytesMismatch {
                    found: t.data_len as usize,
                    expected: (each * experts as nat) as usize,
                },
            )
        } else {
            None
        }
    }
}

/// A tensor is whole: so many rows of so many numbers for so many experts,
/// each expert in blocks of its own, and nothing else.
pub open spec fn is_whole(t: StoredTensor, m: u32, n: u32, experts: u32, blocks: nat) -> bool {
    &&& t.shape.len() == 3
    &&& t.shape[0] == n && t.shape[1] == m && t.shape[2] == experts
    &&& 0 < t.block_elements
    &&& m * n == blocks * t.block_elements
    &&& t.data_len == blocks * t.block_bytes * experts as nat
    &&& t.data_len <= usize::MAX
}

/// A tensor is accepted exactly if it is whole, and then an expert's bytes
/// are those of its blocks.
pub proof fn law_whole_tensors_are_accepted(t: StoredTensor, m: u32, n: u32, experts: u32)
    ensures
        tensor_error(t, m, n, experts) is None <==> exists|blocks: nat|
            #[trigger] is_whole(t, m, n, experts, blocks),
        forall|blocks: nat| #[trigger]
            is_whole(t, m, n, experts, blocks) ==> expert_bytes_of(
                m as nat,
                n as nat,
                t.block_elements,
                t.block_bytes,
            ) == blocks * t.block_bytes,
{
    let elements = (m * n) as nat;
    let b = t.block_elements;
    assert forall|blocks: nat| #[trigger] is_whole(t, m, n, experts, blocks) implies {
        &&& elements % b == 0
        &&& elements / b == blocks
    } by {
        vstd::arithmetic::div_mod::lemma_fundamental_div_mod_converse(
            elements as int,
            b as int,
            blocks as int,
            0,
        );
    }
    if tensor_error(t, m, n, experts) is None {
        vstd::arithmetic::div_mod::lemma_fundamental_div_mod(elements as int, b as int);
        let blocks = elements / b;
        assert(elements == blocks * b) by (nonlinear_arith)
            requires
                elements == b * (elements / b) + elements % b,
                elements % b == 0,
                blocks == elements / b,
        ;
        assert(is_whole(t, m, n, experts, blocks));
    }
}

/// A refusal of a tensor tells what the tensor is, and that is not what it
/// should be.
pub proof fn law_refused_tensor_is_described(t: StoredTensor, m: u32, n: u32, experts: u32)
    requires
        t.shape.len() <= usize::MAX,
        t.data_len <= usize::MAX,
        tensor_error(t, m, n, experts) is Some,
    ensures
        match tensor_error(t, m, n, experts)->0 {
            ConfigError::TensorNotThreeDimensional { dims } => dims == t.shape.len() && dims != 3,
            ConfigError::TensorDimOverflow { axis, value } => {
                &&& value > u32::MAX
                &&& match axis {
                    TensorAxis::N => value == t.shape[0],
                    TensorAxis::M => value == t.shape[1],
                    TensorAxis::Experts => value == t.shape[2],
                }
            },
            ConfigError::TensorShapeMismatch { n: a, m: b, experts: e } => {
                &&& t.shape =~= seq![a as u64, b as u64, e as u64]
                &&& (a, b, e) != (n, m, experts)
            },
            ConfigError::NoBlockLayout => t.block_elements == 0,
            ConfigError::NotBlockMultiple { .. } => forall|blocks: nat|
                #![trigger blocks * t.block_elements]
                m * n != blocks * t.block_elements,
            ConfigError::TensorBytesOverflow => expert_bytes_of(
                m as nat,
                n as nat,
                t.block_elements,
                t.block_bytes,
            ) * experts as nat > usize::MAX,
            ConfigError::TensorBytesMismatch { found, expected } => found == t.data_len && found
                != expected && expected == expert_bytes_of(
                m as nat,
                n as nat,
                t.block_elements,
                t.block_bytes,
            ) * experts as nat,
            _ => false,
        },
{
    let elements = (m * n) as nat;
    let b = t.block_elements;
    if tensor_error(t, m, n, experts)->0 is NotBlockMultiple {
        assert forall|blocks: nat| #![trigger blocks * b] m * n != blocks * b by {
            if m * n == blocks * b {
                vstd::arithmetic::div_mod::lemma_fundamental_div_mod_converse(
                    elements as int,
                    b as int,
                    blocks as int,
                    0,
                );
            }
        }
    }
}

fn dim(value: u64, axis: TensorAxis) -> (r: Result<u32, ConfigError>)
    ensures
        r == (if value > u32::MAX {
            Err::<u32, ConfigError>(ConfigError::TensorDimOverflow { axis, value })
        } else {
            Ok::<u32, ConfigError>(value as u32)
        }),
{
    if value > u32::MAX as u64 {
        Err(ConfigError::TensorDimOverflow { axis, value })
    } else {
        Ok(value as u32)
    }
}

impl ExpertTensorMeta {
    /// Checks a stored tensor against the shape the model declares.
    pub fn load(
        shape: &[u64],
        block_elements: usize,
        block_bytes: usize,
        data_len: usize,
        expected_m: u32,
        expected_n: u32,
        expected_experts: u32,
    ) -> (r: Result<Self, ConfigError>)
        requires
            expected_m * expected_n <= usize::MAX,
            block_elements > 0 ==> expert_bytes_of(
                expected_m as nat,
                expected_n as nat,
                block_elements as nat,
                block_bytes as nat,
            ) <= usize::MAX,
        ensures
            match tensor_error(
                (StoredTensor {
                    shape: shape@,
                    block_elements: block_elements as nat,
                    block_bytes: block_bytes as nat,
                    data_len: data_len as nat,
                }),
                expected_m,
                expected_n,
                expected_experts,
            ) {
                Some(e) => r == Err::<Self, ConfigError>(e),
                None => r == Ok::<Self, ConfigError>(
                    ExpertTensorMeta {
                        m: expected_m,
                        n: expected_n,
                        per_expert_bytes: expert_bytes_of(
                            expected_m as nat,
                            expected_n as nat,
                            block_elements as nat,
                            block_bytes as nat,
                        ) as usize,
                    },
                ),
            },
    {
        if shape.len() != 3 {
            return Err(ConfigError::TensorNotThreeDimensional { dims: shape.len() });
        }
        let n: u32 = match dim(shape[0], TensorAxis::N) {
            Ok(x) => x,
            Err(e) => {
                return Err(e);
            },
        };
        let m: u32 = match dim(shape[1], TensorAxis::M) {
            Ok(x) => x,
            Err(e) => {
                return Err(e);
            },
        };
        let experts: u32 = match dim(shape[2], TensorAxis::Experts) {
            Ok(x) => x,
            Err(e) => {
                return Err(e);
            },
        };
        if n != expected_n || m != expected_m || experts != expected_experts {
            return Err(ConfigError::TensorShapeMismatch { n, m, experts });
        }
        if block_elements == 0 {
            return Err(ConfigError::NoBlockLayout);
        }
        let elements: usize = m as usize * n as usize;
        if elements % block_elements != 0 {
            return Err(ConfigError::NotBlockMultiple { elements, block: block_elements });
        }
        let per_expert_bytes: usize = (elements / block_elements) * block_bytes;
        let expected_total: usize = match per_expert_bytes.checked_mul(experts as usize) {
            Some(t) => t,
            None => {
                return Err(ConfigError::TensorBytesOverflow);
            },
        };
        if data_len != expected_total {
            return Err(
                ConfigError::TensorBytesMismatch { found: data_len, expected: expected_total },
            );
        }
        Ok(ExpertTensorMeta { m, n, per_expert_bytes })
    }

    /// The byte range of one expert inside a tensor of `data_len` bytes.
    pub fn expert_bytes(&self, data_len: usize, expert: u32) -> (r: Result<
        (usize, usize),
        ConfigError,
    >)
        ensures
            r == (if (expert + 1) * self.per_expert_bytes <= data_len {
                Ok::<(usize, usize), ConfigError>(
                    (
                        (expert * self.per_expert_bytes) as usize,
                        ((expert + 1) * self.per_expert_bytes) as usize,
                    ),
                )
            } else {
                Err::<(usize, usize), ConfigError>(
                    ConfigError::ExpertSliceOutOfRange {
                        expert,
                        bytes: data_len,
                        per_expert: self.per_expert_bytes,
                    },
                )
            }),
    {
        let out_of_range = ConfigError::ExpertSliceOutOfRange {
            expert,
            bytes: data_len,
            per_expert: self.per_expert_bytes,
        };
        proof {
            let p = self.per_expert_bytes as int;
            assert((expert + 1) * p == expert * p + p) by (nonlinear_arith);
            assert(expert * p >= 0) by (nonlinear_arith)
                requires
                    p >= 0,
            ;
        }
        let start: usize = match (expert as usize).checked_mul(self.per_expert_bytes) {
            Some(s) => s,
            None => {
                return Err(out_of_range);
            },
        };
        let end: usize = match start.checked_add(self.per_expert_bytes) {
            Some(e) => e,
            None => {
                return Err(out_of_range);
            },
        };
        if end <= data_len {
            Ok((start, end))
        } else {
            Err(out_of_range)
        }
    }
}

/// In a tensor that passed its checks, exactly the experts the model has get
/// a slice; each slice has one expert's bytes, and slices of different
/// experts never overlap.
pub proof fn law_expert_slices_partition_the_tensor(per: nat, experts: nat, a: nat, b: nat)
    requires
        a < b,
    ensures
        per > 0 ==> ((b + 1) * per <= per * experts <==> b < experts),
        (a + 1) * per - a * per == per,
        (a + 1) * per <= b * per,
{
    assert((a + 1) * per - a * per == per) by (nonlinear_arith);
    assert((a + 1) * per <= b * per) by (nonlinear_arith)
        requires
            a + 1 <= b,
    ;
    if per > 0 {
        if b < experts {
            assert((b + 1) * per <= per * experts) by (nonlinear_arith)
                requires
                    b + 1 <= experts,
            ;
        } else {
            assert((b + 1) * per > per * experts) by (nonlinear_arith)
                requires
                    b + 1 > experts,
                    per > 0,
            ;
        }
    }
}

/// The three routed-expert tensors of one layer.
#[derive(Debug, Clone, Copy, PartialEq, Eq, Structural)]
pub struct MoeFfnWeights {
    pub gate: ExpertTensorMeta,
    pub up: ExpertTensorMeta,
    pub down: ExpertTensorMeta,
}

pub open spec fn max2(a: nat, b: nat) -> nat {
    if a < b {
        b
    } else {
        a
    }
}

fn larger(a: usize, b: usize) -> (r: usize)
    ensures
        r == max2(a as nat, b as nat),
{
    if a < b {
        b
    } else {
        a
    }
}

impl MoeFfnWeights {
    /// The largest of the three per-expert sizes.
    pub fn max_expert_bytes(&self) -> (r: usize)
        ensures
            r == max2(
                max2(self.gate.per_expert_bytes as nat, self.up.per_expert_bytes as nat),
                self.down.per_expert_bytes as nat,
            ),
    {
        larger(
            larger(self.gate.per_expert_bytes, self.up.per_expert_bytes),
            self.down.per_expert_bytes,
        )
    }
}

/// The largest per-expert size of each kind over the layers that route; each
/// is zero when none does.
pub open spec fn stride_maxima(layers: Seq<Option<MoeFfnWeights>>) -> (nat, nat, nat)
    decreases layers.len(),
{
    if layers.len() == 0 {
        (0, 0, 0)
    } else {
        let (g, u, d) = stride_maxima(layers.drop_last());
        match layers.last() {
            None => (g, u, d),
            Some(w) => (
                max2(g, w.gate.per_expert_bytes as nat),
                max2(u, w.up.per_expert_bytes as nat),
                max2(d, w.down.per_expert_bytes as nat),
            ),
        }
    }
}

/// Slot strides: the model-wide largest per-expert size of each kind.
pub fn per_tensor_max_bytes(layers: &[Option<MoeFfnWeights>]) -> (r: (usize, usize, usize))
    ensures
        (r.0 as nat, r.1 as nat, r.2 as nat) == stride_maxima(layers@),
{
    let mut g: usize = 0;
    let mut u: usize = 0;
    let mut d: usize = 0;
    let mut i: usize = 0;
    proof {
        assert(layers@.take(0) =~= Seq::empty());
    }
    while i < layers.len()
        invariant
            i <= layers@.len(),
            (g as nat, u as nat, d as nat) == stride_maxima(layers@.take(i as int)),
        decreases layers@.len() - i,
    {
        proof {
            assert(layers@.take(i + 1).drop_last() =~= layers@.take(i as int));
        }
        if let Some(w) = layers[i] {
            g = larger(g, w.gate.per_expert_bytes);
            u = larger(u, w.up.per_expert_bytes);
            d = larger(d, w.down.per_expert_bytes);
        }
        i = i + 1;
    }
    proof {
        assert(layers@.take(i as int) =~= layers@);
    }
    (g, u, d)
}

/// The bytes of the staging buffers used without a cache: the largest
/// per-expert size of any kind over the layers that route.
pub fn max_expert_bytes(layers: &[Option<MoeFfnWeights>]) -> (r: usize)
    ensures
        r == max2(
            max2(stride_maxima(layers@).0, stride_maxima(layers@).1),
            stride_maxima(layers@).2,
        ),
{
    let (g, u, d) = per_tensor_max_bytes(layers);
    larger(larger(g, u), d)
}

/// Number of layers that route.
pub open spec fn routing_layers(layers: Seq<Option<MoeFfnWeights>>) -> nat
    decreases layers.len(),
{
    if layers.len() == 0 {
        0
    } else {
        routing_layers(layers.drop_last()) + if layers.last() is Some {
            1nat
        } else {
            0nat
        }
    }
}

/// Number of layers that route.
pub fn count_routing(layers: &[Option<MoeFfnWeights>]) -> (r: usize)
    ensures
        r == routing_layers(layers@),
        r <= layers@.len(),
{
    let mut count: usize = 0;
    let mut i: usize = 0;
    proof {
        assert(layers@.take(0) =~= Seq::empty());
    }
    while i < layers.len()
        invariant
            i <= layers@.len(),
            count == routing_layers(layers@.take(i as int)),
            count <= i,
        decreases layers@.len() - i,
    {
        proof {
            assert(layers@.take(i + 1).drop_last() =~= layers@.take(i as int));
        }
        if layers[i].is_some() {
            count = count + 1;
        }
        i = i + 1;
    }
    proof {
        assert(layers@.take(i as int) =~= layers@);
    }
    count
}

/// Number of layer and expert pairs in the model.
pub fn total_distinct_experts(layers: &[Option<MoeFfnWeights>], expert_count: u32) -> (r: usize)
    requires
        routing_layers(layers@) * expert_count <= usize::MAX,
    ensures
        r == routing_layers(layers@) * expert_count,
{
    count_routing(layers) * expert_count as usize
}

/// Every routing layer's experts fit the strides.
pub proof fn law_strides_hold_every_expert(layers: Seq<Option<MoeFfnWeights>>, i: int)
    requires
        0 <= i < layers.len(),
        layers[i] is Some,
    ensures
        layers[i]->0.gate.per_expert_bytes <= stride_maxima(layers).0,
        layers[i]->0.up.per_expert_bytes <= stride_maxima(layers).1,
        layers[i]->0.down.per_expert_bytes <= stride_maxima(layers).2,
    decreases layers.len(),
{
    if i < layers.len() - 1 {
        law_strides_hold_every_expert(layers.drop_last(), i);
    }
}

} // verus!
