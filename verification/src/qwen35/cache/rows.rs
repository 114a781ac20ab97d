//! Writing one position's keys and values into per-head planes.

use crate::load_opts::KvDtype;
use crate::qwen35::forward::plan::{At, Buf, Op};
use vstd::prelude::*;

verus! {

/// Moves one head's row into a plane, converting it where the plane is half
/// precision.
pub open spec fn row_op(dtype: KvDtype, src: Buf, dst: Buf, from: int, to: int, head_dim: u32) -> Op {
    let s = At { buf: src, offset: from as usize };
    let d = At { buf: dst, offset: to as usize };
    match dtype {
        KvDtype::F16 => Op::CastF16 { src: s, dst: d, len: head_dim },
        KvDtype::F32 => Op::CopyDevice { dst: d, src: s, len: head_dim as usize },
    }
}

/// Element at which a head's slot starts in a plane of `span` slots a head.
pub open spec fn slot_at(head: int, span: int, slot: int, head_dim: int) -> int {
    head * span * head_dim + slot * head_dim
}

/// Moves the first `heads` heads' rows of keys and values into a slot of
/// planes with `span` slots a head.
pub open spec fn row_ops(
    dtype: KvDtype,
    k_dst: Buf,
    v_dst: Buf,
    span: u32,
    slot: u32,
    heads: nat,
    head_dim: u32,
) -> Seq<Op>
    decreases heads,
{
    if heads == 0 {
        Seq::empty()
    } else {
        let h = heads - 1;
        let to = slot_at(h, span as int, slot as int, head_dim as int);
        row_ops(dtype, k_dst, v_dst, span, slot, h as nat, head_dim).push(
            row_op(dtype, Buf::AttnK, k_dst, h * head_dim, to, head_dim),
        ).push(row_op(dtype, Buf::AttnV, v_dst, h * head_dim, to, head_dim))
    }
}

/// A slot lies inside its head's part of the plane.
pub proof fn lemma_slot_in_plane(head: int, heads: int, span: int, slot: int, head_dim: int)
    requires
        0 <= head < heads,
        0 <= slot < span,
        0 <= head_dim,
    ensures
        0 <= head * span * head_dim,
        0 <= slot * head_dim,
        0 <= head * head_dim <= heads * span * head_dim,
        slot_at(head, span, slot, head_dim) + head_dim <= (head + 1) * span * head_dim,
        (head + 1) * span * head_dim <= heads * span * head_dim,
{
    assert(0 <= head * span) by (nonlinear_arith)
        requires
            0 <= head,
            0 < span,
    ;
    assert(0 <= head * span * head_dim) by (nonlinear_arith)
        requires
            0 <= head * span,
            0 <= head_dim,
    ;
    assert(0 <= slot * head_dim) by (nonlinear_arith)
        requires
            0 <= slot,
            0 <= head_dim,
    ;
    assert(slot * head_dim + head_dim <= span * head_dim) by (nonlinear_arith)
        requires
            slot + 1 <= span,
            0 <= head_dim,
    ;
    assert((head + 1) * span * head_dim == head * span * head_dim + span * head_dim)
        by (nonlinear_arith);
    assert((head + 1) * span <= heads * span) by (nonlinear_arith)
        requires
            head + 1 <= heads,
            0 < span,
    ;
    assert((head + 1) * span * head_dim <= heads * span * head_dim) by (nonlinear_arith)
        requires
            (head + 1) * span <= heads * span,
            0 <= head_dim,
    ;
    assert(0 <= head * head_dim) by (nonlinear_arith)
        requires
            0 <= head,
            0 <= head_dim,
    ;
    assert(head <= heads * span) by (nonlinear_arith)
        requires
            0 <= head < heads,
            1 <= span,
    ;
    assert(head * head_dim <= heads * span * head_dim) by (nonlinear_arith)
        requires
            head <= heads * span,
            0 <= head_dim,
    ;
}

/// Distinct heads and slots occupy disjoint elements of a plane.
pub proof fn law_slots_of_a_plane_are_disjoint(
    heads: int,
    span: int,
    head_dim: int,
    h1: int,
    s1: int,
    h2: int,
    s2: int,
)
    requires
        0 <= h1 < heads,
        0 <= h2 < heads,
        0 <= s1 < span,
        0 <= s2 < span,
        0 <= head_dim,
        h1 < h2 || (h1 == h2 && s1 < s2),
    ensures
        slot_at(h1, span, s1, head_dim) + head_dim <= slot_at(h2, span, s2, head_dim),
        slot_at(h2, span, s2, head_dim) + head_dim <= heads * span * head_dim,
{
    lemma_slot_in_plane(h1, heads, span, s1, head_dim);
    lemma_slot_in_plane(h2, heads, span, s2, head_dim);
    if h1 < h2 {
        assert((h1 + 1) * span * head_dim <= h2 * span * head_dim) by (nonlinear_arith)
            requires
                h1 + 1 <= h2,
                0 < span,
                0 <= head_dim,
        ;
    } else {
        assert(s1 * head_dim + head_dim <= s2 * head_dim) by (nonlinear_arith)
            requires
                s1 + 1 <= s2,
                0 <= head_dim,
        ;
    }
}

fn one_row(dtype: KvDtype, src: Buf, dst: Buf, from: usize, to: usize, head_dim: u32) -> (r: Op)
    ensures
        r == row_op(dtype, src, dst, from as int, to as int, head_dim),
{
    let s = At { buf: src, offset: from };
    let d = At { buf: dst, offset: to };
    match dtype {
        KvDtype::F16 => Op::CastF16 { src: s, dst: d, len: head_dim },
        KvDtype::F32 => Op::CopyDevice { dst: d, src: s, len: head_dim as usize },
    }
}

/// Appends the moves of every head's row into a slot.
pub fn push_rows(
    ops: &mut Vec<Op>,
    dtype: KvDtype,
    k_dst: Buf,
    v_dst: Buf,
    span: u32,
    slot: u32,
    heads: u32,
    head_dim: u32,
)
    requires
        slot < span,
        heads * span * head_dim <= usize::MAX,
    ensures
        final(ops)@ == old(ops)@ + row_ops(
            dtype,
            k_dst,
            v_dst,
            span,
            slot,
            heads as nat,
            head_dim,
        ),
{
    let ghost before = ops@;
    let mut h: u32 = 0;
    proof {
        assert(before + row_ops(dtype, k_dst, v_dst, span, slot, 0, head_dim) =~= before);
    }
    while h < heads
        invariant
            h <= heads,
            slot < span,
            heads * span * head_dim <= usize::MAX,
            ops@ == before + row_ops(dtype, k_dst, v_dst, span, slot, h as nat, head_dim),
        decreases heads - h,
    {
        proof {
            lemma_slot_in_plane(
                h as int,
                heads as int,
                span as int,
                slot as int,
                head_dim as int,
            );
            assert(h * span * head_dim == h * head_dim * span) by (nonlinear_arith);
            assert(0 <= h * span <= heads * span * head_dim || head_dim == 0) by (nonlinear_arith)
                requires
                    0 <= h <= heads,
                    0 < span,
                    0 <= head_dim,
            ;
        }
        let from: usize = h as usize * head_dim as usize;
        let to: usize = if head_dim == 0 {
            0
        } else {
            h as usize * span as usize * head_dim as usize + slot as usize * head_dim as usize
        };
        proof {
            if head_dim == 0 {
                assert(h * span * 0 == 0 && slot * 0 == 0) by (nonlinear_arith);
            }
        }
        ops.push(one_row(dtype, Buf::AttnK, k_dst, from, to, head_dim));
        ops.push(one_row(dtype, Buf::AttnV, v_dst, from, to, head_dim));
        h = h + 1;
        proof {
            assert(ops@ =~= before + row_ops(
                dtype,
                k_dst,
                v_dst,
                span,
                slot,
                h as nat,
                head_dim,
            ));
        }
    }
}

} // verus!
