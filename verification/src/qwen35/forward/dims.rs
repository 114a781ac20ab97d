//! The sizes a forward pass computes with fit 32 bits.

use crate::qwen35::config::{ConfigModel, MoeConfig, Qwen35Config};
use vstd::prelude::*;

verus! {

/// Width of all query heads together.
pub open spec fn q_dim(c: ConfigModel) -> int {
    c.head_count * c.head_dim
}

/// Width of all key/value heads together.
pub open spec fn kv_dim(c: ConfigModel) -> int {
    c.head_count_kv * c.head_dim
}

/// Rows of the query projection: an output gate doubles them.
pub open spec fn q_out(c: ConfigModel, gated: bool) -> int {
    if gated {
        2 * q_dim(c)
    } else {
        q_dim(c)
    }
}

/// Every size of a pass over `rows` tokens fits 32 bits.
pub open spec fn dims_fit(c: ConfigModel, rows: int) -> bool {
    &&& 1 <= rows
    &&& rows * c.head_count <= u32::MAX
    &&& rows * c.head_count_kv <= u32::MAX
    &&& rows * (2 * q_dim(c)) <= u32::MAX
    &&& rows * kv_dim(c) <= u32::MAX
    &&& rows * c.embedding_length <= u32::MAX
    &&& rows * c.feed_forward_length <= u32::MAX
    &&& rows * c.gdn.num_v_heads <= u32::MAX
    &&& rows * c.gdn.conv_dim <= u32::MAX
    &&& rows * c.gdn.value_dim <= u32::MAX
    &&& 2 * c.gdn.key_dim <= u32::MAX
    &&& c.moe matches Some(m) ==> moe_fits(m, rows)
}

/// Every size of a mixture-of-experts step over `rows` tokens fits 32 bits.
pub open spec fn moe_fits(m: MoeConfig, rows: int) -> bool {
    &&& rows * m.expert_count <= u32::MAX
    &&& rows * m.expert_used_count <= u32::MAX
    &&& rows * m.expert_ff_len <= u32::MAX
    &&& rows * m.shared_ff_len <= u32::MAX
}

/// What fits for many rows fits for fewer.
pub proof fn lemma_fewer_rows_fit(c: ConfigModel, rows: int, fewer: int)
    requires
        dims_fit(c, rows),
        1 <= fewer <= rows,
    ensures
        dims_fit(c, fewer),
{
    assert(0 <= q_dim(c) && 0 <= kv_dim(c)) by {
        assert(0 <= c.head_count * c.head_dim && 0 <= c.head_count_kv * c.head_dim)
            by (nonlinear_arith);
    }
    lemma_scaled(fewer, rows, c.head_count as int);
    lemma_scaled(fewer, rows, c.head_count_kv as int);
    lemma_scaled(fewer, rows, 2 * q_dim(c));
    lemma_scaled(fewer, rows, kv_dim(c));
    lemma_scaled(fewer, rows, c.embedding_length as int);
    lemma_scaled(fewer, rows, c.feed_forward_length as int);
    lemma_scaled(fewer, rows, c.gdn.num_v_heads as int);
    lemma_scaled(fewer, rows, c.gdn.conv_dim as int);
    lemma_scaled(fewer, rows, c.gdn.value_dim as int);
    match c.moe {
        None => {},
        Some(m) => {
            lemma_scaled(fewer, rows, m.expert_count as int);
            lemma_scaled(fewer, rows, m.expert_used_count as int);
            lemma_scaled(fewer, rows, m.expert_ff_len as int);
            lemma_scaled(fewer, rows, m.shared_ff_len as int);
        },
    }
}

/// Products grow with their first factor.
pub proof fn lemma_scaled(a: int, b: int, k: int)
    requires
        0 <= a <= b,
        0 <= k,
    ensures
        0 <= a * k <= b * k,
{
    assert(0 <= a * k <= b * k) by (nonlinear_arith)
        requires
            0 <= a <= b,
            0 <= k,
    ;
}

/// A size for one row is at most the size for all of them.
pub proof fn lemma_one_row(rows: int, k: int)
    requires
        1 <= rows,
        0 <= k,
        rows * k <= u32::MAX,
    ensures
        k <= rows * k,
{
    assert(k <= rows * k) by (nonlinear_arith)
        requires
            1 <= rows,
            0 <= k,
    ;
}

/// The basic widths of a model whose sizes fit.
pub proof fn lemma_widths(c: ConfigModel, rows: int)
    requires
        dims_fit(c, rows),
    ensures
        0 <= q_dim(c),
        2 * q_dim(c) <= u32::MAX,
        0 <= kv_dim(c) <= u32::MAX,
        0 <= rows * q_dim(c) <= rows * (2 * q_dim(c)),
        0 <= rows * kv_dim(c),
        0 <= rows * q_out(c, true) <= u32::MAX,
        0 <= rows * q_out(c, false) <= u32::MAX,
        0 <= rows * c.embedding_length,
        0 <= rows * c.feed_forward_length,
        0 <= rows * c.gdn.value_dim,
        0 <= rows * c.gdn.conv_dim,
        0 <= rows * c.gdn.num_v_heads,
        0 <= rows * c.head_count,
        0 <= rows * c.head_count_kv,
        rows <= u32::MAX || c.embedding_length == 0,
{
    assert(0 <= c.head_count * c.head_dim && 0 <= c.head_count_kv * c.head_dim)
        by (nonlinear_arith);
    lemma_one_row(rows, 2 * q_dim(c));
    lemma_one_row(rows, kv_dim(c));
    lemma_scaled(0, rows, q_dim(c));
    assert(rows * q_dim(c) <= rows * (2 * q_dim(c))) by (nonlinear_arith)
        requires
            0 <= rows,
            0 <= q_dim(c),
    ;
    lemma_scaled(0, rows, kv_dim(c));
    lemma_scaled(0, rows, c.embedding_length as int);
    lemma_scaled(0, rows, c.feed_forward_length as int);
    lemma_scaled(0, rows, c.gdn.value_dim as int);
    lemma_scaled(0, rows, c.gdn.conv_dim as int);
    lemma_scaled(0, rows, c.gdn.num_v_heads as int);
    lemma_scaled(0, rows, c.head_count as int);
    lemma_scaled(0, rows, c.head_count_kv as int);
    if c.embedding_length > 0 {
        assert(rows <= rows * c.embedding_length) by (nonlinear_arith)
            requires
                0 <= rows,
                1 <= c.embedding_length,
        ;
    }
}

/// Whether `rows * (a * b)` fits 32 bits.
fn fits(rows: u32, a: u32, b: u32) -> (r: bool)
    ensures
        r == (rows * (a * b) <= u32::MAX),
{
    proof {
        assert(0 <= a * b <= 0xffff_ffff * 0xffff_ffff) by (nonlinear_arith)
            requires
                0 <= a <= 0xffff_ffff,
                0 <= b <= 0xffff_ffff,
        ;
        let p = (a * b) as int;
        assert(0 <= rows * p <= 0xffff_ffff * (0xffff_ffff * 0xffff_ffff)) by (nonlinear_arith)
            requires
                0 <= rows <= 0xffff_ffff,
                0 <= p <= 0xffff_ffff * 0xffff_ffff,
        ;
    }
    rows as u128 * (a as u128 * b as u128) <= u32::MAX as u128
}

fn check_moe_fits(m: &MoeConfig, rows: u32) -> (r: bool)
    ensures
        r == moe_fits(*m, rows as int),
{
    proof {
        lemma_times_one(m.expert_count as int);
        lemma_times_one(m.expert_used_count as int);
        lemma_times_one(m.expert_ff_len as int);
        lemma_times_one(m.shared_ff_len as int);
    }
    fits(rows, m.expert_count, 1) && fits(rows, m.expert_used_count, 1) && fits(
        rows,
        m.expert_ff_len,
        1,
    ) && fits(rows, m.shared_ff_len, 1)
}

proof fn lemma_times_one(a: int)
    ensures
        a * 1 == a,
{
}

/// Whether every size of a pass over `rows` tokens fits 32 bits.
pub fn check_dims_fit(c: &Qwen35Config, rows: u32) -> (r: bool)
    ensures
        r == dims_fit(c@, rows as int),
{
    if rows == 0 {
        return false;
    }
    let ghost q = q_dim(c@);
    proof {
        assert(rows * (2 * q) == 2 * (rows * q)) by (nonlinear_arith);
        assert(0 <= c.head_count * c.head_dim) by (nonlinear_arith);
        lemma_scaled(0, rows as int, q);
    }
    let twice: bool = if fits(rows, c.head_count, c.head_dim) {
        proof {
            assert(rows * (c.head_count * c.head_dim) == rows * c.head_count * c.head_dim)
                by (nonlinear_arith);
        }
        2 * product(rows, c.head_count, c.head_dim) <= u32::MAX as u64
    } else {
        false
    };
    let moe: bool = match &c.moe {
        None => true,
        Some(m) => check_moe_fits(m, rows),
    };
    fits(rows, c.head_count, 1) && fits(rows, c.head_count_kv, 1) && twice && fits(
        rows,
        c.head_count_kv,
        c.head_dim,
    ) && fits(rows, c.embedding_length, 1) && fits(rows, c.feed_forward_length, 1) && fits(
        rows,
        c.gdn.num_v_heads,
        1,
    ) && fits(rows, c.gdn.conv_dim, 1) && fits(rows, c.gdn.value_dim, 1) && c.gdn.key_dim
        <= u32::MAX / 2 && moe
}

fn product(a: u32, b: u32, c: u32) -> (r: u64)
    requires
        a * (b * c) <= u32::MAX,
        a >= 1,
    ensures
        r == a * (b * c),
{
    proof {
        assert(0 <= b * c) by (nonlinear_arith);
        lemma_one_row(a as int, (b * c) as int);
    }
    a as u64 * (b as u64 * c as u64)
}

} // verus!
