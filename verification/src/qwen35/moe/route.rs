//! Routing: turning the router's raw selections into expert ids, and grouping
//! a chunk's assignments by expert.

use crate::error::ConfigError;
use vstd::prelude::*;

verus! {

/// Why a selection cannot be used: the first offending one.
pub type RouteError = ConfigError;

/// What is wrong with one raw selection, if anything.
pub open spec fn selection_error(raw: i32, expert_count: u32) -> Option<ConfigError> {
    if raw < 0 {
        Some(ConfigError::InvalidExpertIndex { raw, expert_count })
    } else if raw >= expert_count {
        Some(ConfigError::ExpertOutOfRange { expert: raw as u32, expert_count })
    } else {
        None
    }
}

/// The outcome of resolving a run of selections: every id in order, or the
/// error of the first bad one.
pub open spec fn routes(
    raw: Seq<i32>,
    expert_count: u32,
    r: Result<Seq<u32>, ConfigError>,
) -> bool {
    match r {
        Ok(ids) => {
            &&& ids.len() == raw.len()
            &&& forall|i: int|
                0 <= i < raw.len() ==> selection_error(#[trigger] raw[i], expert_count) is None
                    && ids[i] == raw[i]
        },
        Err(e) => exists|i: int|
            {
                &&& 0 <= i < raw.len()
                &&& selection_error(#[trigger] raw[i], expert_count) == Some(e)
                &&& forall|j: int|
                    0 <= j < i ==> selection_error(#[trigger] raw[j], expert_count) is None
            },
    }
}

/// The expert a raw selection names.
pub fn resolve_expert(raw: i32, expert_count: u32) -> (r: Result<u32, ConfigError>)
    ensures
        match selection_error(raw, expert_count) {
            Some(e) => r == Err::<u32, ConfigError>(e),
            None => r == Ok::<u32, ConfigError>(raw as u32),
        },
{
    if raw < 0 {
        return Err(ConfigError::InvalidExpertIndex { raw, expert_count });
    }
    let expert: u32 = raw as u32;
    if expert >= expert_count {
        return Err(ConfigError::ExpertOutOfRange { expert, expert_count });
    }
    Ok(expert)
}

/// The result of a resolution, over sequences.
pub open spec fn ids_view(r: Result<Vec<u32>, ConfigError>) -> Result<Seq<u32>, ConfigError> {
    match r {
        Ok(v) => Ok(v@),
        Err(e) => Err(e),
    }
}

/// Resolves and range-checks every selection up front.
pub fn resolve_experts(idx_host: &[i32], expert_count: u32) -> (r: Result<Vec<u32>, ConfigError>)
    ensures
        routes(idx_host@, expert_count, ids_view(r)),
{
    let mut out: Vec<u32> = Vec::new();
    let mut i: usize = 0;
    while i < idx_host.len()
        invariant
            i <= idx_host@.len(),
            out@.len() == i,
            forall|j: int|
                0 <= j < i ==> selection_error(#[trigger] idx_host@[j], expert_count) is None
                    && out@[j] == idx_host@[j],
        decreases idx_host@.len() - i,
    {
        match resolve_expert(idx_host[i], expert_count) {
            Ok(expert) => out.push(expert),
            Err(e) => {
                assert(selection_error(idx_host@[i as int], expert_count) == Some(e));
                return Err(e);
            },
        }
        i = i + 1;
    }
    Ok(out)
}

/// One row's share in an expert's group: the row and the weight's bits.
pub type Assignment = (u32, u32);

/// Whether every one of the first `n` selections names an expert.
pub open spec fn all_valid(idx: Seq<i32>, expert_count: u32, n: int) -> bool {
    forall|j: int| 0 <= j < n ==> selection_error(#[trigger] idx[j], expert_count) is None
}

/// An expert's group after the first `n` assignments, which run row by row
/// with `top_k` per row: the rows that selected it, in order, each with its
/// weight.
pub open spec fn group_of(
    idx: Seq<i32>,
    weights: Seq<u32>,
    top_k: nat,
    expert: int,
    n: nat,
) -> Seq<Assignment>
    decreases n,
{
    if n == 0 {
        Seq::empty()
    } else {
        let before = group_of(idx, weights, top_k, expert, (n - 1) as nat);
        if idx[n - 1] == expert {
            before.push((((n - 1) as nat / top_k) as u32, weights[n - 1]))
        } else {
            before
        }
    }
}

/// The groups of every expert.
pub open spec fn groups(
    idx: Seq<i32>,
    weights: Seq<u32>,
    top_k: nat,
    expert_count: nat,
    n: nat,
) -> Seq<Seq<Assignment>> {
    Seq::new(expert_count, |e: int| group_of(idx, weights, top_k, e, n))
}

/// The contents of a list of groups.
pub open spec fn group_views(b: Seq<Vec<Assignment>>) -> Seq<Seq<Assignment>> {
    b.map_values(|v: Vec<Assignment>| v@)
}

/// Number of assignments in a list of groups.
pub open spec fn group_total(g: Seq<Seq<Assignment>>) -> nat
    decreases g.len(),
{
    if g.len() == 0 {
        0
    } else {
        group_total(g.drop_last()) + g.last().len()
    }
}

/// Grouping loses nothing and invents nothing: the groups together hold
/// exactly the chunk's assignments.
pub proof fn law_grouping_keeps_every_assignment(
    idx: Seq<i32>,
    weights: Seq<u32>,
    top_k: nat,
    expert_count: u32,
    n: nat,
)
    requires
        n <= idx.len(),
        all_valid(idx, expert_count, n as int),
    ensures
        group_total(groups(idx, weights, top_k, expert_count as nat, n)) == n,
    decreases n,
{
    let g = groups(idx, weights, top_k, expert_count as nat, n);
    if n == 0 {
        lemma_empty_total(g);
    } else {
        let p = groups(idx, weights, top_k, expert_count as nat, (n - 1) as nat);
        law_grouping_keeps_every_assignment(idx, weights, top_k, expert_count, (n - 1) as nat);
        assert(selection_error(idx[n - 1], expert_count) is None);
        lemma_total_one_longer(p, g, idx[n - 1] as int);
    }
}

/// Where a row's choice stands among the choices of all rows.
pub open spec fn choice_at(top_k: nat, row: int, choice: int) -> int {
    row * top_k + choice
}

/// A row's choice is in the group of the expert it names, with its own row
/// and weight.
pub open spec fn choice_is_grouped(
    g: Seq<Seq<Assignment>>,
    idx: Seq<i32>,
    weights: Seq<u32>,
    top_k: nat,
    r: int,
    j: int,
) -> bool {
    let k = choice_at(top_k, r, j);
    &&& 0 <= idx[k] < g.len()
    &&& g[idx[k] as int].contains((r as u32, weights[k]))
}

/// A group's member is a row's choice of that expert, with the row and its
/// weight.
pub open spec fn member_is_chosen(
    g: Seq<Seq<Assignment>>,
    idx: Seq<i32>,
    weights: Seq<u32>,
    top_k: nat,
    rows: nat,
    e: int,
    i: int,
) -> bool {
    exists|r: int, j: int|
        #![trigger choice_at(top_k, r, j)]
        0 <= r < rows && 0 <= j < top_k && idx[choice_at(top_k, r, j)] == e && g[e][i] == (
            r as u32,
            weights[choice_at(top_k, r, j)],
        )
}

/// Every choice of every row is in the group of the expert it names, with its
/// own row and weight; and a group holds nothing but such choices.
pub proof fn law_groups_hold_every_choice(
    idx: Seq<i32>,
    weights: Seq<u32>,
    top_k: nat,
    expert_count: u32,
    rows: nat,
)
    requires
        0 < top_k,
        idx.len() == rows * top_k,
        rows <= u32::MAX,
        all_valid(idx, expert_count, idx.len() as int),
    ensures
        ({
            let g = groups(idx, weights, top_k, expert_count as nat, idx.len());
            &&& forall|r: int, j: int|
                0 <= r < rows && 0 <= j < top_k ==> #[trigger] choice_is_grouped(
                    g,
                    idx,
                    weights,
                    top_k,
                    r,
                    j,
                )
            &&& forall|e: int, i: int|
                0 <= e < expert_count && 0 <= i < g[e].len() ==> #[trigger] member_is_chosen(
                    g,
                    idx,
                    weights,
                    top_k,
                    rows,
                    e,
                    i,
                )
        }),
{
    let n = idx.len();
    let g = groups(idx, weights, top_k, expert_count as nat, n);
    assert forall|r: int, j: int| 0 <= r < rows && 0 <= j < top_k implies #[trigger]
        choice_is_grouped(g, idx, weights, top_k, r, j) by {
        let k = choice_at(top_k, r, j);
        lemma_choice_place(rows as int, top_k as int, r, j);
        assert(selection_error(idx[k], expert_count) is None);
        lemma_choice_is_grouped(idx, weights, top_k, n, k);
        assert(k as nat / top_k == r);
    }
    assert forall|e: int, i: int| 0 <= e < expert_count && 0 <= i < g[e].len() implies #[trigger]
        member_is_chosen(g, idx, weights, top_k, rows, e, i) by {
        let k = lemma_grouped_is_a_choice(idx, weights, top_k, e, n, i);
        let (r, j) = (k / (top_k as int), k % (top_k as int));
        vstd::arithmetic::div_mod::lemma_fundamental_div_mod(k, top_k as int);
        assert(top_k * r == r * top_k) by (nonlinear_arith);
        assert(0 <= r < rows) by (nonlinear_arith)
            requires
                0 <= k < rows * top_k,
                0 < top_k,
                r * top_k + j == k,
                0 <= j < top_k,
        ;
        assert(choice_at(top_k, r, j) == k);
    }
}

proof fn lemma_choice_place(rows: int, top_k: int, r: int, j: int)
    requires
        0 <= r < rows,
        0 <= j < top_k,
    ensures
        0 <= r * top_k + j < rows * top_k,
        (r * top_k + j) / top_k == r,
{
    assert(0 <= r * top_k + j < rows * top_k) by (nonlinear_arith)
        requires
            0 <= r < rows,
            0 <= j < top_k,
    ;
    vstd::arithmetic::div_mod::lemma_fundamental_div_mod_converse(r * top_k + j, top_k, r, j);
}

proof fn lemma_choice_is_grouped(
    idx: Seq<i32>,
    weights: Seq<u32>,
    top_k: nat,
    n: nat,
    k: int,
)
    requires
        0 <= k < n <= idx.len(),
    ensures
        group_of(idx, weights, top_k, idx[k] as int, n).contains(
            ((k as nat / top_k) as u32, weights[k]),
        ),
    decreases n,
{
    let e = idx[k] as int;
    let before = group_of(idx, weights, top_k, e, (n - 1) as nat);
    let now = group_of(idx, weights, top_k, e, n);
    if k == n - 1 {
        assert(now[before.len() as int] == ((k as nat / top_k) as u32, weights[k]));
    } else {
        lemma_choice_is_grouped(idx, weights, top_k, (n - 1) as nat, k);
        let x = ((k as nat / top_k) as u32, weights[k]);
        let i = choose|i: int| 0 <= i < before.len() && before[i] == x;
        assert(now[i] == x);
    }
}

proof fn lemma_grouped_is_a_choice(
    idx: Seq<i32>,
    weights: Seq<u32>,
    top_k: nat,
    e: int,
    n: nat,
    i: int,
) -> (k: int)
    requires
        n <= idx.len(),
        0 <= i < group_of(idx, weights, top_k, e, n).len(),
    ensures
        0 <= k < n,
        idx[k] == e,
        group_of(idx, weights, top_k, e, n)[i] == ((k as nat / top_k) as u32, weights[k]),
    decreases n,
{
    let before = group_of(idx, weights, top_k, e, (n - 1) as nat);
    if i < before.len() {
        lemma_grouped_is_a_choice(idx, weights, top_k, e, (n - 1) as nat, i)
    } else {
        n - 1
    }
}

proof fn lemma_empty_total(g: Seq<Seq<Assignment>>)
    requires
        forall|i: int| 0 <= i < g.len() ==> (#[trigger] g[i]).len() == 0,
    ensures
        group_total(g) == 0,
    decreases g.len(),
{
    if g.len() > 0 {
        assert(g.last().len() == 0);
        lemma_empty_total(g.drop_last());
    }
}

proof fn lemma_total_one_longer(p: Seq<Seq<Assignment>>, g: Seq<Seq<Assignment>>, at: int)
    requires
        p.len() == g.len(),
        0 <= at < p.len(),
        g[at].len() == p[at].len() + 1,
        forall|i: int| 0 <= i < p.len() && i != at ==> (#[trigger] g[i]).len() == p[i].len(),
    ensures
        group_total(g) == group_total(p) + 1,
    decreases p.len(),
{
    let k = p.len() - 1;
    if at == k {
        lemma_same_total(p.drop_last(), g.drop_last());
    } else {
        assert(g[k].len() == p[k].len());
        lemma_total_one_longer(p.drop_last(), g.drop_last(), at);
    }
}

proof fn lemma_same_total(p: Seq<Seq<Assignment>>, g: Seq<Seq<Assignment>>)
    requires
        p.len() == g.len(),
        forall|i: int| 0 <= i < p.len() ==> (#[trigger] g[i]).len() == p[i].len(),
    ensures
        group_total(g) == group_total(p),
    decreases p.len(),
{
    if p.len() > 0 {
        let k = p.len() - 1;
        assert(g[k].len() == p[k].len());
        lemma_same_total(p.drop_last(), g.drop_last());
    }
}

/// Groups a chunk's assignments by expert: `top_k` raw selections and weight
/// bit patterns per row, row by row. Stops at the first bad selection.
pub fn group_by_expert(
    idx_host: &[i32],
    weight_host: &[u32],
    chunk_len: u32,
    top_k: u32,
    expert_count: u32,
) -> (r: Result<Vec<Vec<Assignment>>, ConfigError>)
    requires
        chunk_len * top_k <= idx_host@.len(),
        chunk_len * top_k <= weight_host@.len(),
    ensures
        match r {
            Ok(b) => {
                &&& all_valid(idx_host@, expert_count, chunk_len * top_k)
                &&& group_views(b@) == groups(
                    idx_host@,
                    weight_host@,
                    top_k as nat,
                    expert_count as nat,
                    (chunk_len * top_k) as nat,
                )
            },
            Err(e) => exists|i: int|
                {
                    &&& 0 <= i < chunk_len * top_k
                    &&& selection_error(#[trigger] idx_host@[i], expert_count) == Some(e)
                    &&& all_valid(idx_host@, expert_count, i)
                },
        },
{
    let mut buckets: Vec<Vec<Assignment>> = Vec::new();
    let mut e: u32 = 0;
    while e < expert_count
        invariant
            e <= expert_count,
            buckets@.len() == e,
            forall|i: int| 0 <= i < e ==> (#[trigger] buckets@[i])@.len() == 0,
        decreases expert_count - e,
    {
        buckets.push(Vec::new());
        e = e + 1;
    }
    let ghost idx = idx_host@;
    let ghost weights = weight_host@;
    let ghost k = top_k as nat;
    let ghost count = expert_count as nat;
    proof {
        assert(group_views(buckets@) =~= groups(idx, weights, k, count, 0)) by {
            assert forall|i: int| 0 <= i < count implies group_views(buckets@)[i] =~= groups(
                idx,
                weights,
                k,
                count,
                0,
            )[i] by {
                assert(buckets@[i]@.len() == 0);
            }
        }
    }
    let limit: usize = idx_host.len();
    let mut row: u32 = 0;
    let mut n: usize = 0;
    while row < chunk_len
        invariant
            row <= chunk_len,
            limit == idx_host@.len(),
            idx == idx_host@,
            weights == weight_host@,
            k == top_k,
            count == expert_count,
            chunk_len * top_k <= idx.len(),
            chunk_len * top_k <= weights.len(),
            n == row * top_k,
            buckets@.len() == count,
            all_valid(idx, expert_count, n as int),
            group_views(buckets@) == groups(idx, weights, k, count, n as nat),
        decreases chunk_len - row,
    {
        let mut c: u32 = 0;
        proof {
            assert(row * top_k + top_k <= chunk_len * top_k) by (nonlinear_arith)
                requires
                    row + 1 <= chunk_len,
            ;
        }
        while c < top_k
            invariant
                c <= top_k,
                row < chunk_len,
                limit == idx_host@.len(),
                idx == idx_host@,
                weights == weight_host@,
                k == top_k,
                count == expert_count,
                row * top_k + top_k <= chunk_len * top_k,
                chunk_len * top_k <= idx.len(),
                chunk_len * top_k <= weights.len(),
                n == row * top_k + c,
                buckets@.len() == count,
                all_valid(idx, expert_count, n as int),
                group_views(buckets@) == groups(idx, weights, k, count, n as nat),
            decreases top_k - c,
        {
            let ghost before = buckets@;
            let expert: u32 = match resolve_expert(idx_host[n], expert_count) {
                Ok(expert) => expert,
                Err(err) => {
                    assert(selection_error(idx_host@[n as int], expert_count) == Some(err));
                    return Err(err);
                },
            };
            let mut bucket: Vec<Assignment> = Vec::new();
            let ex: usize = expert as usize;
            std::mem::swap(&mut bucket, &mut buckets[ex]);
            let ghost held = bucket@;
            bucket.push((row, weight_host[n]));
            buckets.set(ex, bucket);
            proof {
                assert((n as nat) / k == row) by {
                    vstd::arithmetic::div_mod::lemma_fundamental_div_mod_converse(
                        n as int,
                        top_k as int,
                        row as int,
                        c as int,
                    );
                }
                let after = groups(idx, weights, k, count, (n + 1) as nat);
                assert forall|i: int| 0 <= i < count implies group_views(buckets@)[i]
                    =~= after[i] by {
                    assert(group_views(before)[i] == groups(idx, weights, k, count, n as nat)[i]);
                }
                assert(group_views(buckets@) =~= after);
            }
            n = n + 1;
            c = c + 1;
        }
        proof {
            assert(row * top_k + top_k == (row + 1) * top_k) by (nonlinear_arith);
        }
        row = row + 1;
    }
    Ok(buckets)
}

} // verus!
