//! Sampling parameters, the generator that drives sampling, and the parts of
//! sampling that only compare: picking the largest logit, narrowing down to
//! the best candidates, and the recent tokens a repeat penalty looks at.
//! Floating-point values are bit patterns.

use vstd::prelude::*;
use vstd::slice::slice_subrange;

verus! {

/// How tokens are sampled.
#[derive(Debug, Clone, Copy, PartialEq, Eq, Structural)]
pub struct SamplingParams {
    /// Zero or less selects the largest logit.
    pub temperature: u32,
    pub top_k: Option<usize>,
    /// Nucleus threshold.
    pub top_p: Option<u32>,
    pub seed: u64,
    /// None disables the repeat penalty.
    pub repeat_penalty: Option<u32>,
    /// How many recent tokens the penalty looks at.
    pub repeat_penalty_window: usize,
}

/// The default: greedy, no penalty.
pub open spec fn default_params() -> SamplingParams {
    SamplingParams {
        temperature: 0,
        top_k: None,
        top_p: None,
        seed: 0,
        repeat_penalty: None,
        repeat_penalty_window: 64,
    }
}

impl Default for SamplingParams {
    fn default() -> (r: Self)
        ensures
            r == default_params(),
    {
        SamplingParams {
            temperature: 0,
            top_k: None,
            top_p: None,
            seed: 0,
            repeat_penalty: None,
            repeat_penalty_window: 64,
        }
    }
}

/// Where a single-precision bit pattern stands in the order of the numbers:
/// nowhere if it is not a number; both zeros stand at zero.
pub open spec fn f32_rank(bits: u32) -> Option<int> {
    let magnitude = (bits % 0x8000_0000) as int;
    if magnitude > 0x7f80_0000 {
        None
    } else if bits >= 0x8000_0000 {
        Some(-magnitude)
    } else {
        Some(magnitude)
    }
}

/// Whether one value is greater than another; never with something that is
/// not a number.
pub open spec fn f32_greater(a: u32, b: u32) -> bool {
    f32_rank(a) is Some && f32_rank(b) is Some && f32_rank(a)->0 > f32_rank(b)->0
}

/// The bit pattern of negative infinity.
pub const F32_NEG_INFINITY: u32 = 0xff80_0000;

fn rank(bits: u32) -> (r: Option<i64>)
    ensures
        match f32_rank(bits) {
            None => r is None,
            Some(x) => r is Some && r->0 == x,
        },
{
    let magnitude: i64 = (bits % 0x8000_0000) as i64;
    if magnitude > 0x7f80_0000 {
        None
    } else if bits >= 0x8000_0000 {
        Some(-magnitude)
    } else {
        Some(magnitude)
    }
}

fn greater(a: u32, b: u32) -> (r: bool)
    ensures
        r == f32_greater(a, b),
{
    match (rank(a), rank(b)) {
        (Some(x), Some(y)) => x > y,
        _ => false,
    }
}

impl SamplingParams {
    /// The default parameters.
    pub fn greedy() -> (r: Self)
        ensures
            r == default_params(),
    {
        SamplingParams::default()
    }

    /// Whether the temperature selects the largest logit.
    pub fn is_greedy(&self) -> (r: bool)
        ensures
            r == (f32_rank(self.temperature) is Some && f32_rank(self.temperature)->0 <= 0),
    {
        match rank(self.temperature) {
            Some(t) => t <= 0,
            None => false,
        }
    }
}

/// A xorshift64* generator.
#[derive(Debug, Clone)]
pub struct Rng(u64);

/// The state a seed starts from; zero is not a usable state.
pub open spec fn seeded(seed: u64) -> u64 {
    if seed == 0 {
        0x9E37_79B9_7F4A_7C15
    } else {
        seed
    }
}

/// The next state.
pub open spec fn xorshift(x: u64) -> u64 {
    let a = x ^ (x >> 12);
    let b = a ^ (a << 25);
    b ^ (b >> 27)
}

/// The output of a state.
pub open spec fn scrambled(x: u64) -> u64 {
    ((x * 0x2545_F491_4F6C_DD1D) % 0x1_0000_0000_0000_0000) as u64
}

/// The generator never gets stuck: from a usable state it reaches only usable
/// ones.
pub proof fn law_state_stays_usable(x: u64)
    requires
        x != 0,
    ensures
        xorshift(x) != 0,
{
    let a = x ^ (x >> 12);
    let b = a ^ (a << 25);
    assert(x != 0 ==> (x ^ (x >> 12)) != 0) by (bit_vector);
    assert(a != 0 ==> (a ^ (a << 25)) != 0) by (bit_vector);
    assert(b != 0 ==> (b ^ (b >> 27)) != 0) by (bit_vector);
}

impl View for Rng {
    type V = u64;

    closed spec fn view(&self) -> u64 {
        self.0
    }
}

impl Rng {
    /// A generator for a seed.
    pub fn new(seed: u64) -> (r: Self)
        ensures
            r@ == seeded(seed),
            r@ != 0,
    {
        Rng(
            if seed == 0 {
                0x9E37_79B9_7F4A_7C15
            } else {
                seed
            },
        )
    }

    /// Sixty-four bits.
    pub fn next_u64(&mut self) -> (r: u64)
        ensures
            final(self)@ == xorshift(old(self)@),
            r == scrambled(final(self)@),
    {
        let mut x: u64 = self.0;
        x = x ^ (x >> 12);
        x = x ^ (x << 25);
        x = x ^ (x >> 27);
        self.0 = x;
        x.wrapping_mul(0x2545_F491_4F6C_DD1D)
    }

    /// The numerator, out of two to the twenty-fourth, of a uniform draw from
    /// zero to one: the top bits of the next output.
    pub fn next_draw(&mut self) -> (r: u32)
        ensures
            final(self)@ == xorshift(old(self)@),
            r == scrambled(final(self)@) >> 40,
            r < 0x100_0000,
    {
        let x: u64 = self.next_u64();
        proof {
            assert(x >> 40 < 0x100_0000) by (bit_vector);
        }
        (x >> 40) as u32
    }
}

/// The index is that of the first largest value, values that are not a number
/// or negative infinity left aside; zero when nothing is left.
pub open spec fn is_argmax(logits: Seq<u32>, best: int) -> bool {
    if forall|i: int| 0 <= i < logits.len() ==> !f32_greater(#[trigger] logits[i], F32_NEG_INFINITY) {
        best == 0
    } else {
        &&& 0 <= best < logits.len()
        &&& f32_greater(logits[best], F32_NEG_INFINITY)
        &&& forall|i: int|
            0 <= i < logits.len() ==> !f32_greater(#[trigger] logits[i], logits[best])
        &&& forall|i: int| 0 <= i < best ==> f32_greater(logits[best], #[trigger] logits[i])
            || f32_rank(logits[i]) is None
    }
}

/// The index of the largest logit.
pub fn argmax(logits: &[u32]) -> (r: u32)
    requires
        logits@.len() <= u32::MAX,
    ensures
        is_argmax(logits@, r as int),
{
    let mut best_idx: u32 = 0;
    let mut best: u32 = F32_NEG_INFINITY;
    let mut i: usize = 0;
    while i < logits.len()
        invariant
            i <= logits@.len() <= u32::MAX,
            f32_rank(best) is Some,
            f32_rank(F32_NEG_INFINITY) is Some,
            forall|j: int| 0 <= j < i ==> !f32_greater(#[trigger] logits@[j], best),
            best == F32_NEG_INFINITY ==> best_idx == 0,
            best != F32_NEG_INFINITY ==> {
                &&& best_idx < i
                &&& best == logits@[best_idx as int]
                &&& f32_greater(best, F32_NEG_INFINITY)
                &&& forall|j: int|
                    0 <= j < best_idx ==> f32_greater(best, #[trigger] logits@[j]) || f32_rank(
                        logits@[j],
                    ) is None
            },
        decreases logits@.len() - i,
    {
        if greater(logits[i], best) {
            best = logits[i];
            best_idx = i as u32;
        }
        i = i + 1;
    }
    best_idx
}

/// Every value is a number.
pub open spec fn all_numbers(values: Seq<u32>) -> bool {
    forall|i: int| 0 <= i < values.len() ==> f32_rank(#[trigger] values[i]) is Some
}

/// Different indices from `lo` to `hi`.
pub open spec fn distinct_in(s: Seq<u32>, lo: int, hi: int) -> bool {
    &&& forall|i: int| 0 <= i < s.len() ==> lo <= #[trigger] s[i] < hi
    &&& forall|i: int, j: int| 0 <= i < j < s.len() ==> #[trigger] s[i] != #[trigger] s[j]
}

/// The index `a` comes before `b`: its value is greater, or they are equal
/// and it is the smaller index.
pub open spec fn precedes(values: Seq<u32>, a: u32, b: u32) -> bool {
    f32_greater(values[a as int], values[b as int]) || (!f32_greater(
        values[b as int],
        values[a as int],
    ) && a < b)
}

/// Greatest value first, equal values by index.
pub open spec fn descending(values: Seq<u32>, s: Seq<u32>) -> bool {
    forall|i: int, j: int|
        0 <= i < j < s.len() ==> precedes(values, #[trigger] s[i], #[trigger] s[j])
}

/// An element of either run.
spec fn among(a: Seq<u32>, i: int, b: Seq<u32>, j: int, x: u32) -> bool {
    (exists|p: int| 0 <= p < i && #[trigger] a[p] == x) || (exists|q: int|
        0 <= q < j && #[trigger] b[q] == x)
}

/// One run of indices out of two neighbouring ones.
fn merge(values: &[u32], a: &Vec<u32>, b: &Vec<u32>, lo: usize, mid: usize, hi: usize) -> (r: Vec<
    u32,
>)
    requires
        lo <= mid <= hi <= values@.len(),
        all_numbers(values@),
        distinct_in(a@, lo as int, mid as int),
        distinct_in(b@, mid as int, hi as int),
        descending(values@, a@),
        descending(values@, b@),
        a@.len() == mid - lo,
        b@.len() == hi - mid,
    ensures
        distinct_in(r@, lo as int, hi as int),
        descending(values@, r@),
        r@.len() == hi - lo,
{
    let mut out: Vec<u32> = Vec::new();
    let mut i: usize = 0;
    let mut j: usize = 0;
    while i < a.len() || j < b.len()
        invariant
            lo <= mid <= hi <= values@.len(),
            all_numbers(values@),
            distinct_in(a@, lo as int, mid as int),
            distinct_in(b@, mid as int, hi as int),
            descending(values@, a@),
            descending(values@, b@),
            a@.len() == mid - lo,
            b@.len() == hi - mid,
            i <= a@.len(),
            j <= b@.len(),
            out@.len() == i + j,
            distinct_in(out@, lo as int, hi as int),
            descending(values@, out@),
            forall|k: int|
                0 <= k < out@.len() ==> among(
                    a@,
                    i as int,
                    b@,
                    j as int,
                    #[trigger] out@[k],
                ),
            forall|k: int, p: int|
                0 <= k < out@.len() && i <= p < a@.len() ==> precedes(
                    values@,
                    #[trigger] out@[k],
                    #[trigger] a@[p],
                ),
            forall|k: int, q: int|
                0 <= k < out@.len() && j <= q < b@.len() ==> precedes(
                    values@,
                    #[trigger] out@[k],
                    #[trigger] b@[q],
                ),
        decreases a@.len() - i + b@.len() - j,
    {
        let ghost held = out@;
        let ghost gi = i;
        let ghost gj = j;
        let left: bool = if i >= a.len() {
            false
        } else if j >= b.len() {
            true
        } else {
            !greater(values[b[j] as usize], values[a[i] as usize])
        };
        let x: u32 = if left {
            a[i]
        } else {
            b[j]
        };
        proof {
            assert forall|k: int| 0 <= k < held.len() implies held[k] != x by {
                assert(among(a@, i as int, b@, j as int, held[k]));
            }
            if left {
                assert forall|q: int| j <= q < b@.len() implies precedes(
                    values@,
                    x,
                    #[trigger] b@[q],
                ) by {
                    assert(f32_rank(values@[b@[q] as int]) is Some);
                    assert(f32_rank(values@[b@[j as int] as int]) is Some);
                    assert(f32_rank(values@[x as int]) is Some);
                    assert(x < mid <= b@[q]);
                    if q > j {
                        assert(precedes(values@, b@[j as int], b@[q]));
                    }
                }
            } else {
                assert forall|p: int| i <= p < a@.len() implies precedes(
                    values@,
                    x,
                    #[trigger] a@[p],
                ) by {
                    assert(f32_rank(values@[a@[p] as int]) is Some);
                    assert(f32_rank(values@[a@[i as int] as int]) is Some);
                    assert(f32_rank(values@[x as int]) is Some);
                    if p > i {
                        assert(precedes(values@, a@[i as int], a@[p]));
                    }
                }
            }
        }
        out.push(x);
        if left {
            i = i + 1;
        } else {
            j = j + 1;
        }
        proof {
            assert forall|k: int| 0 <= k < out@.len() implies among(
                a@,
                i as int,
                b@,
                j as int,
                #[trigger] out@[k],
            ) by {
                if k < held.len() {
                    assert(out@[k] == held[k]);
                    assert(among(a@, gi as int, b@, gj as int, held[k]));
                } else if left {
                    assert(a@[gi as int] == x);
                } else {
                    assert(b@[gj as int] == x);
                }
            }
        }
    }
    out
}

fn sort_range(values: &[u32], lo: usize, hi: usize) -> (r: Vec<u32>)
    requires
        lo <= hi <= values@.len(),
        values@.len() <= u32::MAX,
        all_numbers(values@),
    ensures
        distinct_in(r@, lo as int, hi as int),
        descending(values@, r@),
        r@.len() == hi - lo,
    decreases hi - lo,
{
    if hi - lo <= 1 {
        let mut out: Vec<u32> = Vec::new();
        if hi - lo == 1 {
            out.push(lo as u32);
        }
        out
    } else {
        let mid: usize = lo + (hi - lo) / 2;
        let a = sort_range(values, lo, mid);
        let b = sort_range(values, mid, hi);
        merge(values, &a, &b, lo, mid, hi)
    }
}

/// The indices of all values, greatest value first and equal values by index.
pub fn sorted_indices(values: &[u32]) -> (r: Vec<u32>)
    requires
        values@.len() <= u32::MAX,
        all_numbers(values@),
    ensures
        distinct_in(r@, 0, values@.len() as int),
        descending(values@, r@),
        r@.len() == values@.len(),
{
    sort_range(values, 0, values.len())
}

/// How many candidates a limit leaves: at least one, at most all.
pub open spec fn kept(k: int, n: int) -> int {
    if k < 1 {
        1
    } else if k < n {
        k
    } else {
        n
    }
}

/// Distinct indices below `n` hit every one of them, if there are `n`.
proof fn lemma_all_hit(s: Seq<u32>, n: nat, x: int)
    requires
        distinct_in(s, 0, n as int),
        s.len() == n,
        0 <= x < n,
    ensures
        exists|i: int| 0 <= i < s.len() && #[trigger] s[i] == x,
{
    let m = s.map_values(|v: u32| v as int);
    let all = vstd::set_lib::set_int_range(0, n as int);
    vstd::set_lib::lemma_int_range(0, n as int);
    assert(m.no_duplicates()) by {
        assert forall|i: int, j: int| 0 <= i < m.len() && 0 <= j < m.len() && i != j implies m[i]
            != m[j] by {
            assert(m[i] == s[i] && m[j] == s[j]);
            if i < j {
                assert(s[i] != s[j]);
            } else {
                assert(s[j] != s[i]);
            }
        }
    }
    m.unique_seq_to_set();
    assert(m.to_set().subset_of(all)) by {
        assert forall|v: int| m.to_set().contains(v) implies all.contains(v) by {
            let i = choose|i: int| 0 <= i < m.len() && m[i] == v;
            assert(m[i] == s[i]);
        }
    }
    vstd::set_lib::lemma_subset_equality(m.to_set(), all);
    assert(m.to_set().contains(x));
    let i = choose|i: int| 0 <= i < m.len() && m[i] == x;
    assert(s[i] == x);
}

/// Nothing that is left out comes before anything that is kept.
pub open spec fn leads(values: Seq<u32>, r: Seq<u32>) -> bool {
    forall|x: u32, i: int|
        0 <= x < values.len() && 0 <= i < r.len() && !r.contains(x) ==> #[trigger] precedes(
            values,
            r[i],
            x,
        )
}

/// There is one order of the indices, greatest value first and equal values
/// by index, and the best candidates are its first ones.
pub proof fn law_candidates_lead_the_order(values: Seq<u32>, s: Seq<u32>, r: Seq<u32>)
    requires
        values.len() <= u32::MAX,
        all_numbers(values),
        distinct_in(s, 0, values.len() as int),
        descending(values, s),
        s.len() == values.len(),
        distinct_in(r, 0, values.len() as int),
        descending(values, r),
        r.len() <= values.len(),
        leads(values, r),
    ensures
        r == s.take(r.len() as int),
{
    lemma_same_start(values, s, r, r.len() as int);
    assert(r =~= s.take(r.len() as int));
}

proof fn lemma_same_start(values: Seq<u32>, s: Seq<u32>, r: Seq<u32>, n: int)
    requires
        values.len() <= u32::MAX,
        all_numbers(values),
        distinct_in(s, 0, values.len() as int),
        descending(values, s),
        s.len() == values.len(),
        distinct_in(r, 0, values.len() as int),
        descending(values, r),
        leads(values, r),
        0 <= n <= r.len() <= values.len(),
    ensures
        forall|i: int| 0 <= i < n ==> #[trigger] r[i] == s[i],
    decreases n,
{
    if n > 0 {
        let k = n - 1;
        lemma_same_start(values, s, r, k);
        lemma_all_hit(s, values.len(), r[k] as int);
        let j = choose|j: int| 0 <= j < s.len() && #[trigger] s[j] == r[k] as int;
        if j < k {
            assert(r[j] == s[j]);
        } else if j > k {
            assert(precedes(values, s[k], s[j]));
            assert(f32_rank(values[s[k] as int]) is Some);
            assert(f32_rank(values[r[k] as int]) is Some);
            if r.contains(s[k]) {
                let i = choose|i: int| 0 <= i < r.len() && r[i] == s[k];
                if i < k {
                    assert(r[i] == s[i]);
                } else {
                    assert(i > k);
                    assert(precedes(values, r[k], r[i]));
                }
            } else {
                assert(precedes(values, r[k], s[k]));
            }
        }
    }
}

/// The `k` candidates with the greatest values, equal values by index.
pub fn top_candidates(values: &[u32], k: usize) -> (r: Vec<u32>)
    requires
        0 < values@.len() <= u32::MAX,
        all_numbers(values@),
    ensures
        r@.len() == kept(k as int, values@.len() as int),
        distinct_in(r@, 0, values@.len() as int),
        descending(values@, r@),
        leads(values@, r@),
{
    let order = sorted_indices(values);
    let n: usize = order.len();
    let count: usize = if k < 1 {
        1
    } else if k < n {
        k
    } else {
        n
    };
    let mut out: Vec<u32> = Vec::new();
    let mut i: usize = 0;
    while i < count
        invariant
            i <= count <= n,
            n == order@.len(),
            out@ == order@.take(i as int),
        decreases count - i,
    {
        out.push(order[i]);
        i = i + 1;
        proof {
            assert(out@ =~= order@.take(i as int));
        }
    }
    proof {
        assert forall|x: u32, i: int|
            0 <= x < values@.len() && 0 <= i < out@.len() && !out@.contains(
                x,
            ) implies #[trigger] precedes(values@, out@[i], x) by {
            lemma_all_hit(order@, n as nat, x as int);
            let j = choose|j: int| 0 <= j < order@.len() && #[trigger] order@[j] == x as int;
            if j < count {
                assert(out@[j] == x);
            }
            assert(out@[i] == order@[i]);
            assert(precedes(values@, order@[i], order@[j]));
        }
    }
    out
}

/// The recent tokens a repeat penalty applies to: the last `window` ones.
pub fn penalty_window(history: &[u32], window: usize) -> (r: &[u32])
    ensures
        r@ == history@.skip(
            if window < history@.len() {
                history@.len() - window
            } else {
                0
            },
        ),
{
    let start: usize = history.len().saturating_sub(window);
    let r = slice_subrange(history, start, history.len());
    assert(r@ =~= history@.skip(start as int));
    r
}

} // verus!
