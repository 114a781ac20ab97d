//! Copies between a device buffer, in which every head has a fixed span, and
//! a host buffer, in which the heads' filled prefixes follow one another
//! without gaps.

use vstd::prelude::*;

verus! {

/// One contiguous copy: where it starts on each side, and how much it moves.
#[derive(Debug, Clone, Copy, PartialEq, Eq, Structural)]
pub struct RangeCopy {
    pub device: usize,
    pub host: usize,
    pub len: usize,
}

/// The copies of every head's first `prefix` elements out of `stride`.
pub open spec fn head_copies(heads: nat, stride: nat, prefix: nat) -> Seq<RangeCopy> {
    Seq::new(
        heads,
        |h: int|
            RangeCopy {
                device: (h * stride) as usize,
                host: (h * prefix) as usize,
                len: prefix as usize,
            },
    )
}

/// `base` with `part` written at `at`.
pub open spec fn overlaid<T>(base: Seq<T>, at: int, part: Seq<T>) -> Seq<T> {
    Seq::new(
        base.len(),
        |i: int|
            if at <= i < at + part.len() {
                part[i - at]
            } else {
                base[i]
            },
    )
}

/// The host buffer after the copies were made from the device.
pub open spec fn pulled<T>(copies: Seq<RangeCopy>, device: Seq<T>, host: Seq<T>) -> Seq<T>
    decreases copies.len(),
{
    if copies.len() == 0 {
        host
    } else {
        let c = copies.last();
        overlaid(
            pulled(copies.drop_last(), device, host),
            c.host as int,
            device.subrange(c.device as int, c.device + c.len),
        )
    }
}

/// The device buffer after the copies were made from the host.
pub open spec fn pushed<T>(copies: Seq<RangeCopy>, host: Seq<T>, device: Seq<T>) -> Seq<T>
    decreases copies.len(),
{
    if copies.len() == 0 {
        device
    } else {
        let c = copies.last();
        overlaid(
            pushed(copies.drop_last(), host, device),
            c.device as int,
            host.subrange(c.host as int, c.host + c.len),
        )
    }
}

/// `h * w + i` lies in the `h`-th of `n` spans of width `w`.
proof fn lemma_span(h: int, n: int, w: int, i: int)
    requires
        0 <= h < n,
        0 <= i < w,
    ensures
        0 <= h * w,
        h * w + w <= n * w,
        h * w + i < n * w,
{
    assert(0 <= h * w && h * w + w <= n * w) by (nonlinear_arith)
        requires
            0 <= h,
            h + 1 <= n,
            0 < w,
    ;
}

/// Every copy stays inside both buffers, and no two copies touch the same
/// element on either side.
pub proof fn law_head_copies_are_disjoint(heads: nat, stride: nat, prefix: nat, a: int, b: int)
    requires
        prefix <= stride,
        heads * stride <= usize::MAX,
        0 <= a < b < heads,
    ensures
        ({
            let c = head_copies(heads, stride, prefix);
            &&& c[a].device + c[a].len <= c[b].device
            &&& c[a].host + c[a].len <= c[b].host
            &&& c[b].device + c[b].len <= heads * stride
            &&& c[b].host + c[b].len <= heads * prefix
        }),
{
    assert(0 <= a * stride && a * stride + stride <= b * stride && b * stride + stride <= heads
        * stride) by (nonlinear_arith)
        requires
            0 <= a,
            a + 1 <= b,
            b + 1 <= heads,
    ;
    assert(0 <= a * prefix && a * prefix + prefix <= b * prefix && b * prefix + prefix <= heads
        * prefix && heads * prefix <= heads * stride) by (nonlinear_arith)
        requires
            0 <= a,
            a + 1 <= b,
            b + 1 <= heads,
            prefix <= stride,
    ;
}

/// Element by element, what the copies put on the host.
pub proof fn lemma_pulled<T>(
    heads: nat,
    stride: nat,
    prefix: nat,
    device: Seq<T>,
    host: Seq<T>,
    n: nat,
)
    requires
        n <= heads,
        prefix <= stride,
        heads * stride <= device.len(),
        heads * stride <= usize::MAX,
        heads * prefix <= host.len(),
    ensures
        pulled(head_copies(heads, stride, prefix).take(n as int), device, host).len() == host.len(),
        forall|h: int, i: int|
            #![trigger device[h * stride + i]]
            0 <= h < n && 0 <= i < prefix ==> pulled(
                head_copies(heads, stride, prefix).take(n as int),
                device,
                host,
            )[h * prefix + i] == device[h * stride + i],
    decreases n,
{
    let all = head_copies(heads, stride, prefix);
    let c = all.take(n as int);
    if n == 0 {
        assert(c =~= Seq::empty());
    } else {
        let k = n - 1;
        lemma_pulled(heads, stride, prefix, device, host, k as nat);
        assert(c.drop_last() =~= all.take(k));
        let before = pulled(all.take(k), device, host);
        assert(0 <= k * stride && k * stride + stride <= heads * stride) by (nonlinear_arith)
            requires
                0 <= k,
                k + 1 <= heads,
        ;
        assert(0 <= k * prefix && k * prefix + prefix <= heads * prefix && heads * prefix <= heads
            * stride) by (nonlinear_arith)
            requires
                0 <= k,
                k + 1 <= heads,
                prefix <= stride,
        ;
        let part = device.subrange(k * stride, k * stride + prefix);
        assert(pulled(c, device, host) == overlaid(before, k * prefix, part));
        assert forall|h: int, i: int|
            #![trigger device[h * stride + i]]
            0 <= h < n && 0 <= i < prefix implies pulled(c, device, host)[h * prefix + i]
            == device[h * stride + i] by {
            lemma_span(h, n as int, prefix as int, i);
            if h < k {
                lemma_span(h, k, prefix as int, i);
                assert(before[h * prefix + i] == device[h * stride + i]);
            } else {
                assert(part[i] == device[k * stride + i]);
            }
            assert(h * prefix + i < host.len()) by {
                assert(n * prefix <= heads * prefix) by (nonlinear_arith)
                    requires
                        n <= heads,
                ;
            }
        }
    }
}

/// Element by element, what the copies put on the device; the rest of every
/// head's span is untouched.
pub proof fn lemma_pushed<T>(
    heads: nat,
    stride: nat,
    prefix: nat,
    host: Seq<T>,
    device: Seq<T>,
    n: nat,
)
    requires
        n <= heads,
        prefix <= stride,
        heads * stride <= device.len(),
        heads * stride <= usize::MAX,
        heads * prefix <= host.len(),
    ensures
        pushed(head_copies(heads, stride, prefix).take(n as int), host, device).len()
            == device.len(),
        forall|h: int, i: int|
            #![trigger host[h * prefix + i]]
            0 <= h < n && 0 <= i < prefix ==> pushed(
                head_copies(heads, stride, prefix).take(n as int),
                host,
                device,
            )[h * stride + i] == host[h * prefix + i],
    decreases n,
{
    let all = head_copies(heads, stride, prefix);
    let c = all.take(n as int);
    if n == 0 {
        assert(c =~= Seq::empty());
    } else {
        let k = n - 1;
        lemma_pushed(heads, stride, prefix, host, device, k as nat);
        assert(c.drop_last() =~= all.take(k));
        let before = pushed(all.take(k), host, device);
        assert(0 <= k * stride && k * stride + stride <= heads * stride) by (nonlinear_arith)
            requires
                0 <= k,
                k + 1 <= heads,
        ;
        assert(0 <= k * prefix && k * prefix + prefix <= heads * prefix && heads * prefix <= heads
            * stride) by (nonlinear_arith)
            requires
                0 <= k,
                k + 1 <= heads,
                prefix <= stride,
        ;
        let part = host.subrange(k * prefix, k * prefix + prefix);
        assert(pushed(c, host, device) == overlaid(before, k * stride, part));
        assert forall|h: int, i: int|
            #![trigger host[h * prefix + i]]
            0 <= h < n && 0 <= i < prefix implies pushed(c, host, device)[h * stride + i]
            == host[h * prefix + i] by {
            lemma_span(h, n as int, stride as int, i);
            if h < k {
                lemma_span(h, k, stride as int, i);
                assert(before[h * stride + i] == host[h * prefix + i]);
            } else {
                assert(part[i] == host[k * prefix + i]);
            }
            assert(h * stride + i < device.len()) by {
                assert(n * stride <= heads * stride) by (nonlinear_arith)
                    requires
                        n <= heads,
                ;
            }
        }
    }
}

/// Every position of a packed buffer belongs to one head.
proof fn lemma_split(i: int, heads: nat, prefix: nat)
    requires
        0 <= i < heads * prefix,
    ensures
        0 <= i / (prefix as int) < heads,
        0 <= i % (prefix as int) < prefix,
        i == (i / (prefix as int)) * prefix + i % (prefix as int),
{
    assert(prefix > 0) by (nonlinear_arith)
        requires
            0 <= i < heads * prefix,
    ;
    vstd::arithmetic::div_mod::lemma_fundamental_div_mod(i, prefix as int);
    vstd::arithmetic::div_mod::lemma_mod_bound(i, prefix as int);
    vstd::arithmetic::div_mod::lemma_div_pos_is_pos(i, prefix as int);
    let q = i / (prefix as int);
    assert(prefix * q == q * prefix) by (nonlinear_arith);
    assert(q < heads) by (nonlinear_arith)
        requires
            q * prefix <= i < heads * prefix,
            prefix > 0,
    ;
}

/// What was written back to the device is what a later capture reads: the
/// packed data survives the round trip, whatever the device held before and
/// whatever the host buffer was filled with.
pub proof fn law_restored_data_is_captured_again<T>(
    heads: nat,
    stride: nat,
    prefix: nat,
    data: Seq<T>,
    device: Seq<T>,
    blank: Seq<T>,
)
    requires
        prefix <= stride,
        heads * stride <= device.len(),
        heads * stride <= usize::MAX,
        data.len() == heads * prefix,
        blank.len() == heads * prefix,
    ensures
        ({
            let c = head_copies(heads, stride, prefix);
            pulled(c, pushed(c, data, device), blank) == data
        }),
{
    let c = head_copies(heads, stride, prefix);
    assert(c.take(heads as int) =~= c);
    let d = pushed(c, data, device);
    lemma_pushed(heads, stride, prefix, data, device, heads);
    lemma_pulled(heads, stride, prefix, d, blank, heads);
    let h = pulled(c, d, blank);
    assert forall|i: int| 0 <= i < data.len() implies h[i] == data[i] by {
        lemma_split(i, heads, prefix);
        let q = i / (prefix as int);
        let r = i % (prefix as int);
        assert(data[q * prefix + r] == data[i]);
        assert(d[q * stride + r] == data[q * prefix + r]);
        assert(h[q * prefix + r] == d[q * stride + r]);
    }
    assert(h =~= data);
}

/// The copies of every head's first `prefix_len` elements out of a span of
/// `head_stride`.
pub fn head_prefix_copies(heads: usize, head_stride: usize, prefix_len: usize) -> (r: Vec<RangeCopy>)
    requires
        prefix_len <= head_stride,
        heads * head_stride <= usize::MAX,
    ensures
        r@ == head_copies(heads as nat, head_stride as nat, prefix_len as nat),
{
    let mut out: Vec<RangeCopy> = Vec::new();
    let mut h: usize = 0;
    while h < heads
        invariant
            h <= heads,
            prefix_len <= head_stride,
            heads * head_stride <= usize::MAX,
            out@ == head_copies(heads as nat, head_stride as nat, prefix_len as nat).take(h as int),
        decreases heads - h,
    {
        proof {
            assert(h * head_stride <= heads * head_stride && h * prefix_len <= h * head_stride)
                by (nonlinear_arith)
                requires
                    h <= heads,
                    prefix_len <= head_stride,
            ;
        }
        out.push(RangeCopy { device: h * head_stride, host: h * prefix_len, len: prefix_len });
        h = h + 1;
        proof {
            let all = head_copies(heads as nat, head_stride as nat, prefix_len as nat);
            assert(out@ =~= all.take(h as int));
        }
    }
    proof {
        let all = head_copies(heads as nat, head_stride as nat, prefix_len as nat);
        assert(all.take(heads as int) =~= all);
    }
    out
}

} // verus!
