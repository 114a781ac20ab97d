//! Recorded activations of a diagnostic run, by layer and tensor. Values are
//! kept as the bit patterns of their single-precision numbers.

use super::plan::Probe;
use crate::text::{
    chars_of, comes_before, decimal, digit, lemma_text_order, lemma_text_order_transitive,
    push_decimal, same_text, text_before,
};
use vstd::prelude::*;
use vstd::string::StrSliceExecFns;

verus! {

/// The name a recorded activation goes by.
pub open spec fn probe_name(p: Probe) -> Seq<char> {
    match p {
        Probe::GdnXn => "gdn_xn"@,
        Probe::GdnQkvRaw => "gdn_qkv_raw"@,
        Probe::GdnYSilu => "gdn_y_silu"@,
        Probe::GdnSsmOutRaw => "gdn_ssm_out_raw"@,
        Probe::ResidPreFfn => "resid_pre_ffn"@,
        Probe::FfnXn => "ffn_xn"@,
        Probe::FfnGateSilu => "ffn_gate_silu"@,
        Probe::FfnDownOut => "ffn_down_out"@,
        Probe::ResidPost => "resid_post"@,
    }
}

/// The name a recorded activation goes by.
pub fn tensor_name(p: Probe) -> (r: &'static str)
    ensures
        r@ == probe_name(p),
{
    match p {
        Probe::GdnXn => "gdn_xn",
        Probe::GdnQkvRaw => "gdn_qkv_raw",
        Probe::GdnYSilu => "gdn_y_silu",
        Probe::GdnSsmOutRaw => "gdn_ssm_out_raw",
        Probe::ResidPreFfn => "resid_pre_ffn",
        Probe::FfnXn => "ffn_xn",
        Probe::FfnGateSilu => "ffn_gate_silu",
        Probe::FfnDownOut => "ffn_down_out",
        Probe::ResidPost => "resid_post",
    }
}

/// The key of a layer's tensor: its number, a colon, its name.
pub open spec fn capture_key(layer: u32, tensor: Seq<char>) -> Seq<char> {
    decimal(layer as nat) + seq![':'] + tensor
}

/// A decimal digit.
pub open spec fn is_digit(c: char) -> bool {
    48 <= c as int <= 57
}

/// The number that a run of decimal digits stands for.
pub open spec fn value_of(s: Seq<char>) -> nat
    decreases s.len(),
{
    if s.len() == 0 {
        0
    } else {
        value_of(s.drop_last()) * 10 + (s.last() as int - 48) as nat
    }
}

/// The digits after an optional plus sign.
pub open spec fn unsigned_part(s: Seq<char>) -> Seq<char> {
    if s.len() > 0 && s[0] == '+' {
        s.skip(1)
    } else {
        s
    }
}

/// The 32-bit number a text stands for, if it does: an optional plus sign
/// and at least one digit.
pub open spec fn number_of(s: Seq<char>) -> Option<u32> {
    let d = unsigned_part(s);
    if d.len() > 0 && (forall|i: int| 0 <= i < d.len() ==> is_digit(#[trigger] d[i])) && value_of(d)
        <= u32::MAX {
        Some(value_of(d) as u32)
    } else {
        None
    }
}

/// The first colon from `i` on.
pub open spec fn colon_from(s: Seq<char>, i: int) -> Option<int>
    decreases s.len() - i,
{
    if i >= s.len() {
        None
    } else if s[i] == ':' {
        Some(i)
    } else {
        colon_from(s, i + 1)
    }
}

/// A key's layer and tensor: what precedes and what follows its first colon.
/// A layer that is no number, or that is missing, reads as the largest one.
pub open spec fn key_parts(key: Seq<char>) -> (u32, Seq<char>) {
    match colon_from(key, 0) {
        None => (u32::MAX, key),
        Some(i) => (
            match number_of(key.take(i)) {
                Some(n) => n,
                None => u32::MAX,
            },
            key.skip(i + 1),
        ),
    }
}

proof fn lemma_decimal_value(x: nat)
    ensures
        decimal(x).len() > 0,
        forall|i: int| 0 <= i < decimal(x).len() ==> is_digit(#[trigger] decimal(x)[i]),
        value_of(decimal(x)) == x,
    decreases x,
{
    let d = decimal(x);
    if x < 10 {
        assert(d.drop_last() =~= Seq::empty());
        assert(digit(x) as int == 48 + x);
        assert(value_of(d.drop_last()) == 0);
    } else {
        lemma_decimal_value(x / 10);
        assert(d.drop_last() =~= decimal(x / 10));
        assert(d.last() == digit(x % 10));
        assert forall|i: int| 0 <= i < d.len() implies is_digit(#[trigger] d[i]) by {
            if i < d.len() - 1 {
                assert(d[i] == decimal(x / 10)[i]);
            }
        }
    }
}

proof fn lemma_colon_after(s: Seq<char>, n: int, i: int)
    requires
        0 <= i <= n < s.len(),
        s[n] == ':',
        forall|j: int| 0 <= j < n ==> (#[trigger] s[j]) != ':',
    ensures
        colon_from(s, i) == Some(n),
    decreases n - i,
{
    if i < n {
        lemma_colon_after(s, n, i + 1);
    }
}

/// A key gives back the layer and the tensor it was made of.
pub proof fn law_keys_can_be_split(layer: u32, tensor: Seq<char>)
    ensures
        key_parts(capture_key(layer, tensor)) == (layer, tensor),
{
    let d = decimal(layer as nat);
    let key = capture_key(layer, tensor);
    lemma_decimal_value(layer as nat);
    let n = d.len() as int;
    assert(key[n] == ':');
    assert forall|j: int| 0 <= j < n implies (#[trigger] key[j]) != ':' by {
        assert(key[j] == d[j]);
        assert(is_digit(d[j]));
    }
    lemma_colon_after(key, n, 0);
    assert(key.take(n) =~= d);
    assert(key.skip(n + 1) =~= tensor);
    assert(is_digit(d[0]));
    assert(unsigned_part(d) == d);
}

fn digit_value(c: char) -> (r: Option<u64>)
    ensures
        match r {
            Some(d) => is_digit(c) && d == c as int - 48,
            None => !is_digit(c),
        },
{
    match c {
        '0' => Some(0),
        '1' => Some(1),
        '2' => Some(2),
        '3' => Some(3),
        '4' => Some(4),
        '5' => Some(5),
        '6' => Some(6),
        '7' => Some(7),
        '8' => Some(8),
        '9' => Some(9),
        _ => None,
    }
}

fn parse_number(chars: &Vec<char>, from: usize, to: usize) -> (r: Option<u32>)
    requires
        from <= to <= chars@.len(),
    ensures
        r == number_of(chars@.subrange(from as int, to as int)),
{
    let ghost s = chars@.subrange(from as int, to as int);
    let begin: usize = if from < to && chars[from] == '+' {
        from + 1
    } else {
        from
    };
    let ghost d = unsigned_part(s);
    proof {
        assert(d =~= chars@.subrange(begin as int, to as int));
    }
    if begin == to {
        return None;
    }
    let mut acc: u64 = 0;
    let mut too_large: bool = false;
    let mut i: usize = begin;
    proof {
        assert(d.take(0) =~= Seq::empty());
    }
    while i < to
        invariant
            begin <= i <= to <= chars@.len(),
            s == chars@.subrange(from as int, to as int),
            d == unsigned_part(s),
            d == chars@.subrange(begin as int, to as int),
            d.len() > 0,
            forall|j: int| 0 <= j < i - begin ==> is_digit(#[trigger] d[j]),
            acc <= u32::MAX,
            !too_large ==> acc == value_of(d.take(i - begin)),
            too_large ==> value_of(d.take(i - begin)) > u32::MAX,
        decreases to - i,
    {
        let c: char = chars[i];
        proof {
            assert(d[i - begin] == c);
        }
        let x: u64 = match digit_value(c) {
            Some(x) => x,
            None => {
                proof {
                    assert(!is_digit(d[i - begin]));
                }
                return None;
            },
        };
        proof {
            assert(d.take(i + 1 - begin).drop_last() =~= d.take(i - begin));
            assert(d.take(i + 1 - begin).last() == c);
        }
        if !too_large {
            let next: u64 = acc * 10 + x;
            if next > u32::MAX as u64 {
                too_large = true;
            } else {
                acc = next;
            }
        }
        i = i + 1;
    }
    proof {
        assert(d.take(i - begin) =~= d);
    }
    if too_large {
        None
    } else {
        Some(acc as u32)
    }
}

/// A key's layer and tensor.
pub fn split_key(key: &str) -> (r: (u32, String))
    ensures
        (r.0, r.1@) == key_parts(key@),
{
    let chars = chars_of(key);
    let n: usize = chars.len();
    let mut i: usize = 0;
    while i < n && chars[i] != ':'
        invariant
            i <= n,
            n == chars@.len(),
            chars@ == key@,
            colon_from(key@, 0) == colon_from(key@, i as int),
        decreases n - i,
    {
        i = i + 1;
    }
    if i == n {
        return (u32::MAX, key.to_owned());
    }
    let layer: u32 = match parse_number(&chars, 0, i) {
        Some(x) => x,
        None => u32::MAX,
    };
    let tensor = key.substring_char(i + 1, n);
    proof {
        assert(chars@.subrange(0, i as int) =~= key@.take(i as int));
        assert(key@.subrange(i + 1, n as int) =~= key@.skip(i + 1));
    }
    (layer, tensor.to_owned())
}

/// The key of a layer's tensor.
pub fn make_key(layer: u32, tensor: &str) -> (r: String)
    ensures
        r@ == capture_key(layer, tensor@),
{
    let mut key = String::new();
    push_decimal(&mut key, layer as u64);
    key.append(":");
    key.append(tensor);
    proof {
        reveal_strlit(":");
        assert(key@ =~= capture_key(layer, tensor@));
    }
    key
}

/// A recorded matrix, row by row.
#[derive(Debug, Clone, PartialEq)]
pub struct CapturedTensor {
    pub rows: u32,
    pub cols: u32,
    pub values: Vec<u32>,
}

/// What a [`CapturedTensor`] holds.
#[verifier::ext_equal]
pub struct TensorModel {
    pub rows: u32,
    pub cols: u32,
    pub values: Seq<u32>,
}

impl View for CapturedTensor {
    type V = TensorModel;

    open spec fn view(&self) -> TensorModel {
        TensorModel { rows: self.rows, cols: self.cols, values: self.values@ }
    }
}

impl CapturedTensor {
    /// One row.
    pub fn row(&self, r: usize) -> (out: &[u32])
        requires
            (r + 1) * self.cols <= self.values@.len(),
        ensures
            out@ == self@.values.subrange(r * self.cols, (r + 1) * self.cols),
    {
        let cols: usize = self.cols as usize;
        let len: usize = self.values.len();
        proof {
            assert(r * cols + cols == (r + 1) * cols) by (nonlinear_arith);
            assert(0 <= r * cols) by (nonlinear_arith);
        }
        vstd::slice::slice_subrange(self.values.as_slice(), r * cols, r * cols + cols)
    }
}

/// A recorded tensor under its key.
#[derive(Debug, Clone, PartialEq)]
pub struct CaptureEntry {
    pub key: String,
    pub tensor: CapturedTensor,
}

/// What was recorded under a key, from entry `i` on.
pub open spec fn find_from(s: Seq<CaptureEntry>, key: Seq<char>, i: int) -> Option<TensorModel>
    decreases s.len() - i,
{
    if i >= s.len() {
        None
    } else if s[i].key@ == key {
        Some(s[i].tensor@)
    } else {
        find_from(s, key, i + 1)
    }
}

/// What was recorded in one run, with at most one tensor a key, in the order
/// of the keys.
#[derive(Debug, Clone, PartialEq)]
pub struct LayerDump {
    pub tensors: Vec<CaptureEntry>,
}

/// Keys come in order, and so none occurs twice.
pub open spec fn in_order(s: Seq<CaptureEntry>) -> bool {
    forall|i: int, j: int|
        0 <= i < j < s.len() ==> comes_before((#[trigger] s[i]).key@, (#[trigger] s[j]).key@)
}

impl LayerDump {
    /// What was recorded under a key.
    pub open spec fn find(&self, key: Seq<char>) -> Option<TensorModel> {
        find_from(self.tensors@, key, 0)
    }

    /// Keys come in order, and so none occurs twice.
    pub open spec fn wf(&self) -> bool {
        in_order(self.tensors@)
    }
}

/// An entry is found under its key, and nothing else is found.
proof fn lemma_find(s: Seq<CaptureEntry>, key: Seq<char>)
    requires
        in_order(s),
    ensures
        forall|k: int|
            0 <= k < s.len() && (#[trigger] s[k]).key@ == key ==> find_from(s, key, 0) == Some(
                s[k].tensor@,
            ),
        find_from(s, key, 0) is Some ==> exists|k: int|
            0 <= k < s.len() && (#[trigger] s[k]).key@ == key,
{
    assert forall|k: int| 0 <= k < s.len() && (#[trigger] s[k]).key@ == key implies find_from(
        s,
        key,
        0,
    ) == Some(s[k].tensor@) by {
        assert forall|j: int| 0 <= j < k implies (#[trigger] s[j]).key@ != key by {
            lemma_text_order(key, key);
        }
        lemma_find_at(s, key, k, 0);
    }
    lemma_found(s, key, 0);
}

proof fn lemma_find_at(s: Seq<CaptureEntry>, key: Seq<char>, k: int, i: int)
    requires
        0 <= i <= k < s.len(),
        s[k].key@ == key,
        forall|j: int| 0 <= j < k ==> (#[trigger] s[j]).key@ != key,
    ensures
        find_from(s, key, i) == Some(s[k].tensor@),
    decreases k - i,
{
    if i < k {
        lemma_find_at(s, key, k, i + 1);
    }
}

proof fn lemma_found(s: Seq<CaptureEntry>, key: Seq<char>, i: int)
    requires
        0 <= i,
    ensures
        find_from(s, key, i) is Some ==> exists|k: int|
            i <= k < s.len() && (#[trigger] s[k]).key@ == key,
    decreases s.len() - i,
{
    if i < s.len() && s[i].key@ != key {
        lemma_found(s, key, i + 1);
    }
}

proof fn lemma_sorted_prefix(s: Seq<CaptureEntry>, t: Seq<CaptureEntry>, i: int)
    requires
        in_order(s),
        in_order(t),
        0 <= i < s.len(),
        i < t.len(),
        forall|j: int| 0 <= j < i ==> (#[trigger] s[j]).key@ == t[j].key@,
        exists|k: int| 0 <= k < t.len() && (#[trigger] t[k]).key@ == s[i].key@,
        exists|k: int| 0 <= k < s.len() && (#[trigger] s[k]).key@ == t[i].key@,
    ensures
        s[i].key@ == t[i].key@,
{
    let k = choose|k: int| 0 <= k < t.len() && (#[trigger] t[k]).key@ == s[i].key@;
    let l = choose|l: int| 0 <= l < s.len() && (#[trigger] s[l]).key@ == t[i].key@;
    lemma_text_order(s[i].key@, t[i].key@);
    lemma_text_order(s[i].key@, s[i].key@);
    lemma_text_order(t[i].key@, t[i].key@);
    if k < i {
        assert(s[k].key@ == t[k].key@);
        assert(comes_before(s[k].key@, s[i].key@));
    }
    if l < i {
        assert(s[l].key@ == t[l].key@);
        assert(comes_before(t[l].key@, t[i].key@));
    }
    if k > i {
        assert(comes_before(t[i].key@, t[k].key@));
    }
    if l > i {
        assert(comes_before(s[i].key@, s[l].key@));
    }
}

proof fn lemma_same_keys(a: &LayerDump, b: &LayerDump, i: int)
    requires
        a.wf(),
        b.wf(),
        forall|key: Seq<char>| #[trigger] a.find(key) == b.find(key),
        0 <= i <= a.tensors@.len(),
        i <= b.tensors@.len(),
    ensures
        forall|j: int| 0 <= j < i ==> (#[trigger] a.tensors@[j]).key@ == b.tensors@[j].key@,
    decreases i,
{
    if i > 0 {
        let k = i - 1;
        lemma_same_keys(a, b, k);
        lemma_shared_key(a, b, k);
        lemma_shared_key(b, a, k);
        lemma_sorted_prefix(a.tensors@, b.tensors@, k);
    }
}

proof fn lemma_shared_key(a: &LayerDump, b: &LayerDump, i: int)
    requires
        a.wf(),
        b.wf(),
        forall|key: Seq<char>| #[trigger] a.find(key) == b.find(key),
        0 <= i < a.tensors@.len(),
    ensures
        exists|k: int|
            0 <= k < b.tensors@.len() && (#[trigger] b.tensors@[k]).key@ == a.tensors@[i].key@,
{
    let key = a.tensors@[i].key@;
    lemma_find(a.tensors@, key);
    lemma_find(b.tensors@, key);
    assert(a.find(key) is Some);
}

proof fn lemma_no_longer(a: &LayerDump, b: &LayerDump)
    requires
        a.wf(),
        b.wf(),
        forall|key: Seq<char>| #[trigger] a.find(key) == b.find(key),
    ensures
        a.tensors@.len() <= b.tensors@.len(),
{
    let n = b.tensors@.len() as int;
    if a.tensors@.len() > n {
        lemma_same_keys(a, b, n);
        lemma_shared_key(a, b, n);
        let key = a.tensors@[n].key@;
        let k = choose|k: int| 0 <= k < n && (#[trigger] b.tensors@[k]).key@ == key;
        assert(a.tensors@[k].key@ == key);
        lemma_text_order(key, key);
    }
}

/// Runs that recorded the same tensors have the same dump, whatever order
/// they were recorded in.
pub proof fn law_dumps_depend_on_what_was_recorded(a: &LayerDump, b: &LayerDump)
    requires
        a.wf(),
        b.wf(),
        forall|key: Seq<char>| #[trigger] a.find(key) == b.find(key),
    ensures
        a.tensors@.len() == b.tensors@.len(),
        forall|i: int|
            0 <= i < a.tensors@.len() ==> (#[trigger] a.tensors@[i]).key@ == b.tensors@[i].key@
                && a.tensors@[i].tensor@ == b.tensors@[i].tensor@,
{
    lemma_no_longer(a, b);
    lemma_no_longer(b, a);
    lemma_same_keys(a, b, a.tensors@.len() as int);
    assert forall|i: int| 0 <= i < a.tensors@.len() implies (#[trigger] a.tensors@[i]).tensor@
        == b.tensors@[i].tensor@ by {
        let key = a.tensors@[i].key@;
        lemma_find(a.tensors@, key);
        lemma_find(b.tensors@, key);
        assert(b.tensors@[i].key@ == key);
        assert(a.find(key) == b.find(key));
    }
}

spec fn placed(s: Seq<CaptureEntry>, e: CaptureEntry, i: int, same: bool) -> Seq<CaptureEntry> {
    if same {
        s.update(i, e)
    } else {
        s.insert(i, e)
    }
}

/// An entry put where its key belongs, in place of one with the same key or
/// beside the others, is found there; everything else is found as before.
proof fn lemma_place(s: Seq<CaptureEntry>, e: CaptureEntry, i: int, same: bool)
    requires
        in_order(s),
        0 <= i <= s.len(),
        forall|j: int| 0 <= j < i ==> comes_before((#[trigger] s[j]).key@, e.key@),
        i < s.len() ==> !comes_before(s[i].key@, e.key@),
        same == (i < s.len() && s[i].key@ == e.key@),
    ensures
        in_order(placed(s, e, i, same)),
        find_from(placed(s, e, i, same), e.key@, 0) == Some(e.tensor@),
        forall|key: Seq<char>|
            key != e.key@ ==> #[trigger] find_from(placed(s, e, i, same), key, 0) == find_from(
                s,
                key,
                0,
            ),
{
    let t = placed(s, e, i, same);
    let shift: int = if same {
        0
    } else {
        1
    };
    assert forall|j: int| i < j + shift && 0 <= j < s.len() implies #[trigger] s[j] == t[j
        + shift] by {}
    assert forall|j: int| i < j < t.len() implies comes_before(e.key@, (#[trigger] t[j]).key@) by {
        assert(t[j] == s[j - shift]);
        lemma_text_order(s[i].key@, e.key@);
        if i < j - shift {
            assert(comes_before(s[i].key@, s[j - shift].key@));
            if s[i].key@ != e.key@ {
                lemma_text_order_transitive(e.key@, s[i].key@, s[j - shift].key@);
            }
        }
    }
    assert(in_order(t)) by {
        assert forall|a: int, b: int| 0 <= a < b < t.len() implies comes_before(
            (#[trigger] t[a]).key@,
            (#[trigger] t[b]).key@,
        ) by {
            if a < i && b > i {
                lemma_text_order_transitive(s[a].key@, e.key@, t[b].key@);
            } else if a > i {
                assert(t[a] == s[a - shift]);
                assert(t[b] == s[b - shift]);
            } else if b < i {
                assert(t[a] == s[a]);
                assert(t[b] == s[b]);
            }
        }
    }
    lemma_find(t, e.key@);
    assert(t[i].key@ == e.key@);
    assert forall|key: Seq<char>| key != e.key@ implies #[trigger] find_from(t, key, 0)
        == find_from(s, key, 0) by {
        lemma_find(t, key);
        lemma_find(s, key);
        if find_from(t, key, 0) is Some {
            let k = choose|k: int| 0 <= k < t.len() && (#[trigger] t[k]).key@ == key;
            if k < i {
                assert(s[k].key@ == key);
            } else {
                assert(s[k - shift].key@ == key);
            }
        }
        if find_from(s, key, 0) is Some {
            let k = choose|k: int| 0 <= k < s.len() && (#[trigger] s[k]).key@ == key;
            if k < i {
                assert(t[k].key@ == key);
            } else {
                assert(t[k + shift].key@ == key);
            }
        }
    }
}

/// What keeps recording.
#[derive(Debug, Clone, PartialEq)]
pub struct LayerCapture {
    dump: LayerDump,
}

impl LayerCapture {
    /// What was recorded under a key.
    pub closed spec fn find(&self, key: Seq<char>) -> Option<TensorModel> {
        self.dump.find(key)
    }

    /// Keys come in order, and so none occurs twice.
    pub closed spec fn wf(&self) -> bool {
        self.dump.wf()
    }

    /// Nothing recorded yet.
    pub fn new() -> (r: Self)
        ensures
            r.wf(),
            forall|key: Seq<char>| #[trigger] r.find(key) is None,
    {
        LayerCapture { dump: LayerDump { tensors: Vec::new() } }
    }

    /// Records a layer's tensor. What was recorded under its key before is
    /// replaced; everything else stays.
    pub fn record(&mut self, layer_idx: u32, tensor: &str, rows: u32, cols: u32, values: Vec<u32>)
        requires
            old(self).wf(),
            values@.len() == rows * cols,
        ensures
            final(self).wf(),
            final(self).find(capture_key(layer_idx, tensor@)) == Some(
                TensorModel { rows, cols, values: values@ },
            ),
            forall|key: Seq<char>|
                key != capture_key(layer_idx, tensor@) ==> #[trigger] final(self).find(key)
                    == old(self).find(key),
    {
        let ghost before = self.dump.tensors@;
        let key = make_key(layer_idx, tensor);
        let ghost k = key@;
        let n: usize = self.dump.tensors.len();
        let mut i: usize = 0;
        while i < n && text_before(self.dump.tensors[i].key.as_str(), key.as_str())
            invariant
                i <= n,
                n == self.dump.tensors@.len(),
                self.dump.tensors@ == before,
                k == key@,
                forall|j: int| 0 <= j < i ==> comes_before((#[trigger] before[j]).key@, k),
            decreases n - i,
        {
            i = i + 1;
        }
        let same: bool = i < n && same_text(self.dump.tensors[i].key.as_str(), key.as_str());
        let entry = CaptureEntry { key, tensor: CapturedTensor { rows, cols, values } };
        proof {
            lemma_place(before, entry, i as int, same);
        }
        if same {
            self.dump.tensors.set(i, entry);
        } else {
            self.dump.tensors.insert(i, entry);
        }
        proof {
            let after = placed(before, entry, i as int, same);
            assert(self.dump.tensors@ == after);
            assert(entry.tensor@ =~= (TensorModel { rows, cols, values: values@ }));
            assert forall|key: Seq<char>| key != k implies #[trigger] self.find(key) == old(
                self,
            ).find(key) by {
                assert(find_from(after, key, 0) == find_from(before, key, 0));
            }
        }
    }

    /// What was recorded so far.
    pub fn dump(&self) -> (r: &LayerDump)
        requires
            self.wf(),
        ensures
            r.wf(),
            forall|key: Seq<char>| #[trigger] r.find(key) == self.find(key),
    {
        &self.dump
    }
}

/// Two recordings of a tensor that can be compared: entry `i` of the one and
/// entry `j` of the other have one key and one shape.
pub open spec fn comparable(
    a: Seq<CaptureEntry>,
    b: Seq<CaptureEntry>,
    i: int,
    j: int,
) -> bool {
    &&& 0 <= i < a.len()
    &&& 0 <= j < b.len()
    &&& a[i].key@ == b[j].key@
    &&& a[i].tensor.rows == b[j].tensor.rows
    &&& a[i].tensor.cols == b[j].tensor.cols
}

/// The pairs of tensors to compare, in the order of the first dump.
pub fn comparable_pairs(a: &LayerDump, b: &LayerDump) -> (r: Vec<(usize, usize)>)
    requires
        a.wf(),
        b.wf(),
    ensures
        forall|k: int|
            0 <= k < r@.len() ==> comparable(
                a.tensors@,
                b.tensors@,
                (#[trigger] r@[k]).0 as int,
                r@[k].1 as int,
            ),
        forall|k: int, l: int|
            0 <= k < l < r@.len() ==> (#[trigger] r@[k]).0 < (#[trigger] r@[l]).0,
        forall|i: int, j: int| #[trigger]
            comparable(a.tensors@, b.tensors@, i, j) ==> exists|k: int|
                0 <= k < r@.len() && #[trigger] r@[k] == (i as usize, j as usize),
{
    let ghost x = a.tensors@;
    let ghost y = b.tensors@;
    let n: usize = a.tensors.len();
    let m: usize = b.tensors.len();
    let mut out: Vec<(usize, usize)> = Vec::new();
    let mut i: usize = 0;
    while i < n
        invariant
            i <= n,
            n == x.len(),
            m == y.len(),
            x == a.tensors@,
            y == b.tensors@,
            b.wf(),
            forall|k: int|
                0 <= k < out@.len() ==> comparable(
                    x,
                    y,
                    (#[trigger] out@[k]).0 as int,
                    out@[k].1 as int,
                ) && out@[k].0 < i,
            forall|k: int, l: int|
                0 <= k < l < out@.len() ==> (#[trigger] out@[k]).0 < (#[trigger] out@[l]).0,
            forall|p: int, q: int| #[trigger]
                comparable(x, y, p, q) && p < i ==> exists|k: int|
                    0 <= k < out@.len() && #[trigger] out@[k] == (p as usize, q as usize),
        decreases n - i,
    {
        let ghost held = out@;
        let mut j: usize = 0;
        while j < m && !same_text(b.tensors[j].key.as_str(), a.tensors[i].key.as_str())
            invariant
                j <= m,
                m == y.len(),
                i < n,
                n == x.len(),
                x == a.tensors@,
                y == b.tensors@,
                forall|q: int| 0 <= q < j ==> (#[trigger] y[q]).key@ != x[i as int].key@,
            decreases m - j,
        {
            j = j + 1;
        }
        if j < m && a.tensors[i].tensor.rows == b.tensors[j].tensor.rows
            && a.tensors[i].tensor.cols == b.tensors[j].tensor.cols {
            out.push((i, j));
        }
        proof {
            assert forall|p: int, q: int| #[trigger]
                comparable(x, y, p, q) && p < i + 1 implies exists|k: int|
                0 <= k < out@.len() && #[trigger] out@[k] == (p as usize, q as usize) by {
                if p < i {
                    let k = choose|k: int|
                        0 <= k < held.len() && #[trigger] held[k] == (p as usize, q as usize);
                    assert(out@[k] == held[k]);
                } else {
                    assert(x[i as int].key@ == y[q].key@);
                    assert(j <= q);
                    if j < q {
                        lemma_text_order(y[q].key@, y[q].key@);
                        assert(comes_before(y[j as int].key@, y[q].key@));
                    }
                    assert(out@[out@.len() - 1] == (p as usize, q as usize));
                }
            }
        }
        i = i + 1;
    }
    out
}

} // verus!
