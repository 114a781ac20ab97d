//! Text helpers: rendering numbers and searching strings, stated over the
//! character sequences that strings hold.

use vstd::prelude::*;

verus! {

/// The character of a digit below sixteen, lower case.
pub open spec fn digit(d: nat) -> char {
    if d < 10 {
        (48 + d) as char
    } else {
        (87 + d) as char
    }
}

/// The decimal form of a number, without leading zeros.
pub open spec fn decimal(x: nat) -> Seq<char>
    decreases x,
{
    if x < 10 {
        seq![digit(x)]
    } else {
        decimal(x / 10).push(digit(x % 10))
    }
}

/// The last `width` hexadecimal digits of a number, most significant first.
pub open spec fn hex(x: nat, width: nat) -> Seq<char>
    decreases width,
{
    if width == 0 {
        Seq::empty()
    } else {
        hex(x / 16, (width - 1) as nat).push(digit(x % 16))
    }
}

/// Digits below sixteen have different characters.
proof fn lemma_digit_injective(a: nat, b: nat)
    requires
        a < 16,
        b < 16,
        digit(a) == digit(b),
    ensures
        a == b,
{
}

/// A fixed-width hexadecimal form has exactly that many characters.
pub proof fn lemma_hex_len(x: nat, width: nat)
    ensures
        hex(x, width).len() == width,
    decreases width,
{
    if width > 0 {
        lemma_hex_len(x / 16, (width - 1) as nat);
    }
}

/// Numbers that fit `width` digits have different hexadecimal forms.
pub proof fn lemma_hex_injective(a: nat, b: nat, width: nat, limit: nat)
    requires
        limit == vstd::arithmetic::power::pow(16, width),
        a < limit,
        b < limit,
        hex(a, width) == hex(b, width),
    ensures
        a == b,
    decreases width,
{
    reveal(vstd::arithmetic::power::pow);
    if width > 0 {
        let w = (width - 1) as nat;
        let shorter = vstd::arithmetic::power::pow(16, w);
        assert(limit == 16 * shorter);
        assert(hex(a, width).last() == digit(a % 16));
        assert(hex(b, width).last() == digit(b % 16));
        assert(hex(a, width).drop_last() =~= hex(a / 16, w));
        assert(hex(b, width).drop_last() =~= hex(b / 16, w));
        lemma_digit_injective(a % 16, b % 16);
        lemma_hex_injective(a / 16, b / 16, w, shorter as nat);
    }
}

/// Different numbers have different decimal forms.
pub proof fn lemma_decimal_injective(a: nat, b: nat)
    requires
        decimal(a) == decimal(b),
    ensures
        a == b,
    decreases a,
{
    lemma_decimal_nonempty(a);
    lemma_decimal_nonempty(b);
    assert(decimal(a).last() == digit(a % 10));
    assert(decimal(b).last() == digit(b % 10));
    lemma_digit_injective(a % 10, b % 10);
    if a < 10 {
        if b >= 10 {
            lemma_decimal_nonempty(b / 10);
            assert(decimal(b).len() >= 2);
        }
    } else {
        lemma_decimal_nonempty(a / 10);
        assert(decimal(a).len() >= 2);
        assert(b >= 10);
        assert(decimal(a).drop_last() =~= decimal(a / 10));
        assert(decimal(b).drop_last() =~= decimal(b / 10));
        lemma_decimal_injective(a / 10, b / 10);
    }
}

proof fn lemma_decimal_nonempty(a: nat)
    ensures
        decimal(a).len() >= 1,
{
}

fn digit_str(d: u64) -> (r: &'static str)
    requires
        d < 16,
    ensures
        r@ == seq![digit(d as nat)],
{
    proof {
        reveal_strlit("0");
        reveal_strlit("1");
        reveal_strlit("2");
        reveal_strlit("3");
        reveal_strlit("4");
        reveal_strlit("5");
        reveal_strlit("6");
        reveal_strlit("7");
        reveal_strlit("8");
        reveal_strlit("9");
        reveal_strlit("a");
        reveal_strlit("b");
        reveal_strlit("c");
        reveal_strlit("d");
        reveal_strlit("e");
        reveal_strlit("f");
    }
    let r: &'static str = match d {
        0 => "0",
        1 => "1",
        2 => "2",
        3 => "3",
        4 => "4",
        5 => "5",
        6 => "6",
        7 => "7",
        8 => "8",
        9 => "9",
        10 => "a",
        11 => "b",
        12 => "c",
        13 => "d",
        14 => "e",
        _ => "f",
    };
    assert(r@ =~= seq![digit(d as nat)]);
    r
}

/// Appends the decimal form of `x`.
pub fn push_decimal(out: &mut String, x: u64)
    ensures
        final(out)@ == old(out)@ + decimal(x as nat),
    decreases x,
{
    let ghost start = out@;
    if x >= 10 {
        push_decimal(out, x / 10);
    }
    out.append(digit_str(x % 10));
    proof {
        assert(out@ =~= start + decimal(x as nat));
    }
}

/// Appends the last `width` hexadecimal digits of `x`.
pub fn push_hex(out: &mut String, x: u64, width: usize)
    ensures
        final(out)@ == old(out)@ + hex(x as nat, width as nat),
    decreases width,
{
    let ghost start = out@;
    if width > 0 {
        push_hex(out, x / 16, width - 1);
        out.append(digit_str(x % 16));
    }
    proof {
        assert(out@ =~= start + hex(x as nat, width as nat));
    }
}

/// The characters of a string.
pub fn chars_of(s: &str) -> (r: Vec<char>)
    ensures
        r@ == s@,
{
    let mut out: Vec<char> = Vec::new();
    for c in it: s.chars()
        invariant
            it.seq() == s@,
            out@ == it.seq().take(it.index() as int),
    {
        out.push(c);
    }
    assert(s@.take(s@.len() as int) =~= s@);
    out
}

/// `needle` occurs in `text` starting at character `i`.
pub open spec fn occurs_at(text: Seq<char>, needle: Seq<char>, i: int) -> bool {
    0 <= i && i + needle.len() <= text.len() && text.subrange(i, i + needle.len()) == needle
}

/// `needle` occurs somewhere in `text`.
pub open spec fn occurs(text: Seq<char>, needle: Seq<char>) -> bool {
    exists|i: int| occurs_at(text, needle, i)
}

fn matches_at(text: &Vec<char>, needle: &Vec<char>, i: usize) -> (r: bool)
    requires
        i + needle@.len() <= text@.len(),
    ensures
        r == occurs_at(text@, needle@, i as int),
{
    let end: usize = text.len();
    let mut j: usize = 0;
    while j < needle.len()
        invariant
            j <= needle@.len(),
            end == text@.len(),
            i + needle@.len() <= text@.len(),
            forall|k: int| 0 <= k < j ==> text@[i + k] == needle@[k],
        decreases needle@.len() - j,
    {
        if text[i + j] != needle[j] {
            proof {
                assert(text@.subrange(i as int, i + needle@.len())[j as int] == text@[i + j]);
            }
            return false;
        }
        j = j + 1;
    }
    assert(text@.subrange(i as int, i + needle@.len()) =~= needle@);
    true
}

/// Whether `needle` occurs in `text`.
pub fn contains(text: &str, needle: &str) -> (r: bool)
    ensures
        r == occurs(text@, needle@),
{
    let t = chars_of(text);
    let n = chars_of(needle);
    if n.len() > t.len() {
        return false;
    }
    let mut i: usize = 0;
    while i <= t.len() - n.len()
        invariant
            t@ == text@,
            n@ == needle@,
            n@.len() <= t@.len(),
            i <= t@.len() - n@.len() + 1,
            forall|k: int| 0 <= k < i ==> !occurs_at(text@, needle@, k),
        decreases t@.len() - n@.len() + 1 - i,
    {
        if matches_at(&t, &n, i) {
            assert(occurs_at(text@, needle@, i as int));
            return true;
        }
        if i == t.len() - n.len() {
            return false;
        }
        i = i + 1;
    }
    false
}

/// `text` ends with `tail`.
pub open spec fn has_suffix(text: Seq<char>, tail: Seq<char>) -> bool {
    occurs_at(text, tail, text.len() - tail.len())
}

/// Whether `text` ends with `tail`.
pub fn ends_with(text: &str, tail: &str) -> (r: bool)
    ensures
        r == has_suffix(text@, tail@),
{
    let t = chars_of(text);
    let n = chars_of(tail);
    if n.len() > t.len() {
        return false;
    }
    matches_at(&t, &n, t.len() - n.len())
}

/// Whether two strings hold the same characters.
pub fn same_text(a: &str, b: &str) -> (r: bool)
    ensures
        r == (a@ == b@),
{
    let x = chars_of(a);
    let y = chars_of(b);
    if x.len() != y.len() {
        return false;
    }
    let r: bool = matches_at(&x, &y, 0);
    assert(x@.subrange(0, x@.len() as int) =~= x@);
    r
}

/// Whether `a` comes before `b`, given that they agree before character `i`.
pub open spec fn before_from(a: Seq<char>, b: Seq<char>, i: int) -> bool
    decreases b.len() - i,
{
    if i >= b.len() {
        false
    } else if i >= a.len() {
        true
    } else if a[i] == b[i] {
        before_from(a, b, i + 1)
    } else {
        (a[i] as int) < (b[i] as int)
    }
}

/// The order of texts: by the first character in which they differ, the
/// shorter one first where there is none.
pub open spec fn comes_before(a: Seq<char>, b: Seq<char>) -> bool {
    before_from(a, b, 0)
}

/// Of two texts at most one comes before the other, and neither does only
/// where they are the same.
pub proof fn lemma_text_order(a: Seq<char>, b: Seq<char>)
    ensures
        comes_before(a, b) ==> !comes_before(b, a),
        comes_before(a, b) || comes_before(b, a) || a == b,
        !comes_before(a, a),
{
    assert(a.take(0) =~= b.take(0));
    lemma_order_from(a, b, 0);
    lemma_order_from(a, a, 0);
}

proof fn lemma_order_from(a: Seq<char>, b: Seq<char>, i: int)
    requires
        0 <= i <= a.len(),
        i <= b.len(),
        a.take(i) == b.take(i),
    ensures
        before_from(a, b, i) ==> !before_from(b, a, i),
        before_from(a, b, i) || before_from(b, a, i) || a == b,
        a == b ==> !before_from(a, b, i),
    decreases b.len() - i,
{
    if i == a.len() && i == b.len() {
        assert(a.take(i) =~= a);
        assert(b.take(i) =~= b);
    } else if i < a.len() && i < b.len() && a[i] == b[i] {
        assert(a.take(i + 1) =~= a.take(i).push(a[i]));
        assert(b.take(i + 1) =~= b.take(i).push(b[i]));
        lemma_order_from(a, b, i + 1);
    }
}

/// The order of texts is transitive.
pub proof fn lemma_text_order_transitive(a: Seq<char>, b: Seq<char>, c: Seq<char>)
    requires
        comes_before(a, b),
        comes_before(b, c),
    ensures
        comes_before(a, c),
{
    lemma_before_transitive(a, b, c, 0);
}

proof fn lemma_before_transitive(a: Seq<char>, b: Seq<char>, c: Seq<char>, i: int)
    requires
        0 <= i,
        before_from(a, b, i),
        before_from(b, c, i),
    ensures
        before_from(a, c, i),
    decreases c.len() - i,
{
    if i < c.len() && i < a.len() && i < b.len() && a[i] == b[i] && b[i] == c[i] {
        lemma_before_transitive(a, b, c, i + 1);
    }
}

/// Whether a text comes before another.
pub fn text_before(a: &str, b: &str) -> (r: bool)
    ensures
        r == comes_before(a@, b@),
{
    let x = chars_of(a);
    let y = chars_of(b);
    let mut i: usize = 0;
    while i < x.len() && i < y.len() && x[i] == y[i]
        invariant
            i <= x@.len(),
            i <= y@.len(),
            x@ == a@,
            y@ == b@,
            comes_before(a@, b@) == before_from(a@, b@, i as int),
        decreases x@.len() - i,
    {
        i = i + 1;
    }
    if i < y.len() {
        i >= x.len() || x[i] < y[i]
    } else {
        false
    }
}

} // verus!
