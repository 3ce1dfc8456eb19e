//! Integer literal text: separators, digits in a base, and the two widths.
use vstd::prelude::*;
use crate::utils::VarInt;

verus! {

/// The separator that may stand between the digits of a literal.
pub open spec fn is_separator(b: u8) -> bool {
    b == 0x5f
}

/// `s` without its separators, the other bytes in their order.
pub open spec fn strip_underscores(s: Seq<u8>) -> Seq<u8>
    decreases s.len(),
{
    if s.len() == 0 {
        Seq::empty()
    } else if is_separator(s.last()) {
        strip_underscores(s.drop_last())
    } else {
        strip_underscores(s.drop_last()).push(s.last())
    }
}

/// What a byte counts as a digit: `0-9`, then `a-z` or `A-Z` from ten on;
/// 36 for a byte that is no digit in any base.
pub open spec fn digit_value(b: u8) -> int {
    if 0x30 <= b <= 0x39 {
        b - 0x30
    } else if 0x61 <= b <= 0x7a {
        b - 0x61 + 10
    } else if 0x41 <= b <= 0x5a {
        b - 0x41 + 10
    } else {
        36
    }
}

/// A non-empty run of digits of `base`.
pub open spec fn is_digits(s: Seq<u8>, base: int) -> bool {
    s.len() > 0 && forall|i: int| 0 <= i < s.len() ==> digit_value(#[trigger] s[i]) < base
}

/// The number that the digits `s` spell in `base`, most significant first.
pub open spec fn digits_value(s: Seq<u8>, base: int) -> int
    decreases s.len(),
{
    if s.len() == 0 {
        0
    } else {
        digits_value(s.drop_last(), base) * base + digit_value(s.last())
    }
}

/// Whether `s` starts with byte `b`.
pub open spec fn starts_with_byte(s: Seq<u8>, b: u8) -> bool {
    s.len() > 0 && s[0] == b
}

/// Unsigned reading: an optional `+`, then digits whose value fits 64 bits.
pub open spec fn parse_unsigned_spec(base: int, s: Seq<u8>) -> Option<u64> {
    let body = if starts_with_byte(s, 0x2b) { s.skip(1) } else { s };
    if is_digits(body, base) && digits_value(body, base) <= u64::MAX {
        Some(digits_value(body, base) as u64)
    } else {
        None
    }
}

/// Signed reading: an optional `+` or `-`, then digits; the signed value must
/// fit the signed 64-bit range.
pub open spec fn parse_signed_spec(base: int, s: Seq<u8>) -> Option<i64> {
    let negative = starts_with_byte(s, 0x2d);
    let body = if negative || starts_with_byte(s, 0x2b) { s.skip(1) } else { s };
    let value = if negative { -digits_value(body, base) } else { digits_value(body, base) };
    if is_digits(body, base) && i64::MIN <= value <= i64::MAX {
        Some(value as i64)
    } else {
        None
    }
}

/// The literal that `text` spells in `base`: separators are dropped, the
/// unsigned reading is tried first, the signed one second.
pub open spec fn parse_int_spec(base: int, text: Seq<u8>) -> Option<VarInt> {
    let s = strip_underscores(text);
    match parse_unsigned_spec(base, s) {
        Some(p) => Some(VarInt::Pos(p)),
        None => match parse_signed_spec(base, s) {
            Some(n) => Some(VarInt::Neg(n)),
            None => None,
        },
    }
}

/// Copies `text` without its separators.
pub fn remove_underscores(text: &[u8]) -> (r: Vec<u8>)
    ensures
        r@ == strip_underscores(text@),
{
    let mut out: Vec<u8> = Vec::new();
    let mut i: usize = 0;
    assert(text@.take(0) =~= Seq::<u8>::empty());
    while i < text.len()
        invariant
            0 <= i <= text.len(),
            out@ == strip_underscores(text@.take(i as int)),
        decreases text.len() - i,
    {
        let b: u8 = text[i];
        assert(text@.take(i + 1).drop_last() =~= text@.take(i as int));
        if b != 0x5f {
            out.push(b);
        }
        i = i + 1;
    }
    assert(text@.take(i as int) =~= text@);
    out
}

/// The value of one digit byte, 36 where it is no digit.
pub fn digit_of(b: u8) -> (r: u32)
    ensures
        r == digit_value(b),
        r <= 36,
{
    if 0x30 <= b && b <= 0x39 {
        (b - 0x30) as u32
    } else if 0x61 <= b && b <= 0x7a {
        (b - 0x61) as u32 + 10
    } else if 0x41 <= b && b <= 0x5a {
        (b - 0x41) as u32 + 10
    } else {
        36
    }
}

/// A run of digits never spells less than one of its prefixes.
pub proof fn lemma_prefix_value(s: Seq<u8>, k: int, base: int)
    requires
        0 <= k <= s.len(),
        base >= 1,
    ensures
        0 <= digits_value(s.take(k), base) <= digits_value(s, base),
    decreases s.len() - k,
{
    lemma_value_nonnegative(s.take(k), base);
    if k == s.len() {
        assert(s.take(k) =~= s);
    } else {
        lemma_prefix_value(s.drop_last(), k, base);
        assert(s.drop_last().take(k) =~= s.take(k));
        let shorter = digits_value(s.drop_last(), base);
        assert(shorter * base >= shorter) by (nonlinear_arith)
            requires
                shorter >= 0,
                base >= 1,
        ;
    }
}

/// A run of digits spells no negative number.
pub proof fn lemma_value_nonnegative(s: Seq<u8>, base: int)
    requires
        base >= 1,
    ensures
        digits_value(s, base) >= 0,
    decreases s.len(),
{
    if s.len() > 0 {
        lemma_value_nonnegative(s.drop_last(), base);
        let shorter = digits_value(s.drop_last(), base);
        assert(shorter * base >= 0) by (nonlinear_arith)
            requires
                shorter >= 0,
                base >= 1,
        ;
    }
}

/// The value of a run of digits of `base`, where it fits 64 bits.
pub fn parse_magnitude(base: u32, digits: &[u8]) -> (r: Option<u64>)
    requires
        2 <= base <= 36,
    ensures
        r == (if is_digits(digits@, base as int) && digits_value(digits@, base as int) <= u64::MAX {
            Some(digits_value(digits@, base as int) as u64)
        } else {
            None
        }),
{
    if digits.len() == 0 {
        return None;
    }
    let mut acc: u64 = 0;
    let mut i: usize = 0;
    assert(digits@.take(0) =~= Seq::<u8>::empty());
    while i < digits.len()
        invariant
            2 <= base <= 36,
            0 <= i <= digits.len(),
            acc == digits_value(digits@.take(i as int), base as int),
            forall|j: int| 0 <= j < i ==> digit_value(#[trigger] digits@[j]) < base,
        decreases digits.len() - i,
    {
        let d: u32 = digit_of(digits[i]);
        if d >= base {
            return None;
        }
        assert(digits@.take(i + 1).drop_last() =~= digits@.take(i as int));
        proof {
            lemma_prefix_value(digits@, i + 1, base as int);
        }
        let scaled = match acc.checked_mul(base as u64) {
            Some(m) => m,
            None => {
                return None;
            },
        };
        acc = match scaled.checked_add(d as u64) {
            Some(a) => a,
            None => {
                return None;
            },
        };
        i = i + 1;
    }
    assert(digits@.take(i as int) =~= digits@);
    Some(acc)
}

/// Reads `text` as an integer literal in `base`: separators are dropped, then
/// the text is read as unsigned and, failing that, as signed.
pub fn parse_int(base: u32, text: &[u8]) -> (r: Option<VarInt>)
    requires
        2 <= base <= 36,
    ensures
        r == parse_int_spec(base as int, text@),
{
    let stripped = remove_underscores(text);
    let s = stripped.as_slice();
    let n: usize = s.len();
    let negative: bool = n > 0 && s[0] == 0x2d;
    let signed: bool = n > 0 && (s[0] == 0x2d || s[0] == 0x2b);
    let body = if signed { vstd::slice::slice_subrange(s, 1, n) } else { s };
    assert(signed ==> body@ =~= s@.skip(1));
    let magnitude = parse_magnitude(base, body);
    proof {
        lemma_value_nonnegative(body@, base as int);
    }
    match magnitude {
        None => None,
        Some(m) => {
            if !negative {
                Some(VarInt::Pos(m))
            } else if m <= 0x7fff_ffff_ffff_ffff {
                Some(VarInt::Neg(-(m as i64)))
            } else if m == 0x8000_0000_0000_0000 {
                Some(VarInt::Neg(i64::MIN))
            } else {
                None
            }
        },
    }
}

/// Separators split off a concatenation piece by piece.
pub proof fn lemma_strip_concat(a: Seq<u8>, b: Seq<u8>)
    ensures
        strip_underscores(a + b) == strip_underscores(a) + strip_underscores(b),
    decreases b.len(),
{
    if b.len() == 0 {
        assert(a + b =~= a);
        assert(strip_underscores(a) + strip_underscores(b) =~= strip_underscores(a));
    } else {
        lemma_strip_concat(a, b.drop_last());
        assert((a + b).drop_last() =~= a + b.drop_last());
        assert(strip_underscores(a + b) =~= strip_underscores(a) + strip_underscores(b));
    }
}

/// A literal made of digits of the base whose value fits the unsigned 64-bit
/// range reads as that value, whatever separators stand among the digits.
pub proof fn lemma_parse_int_exact(base: int, text: Seq<u8>)
    requires
        2 <= base <= 36,
        is_digits(strip_underscores(text), base),
        digits_value(strip_underscores(text), base) <= u64::MAX,
    ensures
        parse_int_spec(base, text) == Some(
            VarInt::Pos(digits_value(strip_underscores(text), base) as u64),
        ),
{
    let s = strip_underscores(text);
    assert(digit_value(s[0]) < base);
}

/// A separator put anywhere into a literal changes nothing of what it reads as.
pub proof fn lemma_parse_int_separator(base: int, before: Seq<u8>, after: Seq<u8>)
    ensures
        parse_int_spec(base, before + seq![0x5fu8] + after) == parse_int_spec(base, before + after),
{
    lemma_strip_concat(before + seq![0x5fu8], after);
    lemma_strip_concat(before, seq![0x5fu8]);
    lemma_strip_concat(before, after);
    assert(seq![0x5fu8].drop_last() =~= Seq::<u8>::empty());
    assert(strip_underscores(seq![0x5fu8]) =~= Seq::<u8>::empty()) by {
        reveal_with_fuel(strip_underscores, 2);
        assert(is_separator(seq![0x5fu8].last()));
    }
    assert(strip_underscores(before) + Seq::<u8>::empty() =~= strip_underscores(before));
}

} // verus!
