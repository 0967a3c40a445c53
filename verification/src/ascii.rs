//! ASCII byte classification and case folding.
//!
//! The whole engine works on byte strings.  Only ASCII letters are ever
//! re-cased; every other byte passes through conversions unchanged, so
//! multi-byte UTF-8 sequences survive a conversion intact.

use vstd::prelude::*;

verus! {

/// The `_` delimiter byte.
pub const UNDERSCORE: u8 = 95;

/// The `-` delimiter byte.
pub const HYPHEN: u8 = 45;

/// The ` ` delimiter byte.
pub const SPACE: u8 = 32;

/// The byte value of `a`.
pub const LOWER_A: u8 = 97;

/// The byte value of `z`.
pub const LOWER_Z: u8 = 122;

/// The byte value of `A`.
pub const UPPER_A: u8 = 65;

/// The byte value of `Z`.
pub const UPPER_Z: u8 = 90;

/// The byte value of `0`.
pub const DIGIT_ZERO: u8 = 48;

/// The byte value of `9`.
pub const DIGIT_NINE: u8 = 57;

/// True when `b` is an ASCII lowercase letter.
pub open spec fn is_lower(b: u8) -> bool {
    LOWER_A <= b && b <= LOWER_Z
}

/// True when `b` is an ASCII uppercase letter.
pub open spec fn is_upper(b: u8) -> bool {
    UPPER_A <= b && b <= UPPER_Z
}

/// True when `b` is an ASCII decimal digit.
pub open spec fn is_digit(b: u8) -> bool {
    DIGIT_ZERO <= b && b <= DIGIT_NINE
}

/// True when `b` is an ASCII letter of either case.
pub open spec fn is_letter(b: u8) -> bool {
    is_lower(b) || is_upper(b)
}

/// The lowercase image of `b`: uppercase letters are folded, all else kept.
pub open spec fn to_lower(b: u8) -> u8 {
    if is_upper(b) {
        (b + 32) as u8
    } else {
        b
    }
}

/// The uppercase image of `b`: lowercase letters are folded, all else kept.
pub open spec fn to_upper(b: u8) -> u8 {
    if is_lower(b) {
        (b - 32) as u8
    } else {
        b
    }
}

/// Exec test for [`is_lower`].
pub fn byte_is_lower(b: u8) -> (r: bool)
    ensures
        r == is_lower(b),
{
    LOWER_A <= b && b <= LOWER_Z
}

/// Exec test for [`is_upper`].
pub fn byte_is_upper(b: u8) -> (r: bool)
    ensures
        r == is_upper(b),
{
    UPPER_A <= b && b <= UPPER_Z
}

/// Exec test for [`is_digit`].
pub fn byte_is_digit(b: u8) -> (r: bool)
    ensures
        r == is_digit(b),
{
    DIGIT_ZERO <= b && b <= DIGIT_NINE
}

/// Exec test for [`is_letter`].
pub fn byte_is_letter(b: u8) -> (r: bool)
    ensures
        r == is_letter(b),
{
    byte_is_lower(b) || byte_is_upper(b)
}

/// Exec counterpart of [`to_lower`].
pub fn byte_to_lower(b: u8) -> (r: u8)
    ensures
        r == to_lower(b),
{
    if UPPER_A <= b && b <= UPPER_Z {
        b + 32
    } else {
        b
    }
}

/// Exec counterpart of [`to_upper`].
pub fn byte_to_upper(b: u8) -> (r: u8)
    ensures
        r == to_upper(b),
{
    if LOWER_A <= b && b <= LOWER_Z {
        b - 32
    } else {
        b
    }
}

/// Every byte of `s` folded to lowercase.
pub open spec fn lower_seq(s: Seq<u8>) -> Seq<u8> {
    s.map_values(|b: u8| to_lower(b))
}

/// Every byte of `s` folded to uppercase.
pub open spec fn upper_seq(s: Seq<u8>) -> Seq<u8> {
    s.map_values(|b: u8| to_upper(b))
}

/// The first byte of `s` folded to uppercase, the rest to lowercase.
pub open spec fn capital_seq(s: Seq<u8>) -> Seq<u8> {
    if s.len() == 0 {
        s
    } else {
        seq![to_upper(s[0])] + lower_seq(s.skip(1))
    }
}

/// Exec counterpart of [`lower_seq`].
pub fn lower_bytes(s: &[u8]) -> (r: Vec<u8>)
    ensures
        r@ == lower_seq(s@),
{
    let mut r: Vec<u8> = Vec::new();
    let mut i: usize = 0;
    while i < s.len()
        invariant
            i <= s.len(),
            r@ =~= s@.take(i as int).map_values(|b: u8| to_lower(b)),
        decreases s.len() - i,
    {
        r.push(byte_to_lower(s[i]));
        assert(s@.take(i + 1 as int) =~= s@.take(i as int).push(s@[i as int]));
        i = i + 1;
    }
    assert(s@.take(s@.len() as int) =~= s@);
    r
}

/// Exec counterpart of [`upper_seq`].
pub fn upper_bytes(s: &[u8]) -> (r: Vec<u8>)
    ensures
        r@ == upper_seq(s@),
{
    let mut r: Vec<u8> = Vec::new();
    let mut i: usize = 0;
    while i < s.len()
        invariant
            i <= s.len(),
            r@ =~= s@.take(i as int).map_values(|b: u8| to_upper(b)),
        decreases s.len() - i,
    {
        r.push(byte_to_upper(s[i]));
        assert(s@.take(i + 1 as int) =~= s@.take(i as int).push(s@[i as int]));
        i = i + 1;
    }
    assert(s@.take(s@.len() as int) =~= s@);
    r
}

/// Exec counterpart of [`capital_seq`].
pub fn capital_bytes(s: &[u8]) -> (r: Vec<u8>)
    ensures
        r@ == capital_seq(s@),
{
    let mut r: Vec<u8> = Vec::new();
    if s.len() == 0 {
        assert(r@ =~= capital_seq(s@));
        return r;
    }
    r.push(byte_to_upper(s[0]));
    let mut i: usize = 1;
    while i < s.len()
        invariant
            1 <= i <= s.len(),
            s@.len() > 0,
            r@.len() == i,
            r@[0] == to_upper(s@[0]),
            forall|j: int| 1 <= j < i ==> r@[j] == to_lower(s@[j]),
        decreases s.len() - i,
    {
        r.push(byte_to_lower(s[i]));
        i = i + 1;
    }
    assert(r@ =~= capital_seq(s@));
    r
}

/// Folding a byte string twice folds it once: the per-word casings are
/// idempotent.
pub proof fn lemma_case_seq_idempotent(s: Seq<u8>)
    ensures
        lower_seq(lower_seq(s)) == lower_seq(s),
        upper_seq(upper_seq(s)) == upper_seq(s),
        capital_seq(capital_seq(s)) == capital_seq(s),
{
    assert(lower_seq(lower_seq(s)) =~= lower_seq(s));
    assert(upper_seq(upper_seq(s)) =~= upper_seq(s));
    if s.len() > 0 {
        let c = capital_seq(s);
        assert(c.len() == s.len());
        assert(c[0] == to_upper(s[0]));
        assert(capital_seq(c)[0] == to_upper(c[0]));
        assert forall|j: int| 1 <= j < s.len() implies #[trigger] capital_seq(c)[j] == to_lower(
            c[j],
        ) && c[j] == to_lower(s[j]) by {
            assert(capital_seq(c)[j] == lower_seq(c.skip(1))[j - 1]);
            assert(c[j] == lower_seq(s.skip(1))[j - 1]);
        }
        assert(capital_seq(capital_seq(s)) =~= capital_seq(s));
    }
}

} // verus!
