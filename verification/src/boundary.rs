//! Boundary rules: where one word ends and the next begins.
//!
//! A [`BoundarySet`] records which rules are active.  Delimiter rules
//! (`underscore`, `hyphen`, `space`) consume the byte they split on; the
//! pair rules split between two bytes; the `acronym` rule looks at a
//! three-byte window `Upper, Upper, Lower` and splits between the two
//! uppercase bytes, taking precedence over an `upper_lower` split in the
//! same window.

use vstd::prelude::*;
use crate::ascii::{
    byte_is_digit, byte_is_lower, byte_is_upper, is_digit, is_lower, is_upper, HYPHEN, SPACE,
    UNDERSCORE,
};

verus! {

/// The set of active boundary rules, one flag per rule.
#[derive(Clone, Copy, Debug, PartialEq, Eq, Structural)]
pub struct BoundarySet {
    /// Split on `_`, consuming it.
    pub underscore: bool,
    /// Split on `-`, consuming it.
    pub hyphen: bool,
    /// Split on ` `, consuming it.
    pub space: bool,
    /// Split between a lowercase letter and an uppercase letter.
    pub lower_upper: bool,
    /// Split between an uppercase letter and a lowercase letter, except
    /// inside an acronym-to-word transition when `acronym` is also active.
    pub upper_lower: bool,
    /// Split between a digit and an uppercase letter.
    pub digit_upper: bool,
    /// Split between an uppercase letter and a digit.
    pub upper_digit: bool,
    /// Split between a digit and a lowercase letter.
    pub digit_lower: bool,
    /// Split between a lowercase letter and a digit.
    pub lower_digit: bool,
    /// Split between the two uppercase letters of an `Upper, Upper, Lower`
    /// window.
    pub acronym: bool,
}

impl BoundarySet {
    /// The set with no rule active.
    pub open spec fn spec_none() -> BoundarySet {
        BoundarySet {
            underscore: false,
            hyphen: false,
            space: false,
            lower_upper: false,
            upper_lower: false,
            digit_upper: false,
            upper_digit: false,
            digit_lower: false,
            lower_digit: false,
            acronym: false,
        }
    }

    /// The default set, used when neither a source case nor explicit
    /// boundaries are given: every rule except `upper_lower`.
    pub open spec fn spec_defaults() -> BoundarySet {
        BoundarySet {
            underscore: true,
            hyphen: true,
            space: true,
            lower_upper: true,
            upper_lower: false,
            digit_upper: true,
            upper_digit: true,
            digit_lower: true,
            lower_digit: true,
            acronym: true,
        }
    }

    /// Builds the set with no rule active.
    pub fn none() -> (r: BoundarySet)
        ensures
            r == BoundarySet::spec_none(),
    {
        BoundarySet {
            underscore: false,
            hyphen: false,
            space: false,
            lower_upper: false,
            upper_lower: false,
            digit_upper: false,
            upper_digit: false,
            digit_lower: false,
            lower_digit: false,
            acronym: false,
        }
    }

    /// Builds the default set.
    pub fn defaults() -> (r: BoundarySet)
        ensures
            r == BoundarySet::spec_defaults(),
    {
        BoundarySet {
            underscore: true,
            hyphen: true,
            space: true,
            lower_upper: true,
            upper_lower: false,
            digit_upper: true,
            upper_digit: true,
            digit_lower: true,
            lower_digit: true,
            acronym: true,
        }
    }
}

/// True when `b` is a delimiter byte that an active rule of `bs` consumes.
pub open spec fn is_set_delim(bs: BoundarySet, b: u8) -> bool {
    ||| (bs.underscore && b == UNDERSCORE)
    ||| (bs.hyphen && b == HYPHEN)
    ||| (bs.space && b == SPACE)
}

/// Exec counterpart of [`is_set_delim`].
pub fn byte_is_set_delim(bs: &BoundarySet, b: u8) -> (r: bool)
    ensures
        r == is_set_delim(*bs, b),
{
    (bs.underscore && b == UNDERSCORE) || (bs.hyphen && b == HYPHEN) || (bs.space && b == SPACE)
}

/// True when an active pair rule of `bs` other than `upper_lower` splits
/// between `prev` and `next`.
pub open spec fn pair_splits(bs: BoundarySet, prev: u8, next: u8) -> bool {
    ||| (bs.lower_upper && is_lower(prev) && is_upper(next))
    ||| (bs.digit_upper && is_digit(prev) && is_upper(next))
    ||| (bs.upper_digit && is_upper(prev) && is_digit(next))
    ||| (bs.digit_lower && is_digit(prev) && is_lower(next))
    ||| (bs.lower_digit && is_lower(prev) && is_digit(next))
}

/// True when `bs` splits `s` immediately before index `i`.
///
/// The `upper_lower` rule is suppressed when the `acronym` rule is active
/// and the pair sits at the end of an `Upper, Upper, Lower` window: there
/// the acronym rule already split between the two uppercase bytes, and a
/// second split would shave single letters off an acronym.
pub open spec fn splits_at(bs: BoundarySet, s: Seq<u8>, i: int) -> bool
    recommends
        1 <= i < s.len(),
{
    ||| pair_splits(bs, s[i - 1], s[i])
    ||| (bs.upper_lower && is_upper(s[i - 1]) && is_lower(s[i]) && !(bs.acronym && i >= 2
        && is_upper(s[i - 2])))
    ||| (bs.acronym && i + 1 < s.len() && is_upper(s[i - 1]) && is_upper(s[i]) && is_lower(
        s[i + 1],
    ))
}

/// Exec counterpart of [`splits_at`], reading the window around index `i`.
pub fn splits_at_index(bs: &BoundarySet, s: &[u8], i: usize) -> (r: bool)
    requires
        1 <= i < s@.len(),
    ensures
        r == splits_at(*bs, s@, i as int),
{
    let prev = s[i - 1];
    let cur = s[i];
    if (bs.lower_upper && byte_is_lower(prev) && byte_is_upper(cur)) || (bs.digit_upper
        && byte_is_digit(prev) && byte_is_upper(cur)) || (bs.upper_digit && byte_is_upper(prev)
        && byte_is_digit(cur)) || (bs.digit_lower && byte_is_digit(prev) && byte_is_lower(cur))
        || (bs.lower_digit && byte_is_lower(prev) && byte_is_digit(cur)) {
        return true;
    }
    if bs.upper_lower && byte_is_upper(prev) && byte_is_lower(cur) && !(bs.acronym && i >= 2
        && byte_is_upper(s[i - 2])) {
        return true;
    }
    bs.acronym && i + 1 < s.len() && byte_is_upper(prev) && byte_is_upper(cur) && byte_is_lower(
        s[i + 1],
    )
}

/// True when `s` holds an underscore.
pub open spec fn found_underscore(s: Seq<u8>) -> bool {
    exists|j: int| 0 <= j < s.len() && s[j] == UNDERSCORE
}

/// True when `s` holds a hyphen.
pub open spec fn found_hyphen(s: Seq<u8>) -> bool {
    exists|j: int| 0 <= j < s.len() && s[j] == HYPHEN
}

/// True when `s` holds a space.
pub open spec fn found_space(s: Seq<u8>) -> bool {
    exists|j: int| 0 <= j < s.len() && s[j] == SPACE
}

/// True when `s` holds a lowercase letter followed by an uppercase one.
pub open spec fn found_lower_upper(s: Seq<u8>) -> bool {
    exists|j: int| 1 <= j < s.len() && is_lower(s[j - 1]) && is_upper(s[j])
}

/// True when `s` holds an uppercase letter followed by a lowercase one,
/// outside an acronym window: a pair preceded by another uppercase letter
/// names the acronym rule instead.
pub open spec fn found_upper_lower(s: Seq<u8>) -> bool {
    exists|j: int|
        1 <= j < s.len() && is_upper(s[j - 1]) && is_lower(s[j]) && !(j >= 2 && is_upper(
            s[j - 2],
        ))
}

/// True when `s` holds a digit followed by an uppercase letter.
pub open spec fn found_digit_upper(s: Seq<u8>) -> bool {
    exists|j: int| 1 <= j < s.len() && is_digit(s[j - 1]) && is_upper(s[j])
}

/// True when `s` holds an uppercase letter followed by a digit.
pub open spec fn found_upper_digit(s: Seq<u8>) -> bool {
    exists|j: int| 1 <= j < s.len() && is_upper(s[j - 1]) && is_digit(s[j])
}

/// True when `s` holds a digit followed by a lowercase letter.
pub open spec fn found_digit_lower(s: Seq<u8>) -> bool {
    exists|j: int| 1 <= j < s.len() && is_digit(s[j - 1]) && is_lower(s[j])
}

/// True when `s` holds a lowercase letter followed by a digit.
pub open spec fn found_lower_digit(s: Seq<u8>) -> bool {
    exists|j: int| 1 <= j < s.len() && is_lower(s[j - 1]) && is_digit(s[j])
}

/// True when `s` holds two uppercase letters followed by a lowercase one.
pub open spec fn found_acronym(s: Seq<u8>) -> bool {
    exists|j: int| 2 <= j < s.len() && is_upper(s[j - 2]) && is_upper(s[j - 1]) && is_lower(s[j])
}

/// The boundary set read off a sample string: a rule is active exactly
/// when its trigger occurs somewhere in the sample.  `"aA"` names the
/// lower-to-upper rule, `"-"` the hyphen rule, and so on.
pub open spec fn boundaries_from(s: Seq<u8>) -> BoundarySet {
    BoundarySet {
        underscore: found_underscore(s),
        hyphen: found_hyphen(s),
        space: found_space(s),
        lower_upper: found_lower_upper(s),
        upper_lower: found_upper_lower(s),
        digit_upper: found_digit_upper(s),
        upper_digit: found_upper_digit(s),
        digit_lower: found_digit_lower(s),
        lower_digit: found_lower_digit(s),
        acronym: found_acronym(s),
    }
}

/// Exec counterpart of [`boundaries_from`]: one scan of the sample.
pub fn boundaries_from_sample(s: &[u8]) -> (r: BoundarySet)
    ensures
        r == boundaries_from(s@),
{
    let mut r = BoundarySet::none();
    let mut i: usize = 0;
    while i < s.len()
        invariant
            i <= s.len(),
            r.underscore == (exists|j: int| 0 <= j < i && s@[j] == UNDERSCORE),
            r.hyphen == (exists|j: int| 0 <= j < i && s@[j] == HYPHEN),
            r.space == (exists|j: int| 0 <= j < i && s@[j] == SPACE),
            r.lower_upper == (exists|j: int|
                1 <= j < i && is_lower(s@[j - 1]) && is_upper(s@[j])),
            r.upper_lower == (exists|j: int|
                1 <= j < i && is_upper(s@[j - 1]) && is_lower(s@[j]) && !(j >= 2 && is_upper(
                    s@[j - 2],
                ))),
            r.digit_upper == (exists|j: int|
                1 <= j < i && is_digit(s@[j - 1]) && is_upper(s@[j])),
            r.upper_digit == (exists|j: int|
                1 <= j < i && is_upper(s@[j - 1]) && is_digit(s@[j])),
            r.digit_lower == (exists|j: int|
                1 <= j < i && is_digit(s@[j - 1]) && is_lower(s@[j])),
            r.lower_digit == (exists|j: int|
                1 <= j < i && is_lower(s@[j - 1]) && is_digit(s@[j])),
            r.acronym == (exists|j: int|
                2 <= j < i && is_upper(s@[j - 2]) && is_upper(s@[j - 1]) && is_lower(s@[j])),
        decreases s.len() - i,
    {
        let c = s[i];
        r.underscore = r.underscore || c == UNDERSCORE;
        r.hyphen = r.hyphen || c == HYPHEN;
        r.space = r.space || c == SPACE;
        if i >= 1 {
            let p = s[i - 1];
            r.lower_upper = r.lower_upper || (byte_is_lower(p) && byte_is_upper(c));
            r.digit_upper = r.digit_upper || (byte_is_digit(p) && byte_is_upper(c));
            r.upper_digit = r.upper_digit || (byte_is_upper(p) && byte_is_digit(c));
            r.digit_lower = r.digit_lower || (byte_is_digit(p) && byte_is_lower(c));
            r.lower_digit = r.lower_digit || (byte_is_lower(p) && byte_is_digit(c));
            let acro_window = i >= 2 && byte_is_upper(s[i - 2]);
            r.upper_lower = r.upper_lower || (byte_is_upper(p) && byte_is_lower(c)
                && !acro_window);
            r.acronym = r.acronym || (acro_window && byte_is_upper(p) && byte_is_lower(c));
        }
        i = i + 1;
    }
    r
}

} // verus!
