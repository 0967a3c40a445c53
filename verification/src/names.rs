//! Resolving case, pattern and boundary names given on the command line.
//!
//! Matching is case-insensitive and exact: a name either resolves to one
//! canonical entry or fails, with the offending flag and value recorded.

use vstd::prelude::*;
use crate::ascii::{lower_bytes, lower_seq};
use crate::boundary::{boundaries_from, boundaries_from_sample, BoundarySet};
use crate::cases::{Case, Pattern};

verus! {

/// The command-line flag an invalid value arrived under.
#[derive(Clone, Copy, Debug, PartialEq, Eq, Structural)]
pub enum Flag {
    /// The source-case flag.
    From,
    /// The target-case flag.
    To,
    /// The target-pattern flag.
    Pattern,
    /// The explicit-boundaries flag.
    Boundaries,
}

/// A configuration error: some flag carried a value that does not name a
/// known case, pattern or boundary set.  All validation happens while the
/// configuration is built; a conversion itself never fails.
#[derive(Clone, Debug, PartialEq, Eq)]
pub enum ConfigError {
    /// The value under `flag` names no known case.
    InvalidCaseName { flag: Flag, value: Vec<u8> },
    /// The value under `flag` names no known pattern.
    InvalidPatternName { flag: Flag, value: Vec<u8> },
    /// The value under `flag` names no boundary rule at all.
    InvalidBoundarySpec { flag: Flag, value: Vec<u8> },
}

/// The canonical case table, keyed by the lowercased name.
pub open spec fn case_of_name(lo: Seq<u8>) -> Option<Case> {
    if lo == seq![115u8, 110, 97, 107, 101] {  // "snake"
        Some(Case::Snake)
    } else if lo == seq![99u8, 111, 110, 115, 116, 97, 110, 116] {  // "constant"
        Some(Case::Constant)
    } else if lo == seq![117u8, 112, 112, 101, 114, 45, 115, 110, 97, 107, 101] {  // "upper-snake"
        Some(Case::Constant)
    } else if lo == seq![107u8, 101, 98, 97, 98] {  // "kebab"
        Some(Case::Kebab)
    } else if lo == seq![99u8, 111, 98, 111, 108] {  // "cobol"
        Some(Case::Cobol)
    } else if lo == seq![117u8, 112, 112, 101, 114, 45, 107, 101, 98, 97, 98] {  // "upper-kebab"
        Some(Case::Cobol)
    } else if lo == seq![112u8, 97, 115, 99, 97, 108] {  // "pascal"
        Some(Case::Pascal)
    } else if lo == seq![99u8, 97, 109, 101, 108] {  // "camel"
        Some(Case::Camel)
    } else if lo == seq![108u8, 111, 119, 101, 114] {  // "lower"
        Some(Case::Lower)
    } else if lo == seq![117u8, 112, 112, 101, 114] {  // "upper"
        Some(Case::Upper)
    } else if lo == seq![116u8, 105, 116, 108, 101] {  // "title"
        Some(Case::Title)
    } else if lo == seq![115u8, 101, 110, 116, 101, 110, 99, 101] {  // "sentence"
        Some(Case::Sentence)
    } else if lo == seq![116u8, 114, 97, 105, 110] {  // "train"
        Some(Case::Train)
    } else if lo == seq![102u8, 108, 97, 116] {  // "flat"
        Some(Case::Flat)
    } else if lo == seq![97u8, 108, 116, 101, 114, 110, 97, 116, 105, 110, 103] {  // "alternating"
        Some(Case::Alternating)
    } else {
        None
    }
}

/// The canonical pattern table, keyed by the lowercased name.
pub open spec fn pattern_of_name(lo: Seq<u8>) -> Option<Pattern> {
    if lo == seq![108u8, 111, 119, 101, 114] {  // "lower"
        Some(Pattern::Lower)
    } else if lo == seq![117u8, 112, 112, 101, 114] {  // "upper"
        Some(Pattern::Upper)
    } else if lo == seq![99u8, 97, 112, 105, 116, 97, 108] {  // "capital"
        Some(Pattern::Capital)
    } else if lo == seq![115u8, 101, 110, 116, 101, 110, 99, 101] {  // "sentence"
        Some(Pattern::Sentence)
    } else if lo == seq![99u8, 97, 109, 101, 108] {  // "camel"
        Some(Pattern::Camel)
    } else if lo == seq![116u8, 111, 103, 103, 108, 101] {  // "toggle"
        Some(Pattern::Toggle)
    } else if lo == seq![97u8, 108, 116, 101, 114, 110, 97, 116, 105, 110, 103] {  // "alternating"
        Some(Pattern::Alternating)
    } else {
        None
    }
}

/// Compares two byte strings.
fn bytes_match(a: &Vec<u8>, b: &Vec<u8>) -> (r: bool)
    ensures
        r == (a@ == b@),
{
    if a.len() != b.len() {
        return false;
    }
    let mut i: usize = 0;
    while i < a.len()
        invariant
            a@.len() == b@.len(),
            i <= a@.len(),
            forall|j: int| 0 <= j < i ==> a@[j] == b@[j],
        decreases a@.len() - i,
    {
        if a[i] != b[i] {
            return false;
        }
        i = i + 1;
    }
    proof {
        assert(a@ =~= b@);
    }
    true
}

/// Looks the lowercased name up in the case table.
fn case_from_lower(lo: &Vec<u8>) -> (r: Option<Case>)
    ensures
        r == case_of_name(lo@),
{
    if bytes_match(lo, &(vec![115u8, 110u8, 97u8, 107u8, 101u8])) {  // "snake"
        Some(Case::Snake)
    } else if bytes_match(lo, &(vec![99u8, 111u8, 110u8, 115u8, 116u8, 97u8, 110u8, 116u8])) {  // "constant"
        Some(Case::Constant)
    } else if bytes_match(lo, &(vec![117u8, 112u8, 112u8, 101u8, 114u8, 45u8, 115u8, 110u8, 97u8, 107u8, 101u8])) {  // "upper-snake"
        Some(Case::Constant)
    } else if bytes_match(lo, &(vec![107u8, 101u8, 98u8, 97u8, 98u8])) {  // "kebab"
        Some(Case::Kebab)
    } else if bytes_match(lo, &(vec![99u8, 111u8, 98u8, 111u8, 108u8])) {  // "cobol"
        Some(Case::Cobol)
    } else if bytes_match(lo, &(vec![117u8, 112u8, 112u8, 101u8, 114u8, 45u8, 107u8, 101u8, 98u8, 97u8, 98u8])) {  // "upper-kebab"
        Some(Case::Cobol)
    } else if bytes_match(lo, &(vec![112u8, 97u8, 115u8, 99u8, 97u8, 108u8])) {  // "pascal"
        Some(Case::Pascal)
    } else if bytes_match(lo, &(vec![99u8, 97u8, 109u8, 101u8, 108u8])) {  // "camel"
        Some(Case::Camel)
    } else if bytes_match(lo, &(vec![108u8, 111u8, 119u8, 101u8, 114u8])) {  // "lower"
        Some(Case::Lower)
    } else if bytes_match(lo, &(vec![117u8, 112u8, 112u8, 101u8, 114u8])) {  // "upper"
        Some(Case::Upper)
    } else if bytes_match(lo, &(vec![116u8, 105u8, 116u8, 108u8, 101u8])) {  // "title"
        Some(Case::Title)
    } else if bytes_match(lo, &(vec![115u8, 101u8, 110u8, 116u8, 101u8, 110u8, 99u8, 101u8])) {  // "sentence"
        Some(Case::Sentence)
    } else if bytes_match(lo, &(vec![116u8, 114u8, 97u8, 105u8, 110u8])) {  // "train"
        Some(Case::Train)
    } else if bytes_match(lo, &(vec![102u8, 108u8, 97u8, 116u8])) {  // "flat"
        Some(Case::Flat)
    } else if bytes_match(lo, &(vec![97u8, 108u8, 116u8, 101u8, 114u8, 110u8, 97u8, 116u8, 105u8, 110u8, 103u8])) {  // "alternating"
        Some(Case::Alternating)
    } else {
        None
    }
}

/// Looks the lowercased name up in the pattern table.
fn pattern_from_lower(lo: &Vec<u8>) -> (r: Option<Pattern>)
    ensures
        r == pattern_of_name(lo@),
{
    if bytes_match(lo, &(vec![108u8, 111u8, 119u8, 101u8, 114u8])) {  // "lower"
        Some(Pattern::Lower)
    } else if bytes_match(lo, &(vec![117u8, 112u8, 112u8, 101u8, 114u8])) {  // "upper"
        Some(Pattern::Upper)
    } else if bytes_match(lo, &(vec![99u8, 97u8, 112u8, 105u8, 116u8, 97u8, 108u8])) {  // "capital"
        Some(Pattern::Capital)
    } else if bytes_match(lo, &(vec![115u8, 101u8, 110u8, 116u8, 101u8, 110u8, 99u8, 101u8])) {  // "sentence"
        Some(Pattern::Sentence)
    } else if bytes_match(lo, &(vec![99u8, 97u8, 109u8, 101u8, 108u8])) {  // "camel"
        Some(Pattern::Camel)
    } else if bytes_match(lo, &(vec![116u8, 111u8, 103u8, 103u8, 108u8, 101u8])) {  // "toggle"
        Some(Pattern::Toggle)
    } else if bytes_match(lo, &(vec![97u8, 108u8, 116u8, 101u8, 114u8, 110u8, 97u8, 116u8, 105u8, 110u8, 103u8])) {  // "alternating"
        Some(Pattern::Alternating)
    } else {
        None
    }
}

/// Resolves a case name given under `flag`, ignoring the letter case of
/// the name itself.  Exactly the unknown names are rejected.
pub fn parse_case(name: &[u8], flag: Flag) -> (r: Result<Case, ConfigError>)
    ensures
        case_of_name(lower_seq(name@)) matches Some(c) ==> r == Ok::<Case, ConfigError>(c),
        case_of_name(lower_seq(name@)) is None ==> (r matches Err(
            ConfigError::InvalidCaseName { flag: f, value: v },
        ) && f == flag && v@ == name@),
{
    let lo = lower_bytes(name);
    match case_from_lower(&lo) {
        Some(c) => Ok(c),
        None => Err(
            ConfigError::InvalidCaseName { flag, value: vstd::slice::slice_to_vec(name) },
        ),
    }
}

/// Resolves a pattern name, ignoring the letter case of the name itself.
/// Exactly the unknown names are rejected.
pub fn parse_pattern(name: &[u8]) -> (r: Result<Pattern, ConfigError>)
    ensures
        pattern_of_name(lower_seq(name@)) matches Some(p) ==> r == Ok::<Pattern, ConfigError>(p),
        pattern_of_name(lower_seq(name@)) is None ==> (r matches Err(
            ConfigError::InvalidPatternName { flag: f, value: v },
        ) && f == Flag::Pattern && v@ == name@),
{
    let lo = lower_bytes(name);
    match pattern_from_lower(&lo) {
        Some(p) => Ok(p),
        None => Err(
            ConfigError::InvalidPatternName {
                flag: Flag::Pattern,
                value: vstd::slice::slice_to_vec(name),
            },
        ),
    }
}

/// Reads a boundary set off a sample string, as [`boundaries_from`] says.
/// A sample in which no boundary rule occurs at all names nothing and is
/// rejected.
pub fn parse_boundaries(sample: &[u8]) -> (r: Result<BoundarySet, ConfigError>)
    ensures
        boundaries_from(sample@) != BoundarySet::spec_none() ==> r == Ok::<
            BoundarySet,
            ConfigError,
        >(boundaries_from(sample@)),
        boundaries_from(sample@) == BoundarySet::spec_none() ==> (r matches Err(
            ConfigError::InvalidBoundarySpec { flag: f, value: v },
        ) && f == Flag::Boundaries && v@ == sample@),
{
    let bs = boundaries_from_sample(sample);
    if bs.underscore || bs.hyphen || bs.space || bs.lower_upper || bs.upper_lower
        || bs.digit_upper || bs.upper_digit || bs.digit_lower || bs.lower_digit || bs.acronym {
        Ok(bs)
    } else {
        Err(
            ConfigError::InvalidBoundarySpec {
                flag: Flag::Boundaries,
                value: vstd::slice::slice_to_vec(sample),
            },
        )
    }
}

} // verus!
