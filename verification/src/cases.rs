//! Named cases and rendering patterns.
//!
//! A case pairs a [`Pattern`] with a join delimiter, and implies the
//! boundary set used when a string is read as that case.

use vstd::prelude::*;
use crate::ascii::{HYPHEN, SPACE, UNDERSCORE};
use crate::boundary::BoundarySet;

verus! {

/// A per-word letter-casing rule applied while rendering.
#[derive(Clone, Copy, Debug, PartialEq, Eq, Structural)]
pub enum Pattern {
    /// Every word all lowercase.
    Lower,
    /// Every word all uppercase.
    Upper,
    /// Every word with its first byte uppercased and the rest lowercased.
    Capital,
    /// The first word Capital-cased, the remaining words lowercased.
    Sentence,
    /// The first word lowercased, the remaining words Capital-cased.
    Camel,
    /// Every word Capital-cased; the rule behind the train case.
    Toggle,
    /// Letters of the joined output alternate lowercase and uppercase;
    /// non-letters pass through without advancing the alternation.
    Alternating,
}

/// A named naming convention: a pattern joined by a delimiter.
#[derive(Clone, Copy, Debug, PartialEq, Eq, Structural)]
pub enum Case {
    /// `my_var_name`
    Snake,
    /// `MY_VAR_NAME`
    Constant,
    /// `my-var-name`
    Kebab,
    /// `MY-VAR-NAME`
    Cobol,
    /// `MyVarName`
    Pascal,
    /// `myVarName`
    Camel,
    /// `my var name`
    Lower,
    /// `MY VAR NAME`
    Upper,
    /// `My Var Name`
    Title,
    /// `My var name`
    Sentence,
    /// `My-Var-Name`
    Train,
    /// `myvarname`
    Flat,
    /// `mY vAr nAmE`
    Alternating,
}

impl Case {
    /// The pattern this case renders each word with.
    pub open spec fn spec_pattern(self) -> Pattern {
        match self {
            Case::Snake => Pattern::Lower,
            Case::Constant => Pattern::Upper,
            Case::Kebab => Pattern::Lower,
            Case::Cobol => Pattern::Upper,
            Case::Pascal => Pattern::Capital,
            Case::Camel => Pattern::Camel,
            Case::Lower => Pattern::Lower,
            Case::Upper => Pattern::Upper,
            Case::Title => Pattern::Capital,
            Case::Sentence => Pattern::Sentence,
            Case::Train => Pattern::Toggle,
            Case::Flat => Pattern::Lower,
            Case::Alternating => Pattern::Alternating,
        }
    }

    /// The delimiter this case joins words with.
    pub open spec fn spec_delim(self) -> Seq<u8> {
        match self {
            Case::Snake => seq![UNDERSCORE],
            Case::Constant => seq![UNDERSCORE],
            Case::Kebab => seq![HYPHEN],
            Case::Cobol => seq![HYPHEN],
            Case::Pascal => Seq::empty(),
            Case::Camel => Seq::empty(),
            Case::Lower => seq![SPACE],
            Case::Upper => seq![SPACE],
            Case::Title => seq![SPACE],
            Case::Sentence => seq![SPACE],
            Case::Train => seq![HYPHEN],
            Case::Flat => Seq::empty(),
            Case::Alternating => seq![SPACE],
        }
    }

    /// The boundary set used to read a string that is already in this case.
    ///
    /// Delimiter-joined cases split only on their own delimiter; the
    /// caseless-join cases pascal and camel split only on case and digit
    /// transitions; flat keeps the whole string as one word.
    pub open spec fn spec_boundaries(self) -> BoundarySet {
        match self {
            Case::Snake | Case::Constant => BoundarySet {
                underscore: true,
                ..BoundarySet::spec_none()
            },
            Case::Kebab | Case::Cobol | Case::Train => BoundarySet {
                hyphen: true,
                ..BoundarySet::spec_none()
            },
            Case::Lower | Case::Upper | Case::Title | Case::Sentence | Case::Alternating
                => BoundarySet { space: true, ..BoundarySet::spec_none() },
            Case::Flat => BoundarySet::spec_none(),
            Case::Pascal | Case::Camel => BoundarySet {
                lower_upper: true,
                digit_upper: true,
                upper_digit: true,
                digit_lower: true,
                lower_digit: true,
                acronym: true,
                ..BoundarySet::spec_none()
            },
        }
    }

    /// Exec counterpart of [`Case::spec_pattern`].
    pub fn pattern(self) -> (r: Pattern)
        ensures
            r == self.spec_pattern(),
    {
        match self {
            Case::Snake => Pattern::Lower,
            Case::Constant => Pattern::Upper,
            Case::Kebab => Pattern::Lower,
            Case::Cobol => Pattern::Upper,
            Case::Pascal => Pattern::Capital,
            Case::Camel => Pattern::Camel,
            Case::Lower => Pattern::Lower,
            Case::Upper => Pattern::Upper,
            Case::Title => Pattern::Capital,
            Case::Sentence => Pattern::Sentence,
            Case::Train => Pattern::Toggle,
            Case::Flat => Pattern::Lower,
            Case::Alternating => Pattern::Alternating,
        }
    }

    /// Exec counterpart of [`Case::spec_delim`].
    pub fn delim(self) -> (r: Vec<u8>)
        ensures
            r@ == self.spec_delim(),
    {
        let mut r: Vec<u8> = Vec::new();
        match self {
            Case::Snake | Case::Constant => {
                r.push(UNDERSCORE);
            },
            Case::Kebab | Case::Cobol | Case::Train => {
                r.push(HYPHEN);
            },
            Case::Lower | Case::Upper | Case::Title | Case::Sentence | Case::Alternating => {
                r.push(SPACE);
            },
            Case::Pascal | Case::Camel | Case::Flat => {},
        }
        assert(r@ =~= self.spec_delim());
        r
    }

    /// Exec counterpart of [`Case::spec_boundaries`].
    pub fn boundaries(self) -> (r: BoundarySet)
        ensures
            r == self.spec_boundaries(),
    {
        let mut r = BoundarySet::none();
        match self {
            Case::Snake | Case::Constant => {
                r.underscore = true;
            },
            Case::Kebab | Case::Cobol | Case::Train => {
                r.hyphen = true;
            },
            Case::Lower | Case::Upper | Case::Title | Case::Sentence | Case::Alternating => {
                r.space = true;
            },
            Case::Flat => {},
            Case::Pascal | Case::Camel => {
                r.lower_upper = true;
                r.digit_upper = true;
                r.upper_digit = true;
                r.digit_lower = true;
                r.lower_digit = true;
                r.acronym = true;
            },
        }
        r
    }
}

} // verus!
