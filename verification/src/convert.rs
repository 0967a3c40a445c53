//! The conversion entry points: source mode, target mode, and the pure
//! conversion of one input string.

use vstd::prelude::*;
use crate::boundary::BoundarySet;
use crate::cases::{Case, Pattern};
use crate::render::{render_with, render_words};
use crate::segment::{detect_with, split_words, views_of};

verus! {

/// How the input string is read: with the boundaries a source case
/// implies, with explicit boundaries, or with the default boundaries.
#[derive(Clone, Copy, Debug, PartialEq, Eq, Structural)]
pub enum SourceMode {
    /// No source given: use the default boundary set.
    Auto,
    /// Read the input as this case.
    FromCase(Case),
    /// Split the input exactly at these boundaries.
    FromBoundaries(BoundarySet),
}

/// How the words are written back: as a named case, or as a free
/// pattern-delimiter combination.
#[derive(Clone, Debug)]
pub enum TargetMode {
    /// Render as this case.
    ToCase(Case),
    /// Render with this pattern, joined by this delimiter.
    ToPattern(Pattern, Vec<u8>),
}

impl SourceMode {
    /// The boundary set this mode reads with.
    pub open spec fn spec_boundaries(self) -> BoundarySet {
        match self {
            SourceMode::Auto => BoundarySet::spec_defaults(),
            SourceMode::FromCase(c) => c.spec_boundaries(),
            SourceMode::FromBoundaries(bs) => bs,
        }
    }

    /// Exec counterpart of [`SourceMode::spec_boundaries`].
    pub fn boundaries(&self) -> (r: BoundarySet)
        ensures
            r == self.spec_boundaries(),
    {
        match self {
            SourceMode::Auto => BoundarySet::defaults(),
            SourceMode::FromCase(c) => c.boundaries(),
            SourceMode::FromBoundaries(bs) => *bs,
        }
    }
}

impl TargetMode {
    /// The pattern this mode renders with.
    pub open spec fn spec_pattern(self) -> Pattern {
        match self {
            TargetMode::ToCase(c) => c.spec_pattern(),
            TargetMode::ToPattern(p, _) => p,
        }
    }

    /// The delimiter this mode joins with.
    pub open spec fn spec_delim(self) -> Seq<u8> {
        match self {
            TargetMode::ToCase(c) => c.spec_delim(),
            TargetMode::ToPattern(_, d) => d@,
        }
    }
}

/// The conversion of `s`: split under the source mode's boundaries, then
/// rendered under the target mode's pattern and delimiter.
pub open spec fn convert_spec(s: Seq<u8>, src: SourceMode, tgt: TargetMode) -> Seq<u8> {
    render_with(split_words(s, src.spec_boundaries()), tgt.spec_pattern(), tgt.spec_delim())
}

/// Splits `input` into words under the source mode `mode`.
pub fn detect(input: &[u8], mode: &SourceMode) -> (r: Vec<Vec<u8>>)
    ensures
        views_of(r@) == split_words(input@, mode.spec_boundaries()),
{
    let bs = mode.boundaries();
    detect_with(input, &bs)
}

/// Renders `words` under the target mode `mode`.
pub fn render(words: &Vec<Vec<u8>>, mode: &TargetMode) -> (r: Vec<u8>)
    ensures
        r@ == render_with(views_of(words@), mode.spec_pattern(), mode.spec_delim()),
{
    match mode {
        TargetMode::ToCase(c) => {
            let d = c.delim();
            render_words(words, c.pattern(), d.as_slice())
        },
        TargetMode::ToPattern(p, d) => render_words(words, *p, d.as_slice()),
    }
}

/// Converts one input string.  The conversion is a total function: under a
/// valid configuration it succeeds on every input, the empty string
/// included.
pub fn convert(input: &[u8], src: &SourceMode, tgt: &TargetMode) -> (r: Vec<u8>)
    ensures
        r@ == convert_spec(input@, *src, *tgt),
{
    let words = detect(input, src);
    render(&words, tgt)
}

} // verus!
