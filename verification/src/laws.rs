//! General laws of the engine, stated and proved once for all inputs.

use vstd::prelude::*;
use crate::ascii::{
    capital_seq, is_letter, lemma_case_seq_idempotent, lower_seq, to_lower, to_upper, upper_seq,
    SPACE,
};
use crate::boundary::{is_set_delim, splits_at, BoundarySet};
use crate::cases::{Case, Pattern};
use crate::convert::{convert_spec, SourceMode, TargetMode};
use crate::names::{case_of_name, pattern_of_name};
use crate::render::{alt_seq, cased_words, join_with, word_cased};
use crate::segment::{
    flush, lemma_split_words_clean, split_from, split_words, word_clean, words_clean,
};

verus! {

/// Conversion is deterministic: the output is a function of the input
/// string and the configuration alone, with no other state.
pub proof fn lemma_conversion_deterministic(
    s1: Seq<u8>,
    s2: Seq<u8>,
    src1: SourceMode,
    src2: SourceMode,
    tgt1: TargetMode,
    tgt2: TargetMode,
)
    requires
        s1 == s2,
        src1 == src2,
        tgt1 == tgt2,
    ensures
        convert_spec(s1, src1, tgt1) == convert_spec(s2, src2, tgt2),
{
}

/// Converting the empty string yields the empty string, under every
/// source and target mode.
pub proof fn lemma_empty_identity(src: SourceMode, tgt: TargetMode)
    ensures
        convert_spec(Seq::empty(), src, tgt) == Seq::<u8>::empty(),
{
    let bs = src.spec_boundaries();
    assert(split_words(Seq::empty(), bs) == Seq::<Seq<u8>>::empty());
    assert(cased_words(Seq::<Seq<u8>>::empty(), tgt.spec_pattern()) =~= Seq::<Seq<u8>>::empty());
    assert(join_with(Seq::<Seq<u8>>::empty(), tgt.spec_delim()) == Seq::<u8>::empty());
    assert(alt_seq(Seq::<u8>::empty(), false) == Seq::<u8>::empty());
}

/// Name resolution ignores the letter case of the name: a name and its
/// lowercase image resolve to the same case, and to the same pattern.
pub proof fn lemma_name_resolution_case_insensitive(n: Seq<u8>)
    ensures
        case_of_name(lower_seq(lower_seq(n))) == case_of_name(lower_seq(n)),
        pattern_of_name(lower_seq(lower_seq(n))) == pattern_of_name(lower_seq(n)),
{
    lemma_case_seq_idempotent(n);
}

/// A boundary set in which only delimiter rules are active.
pub open spec fn delims_only(bs: BoundarySet) -> bool {
    !bs.lower_upper && !bs.upper_lower && !bs.digit_upper && !bs.upper_digit && !bs.digit_lower
        && !bs.lower_digit && !bs.acronym
}

/// Under a delimiter-only set, no split ever fires between two bytes.
proof fn lemma_delims_only_no_splits(bs: BoundarySet, s: Seq<u8>, i: int)
    requires
        delims_only(bs),
    ensures
        !splits_at(bs, s, i),
{
}

/// Scanning a run of non-delimiter bytes only extends the current word.
proof fn lemma_split_run(
    s: Seq<u8>,
    bs: BoundarySet,
    i: int,
    acc: Seq<Seq<u8>>,
    cur: Seq<u8>,
    k: int,
)
    requires
        delims_only(bs),
        0 <= i,
        0 <= k,
        i + k <= s.len(),
        forall|j: int| i <= j < i + k ==> !is_set_delim(bs, s[j]),
    ensures
        split_from(s, bs, i, acc, cur) == split_from(s, bs, i + k, acc, cur + s.subrange(i, i + k)),
    decreases k,
{
    if k == 0 {
        assert(cur + s.subrange(i, i) =~= cur);
    } else {
        assert(!is_set_delim(bs, s[i]));
        lemma_delims_only_no_splits(bs, s, i);
        assert(split_from(s, bs, i, acc, cur) == split_from(s, bs, i + 1, acc, cur.push(s[i])));
        lemma_split_run(s, bs, i + 1, acc, cur.push(s[i]), k - 1);
        assert(cur.push(s[i]) + s.subrange(i + 1, i + k) =~= cur + s.subrange(i, i + k));
    }
}

/// Under a delimiter-only set, scanning depends only on the bytes still
/// ahead: two strings with the same suffix split the same way from there.
proof fn lemma_split_from_suffix(
    s1: Seq<u8>,
    i1: int,
    s2: Seq<u8>,
    i2: int,
    bs: BoundarySet,
    acc: Seq<Seq<u8>>,
    cur: Seq<u8>,
)
    requires
        delims_only(bs),
        0 <= i1 <= s1.len(),
        0 <= i2 <= s2.len(),
        s1.skip(i1) == s2.skip(i2),
    ensures
        split_from(s1, bs, i1, acc, cur) == split_from(s2, bs, i2, acc, cur),
    decreases s1.len() - i1,
{
    assert(s1.skip(i1).len() == s1.len() - i1);
    assert(s2.skip(i2).len() == s2.len() - i2);
    assert(s1.skip(i1).len() == s2.skip(i2).len());
    if i1 >= s1.len() {
        assert(i2 >= s2.len());
    } else {
        assert(i2 < s2.len());
        assert(s1.skip(i1)[0] == s1[i1]);
        assert(s2.skip(i2)[0] == s2[i2]);
        assert(s1.skip(i1 + 1) =~= s2.skip(i2 + 1)) by {
            assert(s1.skip(i1).drop_first() =~= s1.skip(i1 + 1));
            assert(s2.skip(i2).drop_first() =~= s2.skip(i2 + 1));
        }
        lemma_delims_only_no_splits(bs, s1, i1);
        lemma_delims_only_no_splits(bs, s2, i2);
        if is_set_delim(bs, s1[i1]) {
            lemma_split_from_suffix(s1, i1 + 1, s2, i2 + 1, bs, flush(acc, cur), Seq::empty());
        } else {
            lemma_split_from_suffix(s1, i1 + 1, s2, i2 + 1, bs, acc, cur.push(s1[i1]));
        }
    }
}

/// Splitting undoes joining: clean words joined by an active delimiter
/// split back into exactly those words.
proof fn lemma_split_of_join(ws: Seq<Seq<u8>>, bs: BoundarySet, db: u8, acc: Seq<Seq<u8>>)
    requires
        delims_only(bs),
        is_set_delim(bs, db),
        words_clean(bs, ws),
    ensures
        split_from(join_with(ws, seq![db]), bs, 0, acc, Seq::empty()) == acc + ws,
    decreases ws.len(),
{
    let d = seq![db];
    let j = join_with(ws, d);
    if ws.len() == 0 {
        assert(acc + ws =~= acc);
    } else if ws.len() == 1 {
        assert(j == ws[0]);
        assert(word_clean(bs, ws[0]));
        lemma_split_run(j, bs, 0, acc, Seq::empty(), j.len() as int);
        assert(Seq::empty() + j.subrange(0, j.len() as int) =~= j);
        assert(split_from(j, bs, j.len() as int, acc, j) == flush(acc, j));
        assert(acc.push(ws[0]) =~= acc + ws);
    } else {
        let w0 = ws[0];
        let rest = ws.drop_first();
        let jr = join_with(rest, d);
        assert(j == w0 + d + jr);
        let k = w0.len() as int;
        assert(word_clean(bs, ws[0]));
        assert(j.subrange(0, k) =~= w0);
        lemma_split_run(j, bs, 0, acc, Seq::empty(), k);
        assert(Seq::empty() + j.subrange(0, k) =~= w0);
        assert(j[k] == db);
        assert(split_from(j, bs, k, acc, w0) == split_from(
            j,
            bs,
            k + 1,
            flush(acc, w0),
            Seq::empty(),
        ));
        assert(flush(acc, w0) == acc.push(w0));
        assert(j.skip(k + 1) =~= jr);
        assert(jr.skip(0) =~= jr);
        lemma_split_from_suffix(j, k + 1, jr, 0, bs, acc.push(w0), Seq::empty());
        assert(words_clean(bs, rest)) by {
            assert forall|m: int| 0 <= m < rest.len() implies #[trigger] word_clean(
                bs,
                rest[m],
            ) by {
                assert(rest[m] == ws[m + 1]);
                assert(word_clean(bs, ws[m + 1]));
            }
        }
        lemma_split_of_join(rest, bs, db, acc.push(w0));
        assert(acc.push(w0) + rest =~= acc + ws);
    }
}

/// Case folding neither makes nor unmakes a delimiter byte.
proof fn lemma_fold_keeps_delims(bs: BoundarySet, b: u8)
    ensures
        is_set_delim(bs, to_lower(b)) == is_set_delim(bs, b),
        is_set_delim(bs, to_upper(b)) == is_set_delim(bs, b),
{
}

/// Re-casing a word keeps its length and keeps it clean.
proof fn lemma_word_cased_clean(bs: BoundarySet, w: Seq<u8>, p: Pattern, i: int)
    requires
        word_clean(bs, w),
    ensures
        word_cased(w, p, i).len() == w.len(),
        word_clean(bs, word_cased(w, p, i)),
{
    let cw = word_cased(w, p, i);
    assert(capital_seq(w).len() == w.len()) by {
        if w.len() > 0 {
            assert(lower_seq(w.skip(1)).len() == w.len() - 1);
        }
    }
    assert(cw.len() == w.len());
    assert forall|j: int| 0 <= j < cw.len() implies !is_set_delim(bs, cw[j]) by {
        assert(!is_set_delim(bs, w[j]));
        lemma_fold_keeps_delims(bs, w[j]);
        assert(lower_seq(w)[j] == to_lower(w[j]));
        assert(upper_seq(w)[j] == to_upper(w[j]));
        if w.len() > 0 {
            assert(capital_seq(w)[0] == to_upper(w[0]));
            if j >= 1 {
                assert(capital_seq(w)[j] == to_lower(w[j]));
            }
        }
    }
}

/// Folding distributes over concatenation.
proof fn lemma_lower_concat(a: Seq<u8>, b: Seq<u8>)
    ensures
        lower_seq(a + b) == lower_seq(a) + lower_seq(b),
{
    assert(lower_seq(a + b) =~= lower_seq(a) + lower_seq(b));
}

/// Joining words that are each fully lowercase, with a lowercase
/// delimiter, yields a fully lowercase string.
proof fn lemma_join_all_lower(ws: Seq<Seq<u8>>, d: Seq<u8>)
    requires
        forall|k: int| 0 <= k < ws.len() ==> #[trigger] lower_seq(ws[k]) == ws[k],
        lower_seq(d) == d,
    ensures
        lower_seq(join_with(ws, d)) == join_with(ws, d),
    decreases ws.len(),
{
    if ws.len() == 0 {
        assert(lower_seq(join_with(ws, d)) =~= join_with(ws, d));
    } else if ws.len() == 1 {
        assert(lower_seq(ws[0]) == ws[0]);
    } else {
        let rest = ws.drop_first();
        assert forall|k: int| 0 <= k < rest.len() implies #[trigger] lower_seq(rest[k])
            == rest[k] by {
            assert(rest[k] == ws[k + 1]);
            assert(lower_seq(ws[k + 1]) == ws[k + 1]);
        }
        lemma_join_all_lower(rest, d);
        lemma_lower_concat(ws[0] + d, join_with(rest, d));
        lemma_lower_concat(ws[0], d);
        assert(lower_seq(ws[0]) == ws[0]);
    }
}

/// The alternation flag left after walking `s` with starting flag `u`.
pub open spec fn alt_flag(s: Seq<u8>, u: bool) -> bool
    decreases s.len(),
{
    if s.len() == 0 {
        u
    } else if is_letter(s[0]) {
        alt_flag(s.drop_first(), !u)
    } else {
        alt_flag(s.drop_first(), u)
    }
}

/// The alternating transform of each word in turn, threading the flag.
pub open spec fn alt_words(ws: Seq<Seq<u8>>, u: bool) -> Seq<Seq<u8>>
    decreases ws.len(),
{
    if ws.len() == 0 {
        ws
    } else {
        seq![alt_seq(ws[0], u)] + alt_words(ws.drop_first(), alt_flag(ws[0], u))
    }
}

/// The alternating transform walks a concatenation left to right.
proof fn lemma_alt_concat(a: Seq<u8>, b: Seq<u8>, u: bool)
    ensures
        alt_seq(a + b, u) == alt_seq(a, u) + alt_seq(b, alt_flag(a, u)),
    decreases a.len(),
{
    if a.len() == 0 {
        assert(a + b =~= b);
        assert(alt_seq(a, u) + alt_seq(b, u) =~= alt_seq(b, u));
    } else {
        assert((a + b)[0] == a[0]);
        assert((a + b).drop_first() =~= a.drop_first() + b);
        let u2 = if is_letter(a[0]) {
            !u
        } else {
            u
        };
        let h = if is_letter(a[0]) {
            seq![
                if u {
                    to_upper(a[0])
                } else {
                    to_lower(a[0])
                },
            ]
        } else {
            seq![a[0]]
        };
        lemma_alt_concat(a.drop_first(), b, u2);
        assert(alt_seq(a + b, u) == h + (alt_seq(a.drop_first(), u2) + alt_seq(
            b,
            alt_flag(a.drop_first(), u2),
        )));
        assert(h + (alt_seq(a.drop_first(), u2) + alt_seq(b, alt_flag(a.drop_first(), u2))) =~= (h
            + alt_seq(a.drop_first(), u2)) + alt_seq(b, alt_flag(a.drop_first(), u2)));
    }
}

/// A string without letters passes through the alternating transform
/// unchanged and leaves the flag alone.
proof fn lemma_alt_no_letters(d: Seq<u8>, u: bool)
    requires
        forall|j: int| 0 <= j < d.len() ==> !is_letter(d[j]),
    ensures
        alt_seq(d, u) == d,
        alt_flag(d, u) == u,
    decreases d.len(),
{
    if d.len() > 0 {
        assert(!is_letter(d[0]));
        lemma_alt_no_letters(d.drop_first(), u);
        assert(seq![d[0]] + d.drop_first() =~= d);
    }
}

/// The alternating transform keeps length, letter positions and
/// delimiter bytes, and is idempotent for a fixed starting flag.
proof fn lemma_alt_pointwise(s: Seq<u8>, u: bool, bs: BoundarySet)
    ensures
        alt_seq(s, u).len() == s.len(),
        forall|j: int|
            0 <= j < s.len() ==> is_set_delim(bs, alt_seq(s, u)[j]) == is_set_delim(bs, s[j]),
        alt_seq(alt_seq(s, u), u) == alt_seq(s, u),
    decreases s.len(),
{
    if s.len() > 0 {
        let t = s.drop_first();
        let b = s[0];
        let u2 = if is_letter(b) {
            !u
        } else {
            u
        };
        let h = if is_letter(b) {
            if u {
                to_upper(b)
            } else {
                to_lower(b)
            }
        } else {
            b
        };
        lemma_alt_pointwise(t, u2, bs);
        lemma_fold_keeps_delims(bs, b);
        assert(alt_seq(s, u) == seq![h] + alt_seq(t, u2));
        assert((seq![h] + alt_seq(t, u2)).drop_first() =~= alt_seq(t, u2));
        assert forall|j: int| 0 <= j < s.len() implies is_set_delim(bs, alt_seq(s, u)[j])
            == is_set_delim(bs, s[j]) by {
            if j == 0 {
                assert(alt_seq(s, u)[0] == h);
            } else {
                assert(alt_seq(s, u)[j] == alt_seq(t, u2)[j - 1]);
                assert(t[j - 1] == s[j]);
                assert(is_set_delim(bs, alt_seq(t, u2)[j - 1]) == is_set_delim(bs, t[j - 1]));
            }
        }
        if is_letter(b) {
            assert(is_letter(h));
            assert(if u {
                to_upper(h) == h
            } else {
                to_lower(h) == h
            });
        }
        assert(alt_seq(alt_seq(s, u), u) == seq![h] + alt_seq(alt_seq(t, u2), u2));
    }
}

/// Alternating a join of words with a letter-free delimiter is the join
/// of the alternated words, the flag threaded across words.
proof fn lemma_alt_join(ws: Seq<Seq<u8>>, d: Seq<u8>, u: bool)
    requires
        forall|j: int| 0 <= j < d.len() ==> !is_letter(d[j]),
    ensures
        alt_seq(join_with(ws, d), u) == join_with(alt_words(ws, u), d),
    decreases ws.len(),
{
    if ws.len() == 0 {
    } else if ws.len() == 1 {
        assert(alt_words(ws, u) == seq![alt_seq(ws[0], u)] + alt_words(
            ws.drop_first(),
            alt_flag(ws[0], u),
        ));
        assert(alt_words(ws.drop_first(), alt_flag(ws[0], u)) =~= Seq::<Seq<u8>>::empty());
        assert(alt_words(ws, u) =~= seq![alt_seq(ws[0], u)]);
        assert(join_with(seq![alt_seq(ws[0], u)], d) == alt_seq(ws[0], u));
    } else {
        let w0 = ws[0];
        let rest = ws.drop_first();
        let jr = join_with(rest, d);
        let f1 = alt_flag(w0, u);
        assert(join_with(ws, d) == w0 + d + jr);
        assert(w0 + d + jr =~= w0 + (d + jr));
        lemma_alt_concat(w0, d + jr, u);
        lemma_alt_concat(d, jr, f1);
        lemma_alt_no_letters(d, f1);
        lemma_alt_join(rest, d, f1);
        assert(alt_seq(w0 + (d + jr), u) == alt_seq(w0, u) + (d + join_with(
            alt_words(rest, f1),
            d,
        )));
        let aw0 = alt_seq(w0, u);
        let ar = alt_words(rest, f1);
        assert(alt_words(ws, u) == seq![aw0] + ar);
        assert(ar.len() == rest.len()) by {
            lemma_alt_words_len(rest, f1);
        }
        assert((seq![aw0] + ar)[0] == aw0);
        assert((seq![aw0] + ar).drop_first() =~= ar);
        assert(join_with(seq![aw0] + ar, d) == aw0 + d + join_with(ar, d));
        assert(aw0 + (d + join_with(ar, d)) =~= aw0 + d + join_with(ar, d));
    }
}

/// The alternation flag in force before word `k` of `ws`, starting at `u`.
pub open spec fn flag_before(ws: Seq<Seq<u8>>, u: bool, k: int) -> bool
    decreases k,
{
    if k <= 0 {
        u
    } else {
        alt_flag(ws[k - 1], flag_before(ws, u, k - 1))
    }
}

/// Dropping the first word shifts the flag bookkeeping by one.
proof fn lemma_flag_before_shift(ws: Seq<Seq<u8>>, u: bool, k: int)
    requires
        1 <= k <= ws.len(),
    ensures
        flag_before(ws, u, k) == flag_before(ws.drop_first(), alt_flag(ws[0], u), k - 1),
    decreases k,
{
    let rest = ws.drop_first();
    let f1 = alt_flag(ws[0], u);
    if k == 1 {
        assert(flag_before(ws, u, 1) == alt_flag(ws[0], flag_before(ws, u, 0)));
        assert(flag_before(ws, u, 0) == u);
        assert(flag_before(rest, f1, 0) == f1);
    } else {
        lemma_flag_before_shift(ws, u, k - 1);
        assert(rest[k - 2] == ws[k - 1]);
        assert(flag_before(ws, u, k) == alt_flag(ws[k - 1], flag_before(ws, u, k - 1)));
        assert(flag_before(rest, f1, k - 1) == alt_flag(rest[k - 2], flag_before(rest, f1, k - 2)));
    }
}

/// Alternating words come out one for one, each under its own flag.
proof fn lemma_alt_words_len(ws: Seq<Seq<u8>>, u: bool)
    ensures
        alt_words(ws, u).len() == ws.len(),
        forall|k: int|
            0 <= k < ws.len() ==> #[trigger] alt_words(ws, u)[k] == alt_seq(
                ws[k],
                flag_before(ws, u, k),
            ),
    decreases ws.len(),
{
    if ws.len() > 0 {
        let rest = ws.drop_first();
        let f1 = alt_flag(ws[0], u);
        lemma_alt_words_len(rest, f1);
        assert(alt_words(ws, u)[0] == alt_seq(ws[0], u));
        assert forall|k: int| 1 <= k < ws.len() implies #[trigger] alt_words(ws, u)[k] == alt_seq(
            ws[k],
            flag_before(ws, u, k),
        ) by {
            assert(alt_words(ws, u)[k] == alt_words(rest, f1)[k - 1]);
            assert(rest[k - 1] == ws[k]);
            assert(alt_words(rest, f1)[k - 1] == alt_seq(rest[k - 1], flag_before(rest, f1, k - 1)));
            lemma_flag_before_shift(ws, u, k);
        }
    }
}

/// Converting a string to a target case, and converting the result from
/// and to that same case again, returns the result unchanged.
///
/// Proved for every target case that reads its own output back with a
/// delimiter-only boundary set, and for the flat and alternating cases.
/// The law does not hold of the pascal and camel cases, whose caseless
/// join can fuse one-letter words.
pub proof fn lemma_to_case_idempotent(s: Seq<u8>, c: Case)
    requires
        c != Case::Pascal,
        c != Case::Camel,
    ensures
        ({
            let once = convert_spec(s, SourceMode::Auto, TargetMode::ToCase(c));
            convert_spec(once, SourceMode::FromCase(c), TargetMode::ToCase(c)) == once
        }),
{
    let tgt = TargetMode::ToCase(c);
    let bs0 = BoundarySet::spec_defaults();
    let p = c.spec_pattern();
    let d = c.spec_delim();
    let fbs = c.spec_boundaries();
    let ws = split_words(s, bs0);
    lemma_split_words_clean(s, bs0);
    let once = convert_spec(s, SourceMode::Auto, tgt);
    assert(delims_only(fbs));

    // The raw words are clean under the reading set too: every delimiter
    // it consumes is one the default set already consumed.
    assert forall|k: int| 0 <= k < ws.len() implies #[trigger] word_clean(fbs, ws[k]) by {
        assert(word_clean(bs0, ws[k]));
        assert forall|j: int| 0 <= j < ws[k].len() implies !is_set_delim(fbs, ws[k][j]) by {
            assert(!is_set_delim(bs0, ws[k][j]));
        }
    }

    if c == Case::Alternating {
        assert(p == Pattern::Alternating);
        assert(d =~= seq![SPACE]);
        let aws = alt_words(ws, false);
        lemma_alt_join(ws, d, false);
        assert(once == join_with(aws, d));
        lemma_alt_words_len(ws, false);
        assert forall|k: int| 0 <= k < aws.len() implies #[trigger] word_clean(fbs, aws[k]) by {
            let f = flag_before(ws, false, k);
            lemma_alt_pointwise(ws[k], f, fbs);
            assert(word_clean(fbs, ws[k]));
            assert(aws[k] == alt_seq(ws[k], f));
            assert forall|j: int| 0 <= j < aws[k].len() implies !is_set_delim(
                fbs,
                aws[k][j],
            ) by {
                assert(is_set_delim(fbs, alt_seq(ws[k], f)[j]) == is_set_delim(fbs, ws[k][j]));
            }
        }
        assert(words_clean(fbs, aws));
        lemma_split_of_join(aws, fbs, SPACE, Seq::empty());
        assert(Seq::empty() + aws =~= aws);
        assert(split_words(once, fbs) == aws);
        lemma_alt_pointwise(join_with(ws, d), false, fbs);
        assert(alt_seq(once, false) == once);
        assert(convert_spec(once, SourceMode::FromCase(c), tgt) == alt_seq(
            join_with(aws, d),
            false,
        ));
    } else {
        let cw = cased_words(ws, p);
        assert(p != Pattern::Alternating);
        assert(once == join_with(cw, d));

        assert forall|k: int| 0 <= k < cw.len() implies #[trigger] word_clean(fbs, cw[k]) by {
            assert(word_clean(fbs, ws[k]));
            lemma_word_cased_clean(fbs, ws[k], p, k);
            assert(cw[k] == word_cased(ws[k], p, k));
        }
        assert(words_clean(fbs, cw));

        assert forall|k: int| 0 <= k < cw.len() implies #[trigger] word_cased(cw[k], p, k)
            == cw[k] by {
            lemma_case_seq_idempotent(ws[k]);
            assert(cw[k] == word_cased(ws[k], p, k));
        }
        assert(cased_words(cw, p) =~= cw);

        if c == Case::Flat {
            assert(p == Pattern::Lower);
            assert(d =~= Seq::<u8>::empty());
            assert forall|k: int| 0 <= k < cw.len() implies #[trigger] lower_seq(cw[k])
                == cw[k] by {
                lemma_case_seq_idempotent(ws[k]);
                assert(cw[k] == lower_seq(ws[k]));
            }
            assert(lower_seq(d) =~= d);
            lemma_join_all_lower(cw, d);
            if once.len() == 0 {
                assert(split_words(once, fbs) == Seq::<Seq<u8>>::empty());
                assert(cased_words(Seq::<Seq<u8>>::empty(), p) =~= Seq::<Seq<u8>>::empty());
                assert(convert_spec(once, SourceMode::FromCase(c), tgt) =~= once);
            } else {
                lemma_split_run(once, fbs, 0, Seq::empty(), Seq::empty(), once.len() as int);
                assert(Seq::empty() + once.subrange(0, once.len() as int) =~= once);
                assert(split_words(once, fbs) =~= seq![once]);
                assert(cased_words(seq![once], p)[0] == lower_seq(once));
                assert(lower_seq(once) == once);
                assert(cased_words(seq![once], p) =~= seq![once]);
                assert(join_with(seq![once], d) == once);
            }
        } else {
            let db = d[0];
            assert(d =~= seq![db]);
            assert(is_set_delim(fbs, db));
            lemma_split_of_join(cw, fbs, db, Seq::empty());
            assert(Seq::empty() + cw =~= cw);
            assert(split_words(once, fbs) == cw);
            assert(convert_spec(once, SourceMode::FromCase(c), tgt) == join_with(
                cased_words(cw, p),
                d,
            ));
        }
    }
}

} // verus!
