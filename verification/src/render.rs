//! Rendering a word sequence into a target convention.
//!
//! Every pattern but the alternating one re-cases each word on its own and
//! joins the results with the delimiter.  The alternating pattern walks the
//! joined output as one character stream and alternates the case of its
//! letters, starting lowercase; non-letters pass through and do not advance
//! the alternation.

use vstd::prelude::*;
use crate::ascii::{
    byte_is_letter, byte_to_lower, byte_to_upper, capital_bytes, capital_seq, is_letter,
    lower_bytes, lower_seq, to_lower, to_upper, upper_bytes, upper_seq,
};
use crate::cases::Pattern;
use crate::segment::views_of;

verus! {

/// The words of `ws` joined by the delimiter `d`.
pub open spec fn join_with(ws: Seq<Seq<u8>>, d: Seq<u8>) -> Seq<u8>
    decreases ws.len(),
{
    if ws.len() == 0 {
        Seq::empty()
    } else if ws.len() == 1 {
        ws[0]
    } else {
        ws[0] + d + join_with(ws.drop_first(), d)
    }
}

/// The word at index `i` re-cased under pattern `p`.
///
/// The alternating pattern leaves words untouched here; it is applied to
/// the joined output instead.
pub open spec fn word_cased(w: Seq<u8>, p: Pattern, i: int) -> Seq<u8> {
    match p {
        Pattern::Lower => lower_seq(w),
        Pattern::Upper => upper_seq(w),
        Pattern::Capital => capital_seq(w),
        Pattern::Sentence => if i == 0 {
            capital_seq(w)
        } else {
            lower_seq(w)
        },
        Pattern::Camel => if i == 0 {
            lower_seq(w)
        } else {
            capital_seq(w)
        },
        Pattern::Toggle => capital_seq(w),
        Pattern::Alternating => w,
    }
}

/// Every word of `ws` re-cased under pattern `p` at its own index.
pub open spec fn cased_words(ws: Seq<Seq<u8>>, p: Pattern) -> Seq<Seq<u8>> {
    ws.map(|i: int, w: Seq<u8>| word_cased(w, p, i))
}

/// The alternating transform of `s`: each letter is folded lowercase or
/// uppercase in turn, `upper_next` saying which case comes first.
pub open spec fn alt_seq(s: Seq<u8>, upper_next: bool) -> Seq<u8>
    decreases s.len(),
{
    if s.len() == 0 {
        s
    } else {
        let b = s[0];
        if is_letter(b) {
            seq![
                if upper_next {
                    to_upper(b)
                } else {
                    to_lower(b)
                },
            ] + alt_seq(s.drop_first(), !upper_next)
        } else {
            seq![b] + alt_seq(s.drop_first(), upper_next)
        }
    }
}

/// The full rendering of the words `ws` under pattern `p` and delimiter `d`.
pub open spec fn render_with(ws: Seq<Seq<u8>>, p: Pattern, d: Seq<u8>) -> Seq<u8> {
    if p == Pattern::Alternating {
        alt_seq(join_with(ws, d), false)
    } else {
        join_with(cased_words(ws, p), d)
    }
}

/// Joining words after appending one more appends a delimiter and the word,
/// except that the first word is appended bare.
pub proof fn lemma_join_snoc(ws: Seq<Seq<u8>>, d: Seq<u8>, w: Seq<u8>)
    ensures
        ws.len() == 0 ==> join_with(ws.push(w), d) == w,
        ws.len() > 0 ==> join_with(ws.push(w), d) == join_with(ws, d) + d + w,
    decreases ws.len(),
{
    if ws.len() == 0 {
        assert(ws.push(w)[0] == w);
    } else if ws.len() == 1 {
        assert(ws.push(w).drop_first() =~= ws.drop_first().push(w));
        lemma_join_snoc(ws.drop_first(), d, w);
        assert(join_with(ws.push(w), d) == ws[0] + d + w);
        assert(join_with(ws, d) == ws[0]);
    } else {
        assert(ws.push(w).drop_first() =~= ws.drop_first().push(w));
        lemma_join_snoc(ws.drop_first(), d, w);
        assert(join_with(ws.push(w), d) == ws[0] + d + (join_with(ws.drop_first(), d) + d + w));
        assert(ws[0] + d + (join_with(ws.drop_first(), d) + d + w) =~= (ws[0] + d + join_with(
            ws.drop_first(),
            d,
        )) + d + w);
    }
}

/// Appends all of `src` to `dst`.
pub fn append_bytes(dst: &mut Vec<u8>, src: &[u8])
    ensures
        final(dst)@ == old(dst)@ + src@,
{
    let mut i: usize = 0;
    while i < src.len()
        invariant
            i <= src.len(),
            dst@ =~= old(dst)@ + src@.take(i as int),
        decreases src.len() - i,
    {
        dst.push(src[i]);
        assert(src@.take(i + 1 as int) =~= src@.take(i as int).push(src@[i as int]));
        i = i + 1;
    }
    assert(src@.take(src@.len() as int) =~= src@);
}

/// Joins the given words with the delimiter `d`.
pub fn join_words(words: &Vec<Vec<u8>>, d: &[u8]) -> (r: Vec<u8>)
    ensures
        r@ == join_with(views_of(words@), d@),
{
    let mut r: Vec<u8> = Vec::new();
    let mut i: usize = 0;
    proof {
        assert(views_of(words@).take(0) =~= Seq::<Seq<u8>>::empty());
    }
    while i < words.len()
        invariant
            i <= words@.len(),
            r@ == join_with(views_of(words@).take(i as int), d@),
        decreases words@.len() - i,
    {
        if i > 0 {
            append_bytes(&mut r, d);
        }
        let w = &words[i];
        append_bytes(&mut r, w.as_slice());
        proof {
            let vs = views_of(words@);
            assert(vs.take(i + 1 as int) =~= vs.take(i as int).push(vs[i as int]));
            lemma_join_snoc(vs.take(i as int), d@, vs[i as int]);
            assert(vs[i as int] == words@[i as int]@);
        }
        i = i + 1;
    }
    proof {
        assert(views_of(words@).take(words@.len() as int) =~= views_of(words@));
    }
    r
}

/// Applies the alternating transform to `s`, starting lowercase.
pub fn alternate_bytes(s: &[u8]) -> (r: Vec<u8>)
    ensures
        r@ == alt_seq(s@, false),
{
    let mut r: Vec<u8> = Vec::new();
    let mut up = false;
    let mut i: usize = 0;
    proof {
        assert(s@.skip(0) =~= s@);
    }
    while i < s.len()
        invariant
            i <= s.len(),
            alt_seq(s@, false) == r@ + alt_seq(s@.skip(i as int), up),
        decreases s.len() - i,
    {
        let ghost pre_r = r@;
        let ghost pre_up = up;
        let b = s[i];
        if byte_is_letter(b) {
            if up {
                r.push(byte_to_upper(b));
            } else {
                r.push(byte_to_lower(b));
            }
            up = !up;
        } else {
            r.push(b);
        }
        proof {
            let rest = s@.skip(i as int);
            let tail = alt_seq(s@.skip(i as int + 1), up);
            assert(rest[0] == s@[i as int]);
            assert(rest.drop_first() =~= s@.skip(i as int + 1));
            if is_letter(s@[i as int]) {
                let head = seq![
                    if pre_up {
                        to_upper(rest[0])
                    } else {
                        to_lower(rest[0])
                    },
                ];
                assert(alt_seq(rest, pre_up) == head + tail);
                assert(r@ =~= pre_r + head);
                assert(pre_r + (head + tail) =~= (pre_r + head) + tail);
            } else {
                let head = seq![rest[0]];
                assert(alt_seq(rest, pre_up) == head + tail);
                assert(r@ =~= pre_r + head);
                assert(pre_r + (head + tail) =~= (pre_r + head) + tail);
            }
        }
        i = i + 1;
    }
    proof {
        assert(s@.skip(s@.len() as int) =~= Seq::<u8>::empty());
        assert(r@ + Seq::<u8>::empty() =~= r@);
    }
    r
}

/// Re-cases one word under pattern `p`; `first` says whether it is the
/// first word.
pub fn case_word(w: &[u8], p: Pattern, first: bool) -> (r: Vec<u8>)
    ensures
        r@ == word_cased(
            w@,
            p,
            if first {
                0int
            } else {
                1int
            },
        ),
{
    match p {
        Pattern::Lower => lower_bytes(w),
        Pattern::Upper => upper_bytes(w),
        Pattern::Capital => capital_bytes(w),
        Pattern::Sentence => if first {
            capital_bytes(w)
        } else {
            lower_bytes(w)
        },
        Pattern::Camel => if first {
            lower_bytes(w)
        } else {
            capital_bytes(w)
        },
        Pattern::Toggle => capital_bytes(w),
        Pattern::Alternating => vstd::slice::slice_to_vec(w),
    }
}

/// Renders the given words under pattern `p`, joined by the delimiter `d`.
pub fn render_words(words: &Vec<Vec<u8>>, p: Pattern, d: &[u8]) -> (r: Vec<u8>)
    ensures
        r@ == render_with(views_of(words@), p, d@),
{
    match p {
        Pattern::Alternating => {
            let joined = join_words(words, d);
            alternate_bytes(joined.as_slice())
        },
        _ => {
            let mut tw: Vec<Vec<u8>> = Vec::new();
            let mut i: usize = 0;
            proof {
                assert(views_of(tw@) =~= cased_words(views_of(words@), p).take(0));
            }
            while i < words.len()
                invariant
                    i <= words@.len(),
                    views_of(tw@) == cased_words(views_of(words@), p).take(i as int),
                decreases words@.len() - i,
            {
                let w = case_word(words[i].as_slice(), p, i == 0);
                tw.push(w);
                proof {
                    let vs = views_of(words@);
                    let cs = cased_words(vs, p);
                    assert(cs[i as int] == word_cased(vs[i as int], p, i as int));
                    assert(word_cased(vs[i as int], p, i as int) == word_cased(
                        vs[i as int],
                        p,
                        if i == 0 {
                            0int
                        } else {
                            1int
                        },
                    ));
                    assert(views_of(tw@) =~= cs.take(i as int).push(cs[i as int]));
                    assert(cs.take(i as int + 1) =~= cs.take(i as int).push(cs[i as int]));
                }
                i = i + 1;
            }
            proof {
                assert(cased_words(views_of(words@), p).take(words@.len() as int) =~= cased_words(
                    views_of(words@),
                    p,
                ));
            }
            join_words(&tw, d)
        },
    }
}

} // verus!
