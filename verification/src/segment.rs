//! Splitting a raw byte string into words.
//!
//! The string is scanned once.  An active delimiter byte ends the current
//! word and is consumed; a run of delimiters collapses to a single cut.  A
//! pair or acronym rule ends the current word between two bytes, both of
//! which are kept.  Empty words are never produced.

use vstd::prelude::*;
use crate::boundary::{byte_is_set_delim, is_set_delim, splits_at, splits_at_index, BoundarySet};

verus! {

/// The byte sequences held by a vector of words.
pub open spec fn views_of(ws: Seq<Vec<u8>>) -> Seq<Seq<u8>> {
    ws.map_values(|w: Vec<u8>| w@)
}

/// Appends `cur` to the finished words unless it is empty.
pub open spec fn flush(acc: Seq<Seq<u8>>, cur: Seq<u8>) -> Seq<Seq<u8>> {
    if cur.len() > 0 {
        acc.push(cur)
    } else {
        acc
    }
}

/// The words of `s` from position `i` on, given the words finished so far
/// (`acc`) and the word under construction (`cur`).
pub open spec fn split_from(
    s: Seq<u8>,
    bs: BoundarySet,
    i: int,
    acc: Seq<Seq<u8>>,
    cur: Seq<u8>,
) -> Seq<Seq<u8>>
    decreases s.len() - i,
{
    if i < 0 || i >= s.len() {
        flush(acc, cur)
    } else if is_set_delim(bs, s[i]) {
        split_from(s, bs, i + 1, flush(acc, cur), Seq::empty())
    } else if cur.len() > 0 && splits_at(bs, s, i) {
        split_from(s, bs, i + 1, acc.push(cur), seq![s[i]])
    } else {
        split_from(s, bs, i + 1, acc, cur.push(s[i]))
    }
}

/// The word sequence of `s` under the boundary set `bs`.
pub open spec fn split_words(s: Seq<u8>, bs: BoundarySet) -> Seq<Seq<u8>> {
    split_from(s, bs, 0, Seq::empty(), Seq::empty())
}

/// A word the splitter can produce under `bs`: non-empty, and free of
/// every delimiter byte that `bs` consumes.
pub open spec fn word_clean(bs: BoundarySet, w: Seq<u8>) -> bool {
    w.len() > 0 && forall|j: int| 0 <= j < w.len() ==> !is_set_delim(bs, w[j])
}

/// Every word of `ws` is clean under `bs`.
pub open spec fn words_clean(bs: BoundarySet, ws: Seq<Seq<u8>>) -> bool {
    forall|k: int| 0 <= k < ws.len() ==> #[trigger] word_clean(bs, ws[k])
}

/// The splitter only produces clean words: none is empty, and none holds a
/// delimiter byte of the active set.
pub proof fn lemma_split_from_clean(
    s: Seq<u8>,
    bs: BoundarySet,
    i: int,
    acc: Seq<Seq<u8>>,
    cur: Seq<u8>,
)
    requires
        words_clean(bs, acc),
        forall|j: int| 0 <= j < cur.len() ==> !is_set_delim(bs, cur[j]),
    ensures
        words_clean(bs, split_from(s, bs, i, acc, cur)),
    decreases s.len() - i,
{
    if i < 0 || i >= s.len() {
        assert(words_clean(bs, flush(acc, cur)));
    } else if is_set_delim(bs, s[i]) {
        assert(words_clean(bs, flush(acc, cur)));
        lemma_split_from_clean(s, bs, i + 1, flush(acc, cur), Seq::empty());
    } else if cur.len() > 0 && splits_at(bs, s, i) {
        assert(words_clean(bs, acc.push(cur)));
        assert(forall|j: int| 0 <= j < seq![s[i]].len() ==> !is_set_delim(bs, seq![s[i]][j]));
        lemma_split_from_clean(s, bs, i + 1, acc.push(cur), seq![s[i]]);
    } else {
        lemma_split_from_clean(s, bs, i + 1, acc, cur.push(s[i]));
    }
}

/// [`lemma_split_from_clean`] at the top level.
pub proof fn lemma_split_words_clean(s: Seq<u8>, bs: BoundarySet)
    ensures
        words_clean(bs, split_words(s, bs)),
{
    lemma_split_from_clean(s, bs, 0, Seq::empty(), Seq::empty());
}

/// Splits `s` into words under the boundary set `bs`.
pub fn detect_with(s: &[u8], bs: &BoundarySet) -> (r: Vec<Vec<u8>>)
    ensures
        views_of(r@) == split_words(s@, *bs),
{
    let mut acc: Vec<Vec<u8>> = Vec::new();
    let mut cur: Vec<u8> = Vec::new();
    let mut i: usize = 0;
    proof {
        assert(views_of(acc@) =~= Seq::<Seq<u8>>::empty());
        assert(cur@ =~= Seq::<u8>::empty());
    }
    while i < s.len()
        invariant
            i <= s.len(),
            cur@.len() > 0 ==> i >= 1,
            split_from(s@, *bs, i as int, views_of(acc@), cur@) == split_words(s@, *bs),
        decreases s.len() - i,
    {
        let ghost pre_acc = views_of(acc@);
        let ghost pre_cur = cur@;
        let c = s[i];
        if byte_is_set_delim(bs, c) {
            if cur.len() > 0 {
                acc.push(cur);
                cur = Vec::new();
                proof {
                    assert(views_of(acc@) =~= flush(pre_acc, pre_cur));
                }
            }
            assert(views_of(acc@) == flush(pre_acc, pre_cur));
            proof {
                reveal_with_fuel(split_from, 2);
                assert(cur@ =~= Seq::<u8>::empty());
                assert(split_from(s@, *bs, i as int, pre_acc, pre_cur) == split_from(
                    s@,
                    *bs,
                    i as int + 1,
                    views_of(acc@),
                    cur@,
                ));
            }
        } else if cur.len() > 0 && splits_at_index(bs, s, i) {
            acc.push(cur);
            cur = Vec::new();
            cur.push(c);
            proof {
                assert(views_of(acc@) =~= pre_acc.push(pre_cur));
                assert(cur@ =~= seq![s@[i as int]]);
                assert(split_from(s@, *bs, i as int, pre_acc, pre_cur) == split_from(
                    s@,
                    *bs,
                    i as int + 1,
                    views_of(acc@),
                    cur@,
                ));
            }
        } else {
            cur.push(c);
            assert(cur@ =~= pre_cur.push(s@[i as int]));
            proof {
                assert(split_from(s@, *bs, i as int, pre_acc, pre_cur) == split_from(
                    s@,
                    *bs,
                    i as int + 1,
                    views_of(acc@),
                    cur@,
                ));
            }
        }
        i = i + 1;
    }
    if cur.len() > 0 {
        let ghost pre_acc = views_of(acc@);
        let ghost pre_cur = cur@;
        acc.push(cur);
        proof {
            assert(views_of(acc@) =~= flush(pre_acc, pre_cur));
        }
    }
    acc
}

} // verus!
