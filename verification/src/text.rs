//! Word-level text difference: a text is split on spaces and the two word
//! lists are aligned on their common prefix and suffix; the words between are
//! reported as removed (expected only) and added (actual only). The result is
//! an inline highlighted difference for textual mismatches.

use vstd::prelude::*;

use crate::model::{DiffTag, DiffWord, DiffWordV};

verus! {

broadcast use crate::bytes::lemma_deep_view_bytes;

/// The words of `s` from position `i` on, with `cur` the partial word read so
/// far; words are maximal runs of non-space bytes.
pub open spec fn spec_words_acc(s: Seq<u8>, i: int, cur: Seq<u8>) -> Seq<Seq<u8>>
    decreases s.len() - i,
{
    if i < 0 || i >= s.len() {
        if cur.len() > 0 {
            seq![cur]
        } else {
            Seq::empty()
        }
    } else if s[i] == 0x20 {
        if cur.len() > 0 {
            seq![cur] + spec_words_acc(s, i + 1, Seq::empty())
        } else {
            spec_words_acc(s, i + 1, Seq::empty())
        }
    } else {
        spec_words_acc(s, i + 1, cur.push(s[i]))
    }
}

/// The space-separated words of a text.
pub open spec fn spec_words(s: Seq<u8>) -> Seq<Seq<u8>> {
    spec_words_acc(s, 0, Seq::empty())
}

/// Splits a text into its space-separated words.
pub fn words(s: &Vec<u8>) -> (r: Vec<Vec<u8>>)
    ensures
        r.deep_view() == spec_words(s@),
{
    let mut out: Vec<Vec<u8>> = Vec::new();
    let mut cur: Vec<u8> = Vec::new();
    let mut i: usize = 0;
    while i < s.len()
        invariant
            i <= s.len(),
            spec_words(s@) == out.deep_view() + spec_words_acc(s@, i as int, cur@),
        decreases s.len() - i,
    {
        if s[i] == 0x20 {
            if cur.len() > 0 {
                let ghost old_out = out.deep_view();
                let ghost old_cur = cur@;
                out.push(cur);
                cur = Vec::new();
                proof {
                    assert(cur@ =~= Seq::<u8>::empty());
                    assert(out.deep_view() =~= old_out + seq![old_cur]);
                    assert(old_out + (seq![old_cur] + spec_words_acc(s@, i + 1, Seq::empty()))
                        =~= out.deep_view() + spec_words_acc(s@, i + 1, Seq::empty()));
                }
            } else {
                proof {
                    assert(cur@ =~= Seq::<u8>::empty());
                }
            }
        } else {
            cur.push(s[i]);
        }
        i = i + 1;
    }
    if cur.len() > 0 {
        let ghost old_out = out.deep_view();
        let ghost old_cur = cur@;
        out.push(cur);
        proof {
            assert(out.deep_view() =~= old_out + seq![old_cur]);
        }
    }
    proof {
        assert(spec_words(s@) =~= out.deep_view());
    }
    out
}

/// Length of the common word prefix, counting from position `k`.
pub open spec fn spec_prefix_len(a: Seq<Seq<u8>>, b: Seq<Seq<u8>>, k: int) -> int
    decreases a.len() - k,
{
    if k < 0 || k >= a.len() || k >= b.len() || a[k] != b[k] {
        k
    } else {
        spec_prefix_len(a, b, k + 1)
    }
}

/// Length of the common word suffix outside the first `p` aligned words,
/// counting from `k` suffix words already matched.
pub open spec fn spec_suffix_len(a: Seq<Seq<u8>>, b: Seq<Seq<u8>>, p: int, k: int) -> int
    decreases a.len() - p - k,
{
    if k < 0 || k >= a.len() - p || k >= b.len() - p || a[a.len() - 1 - k] != b[b.len() - 1 - k] {
        k
    } else {
        spec_suffix_len(a, b, p, k + 1)
    }
}

/// The words of `ws` in range `[lo, hi)`, each under one tag.
pub open spec fn spec_tag_range(ws: Seq<Seq<u8>>, lo: int, hi: int, t: DiffTag) -> Seq<DiffWordV>
    decreases hi - lo,
{
    if lo >= hi {
        Seq::empty()
    } else {
        seq![DiffWordV { word: ws[lo], tag: t }] + spec_tag_range(ws, lo + 1, hi, t)
    }
}

/// The inline word difference of an expected and an actual text: the common
/// prefix and suffix words are kept, the expected-only middle is removed, the
/// actual-only middle is added.
pub open spec fn spec_word_diff(e: Seq<u8>, a: Seq<u8>) -> Seq<DiffWordV> {
    let we = spec_words(e);
    let wa = spec_words(a);
    let p = spec_prefix_len(we, wa, 0);
    let q = spec_suffix_len(we, wa, p, 0);
    spec_tag_range(we, 0, p, DiffTag::Same) + spec_tag_range(
        we,
        p,
        we.len() - q,
        DiffTag::Removed,
    ) + spec_tag_range(wa, p, wa.len() - q, DiffTag::Added) + spec_tag_range(
        we,
        we.len() - q,
        we.len() as int,
        DiffTag::Same,
    )
}

proof fn lemma_prefix_len_bounds(a: Seq<Seq<u8>>, b: Seq<Seq<u8>>, k: int)
    requires
        0 <= k <= a.len(),
        k <= b.len(),
    ensures
        k <= spec_prefix_len(a, b, k),
        spec_prefix_len(a, b, k) <= a.len(),
        spec_prefix_len(a, b, k) <= b.len(),
    decreases a.len() - k,
{
    if k < a.len() && k < b.len() && a[k] == b[k] {
        lemma_prefix_len_bounds(a, b, k + 1);
    }
}

proof fn lemma_suffix_len_bounds(a: Seq<Seq<u8>>, b: Seq<Seq<u8>>, p: int, k: int)
    requires
        0 <= p,
        0 <= k,
        p + k <= a.len(),
        p + k <= b.len(),
    ensures
        k <= spec_suffix_len(a, b, p, k),
        spec_suffix_len(a, b, p, k) + p <= a.len(),
        spec_suffix_len(a, b, p, k) + p <= b.len(),
    decreases a.len() - p - k,
{
    if k < a.len() - p && k < b.len() - p && a[a.len() - 1 - k] == b[b.len() - 1 - k] {
        lemma_suffix_len_bounds(a, b, p, k + 1);
    }
}

fn prefix_len_from(a: &Vec<Vec<u8>>, b: &Vec<Vec<u8>>, k: usize) -> (r: usize)
    requires
        k <= a.len(),
        k <= b.len(),
    ensures
        r == spec_prefix_len(a.deep_view(), b.deep_view(), k as int),
    decreases a.len() - k,
{
    if k >= a.len() || k >= b.len() {
        return k;
    }
    if crate::bytes::bytes_eq(&a[k], &b[k]) {
        prefix_len_from(a, b, k + 1)
    } else {
        k
    }
}

fn suffix_len_from(a: &Vec<Vec<u8>>, b: &Vec<Vec<u8>>, p: usize, k: usize) -> (r: usize)
    requires
        p + k <= a.len(),
        p + k <= b.len(),
    ensures
        r == spec_suffix_len(a.deep_view(), b.deep_view(), p as int, k as int),
    decreases a.len() - p - k,
{
    if k >= a.len() - p || k >= b.len() - p {
        return k;
    }
    if crate::bytes::bytes_eq(&a[a.len() - 1 - k], &b[b.len() - 1 - k]) {
        suffix_len_from(a, b, p, k + 1)
    } else {
        k
    }
}

fn tag_range(ws: &Vec<Vec<u8>>, lo: usize, hi: usize, t: DiffTag) -> (r: Vec<DiffWord>)
    requires
        lo <= hi <= ws.len(),
    ensures
        r.deep_view() == spec_tag_range(ws.deep_view(), lo as int, hi as int, t),
    decreases hi - lo,
{
    let mut out: Vec<DiffWord> = Vec::new();
    if lo >= hi {
        proof {
            assert(out.deep_view() =~= Seq::<DiffWordV>::empty());
        }
        return out;
    }
    out.push(DiffWord { word: crate::bytes::clone_bytes(&ws[lo]), tag: t });
    let mut rest = tag_range(ws, lo + 1, hi, t);
    let ghost rest_view = rest.deep_view();
    out.append(&mut rest);
    proof {
        assert(out.deep_view() =~= seq![
            DiffWordV { word: ws.deep_view()[lo as int], tag: t },
        ] + rest_view);
    }
    out
}

/// Computes the inline word difference of an expected and an actual text.
pub fn word_diff(e: &Vec<u8>, a: &Vec<u8>) -> (r: Vec<DiffWord>)
    ensures
        r.deep_view() == spec_word_diff(e@, a@),
{
    let we = words(e);
    let wa = words(a);
    let p = prefix_len_from(&we, &wa, 0);
    proof {
        lemma_prefix_len_bounds(we.deep_view(), wa.deep_view(), 0);
    }
    let q = suffix_len_from(&we, &wa, p, 0);
    proof {
        lemma_suffix_len_bounds(we.deep_view(), wa.deep_view(), p as int, 0);
    }
    let mut out = tag_range(&we, 0, p, DiffTag::Same);
    let mut removed = tag_range(&we, p, we.len() - q, DiffTag::Removed);
    let mut added = tag_range(&wa, p, wa.len() - q, DiffTag::Added);
    let mut suf = tag_range(&we, we.len() - q, we.len(), DiffTag::Same);
    out.append(&mut removed);
    out.append(&mut added);
    out.append(&mut suf);
    proof {
        assert(out.deep_view() =~= spec_word_diff(e@, a@));
    }
    out
}

} // verus!
