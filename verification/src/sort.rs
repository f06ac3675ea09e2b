//! Sorting tokens into the canonical order. The sort is stable: tokens with
//! the same key keep the order in which they came.

use vstd::prelude::*;
use crate::token::{
    key_le, key_lt, lemma_key_le_transitive, lemma_key_lt_irreflexive, lemma_key_lt_transitive,
    lemma_key_order_total, tokens_view, TokenInfo, TokenInfoView, TokenKey,
};

verus! {

/// Every token comes before, or has the key of, each token behind it.
pub open spec fn sorted(s: Seq<TokenInfoView>) -> bool {
    forall|i: int, j: int| 0 <= i < j < s.len() ==> key_le(#[trigger] s[i].key(), #[trigger] s[j].key())
}

/// Every token comes strictly before each token behind it.
pub open spec fn strictly_sorted(s: Seq<TokenInfoView>) -> bool {
    forall|i: int, j: int| 0 <= i < j < s.len() ==> key_lt(#[trigger] s[i].key(), #[trigger] s[j].key())
}

/// The tokens of `s` that have the key `k`, in the order in which `s` holds
/// them.
pub open spec fn with_key(s: Seq<TokenInfoView>, k: TokenKey) -> Seq<TokenInfoView> {
    s.filter(|t: TokenInfoView| t.key() == k)
}

/// `out` is `inp` in canonical order, sorted stably: for every key, `out`
/// holds the same tokens with that key as `inp` does, in the same order.
pub open spec fn is_stable_sort_of(out: Seq<TokenInfoView>, inp: Seq<TokenInfoView>) -> bool {
    &&& sorted(out)
    &&& out.len() == inp.len()
    &&& forall|k: TokenKey| #[trigger] with_key(out, k) == with_key(inp, k)
}

/// What `with_key` makes of a sequence with one more token at its end.
pub proof fn lemma_with_key_push(s: Seq<TokenInfoView>, t: TokenInfoView, k: TokenKey)
    ensures
        with_key(s.push(t), k) == if t.key() == k {
            with_key(s, k).push(t)
        } else {
            with_key(s, k)
        },
{
    reveal(Seq::filter);
    assert(s.push(t).drop_last() =~= s);
}

/// `with_key` of two sequences one after the other.
pub proof fn lemma_with_key_add(a: Seq<TokenInfoView>, b: Seq<TokenInfoView>, k: TokenKey)
    ensures
        with_key(a + b, k) == with_key(a, k) + with_key(b, k),
{
    Seq::filter_distributes_over_add(a, b, |t: TokenInfoView| t.key() == k);
}

/// Where no token has the key `k`, `with_key` finds none.
pub proof fn lemma_with_key_none(s: Seq<TokenInfoView>, k: TokenKey)
    requires
        forall|i: int| 0 <= i < s.len() ==> (#[trigger] s[i]).key() != k,
    ensures
        with_key(s, k) == Seq::<TokenInfoView>::empty(),
    decreases s.len(),
{
    reveal(Seq::filter);
    if s.len() > 0 {
        lemma_with_key_none(s.drop_last(), k);
    }
}

/// Merges two sorted lists into one; among tokens with the same key those of
/// `left` come first.
fn merge(left: &Vec<TokenInfo>, right: &Vec<TokenInfo>) -> (out: Vec<TokenInfo>)
    requires
        sorted(tokens_view(left@)),
        sorted(tokens_view(right@)),
    ensures
        sorted(tokens_view(out@)),
        out.len() == left.len() + right.len(),
        forall|k: TokenKey| #[trigger]
            with_key(tokens_view(out@), k) == with_key(tokens_view(left@), k) + with_key(
                tokens_view(right@),
                k,
            ),
{
    let ghost l = tokens_view(left@);
    let ghost r = tokens_view(right@);
    let mut out: Vec<TokenInfo> = Vec::new();
    let mut i: usize = 0;
    let mut j: usize = 0;
    proof {
        assert forall|k: TokenKey| #[trigger]
            with_key(tokens_view(out@), k) == with_key(l.take(0), k) + with_key(
                r.take(0),
                k,
            ) by {
            assert(tokens_view(out@) =~= Seq::empty());
            assert(l.take(0) =~= Seq::empty());
            assert(r.take(0) =~= Seq::empty());
        }
    }
    while i < left.len() || j < right.len()
        invariant
            l == tokens_view(left@),
            r == tokens_view(right@),
            sorted(l),
            sorted(r),
            i <= left.len(),
            j <= right.len(),
            out.len() == i + j,
            sorted(tokens_view(out@)),
            forall|x: int|
                0 <= x < out.len() && i < l.len() ==> key_le(
                    (#[trigger] tokens_view(out@)[x]).key(),
                    l[i as int].key(),
                ),
            forall|x: int|
                0 <= x < out.len() && j < r.len() ==> key_le(
                    (#[trigger] tokens_view(out@)[x]).key(),
                    r[j as int].key(),
                ),
            forall|y: int|
                0 <= y < j && i < l.len() ==> key_lt((#[trigger] r[y]).key(), l[i as int].key()),
            forall|k: TokenKey| #[trigger]
                with_key(tokens_view(out@), k) == with_key(l.take(i as int), k) + with_key(
                    r.take(j as int),
                    k,
                ),
        decreases (left.len() - i) + (right.len() - j),
    {
        let ghost o = tokens_view(out@);
        let take_left = if j >= right.len() {
            true
        } else if i >= left.len() {
            false
        } else {
            !right[j].precedes(&left[i])
        };
        if take_left {
            let t = left[i].clone();
            out.push(t);
            proof {
                let tv = l[i as int];
                let o2 = tokens_view(out@);
                assert(o2 =~= o.push(tv));
                assert(l.take(i + 1) =~= l.take(i as int).push(tv));
                if j < r.len() {
                    lemma_key_order_total(tv.key(), r[j as int].key());
                }
                assert forall|x: int| 0 <= x < out.len() && i + 1 < l.len() implies key_le(
                    (#[trigger] o2[x]).key(),
                    l[i + 1].key(),
                ) by {
                    if x < o.len() {
                        assert(o2[x] == o[x]);
                        lemma_key_le_transitive(o[x].key(), tv.key(), l[i + 1].key());
                    }
                }
                assert forall|y: int| 0 <= y < j && i + 1 < l.len() implies key_lt(
                    (#[trigger] r[y]).key(),
                    l[i + 1].key(),
                ) by {
                    lemma_key_order_total(tv.key(), l[i + 1].key());
                    if tv.key() != l[i + 1].key() {
                        lemma_key_lt_transitive(r[y].key(), tv.key(), l[i + 1].key());
                    }
                }
                assert forall|k: TokenKey| #[trigger]
                    with_key(o2, k) == with_key(l.take(i + 1), k) + with_key(
                        r.take(j as int),
                        k,
                    ) by {
                    lemma_with_key_push(o, tv, k);
                    lemma_with_key_push(l.take(i as int), tv, k);
                    assert(with_key(o, k) == with_key(l.take(i as int), k) + with_key(
                        r.take(j as int),
                        k,
                    ));
                    if tv.key() == k {
                        assert forall|y: int| 0 <= y < r.take(j as int).len() implies (
                        #[trigger] r.take(j as int)[y]).key() != k by {
                            assert(key_lt(r[y].key(), tv.key()));
                            lemma_key_lt_irreflexive(k);
                        }
                        lemma_with_key_none(r.take(j as int), k);
                        assert(with_key(o2, k) =~= with_key(l.take(i + 1), k) + with_key(
                            r.take(j as int),
                            k,
                        ));
                    }
                }
                assert(sorted(o2)) by {
                    assert forall|x: int, y: int| 0 <= x < y < o2.len() implies key_le(
                        #[trigger] o2[x].key(),
                        #[trigger] o2[y].key(),
                    ) by {
                        assert(o2[x] == o[x]);
                        if y < o.len() {
                            assert(o2[y] == o[y]);
                        }
                    }
                }
            }
            i += 1;
        } else {
            let t = right[j].clone();
            out.push(t);
            proof {
                let tv = r[j as int];
                let o2 = tokens_view(out@);
                assert(o2 =~= o.push(tv));
                assert(r.take(j + 1) =~= r.take(j as int).push(tv));
                if i < l.len() {
                    lemma_key_order_total(tv.key(), l[i as int].key());
                }
                assert forall|x: int| 0 <= x < out.len() && j + 1 < r.len() implies key_le(
                    (#[trigger] o2[x]).key(),
                    r[j + 1].key(),
                ) by {
                    if x < o.len() {
                        assert(o2[x] == o[x]);
                        lemma_key_le_transitive(o[x].key(), tv.key(), r[j + 1].key());
                    }
                }
                assert forall|k: TokenKey| #[trigger]
                    with_key(o2, k) == with_key(l.take(i as int), k) + with_key(
                        r.take(j + 1),
                        k,
                    ) by {
                    lemma_with_key_push(o, tv, k);
                    lemma_with_key_push(r.take(j as int), tv, k);
                    assert(with_key(o, k) == with_key(l.take(i as int), k) + with_key(
                        r.take(j as int),
                        k,
                    ));
                    assert(with_key(o2, k) =~= with_key(l.take(i as int), k) + with_key(
                        r.take(j + 1),
                        k,
                    ));
                }
                assert(sorted(o2)) by {
                    assert forall|x: int, y: int| 0 <= x < y < o2.len() implies key_le(
                        #[trigger] o2[x].key(),
                        #[trigger] o2[y].key(),
                    ) by {
                        assert(o2[x] == o[x]);
                        if y < o.len() {
                            assert(o2[y] == o[y]);
                        }
                    }
                }
            }
            j += 1;
        }
    }
    proof {
        assert(l.take(i as int) =~= l);
        assert(r.take(j as int) =~= r);
    }
    out
}

/// Sorts the tokens of `v` from position `lo` up to position `hi`.
fn sort_range(v: &Vec<TokenInfo>, lo: usize, hi: usize) -> (out: Vec<TokenInfo>)
    requires
        lo <= hi <= v.len(),
    ensures
        is_stable_sort_of(tokens_view(out@), tokens_view(v@).subrange(lo as int, hi as int)),
    decreases hi - lo,
{
    let ghost all = tokens_view(v@);
    let ghost part = all.subrange(lo as int, hi as int);
    if hi - lo == 0 {
        let out: Vec<TokenInfo> = Vec::new();
        assert(tokens_view(out@) =~= part);
        out
    } else if hi - lo == 1 {
        let mut out: Vec<TokenInfo> = Vec::new();
        out.push(v[lo].clone());
        assert(tokens_view(out@) =~= part);
        out
    } else {
        let mid = lo + (hi - lo) / 2;
        let left = sort_range(v, lo, mid);
        let right = sort_range(v, mid, hi);
        let out = merge(&left, &right);
        proof {
            let a = all.subrange(lo as int, mid as int);
            let b = all.subrange(mid as int, hi as int);
            assert(part =~= a + b);
            assert forall|k: TokenKey| #[trigger]
                with_key(tokens_view(out@), k) == with_key(part, k) by {
                lemma_with_key_add(a, b, k);
                assert(with_key(tokens_view(left@), k) == with_key(a, k));
                assert(with_key(tokens_view(right@), k) == with_key(b, k));
            }
        }
        out
    }
}

/// Returns the tokens of `tokens` in canonical order: by chain, then by
/// address. Tokens with the same key stay in the order in which `tokens`
/// holds them.
pub fn sorted_tokens(tokens: &Vec<TokenInfo>) -> (out: Vec<TokenInfo>)
    ensures
        is_stable_sort_of(tokens_view(out@), tokens_view(tokens@)),
{
    let out = sort_range(tokens, 0, tokens.len());
    assert(tokens_view(tokens@).subrange(0, tokens.len() as int) =~= tokens_view(tokens@));
    out
}

/// Sorts `tokens` into canonical order: by chain, then by address. Tokens
/// with the same key stay in the order in which they came.
pub fn sort_tokens(tokens: &mut Vec<TokenInfo>)
    ensures
        is_stable_sort_of(tokens_view(final(tokens)@), tokens_view(old(tokens)@)),
{
    let out = sorted_tokens(tokens);
    *tokens = out;
}

} // verus!
