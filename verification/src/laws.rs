//! What holds of every merge, every simplification and every filter.

use vstd::prelude::*;
use crate::engine::{
    all_tokens, first_only, is_build_of, is_merge_of, lemma_with_key_found, lemma_with_key_holds,
    merged_tags, simple_of, BuildOutputView,
};
use crate::list::{
    lemma_on_chain_push, on_chain, simplified_tokens, unique_keys, Timestamp, TokenListView,
};
use crate::sort::{
    is_stable_sort_of, lemma_with_key_add, lemma_with_key_none, lemma_with_key_push, sorted,
    strictly_sorted, with_key,
};
use crate::token::{
    key_le, key_lt, lemma_key_lt_asymmetric, lemma_key_lt_irreflexive, lemma_key_order_total,
    TokenInfoView, TokenKey,
};

verus! {

/// In a strictly sorted list no key occurs twice, and the list is sorted.
pub proof fn lemma_strictly_sorted_unique(s: Seq<TokenInfoView>)
    requires
        strictly_sorted(s),
    ensures
        unique_keys(s),
        sorted(s),
{
    assert forall|i: int, j: int| 0 <= i < s.len() && 0 <= j < s.len() && i != j implies (
    #[trigger] s[i]).key() != (#[trigger] s[j]).key() by {
        lemma_key_lt_irreflexive(s[i].key());
        if i < j {
            assert(key_lt(s[i].key(), s[j].key()));
        } else {
            assert(key_lt(s[j].key(), s[i].key()));
        }
    }
    assert forall|i: int, j: int| 0 <= i < j < s.len() implies key_le(
        #[trigger] s[i].key(),
        #[trigger] s[j].key(),
    ) by {
        lemma_key_order_total(s[i].key(), s[j].key());
    }
}

/// Where the token at position `j` is the first of `s` with the key `k`, it
/// is the first that `with_key` finds.
pub proof fn lemma_with_key_first(s: Seq<TokenInfoView>, k: TokenKey, j: int)
    requires
        0 <= j < s.len(),
        s[j].key() == k,
        forall|x: int| 0 <= x < j ==> (#[trigger] s[x]).key() != k,
    ensures
        with_key(s, k).len() > 0,
        with_key(s, k)[0] == s[j],
{
    let head = s.take(j);
    let tail = s.skip(j + 1);
    assert(s =~= head.push(s[j]) + tail);
    lemma_with_key_none(head, k);
    lemma_with_key_push(head, s[j], k);
    lemma_with_key_add(head.push(s[j]), tail, k);
}

/// Uniqueness: in a merged list no two tokens share a chain and an address.
pub proof fn lemma_merge_unique_keys(merged: Seq<TokenInfoView>, all: Seq<TokenInfoView>)
    requires
        is_merge_of(merged, all),
    ensures
        unique_keys(merged),
{
    lemma_strictly_sorted_unique(merged);
}

/// Ordering: of two neighbours in a merged list, the first is on the lower
/// chain, or on the same chain with an address that does not come behind.
pub proof fn lemma_merge_ordered(merged: Seq<TokenInfoView>, all: Seq<TokenInfoView>, i: int)
    requires
        is_merge_of(merged, all),
        0 <= i,
        i + 1 < merged.len(),
    ensures
        key_le(merged[i].key(), merged[i + 1].key()),
{
    assert(key_lt(merged[i].key(), merged[i + 1].key()));
    lemma_key_order_total(merged[i].key(), merged[i + 1].key());
}

/// Precedence: the token that is the first with its key among the tokens
/// `all` is in the merged list, and is the one that the merged list has for
/// that key.
pub proof fn lemma_merge_keeps_first(merged: Seq<TokenInfoView>, all: Seq<TokenInfoView>, j: int)
    requires
        is_merge_of(merged, all),
        0 <= j < all.len(),
        forall|x: int| 0 <= x < j ==> (#[trigger] all[x]).key() != all[j].key(),
    ensures
        merged.contains(all[j]),
        forall|i: int|
            0 <= i < merged.len() && (#[trigger] merged[i]).key() == all[j].key() ==> merged[i]
                == all[j],
{
    let k = all[j].key();
    lemma_with_key_first(all, k, j);
    assert(with_key(merged, k) == first_only(with_key(all, k)));
    assert(with_key(merged, k) =~= seq![all[j]]);
    lemma_with_key_found(merged, k, 0);
    assert forall|i: int| 0 <= i < merged.len() && (#[trigger] merged[i]).key() == k implies merged[i]
        == all[j] by {
        lemma_with_key_holds(merged, i);
        let w = choose|w: int| 0 <= w < with_key(merged, k).len() && with_key(merged, k)[w] == merged[i];
        assert(w == 0);
    }
}

/// Whether some token of `s` has the key `k`.
pub open spec fn has_key(s: Seq<TokenInfoView>, k: TokenKey) -> bool {
    exists|i: int| 0 <= i < s.len() && (#[trigger] s[i]).key() == k
}

/// Every token of a merged list is one of the tokens that were merged, and
/// every key among those is a key of the merged list.
pub proof fn lemma_merge_complete(merged: Seq<TokenInfoView>, all: Seq<TokenInfoView>)
    requires
        is_merge_of(merged, all),
    ensures
        forall|i: int| 0 <= i < merged.len() ==> all.contains(#[trigger] merged[i]),
        forall|j: int| 0 <= j < all.len() ==> has_key(merged, (#[trigger] all[j]).key()),
{
    assert forall|i: int| 0 <= i < merged.len() implies all.contains(#[trigger] merged[i]) by {
        let k = merged[i].key();
        lemma_with_key_holds(merged, i);
        assert(with_key(merged, k) == first_only(with_key(all, k)));
        assert(with_key(all, k).len() > 0);
        let w = choose|w: int| 0 <= w < with_key(merged, k).len() && with_key(merged, k)[w] == merged[i];
        assert(with_key(merged, k)[w] == with_key(all, k)[0]);
        lemma_with_key_found(all, k, 0);
    }
    assert forall|j: int| 0 <= j < all.len() implies has_key(merged, (#[trigger] all[j]).key()) by {
        let k = all[j].key();
        lemma_with_key_holds(all, j);
        assert(with_key(merged, k) == first_only(with_key(all, k)));
        assert(with_key(merged, k).len() == 1);
        lemma_with_key_found(merged, k, 0);
        let w = with_key(merged, k)[0];
        let i = choose|i: int| 0 <= i < merged.len() && merged[i] == w;
        assert(merged[i].key() == k);
    }
}

/// Two strictly sorted lists that hold the same tokens for every key are the
/// same list.
pub proof fn lemma_sorted_lists_equal(a: Seq<TokenInfoView>, b: Seq<TokenInfoView>)
    requires
        strictly_sorted(a),
        strictly_sorted(b),
        forall|k: TokenKey| #[trigger] with_key(a, k) == with_key(b, k),
    ensures
        a == b,
    decreases a.len(),
{
    if a.len() == 0 {
        if b.len() > 0 {
            lemma_with_key_holds(b, 0);
            lemma_with_key_none(a, b[0].key());
            assert(with_key(a, b[0].key()) == with_key(b, b[0].key()));
        }
        assert(a =~= b);
    } else if b.len() == 0 {
        lemma_with_key_holds(a, 0);
        lemma_with_key_none(b, a[0].key());
        assert(with_key(a, a[0].key()) == with_key(b, a[0].key()));
    } else {
        let x = a.last();
        let y = b.last();
        let a2 = a.drop_last();
        let b2 = b.drop_last();
        assert(a =~= a2.push(x));
        assert(b =~= b2.push(y));
        // The last token of each list is in the other.
        lemma_with_key_holds(a, a.len() - 1);
        assert(with_key(a, x.key()) == with_key(b, x.key()));
        let wa = choose|w: int| 0 <= w < with_key(a, x.key()).len() && with_key(a, x.key())[w] == x;
        lemma_with_key_found(b, x.key(), wa);
        let p = choose|p: int| 0 <= p < b.len() && b[p] == x;
        lemma_with_key_holds(b, b.len() - 1);
        assert(with_key(a, y.key()) == with_key(b, y.key()));
        let wb = choose|w: int| 0 <= w < with_key(b, y.key()).len() && with_key(b, y.key())[w] == y;
        lemma_with_key_found(a, y.key(), wb);
        let q = choose|q: int| 0 <= q < a.len() && a[q] == y;
        lemma_key_lt_irreflexive(x.key());
        if p < b.len() - 1 {
            assert(key_lt(b[p].key(), b[b.len() - 1].key()));
            if q < a.len() - 1 {
                assert(key_lt(a[q].key(), a[a.len() - 1].key()));
                lemma_key_lt_asymmetric(x.key(), y.key());
            }
        }
        assert(x == y);
        assert(strictly_sorted(a2)) by {
            assert forall|i: int, j: int| 0 <= i < j < a2.len() implies key_lt(
                #[trigger] a2[i].key(),
                #[trigger] a2[j].key(),
            ) by {
                assert(a2[i] == a[i] && a2[j] == a[j]);
            }
        }
        assert(strictly_sorted(b2)) by {
            assert forall|i: int, j: int| 0 <= i < j < b2.len() implies key_lt(
                #[trigger] b2[i].key(),
                #[trigger] b2[j].key(),
            ) by {
                assert(b2[i] == b[i] && b2[j] == b[j]);
            }
        }
        assert forall|k: TokenKey| #[trigger] with_key(a2, k) == with_key(b2, k) by {
            lemma_with_key_push(a2, x, k);
            lemma_with_key_push(b2, y, k);
            assert(with_key(a, k) == with_key(b, k));
            if x.key() == k {
                assert forall|i: int| 0 <= i < a2.len() implies (#[trigger] a2[i]).key() != k by {
                    assert(a2[i] == a[i]);
                    assert(key_lt(a[i].key(), a[a.len() - 1].key()));
                }
                assert forall|i: int| 0 <= i < b2.len() implies (#[trigger] b2[i]).key() != k by {
                    assert(b2[i] == b[i]);
                    assert(key_lt(b[i].key(), b[b.len() - 1].key()));
                }
                lemma_with_key_none(a2, k);
                lemma_with_key_none(b2, k);
            }
        }
        lemma_sorted_lists_equal(a2, b2);
    }
}

/// The merge of given tokens is one list and no other.
pub proof fn lemma_merge_determined(
    a: Seq<TokenInfoView>,
    b: Seq<TokenInfoView>,
    all: Seq<TokenInfoView>,
)
    requires
        is_merge_of(a, all),
        is_merge_of(b, all),
    ensures
        a == b,
{
    assert forall|k: TokenKey| #[trigger] with_key(a, k) == with_key(b, k) by {
        assert(with_key(a, k) == first_only(with_key(all, k)));
        assert(with_key(b, k) == first_only(with_key(all, k)));
    }
    lemma_sorted_lists_equal(a, b);
}

/// The tokens of the sources before source `s`, and then those of source
/// `s` itself, stand at the front of the tokens of all sources.
pub proof fn lemma_all_tokens_prefix(sources: Seq<TokenListView>, s: int)
    requires
        0 <= s < sources.len(),
    ensures
        all_tokens(sources.take(s)).len() + sources[s].tokens.len() <= all_tokens(sources).len(),
        all_tokens(sources).take(all_tokens(sources.take(s)).len() as int) == all_tokens(
            sources.take(s),
        ),
        forall|a: int|
            0 <= a < sources[s].tokens.len() ==> all_tokens(sources)[all_tokens(
                sources.take(s),
            ).len() + a] == #[trigger] sources[s].tokens[a],
    decreases sources.len(),
{
    let before = sources.drop_last();
    if s == sources.len() - 1 {
        assert(sources.take(s) =~= before);
        assert(all_tokens(sources).take(all_tokens(before).len() as int) =~= all_tokens(before));
    } else {
        lemma_all_tokens_prefix(before, s);
        assert(before.take(s) =~= sources.take(s));
        assert(before[s] == sources[s]);
        let n = all_tokens(sources.take(s)).len() as int;
        assert(all_tokens(sources).take(n) =~= all_tokens(before).take(n));
    }
}

/// Every token among the tokens of all sources is a token of one source.
pub proof fn lemma_all_tokens_origin(sources: Seq<TokenListView>, x: int) -> (at: (int, int))
    requires
        0 <= x < all_tokens(sources).len(),
    ensures
        0 <= at.0 < sources.len(),
        0 <= at.1 < sources[at.0].tokens.len(),
        x == all_tokens(sources.take(at.0)).len() + at.1,
        all_tokens(sources)[x] == sources[at.0].tokens[at.1],
    decreases sources.len(),
{
    let before = sources.drop_last();
    let n = all_tokens(before).len() as int;
    if x >= n {
        assert(sources.take(sources.len() - 1) =~= before);
        (sources.len() - 1, x - n)
    } else {
        let at = lemma_all_tokens_origin(before, x);
        assert(before.take(at.0) =~= sources.take(at.0));
        at
    }
}

/// Precedence among sources: where source `s` is the first source with a
/// token of some key, and the token at position `a` is its first with that
/// key, the merged list has this token for the key, whatever later sources
/// say of it.
pub proof fn lemma_earlier_source_wins(
    merged: Seq<TokenInfoView>,
    sources: Seq<TokenListView>,
    s: int,
    a: int,
)
    requires
        is_merge_of(merged, all_tokens(sources)),
        0 <= s < sources.len(),
        0 <= a < sources[s].tokens.len(),
        forall|e: int, b: int|
            0 <= e < s && 0 <= b < sources[e].tokens.len() ==> (#[trigger] sources[e].tokens[b]).key()
                != sources[s].tokens[a].key(),
        forall|b: int|
            0 <= b < a ==> (#[trigger] sources[s].tokens[b]).key() != sources[s].tokens[a].key(),
    ensures
        merged.contains(sources[s].tokens[a]),
        forall|i: int|
            0 <= i < merged.len() && (#[trigger] merged[i]).key() == sources[s].tokens[a].key()
                ==> merged[i] == sources[s].tokens[a],
{
    let all = all_tokens(sources);
    let n = all_tokens(sources.take(s)).len() as int;
    let j = n + a;
    let k = sources[s].tokens[a].key();
    lemma_all_tokens_prefix(sources, s);
    assert(all[j] == sources[s].tokens[a]);
    assert forall|x: int| 0 <= x < j implies (#[trigger] all[x]).key() != k by {
        let at = lemma_all_tokens_origin(sources, x);
        if at.0 > s {
            lemma_all_tokens_prefix(sources, at.0);
            lemma_all_tokens_prefix(sources.take(at.0), s);
            assert(sources.take(at.0).take(s) =~= sources.take(s));
        } else if at.0 == s {
            assert(at.1 < a);
        }
    }
    lemma_merge_keeps_first(merged, all, j);
}

/// Tag precedence: the merged dictionary has for a tag what the last source
/// that has the tag says of it.
pub proof fn lemma_later_source_wins(sources: Seq<TokenListView>, s: int, tag: Seq<char>)
    requires
        0 <= s < sources.len(),
        sources[s].tags.contains_key(tag),
        forall|e: int| s < e < sources.len() ==> !(#[trigger] sources[e]).tags.contains_key(tag),
    ensures
        merged_tags(sources).contains_key(tag),
        merged_tags(sources)[tag] == sources[s].tags[tag],
    decreases sources.len(),
{
    if s < sources.len() - 1 {
        let before = sources.drop_last();
        assert(!sources[sources.len() - 1].tags.contains_key(tag));
        assert forall|e: int| s < e < before.len() implies !(#[trigger] before[e]).tags.contains_key(
            tag,
        ) by {
            assert(before[e] == sources[e]);
        }
        lemma_later_source_wins(before, s, tag);
    }
}

/// Tag precedence for two sources that both have a tag: the second decides.
pub proof fn lemma_second_source_decides_tag(
    first: TokenListView,
    second: TokenListView,
    tag: Seq<char>,
)
    requires
        first.tags.contains_key(tag),
        second.tags.contains_key(tag),
    ensures
        merged_tags(seq![first, second])[tag] == second.tags[tag],
{
    lemma_later_source_wins(seq![first, second], 1, tag);
}

/// A tag is in the merged dictionary exactly when some source has it.
pub proof fn lemma_merged_tags_domain(sources: Seq<TokenListView>, tag: Seq<char>)
    ensures
        merged_tags(sources).contains_key(tag) <==> exists|s: int|
            0 <= s < sources.len() && (#[trigger] sources[s]).tags.contains_key(tag),
    decreases sources.len(),
{
    if sources.len() > 0 {
        let before = sources.drop_last();
        lemma_merged_tags_domain(before, tag);
        if merged_tags(sources).contains_key(tag) {
            if sources.last().tags.contains_key(tag) {
                assert(sources[sources.len() - 1].tags.contains_key(tag));
            } else {
                let s = choose|s: int| 0 <= s < before.len() && (#[trigger] before[s]).tags.contains_key(tag);
                assert(sources[s] == before[s]);
            }
        }
        if exists|s: int| 0 <= s < sources.len() && (#[trigger] sources[s]).tags.contains_key(tag) {
            let s = choose|s: int| 0 <= s < sources.len() && (#[trigger] sources[s]).tags.contains_key(tag);
            if s < sources.len() - 1 {
                assert(before[s] == sources[s]);
            }
        }
    }
}

/// Simplification is idempotent for a token, and leaves neither tags nor
/// extensions.
pub proof fn lemma_simplify_token_idempotent(t: TokenInfoView)
    ensures
        t.simplified().simplified() == t.simplified(),
        t.simplified().tags is None,
        t.simplified().extensions is None,
        t.simplified().key() == t.key(),
{
}

/// Simplification is idempotent for a catalog: simplifying twice gives what
/// simplifying once gives, and no token of a simplified catalog has tags or
/// extensions.
pub proof fn lemma_simplify_idempotent(x: TokenListView)
    ensures
        x.simplified().simplified() == x.simplified(),
        x.simplified().tags == Map::<Seq<char>, crate::tags::TagDetailsView>::empty(),
        x.simplified().tokens.len() == x.tokens.len(),
        forall|i: int|
            0 <= i < x.tokens.len() ==> {
                &&& (#[trigger] x.simplified().tokens[i]).tags is None
                &&& x.simplified().tokens[i].extensions is None
            },
{
    assert(simplified_tokens(simplified_tokens(x.tokens)) =~= simplified_tokens(x.tokens));
}

/// Filter correctness: the tokens that `filter_chain` keeps are those on the
/// chain, picked out of the catalog from front to back. The positions `at`
/// from which they were picked ascend, and no token on the chain is passed
/// over. Everything but the tokens stays as it was.
pub proof fn lemma_filter_chain_exact(x: TokenListView, chain_id: u32) -> (at: Seq<int>)
    ensures
        x.filter_chain(chain_id).name == x.name,
        x.filter_chain(chain_id).logo_uri == x.logo_uri,
        x.filter_chain(chain_id).tags == x.tags,
        x.filter_chain(chain_id).timestamp == x.timestamp,
        at.len() == x.filter_chain(chain_id).tokens.len(),
        forall|i: int|
            0 <= i < at.len() ==> {
                &&& 0 <= (#[trigger] at[i]) < x.tokens.len()
                &&& x.filter_chain(chain_id).tokens[i] == x.tokens[at[i]]
                &&& x.tokens[at[i]].chain_id == chain_id
            },
        forall|i: int, j: int| 0 <= i < j < at.len() ==> at[i] < at[j],
        forall|j: int|
            0 <= j < x.tokens.len() && (#[trigger] x.tokens[j]).chain_id == chain_id ==> at.contains(j),
    decreases x.tokens.len(),
{
    let s = x.tokens;
    if s.len() == 0 {
        reveal(Seq::filter);
        Seq::empty()
    } else {
        let rest = TokenListView { tokens: s.drop_last(), ..x };
        let at2 = lemma_filter_chain_exact(rest, chain_id);
        lemma_on_chain_push(s.drop_last(), s.last(), chain_id);
        assert(s =~= s.drop_last().push(s.last()));
        if s.last().chain_id == chain_id {
            let at = at2.push(s.len() - 1);
            assert forall|j: int|
                0 <= j < s.len() && (#[trigger] s[j]).chain_id == chain_id implies at.contains(j) by {
                if j < s.len() - 1 {
                    assert(rest.tokens[j] == s[j]);
                    let w = choose|w: int| 0 <= w < at2.len() && at2[w] == j;
                    assert(at[w] == j);
                } else {
                    assert(at[at2.len() as int] == j);
                }
            }
            assert forall|i: int| 0 <= i < at.len() implies {
                &&& 0 <= (#[trigger] at[i]) < s.len()
                &&& on_chain(s, chain_id)[i] == s[at[i]]
                &&& s[at[i]].chain_id == chain_id
            } by {
                if i < at2.len() {
                    assert(at[i] == at2[i]);
                    assert(rest.tokens[at2[i]] == s[at2[i]]);
                }
            }
            at
        } else {
            assert forall|j: int|
                0 <= j < s.len() && (#[trigger] s[j]).chain_id == chain_id implies at2.contains(j) by {
                assert(rest.tokens[j] == s[j]);
            }
            assert forall|i: int| 0 <= i < at2.len() implies {
                &&& 0 <= (#[trigger] at2[i]) < s.len()
                &&& on_chain(s, chain_id)[i] == s[at2[i]]
                &&& s[at2[i]].chain_id == chain_id
            } by {
                assert(rest.tokens[at2[i]] == s[at2[i]]);
            }
            at2
        }
    }
}

/// Filtering a strictly sorted list by chain leaves a strictly sorted list.
pub proof fn lemma_on_chain_strictly_sorted(s: Seq<TokenInfoView>, chain_id: u32)
    requires
        strictly_sorted(s),
    ensures
        strictly_sorted(on_chain(s, chain_id)),
{
    let x = TokenListView {
        name: Seq::empty(),
        logo_uri: Seq::empty(),
        tags: Map::empty(),
        timestamp: Timestamp { secs: 0, nanos: 0 },
        tokens: s,
    };
    let at = lemma_filter_chain_exact(x, chain_id);
    let f = on_chain(s, chain_id);
    assert forall|i: int, j: int| 0 <= i < j < f.len() implies key_lt(
        #[trigger] f[i].key(),
        #[trigger] f[j].key(),
    ) by {
        assert(at[i] < at[j]);
        assert(f[i] == s[at[i]]);
        assert(f[j] == s[at[j]]);
    }
}

/// Simplifying the tokens of a strictly sorted list leaves a strictly
/// sorted list.
pub proof fn lemma_simplified_strictly_sorted(s: Seq<TokenInfoView>)
    requires
        strictly_sorted(s),
    ensures
        strictly_sorted(simplified_tokens(s)),
{
    let f = simplified_tokens(s);
    assert forall|i: int, j: int| 0 <= i < j < f.len() implies key_lt(
        #[trigger] f[i].key(),
        #[trigger] f[j].key(),
    ) by {
        assert(f[i].key() == s[i].key());
        assert(f[j].key() == s[j].key());
    }
}

/// Uniqueness and ordering of everything that a build produces: the merged
/// catalog, its simple form and the catalogs of every chain are strictly
/// sorted, so that none holds a key twice.
pub proof fn lemma_build_unique_keys(
    out: BuildOutputView,
    name: Seq<char>,
    sources: Seq<TokenListView>,
    timestamp: Timestamp,
)
    requires
        is_build_of(out, name, sources, timestamp),
    ensures
        strictly_sorted(out.full.tokens),
        unique_keys(out.full.tokens),
        strictly_sorted(out.simple.tokens),
        unique_keys(out.simple.tokens),
        forall|i: int|
            0 <= i < out.chains.len() ==> {
                &&& strictly_sorted((#[trigger] out.chains[i]).certified.tokens)
                &&& unique_keys(out.chains[i].certified.tokens)
                &&& strictly_sorted(out.chains[i].certified_simple.tokens)
                &&& unique_keys(out.chains[i].certified_simple.tokens)
            },
{
    lemma_strictly_sorted_unique(out.full.tokens);
    lemma_simplified_strictly_sorted(out.full.tokens);
    assert(out.simple == simple_of(out.full));
    lemma_strictly_sorted_unique(out.simple.tokens);
    assert forall|i: int| 0 <= i < out.chains.len() implies {
        &&& strictly_sorted((#[trigger] out.chains[i]).certified.tokens)
        &&& unique_keys(out.chains[i].certified.tokens)
        &&& strictly_sorted(out.chains[i].certified_simple.tokens)
        &&& unique_keys(out.chains[i].certified_simple.tokens)
    } by {
        let c = out.chains[i].chain_id;
        lemma_on_chain_strictly_sorted(out.full.tokens, c);
        lemma_on_chain_strictly_sorted(out.simple.tokens, c);
        lemma_strictly_sorted_unique(out.chains[i].certified.tokens);
        lemma_strictly_sorted_unique(out.chains[i].certified_simple.tokens);
    }
}

/// A stable sort keeps every token: each token of the input is in the
/// output, and each token of the output is in the input.
pub proof fn lemma_sort_keeps_tokens(out: Seq<TokenInfoView>, inp: Seq<TokenInfoView>)
    requires
        is_stable_sort_of(out, inp),
    ensures
        forall|i: int| 0 <= i < inp.len() ==> out.contains(#[trigger] inp[i]),
        forall|i: int| 0 <= i < out.len() ==> inp.contains(#[trigger] out[i]),
{
    assert forall|i: int| 0 <= i < inp.len() implies out.contains(#[trigger] inp[i]) by {
        let k = inp[i].key();
        lemma_with_key_holds(inp, i);
        assert(with_key(out, k) == with_key(inp, k));
        let w = choose|w: int| 0 <= w < with_key(inp, k).len() && with_key(inp, k)[w] == inp[i];
        lemma_with_key_found(out, k, w);
    }
    assert forall|i: int| 0 <= i < out.len() implies inp.contains(#[trigger] out[i]) by {
        let k = out[i].key();
        lemma_with_key_holds(out, i);
        assert(with_key(out, k) == with_key(inp, k));
        let w = choose|w: int| 0 <= w < with_key(out, k).len() && with_key(out, k)[w] == out[i];
        lemma_with_key_found(inp, k, w);
    }
}

/// The stable sort of given tokens is one list and no other.
pub proof fn lemma_stable_sort_determined(
    a: Seq<TokenInfoView>,
    b: Seq<TokenInfoView>,
    inp: Seq<TokenInfoView>,
)
    requires
        is_stable_sort_of(a, inp),
        is_stable_sort_of(b, inp),
    ensures
        a == b,
{
    assert forall|k: TokenKey| #[trigger] with_key(a, k) == with_key(b, k) by {
        assert(with_key(a, k) == with_key(inp, k));
        assert(with_key(b, k) == with_key(inp, k));
    }
    lemma_sorted_lists_with_same_runs_equal(a, b);
}

/// Two sorted lists of one length that hold, for every key, the same tokens
/// in the same order are the same list.
pub proof fn lemma_sorted_lists_with_same_runs_equal(a: Seq<TokenInfoView>, b: Seq<TokenInfoView>)
    requires
        sorted(a),
        sorted(b),
        a.len() == b.len(),
        forall|k: TokenKey| #[trigger] with_key(a, k) == with_key(b, k),
    ensures
        a == b,
    decreases a.len(),
{
    if a.len() == 0 {
        assert(a =~= b);
    } else {
        let x = a.last();
        let y = b.last();
        let a2 = a.drop_last();
        let b2 = b.drop_last();
        assert(a =~= a2.push(x));
        assert(b =~= b2.push(y));
        // The last token of each list has the greatest key, and a token with
        // that key is in the other list.
        lemma_with_key_holds(a, a.len() - 1);
        assert(with_key(a, x.key()) == with_key(b, x.key()));
        let wa = choose|w: int| 0 <= w < with_key(a, x.key()).len() && with_key(a, x.key())[w] == x;
        lemma_with_key_found(b, x.key(), wa);
        let p = choose|p: int| 0 <= p < b.len() && b[p] == x;
        lemma_with_key_holds(b, b.len() - 1);
        assert(with_key(a, y.key()) == with_key(b, y.key()));
        let wb = choose|w: int| 0 <= w < with_key(b, y.key()).len() && with_key(b, y.key())[w] == y;
        lemma_with_key_found(a, y.key(), wb);
        let q = choose|q: int| 0 <= q < a.len() && a[q] == y;
        lemma_key_order_total(x.key(), y.key());
        lemma_key_order_total(y.key(), x.key());
        if p < b.len() - 1 {
            assert(key_le(b[p].key(), b[b.len() - 1].key()));
        }
        if q < a.len() - 1 {
            assert(key_le(a[q].key(), a[a.len() - 1].key()));
        }
        assert(x.key() == y.key());
        let k0 = x.key();
        lemma_with_key_push(a2, x, k0);
        lemma_with_key_push(b2, y, k0);
        assert(with_key(a, k0) == with_key(b, k0));
        assert(with_key(a2, k0).push(x).last() == x);
        assert(with_key(b2, k0).push(y).last() == y);
        assert(x == y);
        assert(with_key(a2, k0) =~= with_key(a2, k0).push(x).drop_last());
        assert(with_key(b2, k0) =~= with_key(b2, k0).push(y).drop_last());
        assert(sorted(a2)) by {
            assert forall|i: int, j: int| 0 <= i < j < a2.len() implies key_le(
                #[trigger] a2[i].key(),
                #[trigger] a2[j].key(),
            ) by {
                assert(a2[i] == a[i] && a2[j] == a[j]);
            }
        }
        assert(sorted(b2)) by {
            assert forall|i: int, j: int| 0 <= i < j < b2.len() implies key_le(
                #[trigger] b2[i].key(),
                #[trigger] b2[j].key(),
            ) by {
                assert(b2[i] == b[i] && b2[j] == b[j]);
            }
        }
        assert forall|k: TokenKey| #[trigger] with_key(a2, k) == with_key(b2, k) by {
            lemma_with_key_push(a2, x, k);
            lemma_with_key_push(b2, y, k);
            assert(with_key(a, k) == with_key(b, k));
        }
        lemma_sorted_lists_with_same_runs_equal(a2, b2);
    }
}

} // verus!
