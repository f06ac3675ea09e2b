//! The merge engine: from the source catalogs, in the order of the registry,
//! to the merged catalog, its simple form, and the catalogs of each chain.

use vstd::prelude::*;
use crate::laws::lemma_strictly_sorted_unique;
use crate::list::{unique_keys, Timestamp, TokenList, TokenListView};
use crate::locator::DEFAULT_LOGO_URI;
use crate::registry::Lists;
use crate::sort::{
    lemma_with_key_none, lemma_with_key_push, sorted, sorted_tokens, strictly_sorted, with_key,
};
use crate::tags::{TagDetailsView, TagDictionary};
use crate::token::{
    key_le, key_lt, lemma_key_lt_irreflexive, lemma_key_lt_transitive, lemma_key_order_total,
    tokens_view, TokenInfo, TokenInfoView, TokenKey,
};

verus! {

/// What the name of the simple catalog has behind the name of the full one.
pub const SIMPLE_SUFFIX: &'static str = " (Simple)";

/// What a sequence of catalogs holds.
pub open spec fn lists_view(v: Seq<TokenList>) -> Seq<TokenListView> {
    v.map_values(|l: TokenList| l@)
}

/// The tokens of all sources: those of the first source, then those of the
/// second, and so on.
pub open spec fn all_tokens(sources: Seq<TokenListView>) -> Seq<TokenInfoView>
    decreases sources.len(),
{
    if sources.len() == 0 {
        Seq::empty()
    } else {
        all_tokens(sources.drop_last()) + sources.last().tokens
    }
}

/// The tags of all sources in one dictionary. Where several sources have a
/// tag, the details of the last of them stand.
pub open spec fn merged_tags(sources: Seq<TokenListView>) -> Map<Seq<char>, TagDetailsView>
    decreases sources.len(),
{
    if sources.len() == 0 {
        Map::empty()
    } else {
        merged_tags(sources.drop_last()).union_prefer_right(sources.last().tags)
    }
}

/// The first token of `s` alone, or nothing where `s` is empty.
pub open spec fn first_only(s: Seq<TokenInfoView>) -> Seq<TokenInfoView> {
    if s.len() == 0 {
        Seq::empty()
    } else {
        seq![s[0]]
    }
}

/// `merged` is the merge of the tokens `all`: it is in canonical order with
/// no key twice, and for every key it holds the first token of `all` with
/// that key, and no other.
pub open spec fn is_merge_of(merged: Seq<TokenInfoView>, all: Seq<TokenInfoView>) -> bool {
    &&& strictly_sorted(merged)
    &&& forall|k: TokenKey| #[trigger] with_key(merged, k) == first_only(with_key(all, k))
}

/// Whether some token of `tokens` is on the chain `chain_id`.
pub open spec fn has_chain(tokens: Seq<TokenInfoView>, chain_id: u32) -> bool {
    exists|i: int| 0 <= i < tokens.len() && (#[trigger] tokens[i]).chain_id == chain_id
}

/// `ids` lists the chains of `tokens`: in ascending order, each chain that
/// has a token once, and no other.
pub open spec fn is_chain_listing(ids: Seq<u32>, tokens: Seq<TokenInfoView>) -> bool {
    &&& forall|i: int, j: int| 0 <= i < j < ids.len() ==> ids[i] < ids[j]
    &&& forall|i: int| 0 <= i < ids.len() ==> has_chain(tokens, #[trigger] ids[i])
    &&& forall|t: int| 0 <= t < tokens.len() ==> ids.contains((#[trigger] tokens[t]).chain_id)
}

/// Collects the tokens of all sources, in the order of the sources.
pub fn gather_tokens(sources: &Vec<TokenList>) -> (all: Vec<TokenInfo>)
    ensures
        tokens_view(all@) == all_tokens(lists_view(sources@)),
{
    let ghost src = lists_view(sources@);
    let mut all: Vec<TokenInfo> = Vec::new();
    let mut s: usize = 0;
    assert(tokens_view(all@) =~= all_tokens(src.take(0)));
    while s < sources.len()
        invariant
            s <= sources.len(),
            src == lists_view(sources@),
            tokens_view(all@) == all_tokens(src.take(s as int)),
        decreases sources.len() - s,
    {
        let ghost before = tokens_view(all@);
        let ghost these = src[s as int].tokens;
        let source = &sources[s];
        let mut i: usize = 0;
        assert(tokens_view(all@) =~= before + these.take(0));
        while i < source.tokens.len()
            invariant
                i <= source.tokens.len(),
                these == tokens_view(source.tokens@),
                tokens_view(all@) == before + these.take(i as int),
            decreases source.tokens.len() - i,
        {
            let ghost sofar = tokens_view(all@);
            all.push(source.tokens[i].clone());
            assert(tokens_view(all@) =~= sofar.push(these[i as int]));
            assert(tokens_view(all@) =~= before + these.take(i + 1));
            i += 1;
        }
        proof {
            assert(these.take(i as int) =~= these);
            assert(src.take(s + 1).drop_last() =~= src.take(s as int));
            assert(src.take(s + 1).last() == src[s as int]);
        }
        s += 1;
    }
    assert(src.take(s as int) =~= src);
    all
}

/// Merges the tag dictionaries of all sources, in the order of the sources:
/// a later source overwrites what an earlier one said of the same tag.
pub fn merge_tags(sources: &Vec<TokenList>) -> (tags: TagDictionary)
    ensures
        tags@ == merged_tags(lists_view(sources@)),
{
    let ghost src = lists_view(sources@);
    let mut tags = TagDictionary::new();
    let mut s: usize = 0;
    assert(tags@ =~= merged_tags(src.take(0)));
    while s < sources.len()
        invariant
            s <= sources.len(),
            src == lists_view(sources@),
            tags@ == merged_tags(src.take(s as int)),
        decreases sources.len() - s,
    {
        tags.merge(&sources[s].tags);
        proof {
            assert(src.take(s + 1).drop_last() =~= src.take(s as int));
            assert(src.take(s + 1).last() == src[s as int]);
        }
        s += 1;
    }
    assert(src.take(s as int) =~= src);
    tags
}

/// What `first_only` makes of a sequence with one more token at its end.
pub proof fn lemma_first_only_push(s: Seq<TokenInfoView>, t: TokenInfoView)
    ensures
        first_only(s.push(t)) == if s.len() == 0 {
            seq![t]
        } else {
            first_only(s)
        },
{
    assert(first_only(s.push(t)) =~= if s.len() == 0 {
        seq![t]
    } else {
        first_only(s)
    });
}

/// A token of `s` is among the tokens of `s` with its key.
pub proof fn lemma_with_key_holds(s: Seq<TokenInfoView>, i: int)
    requires
        0 <= i < s.len(),
    ensures
        with_key(s, s[i].key()).contains(s[i]),
        with_key(s, s[i].key()).len() > 0,
{
    let k = s[i].key();
    s.lemma_filter_contains(|t: TokenInfoView| t.key() == k, i);
}

/// What `with_key` finds is in the sequence and has the key.
pub proof fn lemma_with_key_found(s: Seq<TokenInfoView>, k: TokenKey, i: int)
    requires
        0 <= i < with_key(s, k).len(),
    ensures
        with_key(s, k)[i].key() == k,
        s.contains(with_key(s, k)[i]),
{
    let p = |t: TokenInfoView| t.key() == k;
    s.lemma_filter_pred(p, i);
    assert(s.filter(p).contains(s.filter(p)[i]));
    s.lemma_filter_contains_rev(p, s.filter(p)[i]);
}

/// From a sorted list, keeps of each run of tokens with one key the first.
fn first_of_each_key(tokens: &Vec<TokenInfo>) -> (out: Vec<TokenInfo>)
    requires
        sorted(tokens_view(tokens@)),
    ensures
        is_merge_of(tokens_view(out@), tokens_view(tokens@)),
{
    let ghost s = tokens_view(tokens@);
    let mut out: Vec<TokenInfo> = Vec::new();
    let mut i: usize = 0;
    proof {
        assert forall|k: TokenKey| #[trigger]
            with_key(tokens_view(out@), k) == first_only(with_key(s.take(0), k)) by {
            reveal(Seq::filter);
            assert(tokens_view(out@) =~= Seq::empty());
            assert(s.take(0) =~= Seq::empty());
        }
    }
    while i < tokens.len()
        invariant
            i <= tokens.len(),
            s == tokens_view(tokens@),
            sorted(s),
            out.len() <= i,
            i > 0 ==> out.len() > 0 && tokens_view(out@).last().key() == s[i - 1].key(),
            strictly_sorted(tokens_view(out@)),
            forall|k: TokenKey| #[trigger]
                with_key(tokens_view(out@), k) == first_only(with_key(s.take(i as int), k)),
        decreases tokens.len() - i,
    {
        let ghost o = tokens_view(out@);
        let ghost t = s[i as int];
        let repeated = i > 0 && out[out.len() - 1].same_key(&tokens[i]);
        proof {
            assert(s.take(i + 1) =~= s.take(i as int).push(t));
        }
        if !repeated {
            out.push(tokens[i].clone());
            proof {
                let o2 = tokens_view(out@);
                assert(o2 =~= o.push(t));
                // Every token so far comes strictly before this one.
                assert forall|x: int| 0 <= x < i implies key_lt((#[trigger] s[x]).key(), t.key()) by {
                    assert(key_le(s[x].key(), s[i - 1].key())) by {
                        if x < i - 1 {
                        } else {
                            lemma_key_order_total(s[x].key(), s[x].key());
                        }
                    }
                    lemma_key_order_total(s[i - 1].key(), t.key());
                    lemma_key_order_total(s[x].key(), s[i - 1].key());
                    if s[x].key() != s[i - 1].key() {
                        lemma_key_lt_transitive(s[x].key(), s[i - 1].key(), t.key());
                    }
                }
                assert forall|x: int| 0 <= x < s.take(i as int).len() implies (
                #[trigger] s.take(i as int)[x]).key() != t.key() by {
                    assert(key_lt(s[x].key(), t.key()));
                    lemma_key_lt_irreflexive(t.key());
                }
                lemma_with_key_none(s.take(i as int), t.key());
                assert(strictly_sorted(o2)) by {
                    assert forall|x: int, y: int| 0 <= x < y < o2.len() implies key_lt(
                        #[trigger] o2[x].key(),
                        #[trigger] o2[y].key(),
                    ) by {
                        assert(o2[x] == o[x]);
                        if y < o.len() {
                            assert(o2[y] == o[y]);
                        } else {
                            // o[x] is a token seen before: it has a key of s.take(i)
                            lemma_with_key_holds(o, x);
                            let k = o[x].key();
                            assert(with_key(o, k) == first_only(with_key(s.take(i as int), k)));
                            assert(with_key(s.take(i as int), k).len() > 0);
                            lemma_with_key_found(s.take(i as int), k, 0);
                            let w = with_key(s.take(i as int), k)[0];
                            assert(s.take(i as int).contains(w));
                            let z = choose|z: int|
                                0 <= z < s.take(i as int).len() && s.take(i as int)[z] == w;
                            assert(s[z] == w);
                            assert(key_lt(s[z].key(), t.key()));
                        }
                    }
                }
                assert forall|k: TokenKey| #[trigger]
                    with_key(o2, k) == first_only(with_key(s.take(i + 1), k)) by {
                    lemma_with_key_push(o, t, k);
                    lemma_with_key_push(s.take(i as int), t, k);
                    assert(with_key(o, k) == first_only(with_key(s.take(i as int), k)));
                    if t.key() == k {
                        assert(with_key(o2, k) =~= first_only(with_key(s.take(i + 1), k)));
                    }
                }
            }
        } else {
            proof {
                assert forall|k: TokenKey| #[trigger]
                    with_key(o, k) == first_only(with_key(s.take(i + 1), k)) by {
                    lemma_with_key_push(s.take(i as int), t, k);
                    assert(with_key(o, k) == first_only(with_key(s.take(i as int), k)));
                    if t.key() == k {
                        lemma_with_key_holds(o, o.len() - 1);
                        lemma_first_only_push(with_key(s.take(i as int), k), t);
                    }
                }
            }
        }
        i += 1;
    }
    proof {
        assert(s.take(i as int) =~= s);
    }
    out
}

/// Merges the tokens of all sources. Of the tokens that share a chain and an
/// address, the one that comes first stays: an earlier source goes before a
/// later one. The result is in canonical order.
pub fn merge_tokens(sources: &Vec<TokenList>) -> (merged: Vec<TokenInfo>)
    ensures
        is_merge_of(tokens_view(merged@), all_tokens(lists_view(sources@))),
        unique_keys(tokens_view(merged@)),
{
    let all = gather_tokens(sources);
    let in_order = sorted_tokens(&all);
    let merged = first_of_each_key(&in_order);
    proof {
        let a = tokens_view(all@);
        let s = tokens_view(in_order@);
        let m = tokens_view(merged@);
        assert forall|k: TokenKey| #[trigger] with_key(m, k) == first_only(with_key(a, k)) by {
            assert(with_key(m, k) == first_only(with_key(s, k)));
            assert(with_key(s, k) == with_key(a, k));
        }
        lemma_strictly_sorted_unique(m);
    }
    merged
}

/// The position in the ascending list `ids` of the first number that is not
/// below `chain_id`.
fn chain_position(ids: &Vec<u32>, chain_id: u32) -> (p: usize)
    ensures
        p <= ids.len(),
        forall|i: int| 0 <= i < p ==> ids@[i] < chain_id,
        p < ids.len() ==> ids@[p as int] >= chain_id,
{
    let mut p: usize = 0;
    while p < ids.len() && ids[p] < chain_id
        invariant
            p <= ids.len(),
            forall|i: int| 0 <= i < p ==> ids@[i] < chain_id,
        decreases ids.len() - p,
    {
        p += 1;
    }
    p
}

/// The chains that have a token among `tokens`, each once, in ascending
/// order.
pub fn chain_ids(tokens: &Vec<TokenInfo>) -> (ids: Vec<u32>)
    ensures
        is_chain_listing(ids@, tokens_view(tokens@)),
{
    let ghost tv = tokens_view(tokens@);
    let mut ids: Vec<u32> = Vec::new();
    let mut i: usize = 0;
    while i < tokens.len()
        invariant
            i <= tokens.len(),
            tv == tokens_view(tokens@),
            forall|x: int, y: int| 0 <= x < y < ids.len() ==> ids@[x] < ids@[y],
            forall|x: int| 0 <= x < ids.len() ==> has_chain(tv, #[trigger] ids@[x]),
            forall|t: int| 0 <= t < i ==> ids@.contains((#[trigger] tv[t]).chain_id),
        decreases tokens.len() - i,
    {
        let c = tokens[i].chain_id;
        let p = chain_position(&ids, c);
        let ghost before = ids@;
        assert(tv[i as int].chain_id == c);
        if p < ids.len() && ids[p] == c {
            assert(ids@.contains(c));
        } else {
            ids.insert(p, c);
            proof {
                assert(ids@ =~= before.insert(p as int, c));
                assert(ids@[p as int] == c);
                assert forall|t: int| 0 <= t < i + 1 implies ids@.contains(
                    (#[trigger] tv[t]).chain_id,
                ) by {
                    if t < i {
                        let w = choose|w: int| 0 <= w < before.len() && before[w] == tv[t].chain_id;
                        if w < p {
                            assert(ids@[w] == before[w]);
                        } else {
                            assert(ids@[w + 1] == before[w]);
                        }
                    }
                }
                assert forall|x: int| 0 <= x < ids.len() implies has_chain(tv, #[trigger] ids@[x]) by {
                    if x < p {
                        assert(ids@[x] == before[x]);
                    } else if x > p {
                        assert(ids@[x] == before[x - 1]);
                    }
                }
                assert forall|x: int, y: int| 0 <= x < y < ids.len() implies ids@[x] < ids@[y] by {
                    if x < p {
                        assert(ids@[x] == before[x]);
                    } else if x > p {
                        assert(ids@[x] == before[x - 1]);
                    }
                    if y < p {
                        assert(ids@[y] == before[y]);
                    } else if y > p {
                        assert(ids@[y] == before[y - 1]);
                    }
                }
            }
        }
        i += 1;
    }
    ids
}

/// What is written for one chain: the merged catalog and its simple form,
/// each with the tokens of that chain alone.
#[derive(Debug)]
pub struct ChainArtifacts {
    /// The chain.
    pub chain_id: u32,
    /// The full catalog of the chain. Its tokens are also the tokens that
    /// are written one by one.
    pub certified: TokenList,
    /// The simple catalog of the chain.
    pub certified_simple: TokenList,
}

/// What a `ChainArtifacts` holds.
pub struct ChainArtifactsView {
    pub chain_id: u32,
    pub certified: TokenListView,
    pub certified_simple: TokenListView,
}

impl View for ChainArtifacts {
    type V = ChainArtifactsView;

    open spec fn view(&self) -> ChainArtifactsView {
        ChainArtifactsView {
            chain_id: self.chain_id,
            certified: self.certified@,
            certified_simple: self.certified_simple@,
        }
    }
}

/// Everything that a build produces.
#[derive(Debug)]
pub struct BuildOutput {
    /// The merged catalog.
    pub full: TokenList,
    /// The merged catalog in its simple form.
    pub simple: TokenList,
    /// The catalogs of each chain that has a token, in ascending order of
    /// the chains.
    pub chains: Vec<ChainArtifacts>,
}

/// What a `BuildOutput` holds.
pub struct BuildOutputView {
    pub full: TokenListView,
    pub simple: TokenListView,
    pub chains: Seq<ChainArtifactsView>,
}

/// What a sequence of chain artifacts holds.
pub open spec fn artifacts_view(v: Seq<ChainArtifacts>) -> Seq<ChainArtifactsView> {
    v.map_values(|c: ChainArtifacts| c@)
}

/// The chains of a sequence of chain artifacts, in order.
pub open spec fn artifact_chains(v: Seq<ChainArtifactsView>) -> Seq<u32> {
    v.map_values(|c: ChainArtifactsView| c.chain_id)
}

impl View for BuildOutput {
    type V = BuildOutputView;

    open spec fn view(&self) -> BuildOutputView {
        BuildOutputView {
            full: self.full@,
            simple: self.simple@,
            chains: artifacts_view(self.chains@),
        }
    }
}

/// The simple catalog that belongs to the full catalog `full`: its simple
/// form, with the suffix behind its name.
pub open spec fn simple_of(full: TokenListView) -> TokenListView {
    TokenListView { name: full.name + SIMPLE_SUFFIX@, ..full.simplified() }
}

/// `out` is what a build makes of the sources `sources`, taken in their
/// order, under the catalog name `name` and at the time `timestamp`.
pub open spec fn is_build_of(
    out: BuildOutputView,
    name: Seq<char>,
    sources: Seq<TokenListView>,
    timestamp: Timestamp,
) -> bool {
    &&& out.full.name == name
    &&& out.full.logo_uri == DEFAULT_LOGO_URI@
    &&& out.full.timestamp == timestamp
    &&& out.full.tags == merged_tags(sources)
    &&& is_merge_of(out.full.tokens, all_tokens(sources))
    &&& out.simple == simple_of(out.full)
    &&& is_chain_listing(artifact_chains(out.chains), out.full.tokens)
    &&& forall|i: int|
        0 <= i < out.chains.len() ==> {
            &&& (#[trigger] out.chains[i]).certified == out.full.filter_chain(out.chains[i].chain_id)
            &&& out.chains[i].certified_simple == out.simple.filter_chain(out.chains[i].chain_id)
        }
}

/// Builds the merged catalog from the source catalogs `sources`, which come
/// in the order of the registry `lists`, and derives from it the simple
/// catalog and the catalogs of each chain. `timestamp` is the time of the
/// build.
pub fn build(lists: &Lists, sources: &Vec<TokenList>, timestamp: Timestamp) -> (out: BuildOutput)
    ensures
        is_build_of(out@, lists@.meta.name, lists_view(sources@), timestamp),
        unique_keys(out@.full.tokens),
{
    let tokens = merge_tokens(sources);
    let tags = merge_tags(sources);
    let ids = chain_ids(&tokens);
    let full = TokenList {
        name: lists.meta.name.clone(),
        logo_uri: DEFAULT_LOGO_URI.to_owned(),
        tags,
        timestamp,
        tokens,
    };
    let mut simple = full.clone();
    simple.name.append(SIMPLE_SUFFIX);
    simple.simplify();
    let mut chains: Vec<ChainArtifacts> = Vec::new();
    let mut i: usize = 0;
    while i < ids.len()
        invariant
            i <= ids.len(),
            chains.len() == i,
            forall|j: int|
                0 <= j < i ==> {
                    &&& (#[trigger] chains@[j]).chain_id == ids@[j]
                    &&& chains@[j].certified@ == full@.filter_chain(ids@[j])
                    &&& chains@[j].certified_simple@ == simple@.filter_chain(ids@[j])
                },
        decreases ids.len() - i,
    {
        let chain_id = ids[i];
        chains.push(
            ChainArtifacts {
                chain_id,
                certified: full.for_chain(chain_id),
                certified_simple: simple.for_chain(chain_id),
            },
        );
        i += 1;
    }
    let out = BuildOutput { full, simple, chains };
    proof {
        assert(artifact_chains(out@.chains) =~= ids@);
        assert forall|j: int| 0 <= j < out@.chains.len() implies {
            &&& (#[trigger] out@.chains[j]).certified == out@.full.filter_chain(
                out@.chains[j].chain_id,
            )
            &&& out@.chains[j].certified_simple == out@.simple.filter_chain(out@.chains[j].chain_id)
        } by {
            assert(out@.chains[j] == out.chains@[j]@);
        }
    }
    out
}

} // verus!
