//! The catalog: a named list of tokens with the dictionary of the tags that
//! the tokens may carry.

use vstd::prelude::*;
use crate::sort::{is_stable_sort_of, sorted_tokens};
use crate::tags::{TagDetailsView, TagDictionary};
use crate::token::{tokens_view, TokenInfo, TokenInfoView};

verus! {

/// A point in time: seconds and nanoseconds since 1970-01-01 00:00:00 UTC.
#[derive(Clone, Copy, Debug, PartialEq, Eq, Structural)]
pub struct Timestamp {
    /// Whole seconds since the epoch; negative before it.
    pub secs: i64,
    /// Nanoseconds since the last whole second.
    pub nanos: u32,
}

/// A list of SPL tokens.
#[derive(Debug)]
pub struct TokenList {
    /// Name of the token list.
    pub name: String,
    /// Logo URI of the token list.
    pub logo_uri: String,
    /// All tags that may be referenced in the token list.
    pub tags: TagDictionary,
    /// When the token list was last updated.
    pub timestamp: Timestamp,
    /// The tokens in the token list.
    pub tokens: Vec<TokenInfo>,
}

/// What a `TokenList` holds.
pub struct TokenListView {
    pub name: Seq<char>,
    pub logo_uri: Seq<char>,
    pub tags: Map<Seq<char>, TagDetailsView>,
    pub timestamp: Timestamp,
    pub tokens: Seq<TokenInfoView>,
}

/// The tokens of `s` that are on the chain `chain_id`, in the order in which
/// `s` holds them.
pub open spec fn on_chain(s: Seq<TokenInfoView>, chain_id: u32) -> Seq<TokenInfoView> {
    s.filter(|t: TokenInfoView| t.chain_id == chain_id)
}

/// Each token of `s` without its tags and extensions.
pub open spec fn simplified_tokens(s: Seq<TokenInfoView>) -> Seq<TokenInfoView> {
    s.map_values(|t: TokenInfoView| t.simplified())
}

/// No two tokens of `s` have the same chain and address.
pub open spec fn unique_keys(s: Seq<TokenInfoView>) -> bool {
    forall|i: int, j: int|
        0 <= i < s.len() && 0 <= j < s.len() && i != j ==> (#[trigger] s[i]).key() != (
        #[trigger] s[j]).key()
}

impl TokenListView {
    /// The simple form of the catalog: no tag dictionary, and no token with
    /// tags or extensions.
    pub open spec fn simplified(self) -> TokenListView {
        TokenListView { tags: Map::empty(), tokens: simplified_tokens(self.tokens), ..self }
    }

    /// The catalog with only its tokens on the chain `chain_id`.
    pub open spec fn filter_chain(self, chain_id: u32) -> TokenListView {
        TokenListView { tokens: on_chain(self.tokens, chain_id), ..self }
    }
}

impl View for TokenList {
    type V = TokenListView;

    open spec fn view(&self) -> TokenListView {
        TokenListView {
            name: self.name@,
            logo_uri: self.logo_uri@,
            tags: self.tags@,
            timestamp: self.timestamp,
            tokens: tokens_view(self.tokens@),
        }
    }
}

/// What `on_chain` makes of a sequence with one more token at its end.
pub proof fn lemma_on_chain_push(s: Seq<TokenInfoView>, t: TokenInfoView, chain_id: u32)
    ensures
        on_chain(s.push(t), chain_id) == if t.chain_id == chain_id {
            on_chain(s, chain_id).push(t)
        } else {
            on_chain(s, chain_id)
        },
{
    reveal(Seq::filter);
    assert(s.push(t).drop_last() =~= s);
}

/// Copies a list of tokens.
pub fn clone_tokens(tokens: &Vec<TokenInfo>) -> (r: Vec<TokenInfo>)
    ensures
        tokens_view(r@) == tokens_view(tokens@),
{
    let mut out: Vec<TokenInfo> = Vec::new();
    let mut i: usize = 0;
    while i < tokens.len()
        invariant
            i <= tokens.len(),
            out.len() == i,
            forall|j: int| 0 <= j < i ==> out@[j]@ == tokens@[j]@,
        decreases tokens.len() - i,
    {
        out.push(tokens[i].clone());
        i += 1;
    }
    assert(tokens_view(out@) =~= tokens_view(tokens@));
    out
}

impl Clone for TokenList {
    fn clone(&self) -> (r: Self)
        ensures
            r@ == self@,
    {
        TokenList {
            name: self.name.clone(),
            logo_uri: self.logo_uri.clone(),
            tags: self.tags.clone(),
            timestamp: self.timestamp,
            tokens: clone_tokens(&self.tokens),
        }
    }
}

impl TokenList {
    /// Turns the catalog into its simple form: the tag dictionary is emptied,
    /// and every token loses its tags and extensions. Nothing else changes.
    pub fn simplify(&mut self)
        ensures
            final(self)@ == old(self)@.simplified(),
    {
        let ghost before = tokens_view(self.tokens@);
        self.tags = TagDictionary::new();
        let mut i: usize = 0;
        while i < self.tokens.len()
            invariant
                i <= self.tokens.len(),
                self.tokens.len() == before.len(),
                self.name == old(self).name,
                self.logo_uri == old(self).logo_uri,
                self.timestamp == old(self).timestamp,
                self.tags@ == Map::<Seq<char>, TagDetailsView>::empty(),
                forall|j: int| 0 <= j < i ==> (#[trigger] self.tokens@[j])@ == before[j].simplified(),
                forall|j: int| i <= j < before.len() ==> (#[trigger] self.tokens@[j])@ == before[j],
            decreases self.tokens.len() - i,
        {
            self.tokens[i].simplify();
            i += 1;
        }
        assert(tokens_view(self.tokens@) =~= simplified_tokens(before));
    }

    /// The tokens of the catalog that are on the chain `chain_id`, in their
    /// order.
    pub fn tokens_on_chain(&self, chain_id: u32) -> (kept: Vec<TokenInfo>)
        ensures
            tokens_view(kept@) == on_chain(self@.tokens, chain_id),
    {
        let ghost all = tokens_view(self.tokens@);
        let mut kept: Vec<TokenInfo> = Vec::new();
        let mut i: usize = 0;
        proof {
            reveal(Seq::filter);
            assert(all.take(0) =~= Seq::empty());
            assert(tokens_view(kept@) =~= on_chain(all.take(0), chain_id));
        }
        while i < self.tokens.len()
            invariant
                i <= self.tokens.len(),
                all == tokens_view(self.tokens@),
                tokens_view(kept@) == on_chain(all.take(i as int), chain_id),
            decreases self.tokens.len() - i,
        {
            let ghost before = tokens_view(kept@);
            proof {
                lemma_on_chain_push(all.take(i as int), all[i as int], chain_id);
                assert(all.take(i + 1) =~= all.take(i as int).push(all[i as int]));
            }
            if self.tokens[i].chain_id == chain_id {
                kept.push(self.tokens[i].clone());
                assert(tokens_view(kept@) =~= before.push(all[i as int]));
            }
            i += 1;
        }
        assert(all.take(i as int) =~= all);
        kept
    }

    /// Keeps the tokens on the chain `chain_id`, in their order, and drops
    /// the others. Every other field of the catalog stays as it is.
    pub fn filter_chain(self, chain_id: u32) -> (r: TokenList)
        ensures
            r@ == self@.filter_chain(chain_id),
    {
        let kept = self.tokens_on_chain(chain_id);
        TokenList {
            name: self.name,
            logo_uri: self.logo_uri,
            tags: self.tags,
            timestamp: self.timestamp,
            tokens: kept,
        }
    }

    /// A copy of the catalog with only its tokens on the chain `chain_id`.
    pub fn for_chain(&self, chain_id: u32) -> (r: TokenList)
        ensures
            r@ == self@.filter_chain(chain_id),
    {
        TokenList {
            name: self.name.clone(),
            logo_uri: self.logo_uri.clone(),
            tags: self.tags.clone(),
            timestamp: self.timestamp,
            tokens: self.tokens_on_chain(chain_id),
        }
    }

    /// Sorts the tokens into canonical order: by chain, then by address.
    /// Tokens with the same key stay in the order in which they came.
    /// Every other field of the catalog stays as it is.
    pub fn sort(&mut self)
        ensures
            is_stable_sort_of(final(self)@.tokens, old(self)@.tokens),
            final(self)@ == (TokenListView { tokens: final(self)@.tokens, ..old(self)@ }),
    {
        let tokens = sorted_tokens(&self.tokens);
        self.tokens = tokens;
    }
}

} // verus!
