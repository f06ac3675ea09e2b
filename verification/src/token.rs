//! The entry model: a token, its extensions, and the key by which tokens are
//! told apart and ordered.

use vstd::prelude::*;
use crate::locator::{parse_logo, url_text};
use crate::pubkey::{deserialize, pubkey_text, InvalidAddress};
use crate::order::{
    lemma_str_lt_asymmetric, lemma_str_lt_connected, lemma_str_lt_irreflexive,
    lemma_str_lt_transitive, str_equal, str_le, str_lt, str_precedes,
};
use crate::text::{
    clone_opt_text, clone_opt_texts, clone_pair_texts, opt_text, opt_texts, pair_texts,
};

verus! {

/// Extra information about a token.
#[derive(Debug)]
pub struct TokenExtensions {
    /// Website.
    pub website: Option<String>,
    /// The bridge contract.
    pub bridge_contract: Option<String>,
    /// The asset contract.
    pub asset_contract: Option<String>,
    /// Explorer link.
    pub explorer: Option<String>,
    /// Twitter link.
    pub twitter: Option<String>,
    /// GitHub link.
    pub github: Option<String>,
    /// Medium link.
    pub medium: Option<String>,
    /// Telegram announcement link.
    pub tgann: Option<String>,
    /// Telegram group link.
    pub tggroup: Option<String>,
    /// Discord link.
    pub discord: Option<String>,
    /// Serum V3 USDT market.
    pub serum_v3_usdt: Option<String>,
    /// Serum V3 USDC market.
    pub serum_v3_usdc: Option<String>,
    /// Coingecko API ID.
    pub coingecko_id: Option<String>,
    /// URL of the image representing this asset.
    pub image_url: Option<String>,
    /// Brief description of the asset.
    pub description: Option<String>,
    /// Unknown extensions: the name of each field with its value as JSON text,
    /// kept as they were read. No name is to occur twice (`distinct_names`).
    pub extra: Vec<(String, String)>,
}

/// What a `TokenExtensions` holds.
pub struct TokenExtensionsView {
    pub website: Option<Seq<char>>,
    pub bridge_contract: Option<Seq<char>>,
    pub asset_contract: Option<Seq<char>>,
    pub explorer: Option<Seq<char>>,
    pub twitter: Option<Seq<char>>,
    pub github: Option<Seq<char>>,
    pub medium: Option<Seq<char>>,
    pub tgann: Option<Seq<char>>,
    pub tggroup: Option<Seq<char>>,
    pub discord: Option<Seq<char>>,
    pub serum_v3_usdt: Option<Seq<char>>,
    pub serum_v3_usdc: Option<Seq<char>>,
    pub coingecko_id: Option<Seq<char>>,
    pub image_url: Option<Seq<char>>,
    pub description: Option<Seq<char>>,
    pub extra: Seq<(Seq<char>, Seq<char>)>,
}

impl View for TokenExtensions {
    type V = TokenExtensionsView;

    open spec fn view(&self) -> TokenExtensionsView {
        TokenExtensionsView {
            website: opt_text(self.website),
            bridge_contract: opt_text(self.bridge_contract),
            asset_contract: opt_text(self.asset_contract),
            explorer: opt_text(self.explorer),
            twitter: opt_text(self.twitter),
            github: opt_text(self.github),
            medium: opt_text(self.medium),
            tgann: opt_text(self.tgann),
            tggroup: opt_text(self.tggroup),
            discord: opt_text(self.discord),
            serum_v3_usdt: opt_text(self.serum_v3_usdt),
            serum_v3_usdc: opt_text(self.serum_v3_usdc),
            coingecko_id: opt_text(self.coingecko_id),
            image_url: opt_text(self.image_url),
            description: opt_text(self.description),
            extra: pair_texts(self.extra@),
        }
    }
}

impl Clone for TokenExtensions {
    fn clone(&self) -> (r: Self)
        ensures
            r@ == self@,
            self@.distinct_names() ==> r@.distinct_names(),
    {
        TokenExtensions {
            website: clone_opt_text(&self.website),
            bridge_contract: clone_opt_text(&self.bridge_contract),
            asset_contract: clone_opt_text(&self.asset_contract),
            explorer: clone_opt_text(&self.explorer),
            twitter: clone_opt_text(&self.twitter),
            github: clone_opt_text(&self.github),
            medium: clone_opt_text(&self.medium),
            tgann: clone_opt_text(&self.tgann),
            tggroup: clone_opt_text(&self.tggroup),
            discord: clone_opt_text(&self.discord),
            serum_v3_usdt: clone_opt_text(&self.serum_v3_usdt),
            serum_v3_usdc: clone_opt_text(&self.serum_v3_usdc),
            coingecko_id: clone_opt_text(&self.coingecko_id),
            image_url: clone_opt_text(&self.image_url),
            description: clone_opt_text(&self.description),
            extra: clone_pair_texts(&self.extra),
        }
    }
}

impl TokenExtensions {
    /// Extensions with no field set.
    pub fn new() -> (r: Self)
        ensures
            r@ == TokenExtensionsView::empty(),
            r@.distinct_names(),
    {
        let r = TokenExtensions {
            website: None,
            bridge_contract: None,
            asset_contract: None,
            explorer: None,
            twitter: None,
            github: None,
            medium: None,
            tgann: None,
            tggroup: None,
            discord: None,
            serum_v3_usdt: None,
            serum_v3_usdc: None,
            coingecko_id: None,
            image_url: None,
            description: None,
            extra: Vec::new(),
        };
        assert(r@.extra =~= Seq::empty());
        r
    }

    /// Whether no name occurs twice among the unknown extensions.
    pub fn names_distinct(&self) -> (r: bool)
        ensures
            r == self@.distinct_names(),
    {
        let ghost e = self@.extra;
        let mut j: usize = 0;
        while j < self.extra.len()
            invariant
                j <= self.extra.len(),
                e == pair_texts(self.extra@),
                forall|a: int, b: int| 0 <= a < b < j ==> (#[trigger] e[a]).0 != (#[trigger] e[b]).0,
            decreases self.extra.len() - j,
        {
            let mut i: usize = 0;
            while i < j
                invariant
                    i <= j,
                    j < self.extra.len(),
                    e == pair_texts(self.extra@),
                    forall|a: int| 0 <= a < i ==> (#[trigger] e[a]).0 != e[j as int].0,
                decreases j - i,
            {
                if str_equal(self.extra[i].0.as_str(), self.extra[j].0.as_str()) {
                    assert(e[i as int].0 == e[j as int].0);
                    assert(self@.extra == e);
                    assert(!self@.distinct_names());
                    return false;
                }
                i += 1;
            }
            j += 1;
        }
        true
    }
}

impl TokenExtensionsView {
    /// No name occurs twice among the unknown extensions: they stand for a
    /// map from the name of a field to its value.
    pub open spec fn distinct_names(self) -> bool {
        forall|i: int, j: int|
            0 <= i < j < self.extra.len() ==> (#[trigger] self.extra[i]).0 != (
            #[trigger] self.extra[j]).0
    }

    /// Extensions with no field set.
    pub open spec fn empty() -> TokenExtensionsView {
        TokenExtensionsView {
            website: None,
            bridge_contract: None,
            asset_contract: None,
            explorer: None,
            twitter: None,
            github: None,
            medium: None,
            tgann: None,
            tggroup: None,
            discord: None,
            serum_v3_usdt: None,
            serum_v3_usdc: None,
            coingecko_id: None,
            image_url: None,
            description: None,
            extra: Seq::empty(),
        }
    }
}

/// The identity of a token: its chain and its address on that chain.
pub struct TokenKey {
    pub chain_id: u32,
    pub address: Seq<char>,
}

/// The canonical strict order of keys: by chain, then by address as a string.
pub open spec fn key_lt(a: TokenKey, b: TokenKey) -> bool {
    a.chain_id < b.chain_id || (a.chain_id == b.chain_id && str_lt(a.address, b.address))
}

/// The canonical order of keys, equal keys included.
pub open spec fn key_le(a: TokenKey, b: TokenKey) -> bool {
    a.chain_id < b.chain_id || (a.chain_id == b.chain_id && str_le(a.address, b.address))
}

/// No key comes before itself.
pub proof fn lemma_key_lt_irreflexive(a: TokenKey)
    ensures
        !key_lt(a, a),
{
    lemma_str_lt_irreflexive(a.address);
}

/// Of two keys at most one comes before the other.
pub proof fn lemma_key_lt_asymmetric(a: TokenKey, b: TokenKey)
    requires
        key_lt(a, b),
    ensures
        !key_lt(b, a),
{
    if a.chain_id == b.chain_id {
        lemma_str_lt_asymmetric(a.address, b.address);
    }
}

/// The order of keys is transitive.
pub proof fn lemma_key_lt_transitive(a: TokenKey, b: TokenKey, c: TokenKey)
    requires
        key_lt(a, b),
        key_lt(b, c),
    ensures
        key_lt(a, c),
{
    if a.chain_id == b.chain_id && b.chain_id == c.chain_id {
        lemma_str_lt_transitive(a.address, b.address, c.address);
    }
}

/// Two keys are equal exactly when neither comes before the other, and
/// `key_le` is `key_lt` or equal.
pub proof fn lemma_key_order_total(a: TokenKey, b: TokenKey)
    ensures
        (a == b) <==> (!key_lt(a, b) && !key_lt(b, a)),
        key_le(a, b) <==> !key_lt(b, a),
        key_le(a, b) <==> (key_lt(a, b) || a == b),
{
    lemma_str_lt_irreflexive(a.address);
    if a.chain_id == b.chain_id {
        if str_lt(a.address, b.address) {
            lemma_str_lt_asymmetric(a.address, b.address);
        } else if str_lt(b.address, a.address) {
            lemma_str_lt_asymmetric(b.address, a.address);
        } else {
            lemma_str_lt_connected(a.address, b.address);
        }
    }
}

/// The non-strict order of keys is transitive.
pub proof fn lemma_key_le_transitive(a: TokenKey, b: TokenKey, c: TokenKey)
    requires
        key_le(a, b),
        key_le(b, c),
    ensures
        key_le(a, c),
{
    lemma_key_order_total(a, b);
    lemma_key_order_total(b, c);
    lemma_key_order_total(a, c);
    if key_lt(a, b) && key_lt(b, c) {
        lemma_key_lt_transitive(a, b, c);
    }
}

/// Token information.
#[derive(Debug)]
pub struct TokenInfo {
    /// Name of the token.
    pub name: String,
    /// Symbol of the token.
    pub symbol: String,
    /// Logo of the token, as the text of a URL. Highly recommended.
    pub logo_uri: Option<String>,
    /// Number of decimals of the token.
    pub decimals: u8,
    /// Address of the token on its chain.
    pub address: String,
    /// Chain ID of the token.
    pub chain_id: u32,
    /// Tags of the token.
    pub tags: Option<Vec<String>>,
    /// Token extensions.
    pub extensions: Option<TokenExtensions>,
}

/// What a `TokenInfo` holds.
pub struct TokenInfoView {
    pub name: Seq<char>,
    pub symbol: Seq<char>,
    pub logo_uri: Option<Seq<char>>,
    pub decimals: u8,
    pub address: Seq<char>,
    pub chain_id: u32,
    pub tags: Option<Seq<Seq<char>>>,
    pub extensions: Option<TokenExtensionsView>,
}

impl TokenInfoView {
    /// The key of the token.
    pub open spec fn key(self) -> TokenKey {
        TokenKey { chain_id: self.chain_id, address: self.address }
    }

    /// The token without its tags and extensions.
    pub open spec fn simplified(self) -> TokenInfoView {
        TokenInfoView { tags: None, extensions: None, ..self }
    }
}

/// What an optional `TokenExtensions` holds.
pub open spec fn opt_extensions_view(e: Option<TokenExtensions>) -> Option<TokenExtensionsView> {
    match e {
        Some(x) => Some(x@),
        None => None,
    }
}

impl View for TokenInfo {
    type V = TokenInfoView;

    open spec fn view(&self) -> TokenInfoView {
        TokenInfoView {
            name: self.name@,
            symbol: self.symbol@,
            logo_uri: opt_text(self.logo_uri),
            decimals: self.decimals,
            address: self.address@,
            chain_id: self.chain_id,
            tags: opt_texts(self.tags),
            extensions: opt_extensions_view(self.extensions),
        }
    }
}

impl Clone for TokenInfo {
    fn clone(&self) -> (r: Self)
        ensures
            r@ == self@,
    {
        let extensions = match &self.extensions {
            Some(x) => Some(x.clone()),
            None => None,
        };
        TokenInfo {
            name: self.name.clone(),
            symbol: self.symbol.clone(),
            logo_uri: clone_opt_text(&self.logo_uri),
            decimals: self.decimals,
            address: self.address.clone(),
            chain_id: self.chain_id,
            tags: clone_opt_texts(&self.tags),
            extensions,
        }
    }
}

impl TokenInfo {
    /// Whether this token comes strictly before `other` in the canonical
    /// order: by chain, then by address. No other field is looked at.
    pub fn precedes(&self, other: &TokenInfo) -> (r: bool)
        ensures
            r == key_lt(self@.key(), other@.key()),
    {
        if self.chain_id != other.chain_id {
            self.chain_id < other.chain_id
        } else {
            str_precedes(self.address.as_str(), other.address.as_str())
        }
    }

    /// Whether this token and `other` are the same token: the same chain and
    /// the same address, whatever the other fields hold.
    pub fn same_key(&self, other: &TokenInfo) -> (r: bool)
        ensures
            r == (self@.key() == other@.key()),
    {
        self.chain_id == other.chain_id && str_equal(
            self.address.as_str(),
            other.address.as_str(),
        )
    }

    /// Accepts a token as it was read: with `address` for what its address
    /// names, and `logo` for what its logo holds. A token whose address
    /// names no key is refused; one whose logo is no URL goes on without a
    /// logo.
    pub fn accept_with(
        self,
        address: Result<String, InvalidAddress>,
        logo: Option<String>,
    ) -> (r: Result<TokenInfo, InvalidAddress>)
        ensures
            match address {
                Ok(a) => r is Ok && r->Ok_0@ == (TokenInfoView {
                    address: a@,
                    logo_uri: opt_text(logo),
                    ..self@
                }),
                Err(e) => r == Err::<TokenInfo, InvalidAddress>(e),
            },
    {
        match address {
            Ok(a) => Ok(
                TokenInfo {
                    name: self.name,
                    symbol: self.symbol,
                    logo_uri: logo,
                    decimals: self.decimals,
                    address: a,
                    chain_id: self.chain_id,
                    tags: self.tags,
                    extensions: self.extensions,
                },
            ),
            Err(e) => Err(e),
        }
    }

    /// Accepts a token as it was read. Its address must name a key, and is
    /// then written canonically; else the token is refused. Its logo stays,
    /// written canonically, where it is a URL; a logo that is none is
    /// dropped, and the token goes on without a logo.
    pub fn accept(self) -> (r: Result<TokenInfo, InvalidAddress>)
        ensures
            match pubkey_text(self@.address) {
                Ok(a) => r is Ok && r->Ok_0@ == (TokenInfoView {
                    address: a,
                    logo_uri: match self@.logo_uri {
                        Some(l) => url_text(l),
                        None => None,
                    },
                    ..self@
                }),
                Err(e) => r == Err::<TokenInfo, InvalidAddress>(e),
            },
    {
        let address = deserialize(self.address.as_str());
        let logo = match &self.logo_uri {
            Some(l) => parse_logo(Some(l.as_str())),
            None => None,
        };
        self.accept_with(address, logo)
    }

    /// Removes the tags and the extensions.
    pub fn simplify(&mut self)
        ensures
            final(self)@ == old(self)@.simplified(),
    {
        self.tags = None;
        self.extensions = None;
    }
}

/// What a sequence of tokens holds.
pub open spec fn tokens_view(v: Seq<TokenInfo>) -> Seq<TokenInfoView> {
    v.map_values(|t: TokenInfo| t@)
}

} // verus!
