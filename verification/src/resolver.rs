//! Where a source catalog is fetched from.

use vstd::prelude::*;
use crate::locator::{has_host, parse_locator, url_has_host, url_text, InvalidUrl};
use crate::order::str_equal;

verus! {

/// The name under which the Solana token list can be asked for in place of
/// its URL.
pub const SOLANA_ALIAS: &'static str = "solana";

/// Where the Solana token list is fetched from.
pub const SOLANA_LIST_URL: &'static str =
    "https://raw.githubusercontent.com/solana-labs/token-list/main/src/tokens/solana.tokenlist.json";

/// The URL that a source stands for: that of the Solana token list for its
/// alias, and the source itself otherwise.
pub open spec fn locator_of(source: Seq<char>) -> Seq<char> {
    if source == SOLANA_ALIAS@ {
        SOLANA_LIST_URL@
    } else {
        source
    }
}

/// Token list resolver based off of a URL.
#[derive(Debug)]
pub struct URLTokenListResolver {
    /// URL of the token list, written canonically.
    pub url: String,
}

impl Clone for URLTokenListResolver {
    fn clone(&self) -> (r: Self)
        ensures
            r.url@ == self.url@,
    {
        URLTokenListResolver { url: self.url.clone() }
    }
}

impl URLTokenListResolver {
    /// A resolver for the URL that the text `url` holds. The URL must have
    /// a host, for a request is to go to it: a text that is no URL is an
    /// error, and so is a URL without a host.
    pub fn from_url(url: &str) -> (r: Result<URLTokenListResolver, InvalidUrl>)
        ensures
            match r {
                Ok(resolver) => url_text(url@) == Some(resolver.url@) && url_has_host(url@),
                Err(InvalidUrl::NotAUrl(_)) => url_text(url@) is None,
                Err(InvalidUrl::NoHost) => url_text(url@) is Some && !url_has_host(url@),
            },
    {
        match parse_locator(url) {
            Ok(t) => {
                if has_host(url) {
                    Ok(URLTokenListResolver { url: t })
                } else {
                    Err(InvalidUrl::NoHost)
                }
            },
            Err(e) => Err(e),
        }
    }

    /// A resolver for a source of the registry: for the Solana token list
    /// where the source is its alias, for the URL that the source holds
    /// otherwise.
    pub fn from_str(source: &str) -> (r: Result<URLTokenListResolver, InvalidUrl>)
        ensures
            match r {
                Ok(resolver) => url_text(locator_of(source@)) == Some(resolver.url@)
                    && url_has_host(locator_of(source@)),
                Err(InvalidUrl::NotAUrl(_)) => url_text(locator_of(source@)) is None,
                Err(InvalidUrl::NoHost) => url_text(locator_of(source@)) is Some && !url_has_host(
                    locator_of(source@),
                ),
            },
    {
        if str_equal(source, SOLANA_ALIAS) {
            Self::from_url(SOLANA_LIST_URL)
        } else {
            Self::from_url(source)
        }
    }
}

} // verus!
