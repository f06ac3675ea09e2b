//! Locators: the URLs under which logos and source catalogs are found. What
//! is a URL, and how it is written, is decided by the `url` crate.

use vstd::prelude::*;
use crate::text::opt_text;

verus! {

/// The logo of a catalog that names none.
pub const DEFAULT_LOGO_URI: &'static str =
    "https://raw.githubusercontent.com/solana-labs/token-list/main/assets/mainnet/So11111111111111111111111111111111111111112/logo.png";

/// The error of the `url` crate for a text that is no URL.
#[verifier::external_type_specification]
#[verifier::external_body]
pub struct ExParseError(url::ParseError);

/// The text in which the `url` crate writes the URL that it reads from the
/// text `s`; `None` where it reads no URL from `s`.
pub uninterp spec fn url_text(s: Seq<char>) -> Option<Seq<char>>;

/// Reads `s` as a URL with `url::Url::parse` and returns the URL as text,
/// which is the serialization that the crate keeps of every URL it has
/// parsed. Trusted: that the call does not panic, and that whether it
/// succeeds, and what it then returns, depend on `s` alone.
#[verifier::external_body]
fn parse_url(s: &str) -> (r: Result<String, url::ParseError>)
    ensures
        match r {
            Ok(t) => url_text(s@) == Some(t@),
            Err(_) => url_text(s@) is None,
        },
{
    match url::Url::parse(s) {
        Ok(parsed) => Ok(String::from(parsed)),
        Err(e) => Err(e),
    }
}

/// Whether the URL that the `url` crate reads from the text `s` has a host;
/// false where it reads no URL from `s`.
pub uninterp spec fn url_has_host(s: Seq<char>) -> bool;

/// Reads `s` as a URL with `url::Url::parse` and asks the URL whether it has
/// a host, with `url::Url::has_host`. Trusted: that neither call panics, and
/// that the answer depends on `s` alone.
#[verifier::external_body]
pub(crate) fn has_host(s: &str) -> (r: bool)
    ensures
        r == url_has_host(s@),
{
    match url::Url::parse(s) {
        Ok(parsed) => parsed.has_host(),
        Err(_) => false,
    }
}

/// Why a text is not taken for a locator.
#[derive(Debug)]
pub enum InvalidUrl {
    /// The text is no URL; with it the reason that the `url` crate gives.
    NotAUrl(url::ParseError),
    /// The text is a URL without a host, so that no request can go to it.
    NoHost,
}

/// The URL that the text `s` holds, written canonically. A text that is no
/// URL is an error; a URL without a host is not.
pub fn parse_locator(s: &str) -> (r: Result<String, InvalidUrl>)
    ensures
        match r {
            Ok(t) => url_text(s@) == Some(t@),
            Err(e) => url_text(s@) is None && e is NotAUrl,
        },
{
    match parse_url(s) {
        Ok(t) => Ok(t),
        Err(e) => Err(InvalidUrl::NotAUrl(e)),
    }
}

/// The logo of a token, from what was read for it: a text that is no URL is
/// dropped, as if no logo had been given.
pub fn parse_logo(raw: Option<&str>) -> (r: Option<String>)
    ensures
        opt_text(r) == match raw {
            Some(s) => url_text(s@),
            None => None,
        },
{
    match raw {
        Some(s) => match parse_url(s) {
            Ok(t) => Some(t),
            Err(_) => None,
        },
        None => None,
    }
}

/// The logo of a catalog, from what was read for it: the default logo where
/// none was given. A text that is no URL is an error.
pub fn catalog_logo(raw: Option<&str>) -> (r: Result<String, InvalidUrl>)
    ensures
        match raw {
            Some(s) => match r {
                Ok(t) => url_text(s@) == Some(t@),
                Err(e) => url_text(s@) is None && e is NotAUrl,
            },
            None => r is Ok && r->Ok_0@ == DEFAULT_LOGO_URI@,
        },
{
    match raw {
        Some(s) => parse_locator(s),
        None => Ok(DEFAULT_LOGO_URI.to_owned()),
    }
}

} // verus!
