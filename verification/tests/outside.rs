use tokenlist::locator::{catalog_logo, parse_locator, parse_logo, InvalidUrl, DEFAULT_LOGO_URI};
use tokenlist::pubkey::{deserialize, InvalidAddress};
use tokenlist::resolver::{URLTokenListResolver, SOLANA_LIST_URL};
use tokenlist::token::TokenInfo;

const WRAPPED_SOL: &str = "So11111111111111111111111111111111111111112";

fn raw_token(address: &str, logo: Option<&str>) -> TokenInfo {
    TokenInfo {
        name: "Wrapped SOL".to_string(),
        symbol: "SOL".to_string(),
        logo_uri: logo.map(|l| l.to_string()),
        decimals: 9,
        address: address.to_string(),
        chain_id: 101,
        tags: Some(vec!["wrapped".to_string()]),
        extensions: None,
    }
}

#[test]
fn scenario_malformed_logo_is_absent() {
    let accepted = raw_token(WRAPPED_SOL, Some("not a url")).accept();
    let token = accepted.expect("the entry is accepted");
    assert!(token.logo_uri.is_none());
    assert_eq!(token.address, WRAPPED_SOL);
    assert_eq!(token.name, "Wrapped SOL");
    assert_eq!(token.tags, Some(vec!["wrapped".to_string()]));
}

#[test]
fn well_formed_logo_stays() {
    let token = raw_token(WRAPPED_SOL, Some("https://example.com/logo.png")).accept().unwrap();
    assert_eq!(token.logo_uri, Some("https://example.com/logo.png".to_string()));
    let none = raw_token(WRAPPED_SOL, None).accept().unwrap();
    assert!(none.logo_uri.is_none());
}

#[test]
fn logo_is_written_canonically() {
    assert_eq!(parse_logo(Some("HTTPS://Example.COM")), Some("https://example.com/".to_string()));
    assert_eq!(parse_logo(Some("not a url")), None);
    assert_eq!(parse_logo(Some("")), None);
    assert_eq!(parse_logo(None), None);
}

#[test]
fn token_with_bad_address_is_refused() {
    assert_eq!(raw_token("0OIl", None).accept().unwrap_err(), InvalidAddress::Invalid);
    assert_eq!(raw_token("abc", None).accept().unwrap_err(), InvalidAddress::WrongSize);
}

#[test]
fn accept_with_takes_what_it_is_given() {
    let token = raw_token("raw", Some("raw logo"))
        .accept_with(Ok("canonical".to_string()), Some("logo".to_string()))
        .unwrap();
    assert_eq!(token.address, "canonical");
    assert_eq!(token.logo_uri, Some("logo".to_string()));
    assert_eq!(token.decimals, 9);
    let refused = raw_token("raw", None).accept_with(Err(InvalidAddress::WrongSize), None);
    assert_eq!(refused.unwrap_err(), InvalidAddress::WrongSize);
}

#[test]
fn addresses_are_read_as_keys() {
    assert_eq!(deserialize(WRAPPED_SOL), Ok(WRAPPED_SOL.to_string()));
    assert_eq!(
        deserialize("EPjFWdd5AufqSSqeM2qN1xzybapC8G4wEGGkZwyTDt1v"),
        Ok("EPjFWdd5AufqSSqeM2qN1xzybapC8G4wEGGkZwyTDt1v".to_string())
    );
    assert_eq!(deserialize("11111111111111111111111111111111"), Ok("11111111111111111111111111111111".to_string()));
}

#[test]
fn texts_that_name_no_key_are_errors() {
    assert_eq!(deserialize(""), Err(InvalidAddress::WrongSize));
    assert_eq!(deserialize("not a key!"), Err(InvalidAddress::Invalid));
    assert_eq!(deserialize("1"), Err(InvalidAddress::WrongSize));
    assert_eq!(
        deserialize("So111111111111111111111111111111111111111121111111111"),
        Err(InvalidAddress::WrongSize)
    );
}

#[test]
fn catalog_logo_defaults() {
    assert_eq!(catalog_logo(None).unwrap(), DEFAULT_LOGO_URI);
    assert_eq!(catalog_logo(Some("https://example.com/a.png")).unwrap(), "https://example.com/a.png");
    let err = catalog_logo(Some("not a url")).unwrap_err();
    assert!(matches!(err, InvalidUrl::NotAUrl(url::ParseError::RelativeUrlWithoutBase)));
}

#[test]
fn default_logo_is_a_canonical_url() {
    assert_eq!(parse_locator(DEFAULT_LOGO_URI).unwrap(), DEFAULT_LOGO_URI);
    assert_eq!(parse_locator(SOLANA_LIST_URL).unwrap(), SOLANA_LIST_URL);
}

#[test]
fn locators_are_parsed() {
    assert_eq!(parse_locator("http://EXAMPLE.com/a/../b").unwrap(), "http://example.com/b");
    assert!(matches!(
        parse_locator("http://[::1").unwrap_err(),
        InvalidUrl::NotAUrl(url::ParseError::InvalidIpv6Address)
    ));
}

#[test]
fn resolver_knows_the_solana_alias() {
    assert_eq!(URLTokenListResolver::from_str("solana").unwrap().url, SOLANA_LIST_URL);
    assert_eq!(
        URLTokenListResolver::from_str("https://example.com/list.json").unwrap().url,
        "https://example.com/list.json"
    );
    assert!(URLTokenListResolver::from_str("Solana").is_err());
    assert!(URLTokenListResolver::from_str("").is_err());
}

#[test]
fn resolver_from_url_refuses_what_is_no_url() {
    assert!(URLTokenListResolver::from_url("solana").is_err());
    let resolver = URLTokenListResolver::from_url("https://example.com").unwrap();
    assert_eq!(resolver.url, "https://example.com/");
    assert_eq!(resolver.clone().url, resolver.url);
}

#[test]
fn resolver_refuses_a_url_without_host() {
    for text in ["data:text/plain,Stuff", "unix:/run/foo.socket", "file:///x", "mailto:a@example.com"] {
        assert!(parse_locator(text).is_ok(), "{} is a URL", text);
        assert!(matches!(URLTokenListResolver::from_url(text), Err(InvalidUrl::NoHost)), "{}", text);
        assert!(matches!(URLTokenListResolver::from_str(text), Err(InvalidUrl::NoHost)), "{}", text);
    }
}

#[test]
fn resolver_tells_no_url_from_no_host() {
    assert!(matches!(
        URLTokenListResolver::from_url("not a url"),
        Err(InvalidUrl::NotAUrl(url::ParseError::RelativeUrlWithoutBase))
    ));
    assert!(matches!(URLTokenListResolver::from_url("http://"), Err(InvalidUrl::NotAUrl(url::ParseError::EmptyHost))));
    assert!(URLTokenListResolver::from_url("ftp://rms@example.com").is_ok());
    assert!(URLTokenListResolver::from_url("http://127.0.0.1:8080/list.json").is_ok());
}

#[test]
fn logo_may_be_a_url_without_host() {
    assert_eq!(parse_logo(Some("data:text/plain,Stuff")), Some("data:text/plain,Stuff".to_string()));
    assert_eq!(catalog_logo(Some("data:text/plain,Stuff")).unwrap(), "data:text/plain,Stuff");
}
