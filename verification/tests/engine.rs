use tokenlist::engine::{build, chain_ids, merge_tags, merge_tokens, BuildOutput};
use tokenlist::list::{Timestamp, TokenList};
use tokenlist::locator::DEFAULT_LOGO_URI;
use tokenlist::registry::{ListMeta, Lists, TokenListMeta};
use tokenlist::tags::{TagDetails, TagDictionary};
use tokenlist::token::{TokenExtensions, TokenInfo};

fn token(chain_id: u32, address: &str, name: &str) -> TokenInfo {
    TokenInfo {
        name: name.to_string(),
        symbol: name.to_uppercase(),
        logo_uri: None,
        decimals: 6,
        address: address.to_string(),
        chain_id,
        tags: None,
        extensions: None,
    }
}

fn tag(name: &str, description: &str) -> TagDetails {
    TagDetails { name: name.to_string(), description: description.to_string() }
}

fn source(name: &str, tags: Vec<(&str, &str)>, tokens: Vec<TokenInfo>) -> TokenList {
    let mut dictionary = TagDictionary::new();
    for (tag_name, description) in tags {
        dictionary.insert(tag_name.to_string(), tag(tag_name, description));
    }
    TokenList {
        name: name.to_string(),
        logo_uri: DEFAULT_LOGO_URI.to_string(),
        tags: dictionary,
        timestamp: Timestamp { secs: 1, nanos: 2 },
        tokens,
    }
}

fn registry(name: &str, ids: Vec<&str>) -> Lists {
    Lists {
        meta: ListMeta { name: name.to_string() },
        lists: ids
            .into_iter()
            .map(|id| TokenListMeta { id: id.to_string(), url: format!("https://example.com/{}.json", id) })
            .collect(),
    }
}

fn keys(tokens: &Vec<TokenInfo>) -> Vec<(u32, String)> {
    tokens.iter().map(|t| (t.chain_id, t.address.clone())).collect()
}

fn two_source_build() -> BuildOutput {
    let a = source("A", vec![], vec![token(101, "X", "Foo")]);
    let b = source("B", vec![], vec![token(101, "X", "Bar"), token(102, "Y", "Baz")]);
    build(&registry("Merged", vec!["a", "b"]), &vec![a, b], Timestamp { secs: 1_700_000_000, nanos: 5 })
}

#[test]
fn scenario_two_sources_first_wins() {
    let out = two_source_build();
    assert_eq!(out.full.tokens.len(), 2);
    assert_eq!(out.full.tokens[0].chain_id, 101);
    assert_eq!(out.full.tokens[0].address, "X");
    assert_eq!(out.full.tokens[0].name, "Foo");
    assert_eq!(out.full.tokens[1].chain_id, 102);
    assert_eq!(out.full.tokens[1].address, "Y");
    assert_eq!(out.full.tokens[1].name, "Baz");
}

#[test]
fn scenario_two_sources_two_chain_artifacts() {
    let out = two_source_build();
    assert_eq!(out.chains.len(), 2);
    assert_eq!(out.chains[0].chain_id, 101);
    assert_eq!(out.chains[1].chain_id, 102);
    assert_eq!(keys(&out.chains[0].certified.tokens), vec![(101, "X".to_string())]);
    assert_eq!(keys(&out.chains[0].certified_simple.tokens), vec![(101, "X".to_string())]);
    assert_eq!(keys(&out.chains[1].certified.tokens), vec![(102, "Y".to_string())]);
    assert_eq!(keys(&out.chains[1].certified_simple.tokens), vec![(102, "Y".to_string())]);
    assert_eq!(out.chains[0].certified.tokens[0].name, "Foo");
}

#[test]
fn build_sets_catalog_fields() {
    let out = two_source_build();
    assert_eq!(out.full.name, "Merged");
    assert_eq!(out.full.logo_uri, DEFAULT_LOGO_URI);
    assert_eq!(out.full.timestamp, Timestamp { secs: 1_700_000_000, nanos: 5 });
    assert_eq!(out.simple.name, "Merged (Simple)");
    assert_eq!(out.simple.logo_uri, DEFAULT_LOGO_URI);
    assert_eq!(out.simple.timestamp, Timestamp { secs: 1_700_000_000, nanos: 5 });
    assert_eq!(out.chains[0].certified.name, "Merged");
    assert_eq!(out.chains[0].certified_simple.name, "Merged (Simple)");
}

#[test]
fn build_of_no_sources_is_empty() {
    let out = build(&registry("Empty", vec![]), &vec![], Timestamp { secs: 0, nanos: 0 });
    assert!(out.full.tokens.is_empty());
    assert!(out.simple.tokens.is_empty());
    assert!(out.chains.is_empty());
    assert!(out.full.tags.entries().is_empty());
    assert_eq!(out.simple.name, "Empty (Simple)");
}

#[test]
fn merged_tokens_have_unique_keys() {
    let a = source("A", vec![], vec![token(101, "B", "1"), token(101, "A", "2"), token(101, "B", "3")]);
    let b = source("B", vec![], vec![token(101, "A", "4"), token(103, "A", "5"), token(101, "C", "6")]);
    let merged = merge_tokens(&vec![a, b]);
    let ks = keys(&merged);
    for i in 0..ks.len() {
        for j in 0..ks.len() {
            if i != j {
                assert_ne!(ks[i], ks[j]);
            }
        }
    }
    assert_eq!(ks.len(), 4);
}

#[test]
fn merged_tokens_are_in_canonical_order() {
    let a = source("A", vec![], vec![token(103, "b", "1"), token(101, "z", "2"), token(102, "B", "3")]);
    let b = source("B", vec![], vec![token(101, "a", "4"), token(101, "Z", "5"), token(102, "A", "6")]);
    let merged = merge_tokens(&vec![a, b]);
    assert_eq!(
        keys(&merged),
        vec![
            (101, "Z".to_string()),
            (101, "a".to_string()),
            (101, "z".to_string()),
            (102, "A".to_string()),
            (102, "B".to_string()),
            (103, "b".to_string()),
        ]
    );
    for pair in merged.windows(2) {
        assert!(
            pair[0].chain_id < pair[1].chain_id
                || (pair[0].chain_id == pair[1].chain_id && pair[0].address <= pair[1].address)
        );
    }
}

#[test]
fn earlier_source_wins_a_shared_key() {
    let mut first = token(101, "K", "First");
    first.decimals = 9;
    first.tags = Some(vec!["stable".to_string()]);
    let mut second = token(101, "K", "Second");
    second.decimals = 2;
    let a = source("A", vec![], vec![token(101, "A", "x"), first]);
    let b = source("B", vec![], vec![second, token(101, "L", "y")]);
    let merged = merge_tokens(&vec![a, b]);
    let kept: Vec<&TokenInfo> = merged.iter().filter(|t| t.address == "K").collect();
    assert_eq!(kept.len(), 1);
    assert_eq!(kept[0].name, "First");
    assert_eq!(kept[0].decimals, 9);
    assert_eq!(kept[0].tags, Some(vec!["stable".to_string()]));
}

#[test]
fn first_token_wins_within_one_source() {
    let a = source("A", vec![], vec![token(101, "K", "One"), token(101, "K", "Two")]);
    let merged = merge_tokens(&vec![a]);
    assert_eq!(merged.len(), 1);
    assert_eq!(merged[0].name, "One");
}

#[test]
fn same_address_on_two_chains_is_two_tokens() {
    let a = source("A", vec![], vec![token(102, "K", "Test"), token(101, "K", "Main")]);
    let merged = merge_tokens(&vec![a]);
    assert_eq!(keys(&merged), vec![(101, "K".to_string()), (102, "K".to_string())]);
    assert_eq!(merged[0].name, "Main");
    assert_eq!(merged[1].name, "Test");
}

#[test]
fn later_source_wins_a_shared_tag() {
    let a = source("A", vec![("stable", "from A"), ("only-a", "a")], vec![]);
    let b = source("B", vec![("stable", "from B"), ("only-b", "b")], vec![]);
    let tags = merge_tags(&vec![a, b]);
    assert_eq!(tags.get("stable").unwrap().description, "from B");
    assert_eq!(tags.get("only-a").unwrap().description, "a");
    assert_eq!(tags.get("only-b").unwrap().description, "b");
    assert!(tags.get("none").is_none());
    let names: Vec<String> = tags.entries().into_iter().map(|e| e.0).collect();
    assert_eq!(names, vec!["only-a", "only-b", "stable"]);
}

#[test]
fn token_and_tag_policies_are_opposite() {
    let a = source("A", vec![("t", "old")], vec![token(101, "K", "old")]);
    let b = source("B", vec![("t", "new")], vec![token(101, "K", "new")]);
    let out = build(&registry("M", vec!["a", "b"]), &vec![a, b], Timestamp { secs: 0, nanos: 0 });
    assert_eq!(out.full.tokens[0].name, "old");
    assert_eq!(out.full.tags.get("t").unwrap().description, "new");
}

#[test]
fn simple_catalog_has_no_tags_or_extensions() {
    let mut t = token(101, "K", "Rich");
    t.tags = Some(vec!["stable".to_string()]);
    let mut ext = TokenExtensions::new();
    ext.website = Some("https://example.com".to_string());
    ext.extra.push(("custom".to_string(), "{\"a\":1}".to_string()));
    t.extensions = Some(ext);
    t.logo_uri = Some("https://example.com/l.png".to_string());
    let a = source("A", vec![("stable", "s")], vec![t]);
    let out = build(&registry("M", vec!["a"]), &vec![a], Timestamp { secs: 0, nanos: 0 });
    assert_eq!(out.full.tokens[0].tags, Some(vec!["stable".to_string()]));
    assert_eq!(out.full.tokens[0].extensions.as_ref().unwrap().extra[0].1, "{\"a\":1}");
    assert_eq!(out.full.tags.entries().len(), 1);
    assert!(out.simple.tokens[0].tags.is_none());
    assert!(out.simple.tokens[0].extensions.is_none());
    assert_eq!(out.simple.tokens[0].logo_uri, Some("https://example.com/l.png".to_string()));
    assert_eq!(out.simple.tokens[0].name, "Rich");
    assert!(out.simple.tags.entries().is_empty());
    assert!(out.chains[0].certified_simple.tokens[0].extensions.is_none());
    assert_eq!(out.chains[0].certified.tags.entries().len(), 1);
}

#[test]
fn chain_ids_are_distinct_and_ascending() {
    let tokens = vec![
        token(103, "a", "1"),
        token(101, "b", "2"),
        token(103, "c", "3"),
        token(7, "d", "4"),
        token(101, "e", "5"),
    ];
    assert_eq!(chain_ids(&tokens), vec![7, 101, 103]);
    assert_eq!(chain_ids(&vec![]), Vec::<u32>::new());
}

#[test]
fn unsorted_sources_are_merged_correctly() {
    let a = source("A", vec![], vec![token(101, "c", "1"), token(101, "a", "2"), token(101, "b", "3")]);
    let merged = merge_tokens(&vec![a]);
    assert_eq!(
        keys(&merged),
        vec![(101, "a".to_string()), (101, "b".to_string()), (101, "c".to_string())]
    );
}
