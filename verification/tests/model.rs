use tokenlist::chain::ChainID;
use tokenlist::list::{Timestamp, TokenList};
use tokenlist::order::{bytes_precede, str_equal, str_precedes};
use tokenlist::registry::{ListMeta, Lists, TokenListMeta};
use tokenlist::sort::{sort_tokens, sorted_tokens};
use tokenlist::tags::{TagDetails, TagDictionary};
use tokenlist::token::{TokenExtensions, TokenInfo};

fn token(chain_id: u32, address: &str, name: &str) -> TokenInfo {
    TokenInfo {
        name: name.to_string(),
        symbol: "SYM".to_string(),
        logo_uri: Some("https://example.com/logo.png".to_string()),
        decimals: 9,
        address: address.to_string(),
        chain_id,
        tags: Some(vec!["a".to_string(), "b".to_string()]),
        extensions: Some(TokenExtensions::new()),
    }
}

fn catalog(tokens: Vec<TokenInfo>) -> TokenList {
    let mut tags = TagDictionary::new();
    tags.insert(
        "a".to_string(),
        TagDetails { name: "a".to_string(), description: "the tag a".to_string() },
    );
    TokenList {
        name: "List".to_string(),
        logo_uri: "https://example.com/list.png".to_string(),
        tags,
        timestamp: Timestamp { secs: 42, nanos: 7 },
        tokens,
    }
}

fn names(tokens: &Vec<TokenInfo>) -> Vec<String> {
    tokens.iter().map(|t| t.name.clone()).collect()
}

#[test]
fn chain_ids_have_their_numbers() {
    assert_eq!(ChainID::MainnetBeta.id(), 101);
    assert_eq!(ChainID::Testnet.id(), 102);
    assert_eq!(ChainID::Devnet.id(), 103);
}

#[test]
fn chain_is_found_from_its_number() {
    assert!(matches!(ChainID::from_id(101), Some(ChainID::MainnetBeta)));
    assert!(matches!(ChainID::from_id(102), Some(ChainID::Testnet)));
    assert!(matches!(ChainID::from_id(103), Some(ChainID::Devnet)));
    assert!(ChainID::from_id(0).is_none());
    assert!(ChainID::from_id(104).is_none());
}

#[test]
fn string_order_is_that_of_std() {
    let samples = ["", "a", "A", "ab", "abc", "b", "Z", "z", "é", "日本", "a\u{10000}", "a\u{ffff}", "1", "11"];
    for a in samples {
        for b in samples {
            assert_eq!(str_precedes(a, b), a < b, "{:?} < {:?}", a, b);
            assert_eq!(str_equal(a, b), a == b, "{:?} == {:?}", a, b);
        }
    }
}

#[test]
fn shorter_prefix_comes_first() {
    assert!(bytes_precede(&[1, 2], &[1, 2, 0]));
    assert!(!bytes_precede(&[1, 2, 0], &[1, 2]));
    assert!(!bytes_precede(&[], &[]));
    assert!(bytes_precede(&[], &[0]));
    assert!(bytes_precede(&[1, 255], &[2]));
}

#[test]
fn tokens_compare_by_chain_then_address() {
    let a = token(101, "b", "x");
    let b = token(102, "a", "y");
    let c = token(101, "c", "z");
    assert!(a.precedes(&b));
    assert!(!b.precedes(&a));
    assert!(a.precedes(&c));
    assert!(c.precedes(&b));
    assert!(!a.precedes(&a));
    assert!(a < b);
    assert!(c > a);
    assert!(a <= a);
}

#[test]
fn tokens_are_equal_by_key_alone() {
    let a = token(101, "K", "one");
    let mut b = token(101, "K", "two");
    b.decimals = 0;
    b.tags = None;
    assert!(a.same_key(&b));
    assert!(a == b);
    assert!(!a.same_key(&token(102, "K", "one")));
    assert!(a != token(101, "L", "one"));
    assert_eq!(a.partial_cmp(&b), Some(std::cmp::Ordering::Equal));
}

#[test]
fn sort_orders_by_chain_then_address() {
    let mut tokens = vec![token(102, "a", "3"), token(101, "b", "2"), token(101, "a", "1"), token(103, "", "4")];
    sort_tokens(&mut tokens);
    assert_eq!(names(&tokens), vec!["1", "2", "3", "4"]);
}

#[test]
fn sort_is_stable() {
    let mut tokens = vec![
        token(101, "k", "first"),
        token(101, "a", "x"),
        token(101, "k", "second"),
        token(100, "z", "y"),
        token(101, "k", "third"),
    ];
    sort_tokens(&mut tokens);
    assert_eq!(names(&tokens), vec!["y", "x", "first", "second", "third"]);
}

#[test]
fn sort_keeps_every_token() {
    let tokens: Vec<TokenInfo> = (0..50u32)
        .map(|i| token(100 + (i * 7) % 3, &format!("addr{}", (i * 13) % 17), &format!("n{}", i)))
        .collect();
    let sorted = sorted_tokens(&tokens);
    assert_eq!(sorted.len(), tokens.len());
    let mut expected = tokens.clone();
    expected.sort_by(|a, b| (a.chain_id, &a.address).cmp(&(b.chain_id, &b.address)));
    assert_eq!(names(&sorted), names(&expected));
}

#[test]
fn sort_of_empty_and_single() {
    let mut none: Vec<TokenInfo> = vec![];
    sort_tokens(&mut none);
    assert!(none.is_empty());
    let mut one = vec![token(1, "a", "only")];
    sort_tokens(&mut one);
    assert_eq!(names(&one), vec!["only"]);
}

#[test]
fn catalog_sort_changes_only_the_order() {
    let mut list = catalog(vec![token(102, "a", "2"), token(101, "a", "1")]);
    list.sort();
    assert_eq!(names(&list.tokens), vec!["1", "2"]);
    assert_eq!(list.name, "List");
    assert_eq!(list.timestamp, Timestamp { secs: 42, nanos: 7 });
    assert_eq!(list.tags.entries().len(), 1);
}

#[test]
fn token_simplify_removes_tags_and_extensions() {
    let mut t = token(101, "K", "n");
    t.simplify();
    assert!(t.tags.is_none());
    assert!(t.extensions.is_none());
    assert_eq!(t.name, "n");
    assert_eq!(t.symbol, "SYM");
    assert_eq!(t.decimals, 9);
    assert_eq!(t.address, "K");
    assert_eq!(t.chain_id, 101);
    assert_eq!(t.logo_uri, Some("https://example.com/logo.png".to_string()));
}

#[test]
fn simplify_is_idempotent() {
    let mut once = catalog(vec![token(101, "a", "1"), token(102, "b", "2")]);
    once.simplify();
    let mut twice = once.clone();
    twice.simplify();
    assert_eq!(format!("{:?}", once), format!("{:?}", twice));
    assert!(once.tags.entries().is_empty());
    assert_eq!(once.tokens.len(), 2);
    for t in &once.tokens {
        assert!(t.tags.is_none());
        assert!(t.extensions.is_none());
    }
    assert_eq!(once.name, "List");
    assert_eq!(once.logo_uri, "https://example.com/list.png");
}

#[test]
fn filter_chain_keeps_the_chain_in_order() {
    let list = catalog(vec![
        token(101, "c", "1"),
        token(102, "a", "2"),
        token(101, "a", "3"),
        token(103, "a", "4"),
        token(101, "b", "5"),
    ]);
    let filtered = list.clone().filter_chain(101);
    assert_eq!(names(&filtered.tokens), vec!["1", "3", "5"]);
    assert_eq!(filtered.name, list.name);
    assert_eq!(filtered.logo_uri, list.logo_uri);
    assert_eq!(filtered.timestamp, list.timestamp);
    assert_eq!(format!("{:?}", filtered.tags), format!("{:?}", list.tags));
    assert_eq!(filtered.tokens[0].tags, Some(vec!["a".to_string(), "b".to_string()]));
}

#[test]
fn filter_chain_without_match_is_empty() {
    let list = catalog(vec![token(101, "c", "1")]);
    assert!(list.clone().filter_chain(999).tokens.is_empty());
    assert_eq!(names(&list.for_chain(101).tokens), vec!["1"]);
    assert!(list.tokens_on_chain(102).is_empty());
}

#[test]
fn dictionary_insert_and_get() {
    let mut d = TagDictionary::new();
    assert!(d.get("x").is_none());
    d.insert("x".to_string(), TagDetails { name: "x".to_string(), description: "1".to_string() });
    d.insert("a".to_string(), TagDetails { name: "a".to_string(), description: "2".to_string() });
    d.insert("m".to_string(), TagDetails { name: "m".to_string(), description: "3".to_string() });
    d.insert("x".to_string(), TagDetails { name: "x".to_string(), description: "4".to_string() });
    assert_eq!(d.get("x").unwrap().description, "4");
    assert_eq!(d.get("a").unwrap().description, "2");
    assert_eq!(d.get("m").unwrap().description, "3");
    assert!(d.get("b").is_none());
    let names: Vec<String> = d.entries().into_iter().map(|e| e.0).collect();
    assert_eq!(names, vec!["a", "m", "x"]);
}

#[test]
fn dictionary_merge_prefers_the_other() {
    let mut d = TagDictionary::new();
    d.insert("a".to_string(), TagDetails { name: "a".to_string(), description: "mine".to_string() });
    d.insert("b".to_string(), TagDetails { name: "b".to_string(), description: "mine".to_string() });
    let mut o = TagDictionary::new();
    o.insert("b".to_string(), TagDetails { name: "b".to_string(), description: "theirs".to_string() });
    o.insert("c".to_string(), TagDetails { name: "c".to_string(), description: "theirs".to_string() });
    d.merge(&o);
    let got: Vec<(String, String)> = d.entries().into_iter().map(|e| (e.0, e.1.description)).collect();
    assert_eq!(
        got,
        vec![
            ("a".to_string(), "mine".to_string()),
            ("b".to_string(), "theirs".to_string()),
            ("c".to_string(), "theirs".to_string()),
        ]
    );
    assert_eq!(o.entries().len(), 2);
}

#[test]
fn registry_index_lists_ids_in_order() {
    let lists = Lists {
        meta: ListMeta { name: "All".to_string() },
        lists: vec![
            TokenListMeta { id: "zeta".to_string(), url: "solana".to_string() },
            TokenListMeta { id: "alpha".to_string(), url: "https://example.com/a.json".to_string() },
        ],
    };
    assert_eq!(lists.index(), vec!["zeta", "alpha"]);
    let copy = lists.clone();
    assert_eq!(copy.meta.name, "All");
    assert_eq!(copy.lists[1].url, "https://example.com/a.json");
}

#[test]
fn clones_hold_the_same() {
    let mut t = token(101, "K", "n");
    let mut ext = TokenExtensions::new();
    ext.coingecko_id = Some("id".to_string());
    ext.extra.push(("k".to_string(), "[1,2]".to_string()));
    t.extensions = Some(ext);
    assert_eq!(format!("{:?}", t.clone()), format!("{:?}", t));
    let list = catalog(vec![t]);
    assert_eq!(format!("{:?}", list.clone()), format!("{:?}", list));
}

#[test]
fn unknown_extensions_with_distinct_names() {
    let mut ext = TokenExtensions::new();
    assert!(ext.names_distinct());
    ext.extra.push(("a".to_string(), "1".to_string()));
    ext.extra.push(("b".to_string(), "1".to_string()));
    ext.extra.push(("c".to_string(), "null".to_string()));
    assert!(ext.names_distinct());
    assert!(ext.clone().names_distinct());
    ext.extra.push(("a".to_string(), "2".to_string()));
    assert!(!ext.names_distinct());
    let mut neighbours = TokenExtensions::new();
    neighbours.extra.push(("x".to_string(), "1".to_string()));
    neighbours.extra.push(("x".to_string(), "1".to_string()));
    assert!(!neighbours.names_distinct());
}
