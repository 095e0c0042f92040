use context_switch::block::{Block, BlockError, BlockList};
use context_switch::website::Website;

fn site(s: &str) -> Website {
    Website::from_path(s).unwrap()
}

#[test]
fn website_keeps_its_path() {
    let w = site("www.example.com");
    assert_eq!(w.get_url_str(), "www.example.com");
}

#[test]
fn website_equality_is_exact() {
    assert!(site("a.com") == site("a.com"));
    assert!(site("a.com") != site("b.com"));
}

#[test]
fn coexist_only_for_two_blacklists() {
    let deny = BlockList::Blacklist(vec![site("a.com")]);
    let deny2 = BlockList::Blacklist(vec![site("b.com")]);
    let allow = BlockList::Whitelist(vec![site("a.com")]);
    let allow2 = BlockList::Whitelist(vec![site("b.com")]);
    assert!(deny.coexist(&deny2));
    assert!(!deny.coexist(&allow));
    assert!(!allow.coexist(&deny2));
    assert!(!allow.coexist(&allow2));
}

#[test]
fn should_block_blacklist_members_only() {
    let deny = BlockList::Blacklist(vec![site("a.com"), site("b.com")]);
    assert!(deny.should_block(&site("a.com")));
    assert!(deny.should_block(&site("b.com")));
    assert!(!deny.should_block(&site("c.com")));
}

#[test]
fn should_block_everything_but_whitelist_members() {
    let allow = BlockList::Whitelist(vec![site("a.com")]);
    assert!(!allow.should_block(&site("a.com")));
    assert!(allow.should_block(&site("b.com")));
}

#[test]
fn from_blacklist_rejects_reversed_window() {
    let r = Block::from_blacklist(&[site("a.com")], 200, 100);
    assert!(matches!(r, Err(BlockError::StartAfterEnd)));
}

#[test]
fn new_rejects_reversed_window() {
    let r = Block::new(BlockList::Whitelist(vec![site("a.com")]), 200, 100);
    assert!(matches!(r, Err(BlockError::StartAfterEnd)));
}

#[test]
fn from_blacklist_drops_duplicate_sites() {
    let b = Block::from_blacklist(&[site("a.com"), site("b.com"), site("a.com")], 0, 10).unwrap();
    let urls: Vec<&str> = b.list().get_list().iter().map(|w| w.get_url_str()).collect();
    assert_eq!(urls, vec!["a.com", "b.com"]);
}

#[test]
fn contains_time_is_inclusive_on_both_ends() {
    let b = Block::from_blacklist(&[site("a.com")], 100, 200).unwrap();
    assert!(!b.contains_time(99));
    assert!(b.contains_time(100));
    assert!(b.contains_time(150));
    assert!(b.contains_time(200));
    assert!(!b.contains_time(201));
}

#[test]
fn timestamps_and_range_expose_the_window() {
    let b = Block::from_blacklist(&[site("a.com")], 100, 200).unwrap();
    assert_eq!(b.start_timestamp(), 100);
    assert_eq!(b.end_timestamp(), 200);
    let r = b.get_range();
    assert_eq!(r.start, 100);
    assert_eq!(r.end, 201);
}

#[test]
fn single_instant_window_is_allowed() {
    let b = Block::from_blacklist(&[site("a.com")], 100, 100).unwrap();
    assert!(b.contains_time(100));
    assert!(!b.contains_time(101));
}
