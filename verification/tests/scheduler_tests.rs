use context_switch::block::{Block, BlockList, Timestamp};
use context_switch::runner::collect_sites;
use context_switch::scheduler::{Scheduler, SchedulerError};
use context_switch::website::Website;

fn site(s: &str) -> Website {
    Website::from_path(s).unwrap()
}

fn deny(sites: &[&str], start: Timestamp, end: Timestamp) -> Block {
    let ws: Vec<Website> = sites.iter().map(|s| site(s)).collect();
    Block::from_blacklist(&ws, start, end).unwrap()
}

fn allow(sites: &[&str], start: Timestamp, end: Timestamp) -> Block {
    let ws: Vec<Website> = sites.iter().map(|s| site(s)).collect();
    Block::new(BlockList::Whitelist(ws), start, end).unwrap()
}

// 2024-01-01, UTC, in seconds since the epoch.
const T0900: Timestamp = 1704099600;
const T1000: Timestamp = 1704103200;
const T1200: Timestamp = 1704110400;
const T1230: Timestamp = 1704112200;
const T1300: Timestamp = 1704114000;
const T1700: Timestamp = 1704128400;

#[test]
fn overlapping_denylists_coexist() {
    let blocks = vec![deny(&["a.com"], T0900, T1700), deny(&["b.com"], T1200, T1300)];
    assert!(Scheduler::new(blocks).is_ok());
}

#[test]
fn overlapping_allowlist_is_a_contradiction() {
    let blocks = vec![deny(&["a.com"], T0900, T1700), allow(&["b.com"], T1200, T1300)];
    assert!(matches!(Scheduler::new(blocks), Err(SchedulerError::Contradiction)));
}

#[test]
fn a_lone_allowlist_contradicts_itself() {
    let blocks = vec![allow(&["a.com"], T0900, T1000)];
    assert!(matches!(Scheduler::new(blocks), Err(SchedulerError::Contradiction)));
}

#[test]
fn disjoint_denylists_coexist() {
    let blocks = vec![deny(&["a.com"], 0, 10), deny(&["b.com"], 20, 30)];
    assert!(Scheduler::new(blocks).is_ok());
}

#[test]
fn active_ids_match_direct_enumeration_disjoint() {
    let sched = Scheduler::new(vec![
        deny(&["a.com"], 0, 10),
        deny(&["b.com"], 20, 30),
        deny(&["c.com"], 40, 50),
    ])
    .unwrap();
    assert_eq!(sched.get_block_ids(5), vec![0]);
    assert_eq!(sched.get_block_ids(10), vec![0]);
    assert_eq!(sched.get_block_ids(15), Vec::<usize>::new());
    assert_eq!(sched.get_block_ids(20), vec![1]);
    assert_eq!(sched.get_block_ids(45), vec![2]);
    assert_eq!(sched.get_block_ids(55), Vec::<usize>::new());
}

#[test]
fn active_ids_match_direct_enumeration_overlapping() {
    let sched = Scheduler::new(vec![
        deny(&["a.com"], 0, 20),
        deny(&["b.com"], 10, 30),
        deny(&["c.com"], 15, 18),
    ])
    .unwrap();
    assert_eq!(sched.get_block_ids(5), vec![0]);
    assert_eq!(sched.get_block_ids(12), vec![0, 1]);
    assert_eq!(sched.get_block_ids(16), vec![0, 1, 2]);
    assert_eq!(sched.get_block_ids(25), vec![1]);
    assert_eq!(sched.get_block_ids(31), Vec::<usize>::new());
}

#[test]
fn blocks_with_identical_windows_share_one_id() {
    let sched = Scheduler::new(vec![
        deny(&["a.com"], 0, 10),
        deny(&["b.com"], 0, 10),
    ])
    .unwrap();
    assert_eq!(sched.get_block_ids(5), vec![0]);
    assert_eq!(sched.get_block_list(5).len(), 2);
}

#[test]
fn is_past_end_only_strictly_after_the_latest_end() {
    let sched = Scheduler::new(vec![
        deny(&["a.com"], 0, 10),
        deny(&["b.com"], 5, 30),
    ])
    .unwrap();
    assert!(!sched.is_past_end(10));
    assert!(!sched.is_past_end(30));
    assert!(sched.is_past_end(31));
}

#[test]
fn empty_schedule_is_immediately_past_end() {
    let sched = Scheduler::new(Vec::new()).unwrap();
    assert_eq!(sched.get_block_ids(0), Vec::<usize>::new());
    assert!(!sched.is_past_end(0));
    assert!(sched.is_past_end(1));
}

#[test]
fn nested_windows_return_both_lists() {
    let sched = Scheduler::new(vec![
        deny(&["a.com"], T0900, T1700),
        deny(&["b.com"], T1200, T1300),
    ])
    .unwrap();
    let ids = sched.get_block_ids(T1230);
    assert_eq!(ids, vec![0, 1]);
    let lists = sched.get_block_list(T1230);
    assert_eq!(lists.len(), 2);
    let union: Vec<String> = collect_sites(&lists)
        .iter()
        .map(|w| w.get_url_str().to_string())
        .collect();
    assert_eq!(union, vec!["a.com".to_string(), "b.com".to_string()]);
}

#[test]
fn active_lists_follow_id_order() {
    let sched = Scheduler::new(vec![
        deny(&["b.com"], 10, 30),
        deny(&["a.com"], 0, 20),
    ])
    .unwrap();
    let lists = sched.get_block_list(15);
    assert_eq!(lists.len(), 2);
    assert_eq!(lists[0].get_list()[0].get_url_str(), "b.com");
    assert_eq!(lists[1].get_list()[0].get_url_str(), "a.com");
}
