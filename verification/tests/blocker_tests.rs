use context_switch::website::Website;
use context_switch::website_blocker::{BlockerError, HostBlocker, WebsiteBlocker};

fn site(s: &str) -> Website {
    Website::from_path(s).unwrap()
}

const PRISTINE: &str = "127.0.0.1 localhost\n";

#[test]
fn fresh_session_snapshots_the_target() {
    let hb = HostBlocker::new(false, PRISTINE.to_string(), None).unwrap();
    assert_eq!(hb.current_target().as_str(), PRISTINE);
    assert!(hb.has_snapshot());
    assert!(hb.blocked_list().is_empty());
}

#[test]
fn refuses_to_start_over_an_existing_snapshot() {
    let r = HostBlocker::new(true, PRISTINE.to_string(), Some("old".to_string()));
    assert!(matches!(r, Err(BlockerError::FailOnExist)));
}

#[test]
fn recovers_from_a_leftover_snapshot() {
    let hb = HostBlocker::new(
        false,
        format!("{}\n#Start ContextSwitch Block\n127.0.0.1 a.com\n#End ContextSwitch Block\n", PRISTINE),
        Some(PRISTINE.to_string()),
    )
    .unwrap();
    assert_eq!(hb.current_target().as_str(), PRISTINE);
    assert!(hb.has_snapshot());
}

#[test]
fn managed_section_has_exact_form() {
    let mut hb = HostBlocker::new(false, PRISTINE.to_string(), None).unwrap();
    hb.set_block_list(vec![site("a.com"), site("b.com")]).unwrap();
    let expected = format!(
        "{}\n#Start ContextSwitch Block\n127.0.0.1 a.com\n127.0.0.1 b.com\n#End ContextSwitch Block\n",
        PRISTINE
    );
    assert_eq!(hb.current_target().as_str(), expected.as_str());
}

#[test]
fn duplicate_sites_are_written_once() {
    let mut hb = HostBlocker::new(false, PRISTINE.to_string(), None).unwrap();
    hb.set_block_list(vec![site("a.com"), site("b.com"), site("a.com")]).unwrap();
    let expected = format!(
        "{}\n#Start ContextSwitch Block\n127.0.0.1 a.com\n127.0.0.1 b.com\n#End ContextSwitch Block\n",
        PRISTINE
    );
    assert_eq!(hb.current_target().as_str(), expected.as_str());
}

#[test]
fn empty_list_leaves_only_the_markers() {
    let mut hb = HostBlocker::new(false, PRISTINE.to_string(), None).unwrap();
    hb.set_block_list(Vec::new()).unwrap();
    let expected = format!(
        "{}\n#Start ContextSwitch Block\n#End ContextSwitch Block\n",
        PRISTINE
    );
    assert_eq!(hb.current_target().as_str(), expected.as_str());
}

#[test]
fn applying_the_same_list_twice_is_byte_identical() {
    let mut hb = HostBlocker::new(false, PRISTINE.to_string(), None).unwrap();
    hb.set_block_list(vec![site("a.com"), site("b.com")]).unwrap();
    let first = hb.current_target().clone();
    hb.set_block_list(vec![site("a.com"), site("b.com")]).unwrap();
    assert_eq!(hb.current_target().as_str(), first.as_str());
}

#[test]
fn rewrites_never_leave_stale_entries() {
    let mut hb = HostBlocker::new(false, PRISTINE.to_string(), None).unwrap();
    hb.set_block_list(vec![site("a.com")]).unwrap();
    hb.set_block_list(vec![site("b.com")]).unwrap();
    let expected = format!(
        "{}\n#Start ContextSwitch Block\n127.0.0.1 b.com\n#End ContextSwitch Block\n",
        PRISTINE
    );
    assert_eq!(hb.current_target().as_str(), expected.as_str());
}

#[test]
fn clear_restores_the_pristine_target_and_drops_the_snapshot() {
    let mut hb = HostBlocker::new(false, PRISTINE.to_string(), None).unwrap();
    hb.set_block_list(vec![site("a.com")]).unwrap();
    hb.set_block_list(vec![site("b.com"), site("c.com")]).unwrap();
    hb.clear().unwrap();
    assert_eq!(hb.current_target().as_str(), PRISTINE);
    assert!(!hb.has_snapshot());
    assert!(hb.blocked_list().is_empty());
}

#[test]
fn operations_after_clear_fail() {
    let mut hb = HostBlocker::new(false, PRISTINE.to_string(), None).unwrap();
    hb.clear().unwrap();
    assert!(matches!(
        hb.set_block_list(vec![site("a.com")]),
        Err(BlockerError::FailedToDeserialize)
    ));
    assert!(matches!(hb.clear(), Err(BlockerError::FailedToDeserialize)));
}

#[test]
fn recovery_then_clear_round_trips() {
    let mut hb = HostBlocker::new(false, "scribbled over".to_string(), Some(PRISTINE.to_string()))
        .unwrap();
    hb.set_block_list(vec![site("a.com")]).unwrap();
    hb.clear().unwrap();
    assert_eq!(hb.current_target().as_str(), PRISTINE);
    assert!(!hb.has_snapshot());
}
