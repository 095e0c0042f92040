use context_switch::block::{Block, Timestamp};
use context_switch::curr_time_fetcher::{CurrTimeFetcher, SystemTime};
use context_switch::errors::BlockerError as GeneralBlockerError;
use context_switch::runner::{Msg, RunnerError, State, Worker};
use context_switch::scheduler::Scheduler;
use context_switch::website::Website;
use context_switch::website_blocker::HostBlocker;

fn site(s: &str) -> Website {
    Website::from_path(s).unwrap()
}

fn deny(sites: &[&str], start: Timestamp, end: Timestamp) -> Block {
    let ws: Vec<Website> = sites.iter().map(|s| site(s)).collect();
    Block::from_blacklist(&ws, start, end).unwrap()
}

// 2024-01-01, UTC, in seconds since the epoch.
const T0859: Timestamp = 1704099540;
const T0900: Timestamp = 1704099600;
const T0930: Timestamp = 1704101400;
const T1000: Timestamp = 1704103200;
const T1001: Timestamp = 1704103260;

const PRISTINE: &str = "127.0.0.1 localhost\n";

fn worker_for(blocks: Vec<Block>) -> Worker<HostBlocker, SystemTime> {
    let sched = Scheduler::new(blocks).unwrap();
    let hb = HostBlocker::new(false, PRISTINE.to_string(), None).unwrap();
    Worker::new(sched, hb, SystemTime::new(), State::Pausing)
}

/// A fixed clock, standing in for the wall clock in tests of `tick`.
struct StoppedClock(Timestamp);

impl CurrTimeFetcher for StoppedClock {
    fn now(&self) -> Timestamp {
        self.0
    }
}

#[test]
fn single_block_session_start_to_finish() {
    let mut w = worker_for(vec![deny(&["a.com"], T0900, T1000)]);

    // Before the window: resuming turns enforcement on, but the active set
    // stays empty, so nothing is written.
    assert!(matches!(w.tick_at(T0859, Some(Msg::Resume)), Ok(false)));
    assert!(matches!(w.state(), State::Running(_)));
    assert_eq!(w.blocker().current_target().as_str(), PRISTINE);

    // Inside the window: the block becomes active and the site is applied.
    assert!(matches!(w.tick_at(T0930, None), Ok(false)));
    let expected = format!(
        "{}\n#Start ContextSwitch Block\n127.0.0.1 a.com\n#End ContextSwitch Block\n",
        PRISTINE
    );
    assert_eq!(w.blocker().current_target().as_str(), expected.as_str());

    // An unchanged active set writes nothing (the contents stay identical).
    assert!(matches!(w.tick_at(T0930 + 1, None), Ok(false)));
    assert_eq!(w.blocker().current_target().as_str(), expected.as_str());

    // After the window, reconciliation on its own writes the empty list.
    assert!(matches!(w.update_blocks(T1001), Ok(())));
    let emptied = format!(
        "{}\n#Start ContextSwitch Block\n#End ContextSwitch Block\n",
        PRISTINE
    );
    assert_eq!(w.blocker().current_target().as_str(), emptied.as_str());

    // A full tick past the last end time clears and terminates for good.
    assert!(matches!(w.tick_at(T1001, None), Ok(true)));
    assert_eq!(w.blocker().current_target().as_str(), PRISTINE);
    assert!(!w.blocker().has_snapshot());
}

#[test]
fn pausing_skips_enforcement() {
    let mut w = worker_for(vec![deny(&["a.com"], T0900, T1000)]);
    assert!(matches!(w.tick_at(T0930, None), Ok(false)));
    assert!(matches!(w.state(), State::Pausing));
    assert_eq!(w.blocker().current_target().as_str(), PRISTINE);
}

#[test]
fn pause_clears_the_blocker() {
    let mut w = worker_for(vec![deny(&["a.com"], T0900, T1000)]);
    assert!(matches!(w.tick_at(T0930, Some(Msg::Resume)), Ok(false)));
    assert_ne!(w.blocker().current_target().as_str(), PRISTINE);
    assert!(matches!(w.handle_msg(Msg::Pause), Ok(())));
    assert!(matches!(w.state(), State::Pausing));
    assert_eq!(w.blocker().current_target().as_str(), PRISTINE);
    assert!(!w.blocker().has_snapshot());
}

#[test]
fn transition_table_identities() {
    let mut w = worker_for(vec![deny(&["a.com"], T0900, T1000)]);
    // Pausing + Pause: no change.
    assert!(matches!(w.handle_msg(Msg::Pause), Ok(())));
    assert!(matches!(w.state(), State::Pausing));
    // Pausing + NoOpPoll: no change.
    assert!(matches!(w.handle_msg(Msg::NoOpPoll), Ok(())));
    assert!(matches!(w.state(), State::Pausing));
    // Pausing + Resume: running with an empty id set.
    assert!(matches!(w.handle_msg(Msg::Resume), Ok(())));
    match w.state() {
        State::Running(ids) => assert!(ids.is_empty()),
        State::Pausing => panic!("expected a running state"),
    }
    // Running + Resume: unchanged.
    assert!(matches!(w.handle_msg(Msg::Resume), Ok(())));
    assert!(matches!(w.state(), State::Running(_)));
}

#[test]
fn tick_consults_the_injected_clock() {
    let sched = Scheduler::new(vec![deny(&["a.com"], T0900, T1000)]).unwrap();
    let hb = HostBlocker::new(false, PRISTINE.to_string(), None).unwrap();
    let mut w = Worker::new(sched, hb, StoppedClock(T0930), State::Pausing);
    assert!(matches!(w.tick(Some(Msg::Resume)), Ok(false)));
    let expected = format!(
        "{}\n#Start ContextSwitch Block\n127.0.0.1 a.com\n#End ContextSwitch Block\n",
        PRISTINE
    );
    assert_eq!(w.blocker().current_target().as_str(), expected.as_str());

    let sched2 = Scheduler::new(vec![deny(&["a.com"], T0900, T1000)]).unwrap();
    let hb2 = HostBlocker::new(false, PRISTINE.to_string(), None).unwrap();
    let mut w2 = Worker::new(sched2, hb2, StoppedClock(T1001), State::Pausing);
    assert!(matches!(w2.tick(None), Ok(true)));
    assert_eq!(w2.blocker().current_target().as_str(), PRISTINE);
}

#[test]
fn terminal_check_boundaries() {
    let mut w = worker_for(vec![deny(&["a.com"], T0900, T1000)]);
    assert!(matches!(w.check_work_is_done(T1000), Ok(false)));
    assert!(matches!(w.check_work_is_done(T1001), Ok(true)));
}

#[test]
fn runner_error_values_are_distinct() {
    assert_ne!(RunnerError::FailedToStartOrResume, RunnerError::FailedToPause);
}

#[test]
fn general_blocker_error_messages() {
    assert_eq!(GeneralBlockerError::FailedToSerialize.message(), "Failed to serialize");
    assert_eq!(GeneralBlockerError::FailedToDeserialize.message(), "Failed to deserialize");
    assert_eq!(GeneralBlockerError::SiteAlreadyBlocked.message(), "Site already blocked");
    assert_eq!(GeneralBlockerError::SiteAlreadyUnblocked.message(), "Site already unblocked");
}
