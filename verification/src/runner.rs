use vstd::prelude::*;

use crate::block::{views_of, BlockList, Timestamp};
use crate::curr_time_fetcher::CurrTimeFetcher;
use crate::scheduler::{list_model, sorted_ids, Scheduler};
use crate::website::Website;
use crate::website_blocker::{BlockerError, WebsiteBlocker};

verus! {

#[derive(Debug, PartialEq, Eq, Structural)]
pub enum RunnerError {
    FailedToStartOrResume,
    FailedToPause,
}

/// The worker's state: `Pausing` (no enforcement, the initial state) or
/// `Running` with the range ids active as of the last reconciliation, in
/// strictly increasing order, for cheap change detection.
pub enum State {
    Running(Vec<usize>),
    Pausing,
}

/// The control messages the worker drains once per tick. `NoOpPoll` exists
/// only so a sender can learn whether the worker is still alive.
pub enum Msg {
    Pause,
    Resume,
    NoOpPoll,
}

impl State {
    /// The state as a pair: whether enforcement is on, and the last-applied
    /// range ids.
    pub open spec fn model(&self) -> (bool, Seq<usize>) {
        match self {
            State::Running(ids) => (true, ids@),
            State::Pausing => (false, Seq::empty()),
        }
    }
}

/// The message transition table. Only `Pause` in a running state has a side
/// effect (clearing the blocker); every other combination changes at most
/// the state.
pub open spec fn msg_transition(pre: (bool, Seq<usize>), m: Msg) -> (bool, Seq<usize>) {
    match m {
        Msg::Pause => (false, Seq::empty()),
        Msg::Resume => if pre.0 {
            pre
        } else {
            (true, Seq::empty())
        },
        Msg::NoOpPoll => pre,
    }
}

/// The site views of all active lists, flattened in order.
pub open spec fn flatten_sites(models: Seq<(bool, Seq<Seq<char>>)>) -> Seq<Seq<char>>
    decreases models.len(),
{
    if models.len() == 0 {
        Seq::empty()
    } else {
        flatten_sites(models.drop_last()) + models.last().1
    }
}

/// Drives the scheduler against the clock and reconciles the blocker on
/// every change of the active set. One tick: check for termination, drain at
/// most one message, then enforce.
pub struct Worker<T: WebsiteBlocker, V: CurrTimeFetcher> {
    time_fetcher: V,
    sched: Scheduler,
    blocker: T,
    state: State,
}

/// No side effect is due on this tick: the schedule is not over, the drained
/// message does not pause a running worker, and the active set after the
/// transition table is already the one last applied. On such a tick the
/// blocker is never called, so nothing outside the worker can fail it.
pub open spec fn tick_quiet(
    pre: (bool, Seq<usize>),
    sched: Scheduler,
    t: int,
    msg: Option<Msg>,
) -> bool {
    let m1 = match msg {
        Some(m) => msg_transition(pre, m),
        None => pre,
    };
    &&& t <= sched.spec_max_end()
    &&& !(pre.0 && (msg matches Some(m) && m is Pause))
    &&& (m1.0 ==> sched.spec_canonical_ids(m1.1, t))
}

/// What one non-terminal tick leaves behind, given the clock reading `t` and
/// the drained message: the transition table applied, then — when running —
/// the active ids recomputed, with enforcement skipped iff they are
/// unchanged. An `Err` is a blocker failure; it leaves the state at or
/// before the failing step, and cannot occur on a quiet tick. Nothing is
/// assumed of the blocker itself.
pub open spec fn tick_rel(
    pre: (bool, Seq<usize>),
    post: (bool, Seq<usize>),
    sched: Scheduler,
    t: int,
    msg: Option<Msg>,
    r: Result<bool, BlockerError>,
) -> bool {
    let m1 = match msg {
        Some(m) => msg_transition(pre, m),
        None => pre,
    };
    if t > sched.spec_max_end() {
        &&& post == pre
        &&& (r matches Ok(b) ==> b == true)
    } else {
        &&& (r matches Ok(b) ==> b == false)
        &&& (r is Err ==> post == pre || post == m1)
        &&& (r is Ok ==> if !m1.0 {
            post == m1
        } else if sched.spec_canonical_ids(m1.1, t) {
            post == m1
        } else {
            post.0 == true && sched.spec_canonical_ids(post.1, t)
        })
        &&& (tick_quiet(pre, sched, t, msg) ==> r is Ok)
    }
}

impl<T: WebsiteBlocker, V: CurrTimeFetcher> Worker<T, V> {
    pub closed spec fn spec_sched(&self) -> Scheduler {
        self.sched
    }

    pub closed spec fn spec_state(&self) -> (bool, Seq<usize>) {
        self.state.model()
    }

    pub closed spec fn spec_blocker(&self) -> T {
        self.blocker
    }

    /// The blocker this worker drives, for observation.
    pub fn blocker(&self) -> (r: &T)
        ensures
            *r == self.spec_blocker(),
    {
        &self.blocker
    }

    /// The current state, for observation.
    pub fn state(&self) -> (r: &State)
        ensures
            r.model() == self.spec_state(),
    {
        &self.state
    }

    /// The scheduler is queryable and a running state holds a strictly
    /// increasing id list, as every reconciliation leaves behind.
    pub closed spec fn wf(&self) -> bool {
        &&& self.sched.wf()
        &&& sorted_ids(self.spec_state().1)
    }

    pub fn new(sched: Scheduler, blocker: T, time_fetcher: V, state: State) -> (r: Worker<T, V>)
        requires
            sched.wf(),
            state matches State::Running(ids) ==> sorted_ids(ids@),
        ensures
            r.wf(),
            r.spec_sched() == sched,
            r.spec_state() == state.model(),
    {
        Worker { time_fetcher, sched, blocker, state }
    }

    /// Terminal check: once the clock is past the last end time, clears the
    /// blocker and reports that the worker is done for good.
    pub fn check_work_is_done(&mut self, now: Timestamp) -> (r: Result<bool, BlockerError>)
        requires
            old(self).wf(),
        ensures
            final(self).wf(),
            final(self).spec_sched() == old(self).spec_sched(),
            final(self).spec_state() == old(self).spec_state(),
            now as int > old(self).spec_sched().spec_max_end() ==> (r matches Ok(b) ==> b
                == true),
            now as int <= old(self).spec_sched().spec_max_end() ==> r == Ok::<
                bool,
                BlockerError,
            >(false) && final(self).spec_blocker() == old(self).spec_blocker(),
    {
        if self.sched.is_past_end(now) {
            match self.blocker.clear() {
                Ok(()) => Ok(true),
                Err(e) => Err(e),
            }
        } else {
            Ok(false)
        }
    }

    /// Applies the transition table to one drained message. Only leaving the
    /// running state touches the blocker; a failure of that `clear` leaves
    /// the state unchanged.
    pub fn handle_msg(&mut self, m: Msg) -> (r: Result<(), BlockerError>)
        requires
            old(self).wf(),
        ensures
            final(self).wf(),
            final(self).spec_sched() == old(self).spec_sched(),
            r is Ok ==> final(self).spec_state() == msg_transition(old(self).spec_state(), m),
            r is Err ==> final(self).spec_state() == old(self).spec_state(),
            !(old(self).spec_state().0 && m is Pause) ==> r is Ok && final(self).spec_blocker()
                == old(self).spec_blocker(),
    {
        match (&self.state, &m) {
            (State::Running(_), Msg::Pause) => {
                match self.blocker.clear() {
                    Ok(()) => {
                        self.state = State::Pausing;
                        Ok(())
                    },
                    Err(e) => Err(e),
                }
            },
            (State::Pausing, Msg::Resume) => {
                self.state = State::Running(Vec::new());
                Ok(())
            },
            _ => Ok(()),
        }
    }

    /// Reconciliation: in a running state, recompute the active ids and, only
    /// when they differ from the last-applied ones, hand the union of the
    /// active lists' sites to the blocker.
    pub fn update_blocks(&mut self, now: Timestamp) -> (r: Result<(), BlockerError>)
        requires
            old(self).wf(),
        ensures
            final(self).wf(),
            final(self).spec_sched() == old(self).spec_sched(),
            !old(self).spec_state().0 ==> r is Ok && final(self).spec_state() == old(
                self,
            ).spec_state() && final(self).spec_blocker() == old(self).spec_blocker(),
            old(self).spec_state().0 && old(self).spec_sched().spec_canonical_ids(
                old(self).spec_state().1,
                now as int,
            ) ==> r is Ok && final(self).spec_state() == old(self).spec_state()
                && final(self).spec_blocker() == old(self).spec_blocker(),
            old(self).spec_state().0 && !old(self).spec_sched().spec_canonical_ids(
                old(self).spec_state().1,
                now as int,
            ) ==> {
                &&& (r is Err ==> final(self).spec_state() == old(self).spec_state())
                &&& (r is Ok ==> final(self).spec_state().0 == true && old(
                    self,
                ).spec_sched().spec_canonical_ids(final(self).spec_state().1, now as int))
            },
    {
        match &self.state {
            State::Pausing => Ok(()),
            State::Running(hs) => {
                let ids = self.sched.get_block_ids(now);
                if vec_eq(hs, &ids) {
                    proof {
                        assert(old(self).spec_state().1 == ids@);
                    }
                    return Ok(());
                }
                proof {
                    if self.sched.spec_canonical_ids(hs@, now as int) {
                        crate::scheduler::lemma_canonical_ids_unique(
                            hs@,
                            ids@,
                            &self.sched,
                            now as int,
                        );
                    }
                }
                let lists = self.sched.get_block_list(now);
                let values = collect_sites(&lists);
                match self.blocker.set_block_list(values) {
                    Ok(()) => {
                        self.state = State::Running(ids);
                        Ok(())
                    },
                    Err(e) => Err(e),
                }
            },
        }
    }

    /// One poll tick: the terminal check first, then at most one message,
    /// then reconciliation. Returns `Ok(true)` iff the worker is done for
    /// good; any blocker error aborts the tick.
    pub fn tick_at(&mut self, now: Timestamp, msg: Option<Msg>) -> (r: Result<bool, BlockerError>)
        requires
            old(self).wf(),
        ensures
            final(self).wf(),
            final(self).spec_sched() == old(self).spec_sched(),
            tick_rel(
                old(self).spec_state(),
                final(self).spec_state(),
                old(self).spec_sched(),
                now as int,
                msg,
                r,
            ),
            tick_quiet(old(self).spec_state(), old(self).spec_sched(), now as int, msg)
                ==> final(self).spec_blocker() == old(self).spec_blocker(),
    {
        match self.check_work_is_done(now) {
            Err(e) => Err(e),
            Ok(true) => Ok(true),
            Ok(false) => {
                match msg {
                    Some(m) => {
                        match self.handle_msg(m) {
                            Err(e) => return Err(e),
                            Ok(()) => (),
                        }
                    },
                    None => (),
                }
                match self.update_blocks(now) {
                    Err(e) => Err(e),
                    Ok(()) => Ok(false),
                }
            },
        }
    }

    /// One poll tick against the worker's own clock.
    pub fn tick(&mut self, msg: Option<Msg>) -> (r: Result<bool, BlockerError>)
        requires
            old(self).wf(),
        ensures
            final(self).wf(),
            final(self).spec_sched() == old(self).spec_sched(),
            exists|t: Timestamp|
                tick_rel(
                    old(self).spec_state(),
                    final(self).spec_state(),
                    old(self).spec_sched(),
                    t as int,
                    msg,
                    r,
                ),
    {
        let now = self.time_fetcher.now();
        self.tick_at(now, msg)
    }
}

/// The sites of all given lists flattened into one vector, in order,
/// duplicates kept: what the worker hands the blocker on a change.
pub fn collect_sites(lists: &Vec<BlockList>) -> (r: Vec<Website>)
    ensures
        views_of(r@) == flatten_sites(lists@.map_values(|l: BlockList| list_model(l))),
{
    let ghost models = lists@.map_values(|l: BlockList| list_model(l));
    let mut r: Vec<Website> = Vec::new();
    let mut i: usize = 0;
    while i < lists.len()
        invariant
            i <= lists@.len(),
            models == lists@.map_values(|l: BlockList| list_model(l)),
            views_of(r@) == flatten_sites(models.take(i as int)),
        decreases lists@.len() - i,
    {
        let l = lists[i].get_list();
        let ghost base = views_of(r@);
        let mut k: usize = 0;
        while k < l.len()
            invariant
                i < lists@.len(),
                k <= l@.len(),
                l@ == lists@[i as int].spec_websites(),
                views_of(r@) == base + views_of(l@).take(k as int),
            decreases l@.len() - k,
        {
            let ghost old_r = r@;
            r.push(l[k].clone());
            proof {
                assert(views_of(r@) =~= views_of(old_r).push(l@[k as int]@));
                assert(views_of(l@).take(k as int + 1) =~= views_of(l@).take(k as int).push(
                    l@[k as int]@,
                ));
                assert(views_of(r@) =~= base + views_of(l@).take(k as int + 1));
            }
            k += 1;
        }
        proof {
            assert(views_of(l@).take(l@.len() as int) =~= views_of(l@));
            assert(models.take(i as int + 1).drop_last() =~= models.take(i as int));
            assert(models.take(i as int + 1).last() == models[i as int]);
            assert(models[i as int].1 == lists@[i as int].spec_sites());
            assert(views_of(r@) =~= flatten_sites(models.take(i as int + 1)));
        }
        i += 1;
    }
    proof {
        assert(models.take(models.len() as int) =~= models);
    }
    r
}

/// Element-wise equality of two id lists.
fn vec_eq(a: &Vec<usize>, b: &Vec<usize>) -> (r: bool)
    ensures
        r == (a@ == b@),
{
    if a.len() != b.len() {
        return false;
    }
    let mut i: usize = 0;
    while i < a.len()
        invariant
            a@.len() == b@.len(),
            i <= a@.len(),
            forall|k: int| 0 <= k < i ==> a@[k] == b@[k],
        decreases a@.len() - i,
    {
        if a[i] != b[i] {
            return false;
        }
        i += 1;
    }
    proof {
        assert(a@ =~= b@);
    }
    true
}

} // verus!
