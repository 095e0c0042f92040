use vstd::prelude::*;

use crate::block::{dedup_views, dedup_websites, distinct_views, views_of};
use crate::website::Website;
use vstd::string::StringExecFns;

verus! {

#[derive(Debug, PartialEq, Eq, Structural)]
pub enum BlockerError {
    FailedToSerialize,
    FailedToDeserialize,
    FailOnExist,
}

/// The capability the worker drives: apply a list of sites to the managed
/// resource, or restore its pristine state. Implementations beside
/// `HostBlocker` serve as test doubles.
pub trait WebsiteBlocker {
    fn set_block_list(&mut self, w: Vec<Website>) -> Result<(), BlockerError>;

    fn clear(&mut self) -> Result<(), BlockerError>;
}

/// One redirect entry of the managed section.
pub open spec fn entry_line(redirect: Seq<char>, site: Seq<char>) -> Seq<char> {
    "\n"@ + redirect + " "@ + site
}

/// The redirect entries of the managed section, one per site, in order.
pub open spec fn entry_lines(redirect: Seq<char>, sites: Seq<Seq<char>>) -> Seq<char>
    decreases sites.len(),
{
    if sites.len() == 0 {
        Seq::empty()
    } else {
        entry_lines(redirect, sites.drop_last()) + entry_line(redirect, sites.last())
    }
}

/// The marker-delimited managed section for the given sites.
pub open spec fn managed_section(redirect: Seq<char>, sites: Seq<Seq<char>>) -> Seq<char> {
    "\n#Start ContextSwitch Block"@ + entry_lines(redirect, sites)
        + "\n#End ContextSwitch Block\n"@
}

/// Contents of the target after a rewrite: the pristine snapshot followed by
/// the managed section.
pub open spec fn target_after_set(
    snapshot: Seq<char>,
    redirect: Seq<char>,
    sites: Seq<Seq<char>>,
) -> Seq<char> {
    snapshot + managed_section(redirect, sites)
}

/// Manages the target resource (the hosts contents) together with the private
/// snapshot of its pristine state. The snapshot's presence is the session
/// marker: it exists from construction until `clear` removes it. This type
/// holds the two contents themselves; reading and writing them back to their
/// files is its caller's concern.
pub struct HostBlocker {
    target: String,
    snapshot: Option<String>,
    redirect: String,
    blocked_sites: Vec<Website>,
}

impl HostBlocker {
    /// The managed resource's current contents.
    pub closed spec fn spec_target(&self) -> Seq<char> {
        self.target@
    }

    /// The snapshot's contents, or `None` after `clear` removed it.
    pub closed spec fn spec_snapshot(&self) -> Option<Seq<char>> {
        match self.snapshot {
            Some(s) => Some(s@),
            None => None,
        }
    }

    pub closed spec fn spec_redirect(&self) -> Seq<char> {
        self.redirect@
    }

    /// The currently applied sites, deduplicated, in first-occurrence order.
    pub closed spec fn spec_blocked(&self) -> Seq<Seq<char>> {
        views_of(self.blocked_sites@)
    }

    /// Starts a session over the given contents. `hosts` is the target's
    /// current contents; `hosts2` is the contents of a leftover snapshot from
    /// a prior unclean shutdown, if one exists. A leftover snapshot either
    /// aborts construction (`fail_on_exists`) or is recovered from: the
    /// target is restored to it before a fresh snapshot is taken.
    pub fn new(fail_on_exists: bool, hosts: String, hosts2: Option<String>) -> (r: Result<
        HostBlocker,
        BlockerError,
    >)
        ensures
            fail_on_exists && hosts2 is Some ==> r == Err::<HostBlocker, BlockerError>(
                BlockerError::FailOnExist,
            ),
            !(fail_on_exists && hosts2 is Some) ==> (r matches Ok(hb) && {
                &&& hb.spec_target() == (match hosts2 {
                    Some(s) => s@,
                    None => hosts@,
                })
                &&& hb.spec_snapshot() == Some(hb.spec_target())
                &&& hb.spec_blocked() == Seq::<Seq<char>>::empty()
                &&& hb.spec_redirect() == "127.0.0.1"@
            }),
    {
        let target: String = match hosts2 {
            Some(snap) => {
                if fail_on_exists {
                    return Err(BlockerError::FailOnExist);
                }
                // A leftover snapshot means the prior session quit early:
                // restore the target from it before starting over.
                snap
            },
            None => hosts,
        };
        let snapshot = Some(target.clone());
        Ok(
            HostBlocker {
                target,
                snapshot,
                redirect: String::from_str("127.0.0.1"),
                blocked_sites: Vec::new(),
            },
        )
    }

    /// The managed resource's current contents, for its caller to write back.
    pub fn current_target(&self) -> (r: &String)
        ensures
            r@ == self.spec_target(),
    {
        &self.target
    }

    /// The snapshot's contents, for its caller to persist; `None` once
    /// `clear` has removed it.
    pub fn current_snapshot(&self) -> (r: Option<&String>)
        ensures
            match self.spec_snapshot() {
                Some(p) => r matches Some(s) && s@ == p,
                None => r is None,
            },
    {
        match &self.snapshot {
            Some(s) => Some(s),
            None => None,
        }
    }

    /// Whether the session marker still exists.
    pub fn has_snapshot(&self) -> (r: bool)
        ensures
            r == (self.spec_snapshot() is Some),
    {
        self.snapshot.is_some()
    }

    /// The currently applied sites, deduplicated, in first-occurrence order.
    pub fn blocked_list(&self) -> (r: &Vec<Website>)
        ensures
            views_of(r@) == self.spec_blocked(),
    {
        &self.blocked_sites
    }

    fn snapshot_contents(&self) -> (r: Option<String>)
        ensures
            match self.spec_snapshot() {
                Some(p) => r matches Some(s) && s@ == p,
                None => r is None,
            },
    {
        match &self.snapshot {
            Some(s) => Some(s.clone()),
            None => None,
        }
    }
}

/// Builds the full target contents: the snapshot followed by the managed
/// section listing each site once.
fn render_target(snapshot: &String, redirect: &String, sites: &Vec<Website>) -> (r: String)
    ensures
        r@ == target_after_set(snapshot@, redirect@, views_of(sites@)),
{
    let mut t = snapshot.clone();
    t.append("\n#Start ContextSwitch Block");
    let mut i: usize = 0;
    while i < sites.len()
        invariant
            i <= sites@.len(),
            t@ == snapshot@ + "\n#Start ContextSwitch Block"@ + entry_lines(
                redirect@,
                views_of(sites@).take(i as int),
            ),
        decreases sites@.len() - i,
    {
        t.append("\n");
        t.append(redirect.as_str());
        t.append(" ");
        t.append(sites[i].get_url_str());
        proof {
            assert(views_of(sites@).take(i as int + 1).drop_last() =~= views_of(sites@).take(
                i as int,
            ));
            assert(views_of(sites@).take(i as int + 1).last() == sites@[i as int]@);
        }
        i += 1;
    }
    proof {
        assert(views_of(sites@).take(sites@.len() as int) =~= views_of(sites@));
    }
    t.append("\n#End ContextSwitch Block\n");
    t
}

impl WebsiteBlocker for HostBlocker {
    /// Rewrites the managed section to exactly the given sites (first
    /// occurrence of each kept): the target becomes the snapshot followed by
    /// a fresh section, so no stale entries survive. Fails iff the snapshot
    /// is gone (a session already cleared).
    fn set_block_list(&mut self, w: Vec<Website>) -> (r: Result<(), BlockerError>)
        ensures
            final(self).spec_blocked() == dedup_views(views_of(w@)),
            distinct_views(final(self).spec_blocked()),
            final(self).spec_snapshot() == old(self).spec_snapshot(),
            final(self).spec_redirect() == old(self).spec_redirect(),
            old(self).spec_snapshot() is None ==> r == Err::<(), BlockerError>(
                BlockerError::FailedToDeserialize,
            ) && final(self).spec_target() == old(self).spec_target(),
            old(self).spec_snapshot() matches Some(p) ==> r == Ok::<(), BlockerError>(())
                && final(self).spec_target() == target_after_set(
                p,
                old(self).spec_redirect(),
                dedup_views(views_of(w@)),
            ),
    {
        proof {
            crate::block::lemma_dedup_views_distinct(views_of(w@));
        }
        self.blocked_sites = dedup_websites(w.as_slice());
        match self.snapshot_contents() {
            None => Err(BlockerError::FailedToDeserialize),
            Some(snap) => {
                self.target = render_target(&snap, &self.redirect, &self.blocked_sites);
                Ok(())
            },
        }
    }

    /// Ends the session: restores the target to the pristine snapshot
    /// contents, then drops the snapshot (the session marker) and the site
    /// bookkeeping. Fails iff the snapshot is already gone.
    fn clear(&mut self) -> (r: Result<(), BlockerError>)
        ensures
            old(self).spec_snapshot() is None ==> r == Err::<(), BlockerError>(
                BlockerError::FailedToDeserialize,
            ) && *final(self) == *old(self),
            old(self).spec_snapshot() matches Some(p) ==> r == Ok::<(), BlockerError>(()) && {
                &&& final(self).spec_target() == p
                &&& final(self).spec_snapshot() is None
                &&& final(self).spec_blocked() == Seq::<Seq<char>>::empty()
                &&& final(self).spec_redirect() == old(self).spec_redirect()
            },
    {
        match self.snapshot_contents() {
            None => Err(BlockerError::FailedToDeserialize),
            Some(snap) => {
                self.target = snap;
                self.snapshot = None;
                self.blocked_sites = Vec::new();
                Ok(())
            },
        }
    }
}

/// The observable effect of a successful `set_block_list(sites)`: the target
/// is rewritten from the snapshot, which itself survives unchanged.
pub open spec fn set_transition(pre: HostBlocker, post: HostBlocker, sites: Seq<Seq<char>>) -> bool {
    &&& pre.spec_snapshot() is Some
    &&& post.spec_snapshot() == pre.spec_snapshot()
    &&& post.spec_redirect() == pre.spec_redirect()
    &&& post.spec_target() == target_after_set(
        pre.spec_snapshot()->0,
        pre.spec_redirect(),
        dedup_views(sites),
    )
    &&& post.spec_blocked() == dedup_views(sites)
}

/// The observable effect of a successful `clear`.
pub open spec fn clear_transition(pre: HostBlocker, post: HostBlocker) -> bool {
    &&& pre.spec_snapshot() is Some
    &&& post.spec_target() == pre.spec_snapshot()->0
    &&& post.spec_snapshot() is None
    &&& post.spec_blocked() == Seq::<Seq<char>>::empty()
}

/// Applying the same sites twice in a row leaves the target byte-identical:
/// the rewrite depends only on the snapshot, which a rewrite never changes.
pub proof fn lemma_set_block_list_idempotent(
    hb0: HostBlocker,
    hb1: HostBlocker,
    hb2: HostBlocker,
    sites: Seq<Seq<char>>,
)
    requires
        set_transition(hb0, hb1, sites),
        set_transition(hb1, hb2, sites),
    ensures
        hb2.spec_target() == hb1.spec_target(),
{
}

/// Every chain of successful rewrites keeps the snapshot as it was at
/// construction, so a final `clear` restores the pristine contents exactly
/// and leaves no snapshot behind.
pub proof fn lemma_clear_round_trip(
    chain: Seq<HostBlocker>,
    site_lists: Seq<Seq<Seq<char>>>,
    cleared: HostBlocker,
)
    requires
        chain.len() == site_lists.len() + 1,
        forall|i: int|
            0 <= i < site_lists.len() ==> set_transition(
                #[trigger] chain[i],
                chain[i + 1],
                site_lists[i],
            ),
        clear_transition(chain.last(), cleared),
    ensures
        cleared.spec_target() == chain[0].spec_snapshot()->0,
        cleared.spec_snapshot() is None,
{
    lemma_sets_preserve_snapshot(chain, site_lists, chain.len() - 1);
}

proof fn lemma_sets_preserve_snapshot(
    chain: Seq<HostBlocker>,
    site_lists: Seq<Seq<Seq<char>>>,
    i: int,
)
    requires
        chain.len() == site_lists.len() + 1,
        0 <= i < chain.len(),
        forall|j: int|
            0 <= j < site_lists.len() ==> set_transition(
                #[trigger] chain[j],
                chain[j + 1],
                site_lists[j],
            ),
    ensures
        chain[i].spec_snapshot() == chain[0].spec_snapshot(),
    decreases i,
{
    if i > 0 {
        lemma_sets_preserve_snapshot(chain, site_lists, i - 1);
        assert(set_transition(chain[i - 1], chain[i], site_lists[i - 1]));
    }
}

} // verus!
