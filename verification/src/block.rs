use vstd::prelude::*;

use crate::website::Website;

verus! {

/// Seconds since the Unix epoch, in UTC. All schedule times are normalized
/// to this single absolute representation before they reach this module.
pub type Timestamp = i64;

#[derive(Debug, PartialEq, Eq, Structural)]
pub enum BlockError {
    StartAfterEnd,
}

/// A tagged list of sites. A `Blacklist` blocks exactly its members during
/// the active window; a `Whitelist` blocks everything except its members.
#[derive(Debug)]
pub enum BlockList {
    Whitelist(Vec<Website>),
    Blacklist(Vec<Website>),
}

/// A `BlockList` together with the inclusive `[start, end]` window during
/// which it applies. Constructors reject `start > end`.
#[derive(Debug)]
pub struct Block {
    list: BlockList,
    time_start: Timestamp,
    time_end: Timestamp,
}

/// The given site views with later duplicates removed: each view keeps its
/// first occurrence and the surviving order is the input order.
pub open spec fn dedup_views(s: Seq<Seq<char>>) -> Seq<Seq<char>>
    decreases s.len(),
{
    if s.len() == 0 {
        Seq::empty()
    } else {
        let d = dedup_views(s.drop_last());
        if d.contains(s.last()) {
            d
        } else {
            d.push(s.last())
        }
    }
}

pub open spec fn views_of(s: Seq<Website>) -> Seq<Seq<char>> {
    s.map_values(|w: Website| w@)
}

/// True when a site view occurs at most once in the sequence.
pub open spec fn distinct_views(s: Seq<Seq<char>>) -> bool {
    forall|i: int, j: int| 0 <= i < j < s.len() ==> s[i] != s[j]
}

pub proof fn lemma_dedup_views_distinct(s: Seq<Seq<char>>)
    ensures
        distinct_views(dedup_views(s)),
        forall|x: Seq<char>| dedup_views(s).contains(x) <==> s.contains(x),
    decreases s.len(),
{
    if s.len() > 0 {
        let sd = s.drop_last();
        let d = dedup_views(sd);
        let y = s.last();
        lemma_dedup_views_distinct(sd);
        assert forall|x: Seq<char>| s.contains(x) implies dedup_views(s).contains(x) by {
            let i = choose|i: int| 0 <= i < s.len() && s[i] == x;
            if i < s.len() - 1 {
                assert(sd[i] == x);
                assert(sd.contains(x));
                let j = choose|j: int| 0 <= j < d.len() && d[j] == x;
                if !d.contains(y) {
                    assert(d.push(y)[j] == x);
                }
            } else {
                if !d.contains(y) {
                    assert(d.push(y)[d.len() as int] == x);
                }
            }
        }
        assert forall|x: Seq<char>| dedup_views(s).contains(x) implies s.contains(x) by {
            if d.contains(y) {
                assert(sd.contains(x));
                let i = choose|i: int| 0 <= i < sd.len() && sd[i] == x;
                assert(s[i] == x);
            } else {
                let j = choose|j: int| 0 <= j < d.push(y).len() && d.push(y)[j] == x;
                if j < d.len() {
                    assert(d[j] == x);
                    assert(sd.contains(x));
                    let i = choose|i: int| 0 <= i < sd.len() && sd[i] == x;
                    assert(s[i] == x);
                } else {
                    assert(s[s.len() - 1] == x);
                }
            }
        }
        if !d.contains(y) {
            assert forall|i: int, j: int| 0 <= i < j < d.push(y).len() implies d.push(y)[i]
                != d.push(y)[j] by {
                if j == d.len() {
                    if d[i] == y {
                        assert(d.contains(y));
                    }
                }
            }
        }
    }
}

/// Membership test on site views; `true` iff some element of `l` has the
/// same normalized form as `w`.
pub fn contains_website(l: &Vec<Website>, w: &Website) -> (r: bool)
    ensures
        r == views_of(l@).contains(w@),
{
    let mut i: usize = 0;
    while i < l.len()
        invariant
            i <= l.len(),
            forall|j: int| 0 <= j < i ==> views_of(l@)[j] != w@,
        decreases l.len() - i,
    {
        if &l[i] == w {
            assert(views_of(l@)[i as int] == w@);
            return true;
        }
        i += 1;
    }
    false
}

/// Copy of `v` with later duplicates (by normalized form) removed.
pub fn dedup_websites(v: &[Website]) -> (r: Vec<Website>)
    ensures
        views_of(r@) == dedup_views(views_of(v@)),
{
    let mut r: Vec<Website> = Vec::new();
    let mut i: usize = 0;
    while i < v.len()
        invariant
            i <= v.len(),
            views_of(r@) == dedup_views(views_of(v@).take(i as int)),
        decreases v.len() - i,
    {
        let ghost prefix = views_of(v@).take(i as int);
        assert(views_of(v@).take(i as int + 1).drop_last() =~= prefix);
        assert(views_of(v@).take(i as int + 1).last() == v@[i as int]@);
        if !contains_website(&r, &v[i]) {
            r.push(v[i].clone());
            assert(views_of(r@) =~= dedup_views(views_of(v@).take(i as int + 1)));
        }
        i += 1;
    }
    assert(views_of(v@).take(v@.len() as int) =~= views_of(v@));
    r
}

impl BlockList {
    /// The sites this list names, in stored order.
    pub open spec fn spec_websites(&self) -> Seq<Website> {
        match self {
            BlockList::Whitelist(l) => l@,
            BlockList::Blacklist(l) => l@,
        }
    }

    /// The normalized forms of the sites this list names, in stored order.
    pub open spec fn spec_sites(&self) -> Seq<Seq<char>> {
        views_of(self.spec_websites())
    }

    pub open spec fn is_blacklist(&self) -> bool {
        self is Blacklist
    }

    /// True iff the two lists may overlap in time without contradiction:
    /// only two blacklists are considered safe to combine.
    pub fn coexist(&self, other_list: &BlockList) -> (r: bool)
        ensures
            r == (self.is_blacklist() && other_list.is_blacklist()),
    {
        match (self, other_list) {
            (BlockList::Blacklist(_), BlockList::Blacklist(_)) => true,
            _ => false,
        }
    }

    pub fn should_block(&self, website: &Website) -> (r: bool)
        ensures
            r == if self.is_blacklist() {
                self.spec_sites().contains(website@)
            } else {
                !self.spec_sites().contains(website@)
            },
    {
        match self {
            BlockList::Blacklist(l) => contains_website(l, website),
            BlockList::Whitelist(l) => !contains_website(l, website),
        }
    }

    /// The sites this list names, for callers that flatten several lists.
    pub fn get_list(&self) -> (r: &Vec<Website>)
        ensures
            r@ == self.spec_websites(),
    {
        match self {
            BlockList::Whitelist(l) => l,
            BlockList::Blacklist(l) => l,
        }
    }
}

impl Clone for BlockList {
    fn clone(&self) -> (r: Self)
        ensures
            r.is_blacklist() == self.is_blacklist(),
            r.spec_websites() == self.spec_websites(),
    {
        match self {
            BlockList::Whitelist(l) => BlockList::Whitelist(clone_websites(l)),
            BlockList::Blacklist(l) => BlockList::Blacklist(clone_websites(l)),
        }
    }
}

fn clone_websites(v: &Vec<Website>) -> (r: Vec<Website>)
    ensures
        r@ == v@,
{
    let mut r: Vec<Website> = Vec::new();
    let mut i: usize = 0;
    while i < v.len()
        invariant
            i <= v.len(),
            r@ == v@.take(i as int),
        decreases v.len() - i,
    {
        r.push(v[i].clone());
        assert(r@ =~= v@.take(i as int + 1));
        i += 1;
    }
    assert(v@.take(v@.len() as int) =~= v@);
    r
}

impl Block {
    pub closed spec fn spec_start(&self) -> Timestamp {
        self.time_start
    }

    pub closed spec fn spec_end(&self) -> Timestamp {
        self.time_end
    }

    pub closed spec fn spec_list(&self) -> BlockList {
        self.list
    }

    /// The construction-time invariant: the window is non-empty.
    pub open spec fn wf(&self) -> bool {
        self.spec_start() <= self.spec_end()
    }

    /// Builds a block over the inclusive window `[time_start, time_end]` with
    /// the given list kept as it is; fails iff the window is empty.
    pub fn new(list: BlockList, time_start: Timestamp, time_end: Timestamp) -> (r: Result<
        Block,
        BlockError,
    >)
        ensures
            time_start > time_end ==> r == Err::<Block, BlockError>(BlockError::StartAfterEnd),
            time_start <= time_end ==> (r matches Ok(b) && {
                &&& b.spec_start() == time_start
                &&& b.spec_end() == time_end
                &&& b.spec_list() == list
                &&& b.wf()
            }),
    {
        if time_start > time_end {
            return Err(BlockError::StartAfterEnd);
        }
        Ok(Block { list, time_start, time_end })
    }

    /// Builds a denylist block over the inclusive window `[time_start, time_end]`,
    /// dropping duplicate sites; fails iff the window is empty.
    pub fn from_blacklist(blacklist: &[Website], time_start: Timestamp, time_end: Timestamp) -> (r:
        Result<Block, BlockError>)
        ensures
            time_start > time_end ==> r == Err::<Block, BlockError>(BlockError::StartAfterEnd),
            time_start <= time_end ==> (r matches Ok(b) && {
                &&& b.spec_start() == time_start
                &&& b.spec_end() == time_end
                &&& b.spec_list().is_blacklist()
                &&& b.spec_list().spec_sites() == dedup_views(views_of(blacklist@))
                &&& distinct_views(b.spec_list().spec_sites())
                &&& b.wf()
            }),
    {
        if time_start > time_end {
            return Err(BlockError::StartAfterEnd);
        }
        proof {
            lemma_dedup_views_distinct(views_of(blacklist@));
        }
        Ok(Block {
            list: BlockList::Blacklist(dedup_websites(blacklist)),
            time_start,
            time_end,
        })
    }

    /// Inclusive on both ends: `start <= time <= end`.
    pub fn contains_time(&self, time: Timestamp) -> (r: bool)
        ensures
            r == (self.spec_start() <= time <= self.spec_end()),
    {
        time >= self.time_start && time <= self.time_end
    }

    pub fn list(&self) -> (r: &BlockList)
        ensures
            *r == self.spec_list(),
    {
        &self.list
    }

    pub fn start_timestamp(&self) -> (r: Timestamp)
        ensures
            r == self.spec_start(),
    {
        self.time_start
    }

    pub fn end_timestamp(&self) -> (r: Timestamp)
        ensures
            r == self.spec_end(),
    {
        self.time_end
    }

    /// The window as a half-open range, the form the interval index takes;
    /// the inclusive upper bound becomes an exclusive `end + 1`.
    pub fn get_range(&self) -> (r: core::ops::Range<Timestamp>)
        requires
            self.spec_end() < Timestamp::MAX,
        ensures
            r.start == self.spec_start(),
            r.end == self.spec_end() + 1,
    {
        self.time_start..self.time_end + 1
    }
}

} // verus!
