use vstd::prelude::*;

use crate::block::{Block, BlockList, Timestamp};
use crate::interval_index::{
    tree_entries, tree_from_entries, tree_ok, tree_query_point, tree_query_range,
};
use intervaltree::IntervalTree;

verus! {

#[derive(Debug, PartialEq, Eq, Structural)]
pub enum SchedulerError {
    Contradiction,
}

/// Two lists may overlap in time without contradiction iff both are blacklists.
pub open spec fn lists_coexist(a: BlockList, b: BlockList) -> bool {
    a.is_blacklist() && b.is_blacklist()
}

/// A block's inclusive `[start, end]` window.
pub open spec fn spec_range(b: Block) -> (int, int) {
    (b.spec_start() as int, b.spec_end() as int)
}

/// Two inclusive windows share at least one instant.
pub open spec fn ranges_overlap(a: (int, int), b: (int, int)) -> bool {
    a.0 <= b.1 && b.0 <= a.1
}

/// No two blocks with overlapping windows contradict each other. Every block
/// overlaps itself, so each block must also coexist with its own list.
pub open spec fn compatible(blocks: Seq<Block>) -> bool {
    forall|i: int, j: int|
        0 <= i < blocks.len() && 0 <= j < blocks.len() && ranges_overlap(
            spec_range(#[trigger] blocks[i]),
            spec_range(#[trigger] blocks[j]),
        ) ==> lists_coexist(blocks[i].spec_list(), blocks[j].spec_list())
}

/// The distinct windows of the blocks, ordered by first occurrence; a
/// window's position in this sequence is its range id.
pub open spec fn group_ranges(blocks: Seq<Block>) -> Seq<(int, int)>
    decreases blocks.len(),
{
    if blocks.len() == 0 {
        Seq::empty()
    } else {
        let d = group_ranges(blocks.drop_last());
        if d.contains(spec_range(blocks.last())) {
            d
        } else {
            d.push(spec_range(blocks.last()))
        }
    }
}

/// The blocks whose window is exactly `rg`, in input order.
pub open spec fn blocks_with_range(blocks: Seq<Block>, rg: (int, int)) -> Seq<Block>
    decreases blocks.len(),
{
    if blocks.len() == 0 {
        Seq::empty()
    } else {
        let d = blocks_with_range(blocks.drop_last(), rg);
        if spec_range(blocks.last()) == rg {
            d.push(blocks.last())
        } else {
            d
        }
    }
}

/// The latest end time over all blocks; zero when there are none.
pub open spec fn max_end_of(blocks: Seq<Block>) -> int
    decreases blocks.len(),
{
    if blocks.len() == 0 {
        0
    } else if blocks.len() == 1 {
        blocks[0].spec_end() as int
    } else {
        let m = max_end_of(blocks.drop_last());
        if blocks.last().spec_end() as int > m {
            blocks.last().spec_end() as int
        } else {
            m
        }
    }
}

pub proof fn lemma_grouping(s: Seq<Block>, rg: (int, int))
    ensures
        forall|x: Block| #[trigger] blocks_with_range(s, rg).contains(x) ==> s.contains(x)
            && spec_range(x) == rg,
        group_ranges(s).contains(rg) <==> exists|k: int|
            0 <= k < s.len() && spec_range(#[trigger] s[k]) == rg,
        forall|k: int| 0 <= k < s.len() && spec_range(#[trigger] s[k]) == rg ==> blocks_with_range(
            s,
            rg,
        ).contains(s[k]),
    decreases s.len(),
{
    if s.len() > 0 {
        let sd = s.drop_last();
        let d = blocks_with_range(sd, rg);
        let dr = group_ranges(sd);
        lemma_grouping(sd, rg);
        assert forall|x: Block| #[trigger] blocks_with_range(s, rg).contains(x) implies s.contains(
            x,
        ) && spec_range(x) == rg by {
            if spec_range(s.last()) == rg {
                let j = choose|j: int|
                    0 <= j < d.push(s.last()).len() && d.push(s.last())[j] == x;
                if j < d.len() {
                    assert(d[j] == x);
                    assert(d.contains(x));
                    let i = choose|i: int| 0 <= i < sd.len() && sd[i] == x;
                    assert(s[i] == x);
                } else {
                    assert(s[s.len() - 1] == x);
                }
            } else {
                assert(d.contains(x));
                let i = choose|i: int| 0 <= i < sd.len() && sd[i] == x;
                assert(s[i] == x);
            }
        }
        assert forall|k: int|
            0 <= k < s.len() && spec_range(#[trigger] s[k]) == rg implies blocks_with_range(
            s,
            rg,
        ).contains(s[k]) by {
            if k < s.len() - 1 {
                assert(sd[k] == s[k]);
                assert(d.contains(s[k]));
                let j = choose|j: int| 0 <= j < d.len() && d[j] == s[k];
                if spec_range(s.last()) == rg {
                    assert(d.push(s.last())[j] == s[k]);
                }
            } else {
                assert(blocks_with_range(s, rg).last() == s[k]);
            }
        }
        if group_ranges(s).contains(rg) {
            if !dr.contains(rg) {
                if spec_range(s.last()) == rg {
                    assert(spec_range(s[s.len() - 1]) == rg);
                } else {
                    assert(group_ranges(s) == dr);
                }
            } else {
                let k = choose|k: int| 0 <= k < sd.len() && spec_range(#[trigger] sd[k]) == rg;
                assert(spec_range(s[k]) == rg);
            }
        }
        if exists|k: int| 0 <= k < s.len() && spec_range(#[trigger] s[k]) == rg {
            let k = choose|k: int| 0 <= k < s.len() && spec_range(#[trigger] s[k]) == rg;
            if k < s.len() - 1 {
                assert(spec_range(sd[k]) == rg);
                assert(dr.contains(rg));
                if !dr.contains(spec_range(s.last())) {
                    let j = choose|j: int| 0 <= j < dr.len() && dr[j] == rg;
                    assert(dr.push(spec_range(s.last()))[j] == rg);
                }
            } else {
                if !dr.contains(rg) {
                    assert(group_ranges(s).last() == rg);
                }
            }
        }
    }
}

struct Group {
    start: Timestamp,
    end: Timestamp,
    blocks: Vec<Block>,
}

spec fn group_wf(g: Group) -> bool {
    &&& g.start <= g.end
    &&& g.end < Timestamp::MAX
    &&& g.blocks@.len() > 0
    &&& forall|k: int|
        0 <= k < g.blocks@.len() ==> spec_range(#[trigger] g.blocks@[k]) == (
        g.start as int,
        g.end as int,
        )
}

spec fn group_range(g: Group) -> (int, int) {
    (g.start as int, g.end as int)
}

/// All pairs of blocks drawn from the two groups coexist.
spec fn all_pairs_coexist(a: Group, b: Group) -> bool {
    forall|x: int, y: int|
        0 <= x < a.blocks@.len() && 0 <= y < b.blocks@.len() ==> lists_coexist(
            (#[trigger] a.blocks@[x]).spec_list(),
            (#[trigger] b.blocks@[y]).spec_list(),
        )
}

/// All pairs of blocks drawn from the two groups coexist whenever the two
/// windows overlap.
spec fn group_pair_checked(a: Group, b: Group) -> bool {
    ranges_overlap(group_range(a), group_range(b)) ==> all_pairs_coexist(a, b)
}

/// An immutable index over a fixed collection of blocks, built once at
/// construction and queryable by instant.
pub struct Scheduler {
    max_end: Timestamp,
    groups: Vec<Group>,
    index: IntervalTree<i64, usize>,
}

impl Scheduler {
    /// The distinct windows, by range id.
    pub closed spec fn spec_ranges(&self) -> Seq<(int, int)> {
        self.groups@.map_values(|g: Group| group_range(g))
    }

    /// The blocks whose window has the given range id.
    pub closed spec fn spec_group_blocks(&self, id: int) -> Seq<Block> {
        self.groups@[id].blocks@
    }

    /// The latest end time over all indexed blocks; zero when there are none.
    pub closed spec fn spec_max_end(&self) -> int {
        self.max_end as int
    }

    /// The given range id's window contains the instant `t`.
    pub open spec fn id_active_at(&self, id: int, t: int) -> bool {
        &&& 0 <= id < self.spec_ranges().len()
        &&& self.spec_ranges()[id].0 <= t
        &&& t <= self.spec_ranges()[id].1
    }

    pub closed spec fn wf(&self) -> bool {
        &&& forall|id: int| 0 <= id < self.groups@.len() ==> group_wf(#[trigger] self.groups@[id])
        &&& forall|i: int, j: int|
            0 <= i < j < self.groups@.len() ==> group_range(self.groups@[i]) != group_range(
                self.groups@[j],
            )
        &&& tree_ok(self.index)
        &&& forall|id: int|
            #[trigger] tree_entries(self.index).dom().contains(id) <==> 0 <= id
                < self.groups@.len()
        &&& forall|id: int|
            0 <= id < self.groups@.len() ==> tree_entries(self.index)[id] == (
            self.groups@[id].start as int,
            self.groups@[id].end as int + 1,
            )
    }

    /// Groups the blocks by identical window, indexes the distinct windows,
    /// and validates that every pair of overlapping blocks coexists; fails
    /// with `Contradiction` (producing no scheduler) iff some pair does not.
    #[verifier::loop_isolation(false)]
    pub fn new(blocks: Vec<Block>) -> (r: Result<Scheduler, SchedulerError>)
        requires
            forall|k: int| 0 <= k < blocks@.len() ==> (#[trigger] blocks@[k]).wf(),
            forall|k: int|
                0 <= k < blocks@.len() ==> (#[trigger] blocks@[k]).spec_end() < Timestamp::MAX,
        ensures
            r is Ok <==> compatible(blocks@),
            !compatible(blocks@) ==> r == Err::<Scheduler, SchedulerError>(
                SchedulerError::Contradiction,
            ),
            r matches Ok(s) ==> {
                &&& s.wf()
                &&& s.spec_ranges() == group_ranges(blocks@)
                &&& forall|id: int|
                    0 <= id < group_ranges(blocks@).len() ==> s.spec_group_blocks(id)
                        == blocks_with_range(blocks@, group_ranges(blocks@)[id])
                &&& s.spec_max_end() == max_end_of(blocks@)
            },
    {
        let ghost orig = blocks@;
        let mut blocks = blocks;
        let n_total = blocks.len();
        let ghost total = n_total as int;
        let mut groups: Vec<Group> = Vec::new();
        let mut max_end: Timestamp = 0;
        let mut n_done: usize = 0;

        while blocks.len() > 0
            invariant
                n_done + blocks@.len() == total,
                n_done <= n_total,
                blocks@ =~= orig.skip(n_done as int),
                orig.len() == total,
                forall|k: int| 0 <= k < orig.len() ==> (#[trigger] orig[k]).wf(),
                forall|k: int|
                    0 <= k < orig.len() ==> (#[trigger] orig[k]).spec_end() < Timestamp::MAX,
                groups@.map_values(|g: Group| group_range(g)) =~= group_ranges(
                    orig.take(n_done as int),
                ),
                forall|id: int|
                    0 <= id < groups@.len() ==> (#[trigger] groups@[id]).blocks@
                        =~= blocks_with_range(
                        orig.take(n_done as int),
                        group_range(groups@[id]),
                    ),
                forall|id: int| 0 <= id < groups@.len() ==> group_wf(#[trigger] groups@[id]),
                forall|i: int, j: int|
                    0 <= i < j < groups@.len() ==> group_range(groups@[i]) != group_range(
                        groups@[j],
                    ),
                max_end as int == max_end_of(orig.take(n_done as int)),
            decreases blocks@.len(),
        {
            let ghost done = orig.take(n_done as int);
            let b = blocks.remove(0);
            assert(b == orig[n_done as int]);
            assert(orig.take(n_done as int + 1).drop_last() =~= done);
            assert(orig.take(n_done as int + 1).last() == b);
            let ghost done1 = orig.take(n_done as int + 1);

            let s = b.start_timestamp();
            let e = b.end_timestamp();
            if n_done == 0 {
                max_end = e;
            } else if e > max_end {
                max_end = e;
            }
            proof {
                if done1.len() == 1 {
                    assert(max_end_of(done1) == done1[0].spec_end() as int);
                } else {
                    assert(max_end_of(done1) == if done1.last().spec_end() as int > max_end_of(
                        done,
                    ) {
                        done1.last().spec_end() as int
                    } else {
                        max_end_of(done)
                    });
                }
            }

            let found = find_group(&groups, s, e);
            match found {
                Some(gi) => {
                    let ghost old_groups = groups@;
                    let mut g = groups.remove(gi);
                    let ghost mid = groups@;
                    g.blocks.push(b);
                    let ghost gfin = g;
                    groups.insert(gi, g);
                    proof {
                        let gii = gi as int;
                        assert(mid == old_groups.remove(gii));
                        assert(groups@ == mid.insert(gii, gfin));
                        old_groups.remove_ensures(gii);
                        mid.insert_ensures(gii, gfin);
                        assert(groups@.len() == old_groups.len());
                        assert(groups@[gii] == gfin);
                        assert(gfin.start == s && gfin.end == e);
                        assert(gfin.blocks@ == old_groups[gii].blocks@.push(b));
                        assert forall|i: int|
                            0 <= i < groups@.len() && i != gii implies groups@[i] == old_groups[i]
                        by {
                            if i < gii {
                                assert(groups@[i] == mid[i]);
                                assert(mid[i] == old_groups[i]);
                            } else {
                                assert(groups@[i] == mid[i - 1]);
                                assert(mid[i - 1] == old_groups[i]);
                            }
                        }
                        assert(group_range(groups@[gii]) == spec_range(b));
                        assert(group_ranges(done)[gii] == spec_range(b)) by {
                            assert(old_groups.map_values(|g2: Group| group_range(g2))[gii]
                                == spec_range(b));
                        }
                        assert(group_ranges(done).contains(spec_range(b)));
                        assert(done1.drop_last() == done);
                        assert(group_ranges(done1) == group_ranges(done));
                        assert(groups@.map_values(|g: Group| group_range(g)) =~= group_ranges(
                            done1,
                        ));
                        assert forall|id: int| 0 <= id < groups@.len() implies
                            (#[trigger] groups@[id]).blocks@ =~= blocks_with_range(done1, group_range(groups@[id])) by {
                            if id == gi {
                                assert(blocks_with_range(done1, spec_range(b))
                                    == blocks_with_range(done, spec_range(b)).push(b));
                            } else {
                                assert(group_range(groups@[id]) != spec_range(b));
                                assert(blocks_with_range(done1, group_range(groups@[id]))
                                    == blocks_with_range(done, group_range(groups@[id])));
                            }
                        }
                    }
                }
                None => {
                    let mut nv: Vec<Block> = Vec::new();
                    nv.push(b);
                    groups.push(Group { start: s, end: e, blocks: nv });
                    proof {
                        assert(!group_ranges(done).contains(spec_range(b))) by {
                            if group_ranges(done).contains(spec_range(b)) {
                                let id = choose|id: int|
                                    0 <= id < group_ranges(done).len() && group_ranges(done)[id]
                                        == spec_range(b);
                                assert(group_range(groups@[id]) == spec_range(b));
                            }
                        }
                        assert(group_ranges(done1) == group_ranges(done).push(spec_range(b)));
                        assert(groups@.map_values(|g: Group| group_range(g)) =~= group_ranges(
                            done1,
                        ));
                        lemma_grouping(done, spec_range(b));
                        assert(blocks_with_range(done, spec_range(b)) =~= Seq::<Block>::empty())
                            by {
                            if blocks_with_range(done, spec_range(b)).len() > 0 {
                                let x = blocks_with_range(done, spec_range(b))[0];
                                assert(blocks_with_range(done, spec_range(b)).contains(x));
                                assert(done.contains(x));
                                let k = choose|k: int| 0 <= k < done.len() && done[k] == x;
                                assert(spec_range(done[k]) == spec_range(b));
                                assert(group_ranges(done).contains(spec_range(b)));
                            }
                        }
                        assert forall|id: int| 0 <= id < groups@.len() implies
                            (#[trigger] groups@[id]).blocks@ =~= blocks_with_range(done1, group_range(groups@[id])) by {
                            if id == groups@.len() - 1 {
                                assert(blocks_with_range(done1, spec_range(b))
                                    == blocks_with_range(done, spec_range(b)).push(b));
                            } else {
                                assert(group_range(groups@[id]) != spec_range(b));
                                assert(blocks_with_range(done1, group_range(groups@[id]))
                                    == blocks_with_range(done, group_range(groups@[id])));
                            }
                        }
                    }
                }
            }
            n_done += 1;
        }
        proof {
            assert(orig.take(total as int) =~= orig);
        }

        // Build the interval index: one element per distinct window, keyed by
        // its half-open form, valued by its range id.
        let mut elems: Vec<(i64, i64, usize)> = Vec::new();
        let mut id: usize = 0;
        while id < groups.len()
            invariant
                id <= groups@.len(),
                elems@.len() == id,
                forall|id2: int| 0 <= id2 < groups@.len() ==> group_wf(#[trigger] groups@[id2]),
                forall|k: int|
                    0 <= k < id ==> {
                        &&& (#[trigger] elems@[k]).0 == groups@[k].start
                        &&& elems@[k].1 as int == groups@[k].end as int + 1
                        &&& elems@[k].2 == k
                    },
            decreases groups@.len() - id,
        {
            let g_start = groups[id].start;
            let g_end = groups[id].end;
            elems.push((g_start, g_end + 1, id));
            id += 1;
        }
        let index = tree_from_entries(&elems);
        proof {
            assert forall|id2: int| #[trigger]
                tree_entries(index).dom().contains(id2) implies 0 <= id2 < groups@.len() by {
                let i = choose|i: int| 0 <= i < elems@.len() && (#[trigger] elems@[i]).2 as int
                    == id2;
            }
            assert forall|id2: int| 0 <= id2 < groups@.len() implies tree_entries(
                index,
            ).dom().contains(id2) && tree_entries(index)[id2] == (
                groups@[id2].start as int,
                groups@[id2].end as int + 1,
            ) by {
                assert(elems@[id2].2 as int == id2);
            }
            assert forall|id2: int| #[trigger]
                tree_entries(index).dom().contains(id2) <==> 0 <= id2 < groups@.len() by {
                if 0 <= id2 < groups@.len() {
                    assert(elems@[id2].2 as int == id2);
                    assert(tree_entries(index).dom().contains(id2));
                }
            }
        }

        // Validate: every pair of blocks in overlapping windows must coexist.
        let mut gi: usize = 0;
        while gi < groups.len()
            invariant
                groups@.map_values(|g: Group| group_range(g)) =~= group_ranges(orig),
                forall|id2: int|
                    0 <= id2 < groups@.len() ==> (#[trigger] groups@[id2]).blocks@
                        =~= blocks_with_range(orig, group_range(groups@[id2])),
                forall|id2: int| 0 <= id2 < groups@.len() ==> group_wf(#[trigger] groups@[id2]),
                forall|i: int, j: int|
                    0 <= i < j < groups@.len() ==> group_range(groups@[i]) != group_range(
                        groups@[j],
                    ),
                tree_ok(index),
                forall|id2: int|
                    #[trigger] tree_entries(index).dom().contains(id2) <==> 0 <= id2
                        < groups@.len(),
                forall|id2: int|
                    0 <= id2 < groups@.len() ==> tree_entries(index)[id2] == (
                    groups@[id2].start as int,
                    groups@[id2].end as int + 1,
                    ),
                max_end as int == max_end_of(orig),
                gi <= groups@.len(),
                forall|g1: int, g2: int|
                    0 <= g1 < gi && 0 <= g2 < groups@.len() ==> group_pair_checked(
                        #[trigger] groups@[g1],
                        #[trigger] groups@[g2],
                    ),
            decreases groups@.len() - gi,
        {
            let g_start = groups[gi].start;
            let g_end = groups[gi].end;
            let ids = tree_query_range(&index, g_start, g_end + 1);
            proof {
                assert forall|q: int| 0 <= q < ids@.len() implies ((#[trigger] ids@[q]) as int)
                    < groups@.len() by {
                    assert(ids@.contains(ids@[q]));
                }
            }
            if !check_group_against(&groups, gi, &ids) {
                proof {
                    let a = groups@[gi as int];
                    let qk = choose|qk: int|
                        0 <= qk < ids@.len() && !all_pairs_coexist(
                            a,
                            groups@[(#[trigger] ids@[qk]) as int],
                        );
                    let bgr = groups@[ids@[qk] as int];
                    let (x, y): (int, int) = choose|x: int, y: int|
                        0 <= x < a.blocks@.len() && 0 <= y < bgr.blocks@.len() && !lists_coexist(
                            (#[trigger] a.blocks@[x]).spec_list(),
                            (#[trigger] bgr.blocks@[y]).spec_list(),
                        );
                    let b1 = a.blocks@[x];
                    let b2 = bgr.blocks@[y];
                    assert(ids@.contains(ids@[qk]));
                    assert(ranges_overlap(group_range(a), group_range(bgr)));
                    assert(spec_range(b1) == group_range(a));
                    assert(spec_range(b2) == group_range(bgr));
                    lemma_grouping(orig, group_range(a));
                    lemma_grouping(orig, group_range(bgr));
                    assert(a.blocks@.contains(b1));
                    assert(bgr.blocks@.contains(b2));
                    assert(orig.contains(b1));
                    assert(orig.contains(b2));
                    let i1 = choose|i: int| 0 <= i < orig.len() && orig[i] == b1;
                    let i2 = choose|i: int| 0 <= i < orig.len() && orig[i] == b2;
                    assert(ranges_overlap(spec_range(orig[i1]), spec_range(orig[i2])));
                    assert(!lists_coexist(orig[i1].spec_list(), orig[i2].spec_list()));
                    assert(!compatible(orig));
                }
                return Err(SchedulerError::Contradiction);
            }
            proof {
                assert forall|g2: int| 0 <= g2 < groups@.len() implies group_pair_checked(
                    groups@[gi as int],
                    groups@[g2],
                ) by {
                    if ranges_overlap(group_range(groups@[gi as int]), group_range(groups@[g2])) {
                        let id2: usize = g2 as usize;
                        assert(tree_entries(index).dom().contains(g2));
                        assert(tree_entries(index)[g2] == (
                            groups@[g2].start as int,
                            groups@[g2].end as int + 1,
                        ));
                        assert(ids@.contains(id2));
                        let qk = choose|qk: int| 0 <= qk < ids@.len() && ids@[qk] == id2;
                        assert(ids@[qk] == id2);
                        assert(all_pairs_coexist(groups@[gi as int], groups@[g2]));
                    }
                }
            }
            gi += 1;
        }

        proof {
            assert(compatible(orig)) by {
                assert forall|i: int, j: int|
                    0 <= i < orig.len() && 0 <= j < orig.len() && ranges_overlap(
                        spec_range(orig[i]),
                        spec_range(orig[j]),
                    ) implies lists_coexist(orig[i].spec_list(), orig[j].spec_list()) by {
                    let rgi = spec_range(orig[i]);
                    let rgj = spec_range(orig[j]);
                    lemma_grouping(orig, rgi);
                    lemma_grouping(orig, rgj);
                    assert(group_ranges(orig).contains(rgi));
                    assert(group_ranges(orig).contains(rgj));
                    let gi1 = choose|g: int|
                        0 <= g < group_ranges(orig).len() && group_ranges(orig)[g] == rgi;
                    let gj1 = choose|g: int|
                        0 <= g < group_ranges(orig).len() && group_ranges(orig)[g] == rgj;
                    assert(group_range(groups@[gi1]) == rgi);
                    assert(group_range(groups@[gj1]) == rgj);
                    assert(blocks_with_range(orig, rgi).contains(orig[i]));
                    assert(blocks_with_range(orig, rgj).contains(orig[j]));
                    assert(groups@[gi1].blocks@.contains(orig[i]));
                    assert(groups@[gj1].blocks@.contains(orig[j]));
                    let x = choose|x: int|
                        0 <= x < groups@[gi1].blocks@.len() && groups@[gi1].blocks@[x] == orig[i];
                    let y = choose|y: int|
                        0 <= y < groups@[gj1].blocks@.len() && groups@[gj1].blocks@[y] == orig[j];
                    assert(group_pair_checked(groups@[gi1], groups@[gj1]));
                }
            }
        }

        Ok(Scheduler { max_end, groups, index })
    }

    /// True iff no block can ever become active again: `now` is strictly
    /// after the latest end time.
    pub fn is_past_end(&self, curr_time: Timestamp) -> (r: bool)
        ensures
            r == (curr_time as int > self.spec_max_end()),
    {
        curr_time > self.max_end
    }

    /// `s` lists exactly the range ids active at `t`, strictly increasing.
    pub open spec fn spec_canonical_ids(&self, s: Seq<usize>, t: int) -> bool {
        &&& sorted_ids(s)
        &&& forall|id: usize| #[trigger] s.contains(id) <==> self.id_active_at(id as int, t)
    }

    /// The ids of all windows containing `now`, in strictly increasing order.
    pub fn get_block_ids(&self, curr_time: Timestamp) -> (r: Vec<usize>)
        requires
            self.wf(),
        ensures
            self.spec_canonical_ids(r@, curr_time as int),
    {
        let raw = tree_query_point(&self.index, curr_time);
        let n = self.groups.len();
        let mut present: Vec<bool> = Vec::new();
        let mut k: usize = 0;
        while k < n
            invariant
                present@.len() == k,
                k <= n,
                forall|i: int| 0 <= i < k ==> !(#[trigger] present@[i]),
            decreases n - k,
        {
            present.push(false);
            k += 1;
        }
        let mut q: usize = 0;
        while q < raw.len()
            invariant
                self.wf(),
                n == self.groups@.len(),
                present@.len() == n,
                q <= raw@.len(),
                forall|i: int, j: int| 0 <= i < j < raw@.len() ==> raw@[i] != raw@[j],
                forall|id: usize| #[trigger] raw@.contains(id) <==> {
                    &&& tree_entries(self.index).dom().contains(id as int)
                    &&& tree_entries(self.index)[id as int].0 <= curr_time as int
                    &&& (curr_time as int) < tree_entries(self.index)[id as int].1
                },
                forall|id: int|
                    0 <= id < n ==> ((#[trigger] present@[id]) <==> exists|qq: int|
                        0 <= qq < q && raw@[qq] == id),
            decreases raw@.len() - q,
        {
            let id = raw[q];
            proof {
                assert(raw@.contains(raw@[q as int]));
            }
            present.set(id, true);
            proof {
                assert forall|id3: int|
                    0 <= id3 < n implies ((#[trigger] present@[id3]) <==> exists|qq: int|
                    0 <= qq < q + 1 && raw@[qq] == id3) by {
                    if id3 == id {
                        assert(raw@[q as int] == id3);
                    } else {
                        if exists|qq: int| 0 <= qq < q + 1 && raw@[qq] == id3 {
                            let qq = choose|qq: int| 0 <= qq < q + 1 && raw@[qq] == id3;
                            assert(qq < q);
                        }
                    }
                }
            }
            q += 1;
        }
        let mut r: Vec<usize> = Vec::new();
        let mut id: usize = 0;
        while id < n
            invariant
                self.wf(),
                n == self.groups@.len(),
                present@.len() == n,
                id <= n,
                forall|i: int, j: int| 0 <= i < j < r@.len() ==> r@[i] < r@[j],
                forall|i: int| 0 <= i < r@.len() ==> (#[trigger] r@[i]) < id,
                forall|id2: usize| #[trigger]
                    r@.contains(id2) <==> (id2 < id && present@[id2 as int]),
                forall|id2: usize| #[trigger] raw@.contains(id2) <==> {
                    &&& tree_entries(self.index).dom().contains(id2 as int)
                    &&& tree_entries(self.index)[id2 as int].0 <= curr_time as int
                    &&& (curr_time as int) < tree_entries(self.index)[id2 as int].1
                },
                forall|id2: int|
                    0 <= id2 < n ==> ((#[trigger] present@[id2]) <==> raw@.contains(
                        id2 as usize,
                    )),
            decreases n - id,
        {
            if present[id] {
                let ghost old_r = r@;
                r.push(id);
                proof {
                    assert forall|id2: usize| #[trigger] r@.contains(id2) implies (id2 < id + 1
                        && present@[id2 as int]) by {
                        let i = choose|i: int| 0 <= i < r@.len() && r@[i] == id2;
                        if i < old_r.len() {
                            assert(old_r[i] == id2);
                            assert(old_r.contains(id2));
                        }
                    }
                    assert forall|id2: usize| (id2 < id + 1 && present@[id2 as int]) implies
                        #[trigger] r@.contains(id2) by {
                        if id2 < id {
                            assert(old_r.contains(id2));
                            let i = choose|i: int| 0 <= i < old_r.len() && old_r[i] == id2;
                            assert(r@[i] == id2);
                        } else {
                            assert(r@[r@.len() - 1] == id2);
                        }
                    }
                }
            } else {
                proof {
                    assert forall|id2: usize| #[trigger] r@.contains(id2) implies (id2 < id + 1
                        && present@[id2 as int]) by {}
                    assert forall|id2: usize| (id2 < id + 1 && present@[id2 as int]) implies
                        #[trigger] r@.contains(id2) by {
                        assert(id2 != id);
                    }
                }
            }
            id += 1;
        }
        proof {
            assert forall|id2: usize| #[trigger] r@.contains(id2) <==> self.id_active_at(
                id2 as int,
                curr_time as int,
            ) by {
                if id2 < n {
                    assert(tree_entries(self.index).dom().contains(id2 as int));
                    assert(tree_entries(self.index)[id2 as int] == (
                        self.groups@[id2 as int].start as int,
                        self.groups@[id2 as int].end as int + 1,
                    ));
                    assert(self.spec_ranges()[id2 as int] == group_range(
                        self.groups@[id2 as int],
                    ));
                } else {
                    if tree_entries(self.index).dom().contains(id2 as int) {
                        assert(0 <= id2 as int && (id2 as int) < self.groups@.len());
                    }
                }
            }
        }
        r
    }
}

/// The model of a block list: its variant tag and its site views.
pub open spec fn list_model(l: BlockList) -> (bool, Seq<Seq<char>>) {
    (l.is_blacklist(), l.spec_sites())
}

impl Scheduler {
    /// The models of the lists of all blocks in groups `0..n` that are active
    /// at `t`, ascending by range id, blocks in input order within a group.
    pub open spec fn active_models_up_to(&self, t: int, n: int) -> Seq<(bool, Seq<Seq<char>>)>
        decreases n,
    {
        if n <= 0 {
            Seq::empty()
        } else {
            self.active_models_up_to(t, n - 1) + if self.id_active_at(n - 1, t) {
                self.spec_group_blocks(n - 1).map_values(|b: Block| list_model(b.spec_list()))
            } else {
                Seq::empty()
            }
        }
    }

    /// The models of the lists of every block active at `t`.
    pub open spec fn spec_active_models(&self, t: int) -> Seq<(bool, Seq<Seq<char>>)> {
        self.active_models_up_to(t, self.spec_ranges().len() as int)
    }

    /// The lists of every block active at `now`, possibly with duplicates;
    /// the caller is responsible for flattening and unioning the sites.
    #[verifier::loop_isolation(false)]
    pub fn get_block_list(&self, curr_time: Timestamp) -> (r: Vec<BlockList>)
        requires
            self.wf(),
        ensures
            r@.map_values(|l: BlockList| list_model(l)) == self.spec_active_models(
                curr_time as int,
            ),
    {
        let ghost t: int = curr_time as int;
        let mut r: Vec<BlockList> = Vec::new();
        let mut gi: usize = 0;
        while gi < self.groups.len()
            invariant
                gi <= self.groups@.len(),
                r@.map_values(|l: BlockList| list_model(l)) =~= self.active_models_up_to(
                    t,
                    gi as int,
                ),
            decreases self.groups@.len() - gi,
        {
            let g = &self.groups[gi];
            if g.start <= curr_time && curr_time <= g.end {
                proof {
                    assert(self.spec_ranges()[gi as int] == group_range(self.groups@[gi as int]));
                    assert(self.id_active_at(gi as int, t));
                }
                let mut k: usize = 0;
                while k < g.blocks.len()
                    invariant
                        gi < self.groups@.len(),
                        k <= g.blocks@.len(),
                        g == &self.groups@[gi as int],
                        r@.map_values(|l: BlockList| list_model(l)) =~= self.active_models_up_to(
                            t,
                            gi as int,
                        ) + self.spec_group_blocks(gi as int).map_values(
                            |b: Block| list_model(b.spec_list()),
                        ).take(k as int),
                    decreases g.blocks@.len() - k,
                {
                    let lst = g.blocks[k].list().clone();
                    let ghost pushed = lst;
                    let ghost old_r = r@;
                    r.push(lst);
                    proof {
                        let f = |l: BlockList| list_model(l);
                        let m = |b: Block| list_model(b.spec_list());
                        assert(list_model(pushed) == m(self.spec_group_blocks(gi as int)[k as int]));
                        assert(r@ == old_r.push(pushed));
                        assert(r@.map_values(f) =~= old_r.map_values(f).push(f(pushed)));
                        assert(self.spec_group_blocks(gi as int).map_values(m).take(k as int + 1)
                            =~= self.spec_group_blocks(gi as int).map_values(m).take(
                            k as int,
                        ).push(m(self.spec_group_blocks(gi as int)[k as int])));
                        assert(r@.map_values(f) =~= self.active_models_up_to(t, gi as int)
                            + self.spec_group_blocks(gi as int).map_values(m).take(k as int + 1));
                    }
                    k += 1;
                }
                proof {
                    let m = |b: Block| list_model(b.spec_list());
                    assert(self.spec_group_blocks(gi as int).map_values(m).take(
                        g.blocks@.len() as int,
                    ) =~= self.spec_group_blocks(gi as int).map_values(m));
                    assert(r@.map_values(|l: BlockList| list_model(l)) =~= self.active_models_up_to(
                        t,
                        gi as int + 1,
                    ));
                }
            } else {
                proof {
                    assert(self.spec_ranges()[gi as int] == group_range(self.groups@[gi as int]));
                    assert(!self.id_active_at(gi as int, t));
                    assert(self.active_models_up_to(t, gi as int + 1) =~= self.active_models_up_to(
                        t,
                        gi as int,
                    ));
                }
            }
            gi += 1;
        }
        r
    }
}

/// Strictly increasing, hence duplicate-free.
pub open spec fn sorted_ids(s: Seq<usize>) -> bool {
    forall|i: int, j: int| 0 <= i < j < s.len() ==> s[i] < s[j]
}

/// Two canonical id lists for the same instant are identical: the range-id
/// device turns comparison of active sets into plain list equality.
pub proof fn lemma_canonical_ids_unique(a: Seq<usize>, b: Seq<usize>, sched: &Scheduler, t: int)
    requires
        sched.spec_canonical_ids(a, t),
        sched.spec_canonical_ids(b, t),
    ensures
        a == b,
{
    assert forall|x: usize| a.contains(x) <==> b.contains(x) by {
        if a.contains(x) {
            assert(sched.id_active_at(x as int, t));
        }
        if b.contains(x) {
            assert(sched.id_active_at(x as int, t));
        }
    }
    lemma_sorted_same_membership(a, b);
}

proof fn lemma_sorted_same_membership(a: Seq<usize>, b: Seq<usize>)
    requires
        forall|i: int, j: int| 0 <= i < j < a.len() ==> a[i] < a[j],
        forall|i: int, j: int| 0 <= i < j < b.len() ==> b[i] < b[j],
        forall|x: usize| #[trigger] a.contains(x) <==> b.contains(x),
    ensures
        a == b,
    decreases a.len(),
{
    if a.len() == 0 {
        if b.len() > 0 {
            assert(b.contains(b[0]));
            assert(a.contains(b[0]));
        }
        assert(a =~= b);
    } else if b.len() == 0 {
        assert(a.contains(a[0]));
        assert(b.contains(a[0]));
    } else {
        assert(a.contains(a[0]));
        assert(b.contains(b[0]));
        assert(a.contains(b[0]));
        let j = choose|j: int| 0 <= j < b.len() && b[j] == a[0];
        let i = choose|i: int| 0 <= i < a.len() && a[i] == b[0];
        assert(a[0] <= a[i]);
        assert(b[0] <= b[j]);
        assert(a[0] == b[0]);
        let at = a.skip(1);
        let bt = b.skip(1);
        assert forall|x: usize| #[trigger] at.contains(x) <==> bt.contains(x) by {
            if at.contains(x) {
                let k = choose|k: int| 0 <= k < at.len() && at[k] == x;
                assert(a[k + 1] == x);
                assert(a.contains(x));
                assert(x > a[0]);
                let k2 = choose|k2: int| 0 <= k2 < b.len() && b[k2] == x;
                assert(k2 > 0);
                assert(bt[k2 - 1] == x);
            }
            if bt.contains(x) {
                let k = choose|k: int| 0 <= k < bt.len() && bt[k] == x;
                assert(b[k + 1] == x);
                assert(b.contains(x));
                assert(a.contains(x));
                assert(x > b[0]);
                let k2 = choose|k2: int| 0 <= k2 < a.len() && a[k2] == x;
                assert(k2 > 0);
                assert(at[k2 - 1] == x);
            }
        }
        assert(forall|i2: int, j2: int| 0 <= i2 < j2 < at.len() ==> at[i2] < at[j2]) by {
            assert(forall|i2: int, j2: int|
                0 <= i2 < j2 < at.len() ==> at[i2] == a[i2 + 1] && at[j2] == a[j2 + 1]);
        }
        assert(forall|i2: int, j2: int| 0 <= i2 < j2 < bt.len() ==> bt[i2] < bt[j2]) by {
            assert(forall|i2: int, j2: int|
                0 <= i2 < j2 < bt.len() ==> bt[i2] == b[i2 + 1] && bt[j2] == b[j2 + 1]);
        }
        lemma_sorted_same_membership(at, bt);
        assert(a =~= b) by {
            assert(forall|k: int| 1 <= k < a.len() ==> a[k] == at[k - 1] && b[k] == bt[k - 1]);
        }
    }
}

/// Reports whether every block of `a` coexists with every block of `b`.
fn check_group_pair(a: &Group, b: &Group) -> (r: bool)
    ensures
        r <==> all_pairs_coexist(*a, *b),
{
    let mut x: usize = 0;
    while x < a.blocks.len()
        invariant
            x <= a.blocks@.len(),
            forall|x2: int, y2: int|
                0 <= x2 < x && 0 <= y2 < b.blocks@.len() ==> lists_coexist(
                    (#[trigger] a.blocks@[x2]).spec_list(),
                    (#[trigger] b.blocks@[y2]).spec_list(),
                ),
        decreases a.blocks@.len() - x,
    {
        let mut y: usize = 0;
        while y < b.blocks.len()
            invariant
                x < a.blocks@.len(),
                y <= b.blocks@.len(),
                forall|x2: int, y2: int|
                    0 <= x2 < x && 0 <= y2 < b.blocks@.len() ==> lists_coexist(
                        (#[trigger] a.blocks@[x2]).spec_list(),
                        (#[trigger] b.blocks@[y2]).spec_list(),
                    ),
                forall|y2: int|
                    0 <= y2 < y ==> lists_coexist(
                        a.blocks@[x as int].spec_list(),
                        (#[trigger] b.blocks@[y2]).spec_list(),
                    ),
            decreases b.blocks@.len() - y,
        {
            if !b.blocks[y].list().coexist(a.blocks[x].list()) {
                assert(!lists_coexist(
                    a.blocks@[x as int].spec_list(),
                    b.blocks@[y as int].spec_list(),
                ));
                return false;
            }
            y += 1;
        }
        x += 1;
    }
    true
}

/// Reports whether every block of group `gi` coexists with every block of
/// every group listed in `ids`.
fn check_group_against(groups: &Vec<Group>, gi: usize, ids: &Vec<usize>) -> (r: bool)
    requires
        gi < groups@.len(),
        forall|q: int| 0 <= q < ids@.len() ==> ((#[trigger] ids@[q]) as int) < groups@.len(),
    ensures
        r <==> forall|qk: int|
            0 <= qk < ids@.len() ==> all_pairs_coexist(
                groups@[gi as int],
                groups@[(#[trigger] ids@[qk]) as int],
            ),
{
    let mut qi: usize = 0;
    while qi < ids.len()
        invariant
            gi < groups@.len(),
            qi <= ids@.len(),
            forall|q: int| 0 <= q < ids@.len() ==> ((#[trigger] ids@[q]) as int) < groups@.len(),
            forall|qk: int|
                0 <= qk < qi ==> all_pairs_coexist(
                    groups@[gi as int],
                    groups@[(#[trigger] ids@[qk]) as int],
                ),
        decreases ids@.len() - qi,
    {
        let id2 = ids[qi];
        if !check_group_pair(&groups[gi], &groups[id2]) {
            assert(!all_pairs_coexist(groups@[gi as int], groups@[ids@[qi as int] as int]));
            return false;
        }
        qi += 1;
    }
    true
}

fn find_group(groups: &Vec<Group>, s: Timestamp, e: Timestamp) -> (r: Option<usize>)
    ensures
        r matches Some(i) ==> i < groups@.len() && groups@[i as int].start == s
            && groups@[i as int].end == e,
        r is None ==> forall|x: int|
            0 <= x < groups@.len() ==> !((#[trigger] groups@[x]).start == s && groups@[x].end
                == e),
{
    let mut gi: usize = 0;
    while gi < groups.len()
        invariant
            gi <= groups@.len(),
            forall|x: int|
                0 <= x < gi ==> !((#[trigger] groups@[x]).start == s && groups@[x].end == e),
        decreases groups@.len() - gi,
    {
        if groups[gi].start == s && groups[gi].end == e {
            return Some(gi);
        }
        gi += 1;
    }
    None
}

} // verus!
