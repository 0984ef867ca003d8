//! The ancestry resolver: from a starting pid, walk parent links up to
//! the root and return the chain root-first.
//!
//! The walk tolerates broken links — a parent pid with no record is a
//! normal terminal, and a starting pid with no record yields an empty
//! chain. A well-formed process table has an acyclic parent relation;
//! rather than rely on that for termination, the walk keeps the set of
//! pids already visited and stops on a revisit, so it terminates on any
//! index. [`lemma_chain_reaches_root`] shows that under acyclicity the
//! chain always ends at a record whose parent is absent from the index.

use vstd::prelude::*;
use vstd::set_lib::lemma_len_subset;
use crate::model::ProcessRecord;
use crate::model::ProcessRecordView;
use crate::snapshot::InodeIndex;
use crate::snapshot::ProcessIndex;
use crate::correlate::contains_pid;

verus! {

/// The chain as ghost values.
pub open spec fn chain_views(chain: Seq<ProcessRecord>) -> Seq<ProcessRecordView> {
    chain.map_values(|r: ProcessRecord| r@)
}

/// The chain's pids, in chain order.
pub open spec fn pids_of(c: Seq<ProcessRecordView>) -> Seq<u64> {
    c.map_values(|r: ProcessRecordView| r.pid)
}

/// Every chain element is a record of `m` filed under its own pid, and
/// each element is the parent of the next.
pub open spec fn linked_records(m: Map<u64, ProcessRecordView>, c: Seq<ProcessRecordView>) -> bool {
    &&& forall|i: int|
        0 <= i < c.len() ==> m.contains_key(#[trigger] c[i].pid) && c[i] == m[c[i].pid]
    &&& forall|i: int| 0 <= i < c.len() - 1 ==> (#[trigger] c[i].pid) == c[i + 1].parent_pid
}

/// What the resolver promises of a chain returned for `start`:
/// root-first linked records of `m`, no pid twice, ending at `start`'s
/// record when `start` is present and empty when it is not, and
/// beginning at a record whose parent is either absent from `m` or —
/// only possible on a cyclic table — already in the chain.
pub open spec fn valid_chain(m: Map<u64, ProcessRecordView>, start: u64, c: Seq<ProcessRecordView>) -> bool {
    &&& linked_records(m, c)
    &&& pids_of(c).no_duplicates()
    &&& m.contains_key(start) ==> c.len() >= 1 && c.last() == m[start]
    &&& !m.contains_key(start) ==> c.len() == 0
    &&& c.len() >= 1 ==> !m.contains_key(c[0].parent_pid) || pids_of(c).contains(c[0].parent_pid)
}

/// A witness that the parent relation of `m` has no cycle: a rank that
/// strictly drops from every process to its parent.
pub open spec fn rank_orders(m: Map<u64, ProcessRecordView>, rank: Map<u64, int>) -> bool {
    forall|q: u64|
        #![trigger m.contains_key(q), m.contains_key(m[q].parent_pid)]
        m.contains_key(q) && m.contains_key(m[q].parent_pid) ==> rank[m[q].parent_pid] < rank[q]
}

/// The parent relation of `m` is acyclic, as a well-formed OS process
/// table guarantees of its parentage.
pub open spec fn acyclic(m: Map<u64, ProcessRecordView>) -> bool {
    exists|rank: Map<u64, int>| #[trigger] rank_orders(m, rank)
}

/// Along a linked chain the rank strictly grows: each element is the
/// parent of the next, so ranks drop toward the front.
proof fn lemma_rank_grows(
    m: Map<u64, ProcessRecordView>,
    rank: Map<u64, int>,
    c: Seq<ProcessRecordView>,
    i: int,
    j: int,
)
    requires
        rank_orders(m, rank),
        linked_records(m, c),
        0 <= i <= j < c.len(),
    ensures
        rank[c[i].pid] <= rank[c[j].pid],
        i < j ==> rank[c[i].pid] < rank[c[j].pid],
    decreases j - i,
{
    if i < j {
        lemma_rank_grows(m, rank, c, i, j - 1);
        assert(m.contains_key(c[j].pid));
        assert(c[j] == m[c[j].pid]);
        assert(c[j - 1].pid == c[j].parent_pid);
        assert(m.contains_key(m[c[j].pid].parent_pid));
        assert(rank[c[j - 1].pid] < rank[c[j].pid]);
    }
}

/// For every pid present in an index with an acyclic parent relation,
/// the resolved ancestry is non-empty, ends at that pid's record, and
/// begins at a record whose parent pid is absent from the index: the
/// walk reached the root.
pub proof fn lemma_chain_reaches_root(m: Map<u64, ProcessRecordView>, start: u64, c: Seq<ProcessRecordView>)
    requires
        acyclic(m),
        m.contains_key(start),
        valid_chain(m, start, c),
    ensures
        c.len() >= 1,
        c.last() == m[start],
        !m.contains_key(c[0].parent_pid),
{
    let rank = choose|rank: Map<u64, int>| rank_orders(m, rank);
    if m.contains_key(c[0].parent_pid) {
        assert(pids_of(c).contains(c[0].parent_pid));
        let j = choose|j: int| 0 <= j < pids_of(c).len() && pids_of(c)[j] == c[0].parent_pid;
        assert(c[j].pid == c[0].parent_pid);
        assert(m.contains_key(c[0].pid));
        assert(c[0] == m[c[0].pid]);
        assert(m.contains_key(m[c[0].pid].parent_pid));
        assert(rank[c[0].parent_pid] < rank[c[0].pid]);
        lemma_rank_grows(m, rank, c, 0, j);
        assert(false);
    }
}

/// Two linked chains with the same last element agree from the tail
/// down: each earlier element is the record of the later one's parent.
proof fn lemma_tails_align(
    m: Map<u64, ProcessRecordView>,
    c1: Seq<ProcessRecordView>,
    c2: Seq<ProcessRecordView>,
    k: int,
)
    requires
        linked_records(m, c1),
        linked_records(m, c2),
        c1.len() >= 1,
        c2.len() >= 1,
        c1.last() == c2.last(),
        0 <= k < c1.len(),
        k < c2.len(),
    ensures
        c1[c1.len() - 1 - k] == c2[c2.len() - 1 - k],
    decreases k,
{
    if k > 0 {
        lemma_tails_align(m, c1, c2, k - 1);
        let e = c1[c1.len() - k];
        assert(c1[c1.len() - 1 - k].pid == e.parent_pid);
        assert(c2[c2.len() - 1 - k].pid == e.parent_pid);
        assert(c1[c1.len() - 1 - k] == m[e.parent_pid]);
        assert(c2[c2.len() - 1 - k] == m[e.parent_pid]);
    }
}

/// On an index with an acyclic parent relation the resolver's contract
/// pins the chain: any two chains it could stand behind for the same
/// starting pid are equal.
pub proof fn lemma_chain_unique(
    m: Map<u64, ProcessRecordView>,
    start: u64,
    c1: Seq<ProcessRecordView>,
    c2: Seq<ProcessRecordView>,
)
    requires
        acyclic(m),
        valid_chain(m, start, c1),
        valid_chain(m, start, c2),
    ensures
        c1 == c2,
{
    if !m.contains_key(start) {
        assert(c1 =~= c2);
    } else {
        lemma_chain_reaches_root(m, start, c1);
        lemma_chain_reaches_root(m, start, c2);
        if c1.len() < c2.len() {
            lemma_tails_align(m, c1, c2, c1.len() - 1);
            assert(c1[0] == c2[c2.len() - c1.len()]);
            assert(c2[c2.len() - c1.len() - 1].pid == c1[0].parent_pid);
            assert(m.contains_key(c2[c2.len() - c1.len() - 1].pid));
            assert(false);
        }
        if c2.len() < c1.len() {
            lemma_tails_align(m, c2, c1, c2.len() - 1);
            assert(c2[0] == c1[c1.len() - c2.len()]);
            assert(c1[c1.len() - c2.len() - 1].pid == c2[0].parent_pid);
            assert(m.contains_key(c1[c1.len() - c2.len() - 1].pid));
            assert(false);
        }
        assert forall|i: int| 0 <= i < c1.len() implies c1[i] == c2[i] by {
            lemma_tails_align(m, c1, c2, c1.len() - 1 - i);
        }
        assert(c1 =~= c2);
    }
}

/// Resolving a pid absent from the index yields the empty chain — a
/// tolerated miss, not an error.
pub proof fn lemma_absent_start_empty(m: Map<u64, ProcessRecordView>, start: u64, c: Seq<ProcessRecordView>)
    requires
        !m.contains_key(start),
        valid_chain(m, start, c),
    ensures
        c == Seq::<ProcessRecordView>::empty(),
{
    assert(c.len() == 0);
    assert(c =~= Seq::<ProcessRecordView>::empty());
}

/// Walks parent links from `pid` and returns the ancestry chain,
/// root first, leaf (the starting pid) last.
///
/// A pid without a record ends the walk, so a starting pid absent from
/// the index yields an empty chain. A revisited pid ends the walk too,
/// which makes the walk terminate even on a cyclic table; on an acyclic
/// one the guard never fires (see [`lemma_chain_reaches_root`]).
#[verifier::loop_isolation(false)]
pub fn resolve_ancestry(pid: u64, procs: &ProcessIndex) -> (r: Vec<ProcessRecord>)
    ensures
        valid_chain(procs@, pid, chain_views(r@)),
{
    let ghost m = procs@;
    let mut acc: Vec<ProcessRecord> = Vec::new();
    let mut visited: Vec<u64> = Vec::new();
    let mut cur: u64 = pid;
    let mut done: bool = false;
    proof {
        procs.lemma_finite_dom();
    }
    while !done
        invariant
            visited@ == pids_of(chain_views(acc@)),
            visited@.no_duplicates(),
            visited@.len() <= m.dom().len(),
            forall|i: int|
                0 <= i < acc@.len() ==> m.contains_key(#[trigger] chain_views(acc@)[i].pid)
                    && chain_views(acc@)[i] == m[chain_views(acc@)[i].pid],
            forall|i: int|
                0 <= i < acc@.len() - 1 ==> (#[trigger] chain_views(acc@)[i].parent_pid)
                    == chain_views(acc@)[i + 1].pid,
            acc@.len() == 0 ==> cur == pid,
            acc@.len() >= 1 ==> chain_views(acc@)[0] == m[pid] && m.contains_key(pid),
            acc@.len() >= 1 ==> cur == chain_views(acc@).last().parent_pid,
            done ==> visited@.contains(cur) || !m.contains_key(cur),
        decreases (if done { 0int } else { m.dom().len() - visited@.len() + 1 }),
    {
        if contains_pid(&visited, cur) {
            done = true;
        } else {
            match procs.get(cur) {
                Some(rec) => {
                    let rc = rec.clone();
                    let next = rc.parent_pid;
                    let ghost old_acc = acc@;
                    let ghost old_vis = visited@;
                    visited.push(cur);
                    acc.push(rc);
                    cur = next;
                    proof {
                        assert(chain_views(acc@) =~= chain_views(old_acc).push(rec@));
                        assert(pids_of(chain_views(acc@)) =~= pids_of(
                            chain_views(old_acc),
                        ).push(rec@.pid));
                        assert(visited@ =~= old_vis.push(rec@.pid));
                        visited@.unique_seq_to_set();
                        assert(visited@.to_set().subset_of(m.dom())) by {
                            assert forall|x: u64| visited@.to_set().contains(x) implies m
                                .dom()
                                .contains(x) by {
                                assert(visited@.contains(x));
                                let k = choose|k: int|
                                    0 <= k < visited@.len() && visited@[k] == x;
                                assert(m.contains_key(chain_views(acc@)[k].pid));
                            }
                        }
                        lemma_len_subset(visited@.to_set(), m.dom());
                    }
                },
                None => {
                    done = true;
                },
            }
        }
    }
    let ghost full = chain_views(acc@);
    let mut r: Vec<ProcessRecord> = Vec::new();
    while acc.len() > 0
        invariant
            r@.len() + acc@.len() == full.len(),
            chain_views(acc@) =~= full.take(acc@.len() as int),
            forall|i: int|
                0 <= i < r@.len() ==> #[trigger] chain_views(r@)[i] == full[full.len() - 1 - i],
        decreases acc.len(),
    {
        let ghost before = acc@;
        let ghost r_before = r@;
        match acc.pop() {
            Some(x) => {
                proof {
                    assert(chain_views(before).last() == x@);
                    assert(chain_views(before) =~= full.take(before.len() as int));
                    assert(x@ == full[before.len() - 1]);
                }
                r.push(x);
                proof {
                    assert(chain_views(acc@) =~= full.take(acc@.len() as int));
                    assert(chain_views(r@) =~= chain_views(r_before).push(x@));
                }
            },
            None => {},
        }
    }
    proof {
        let c = chain_views(r@);
        let n = full.len() as int;
        assert(c.len() == n);
        assert(forall|i: int| 0 <= i < n ==> #[trigger] c[i] == full[n - 1 - i]);
        assert(pids_of(c).no_duplicates()) by {
            assert forall|a: int, b: int|
                0 <= a < b < pids_of(c).len() implies pids_of(c)[a] != pids_of(c)[b] by {
                assert(pids_of(full)[n - 1 - a] == pids_of(c)[a]);
                assert(pids_of(full)[n - 1 - b] == pids_of(c)[b]);
            }
        }
        assert(linked_records(m, c)) by {
            assert forall|i: int|
                0 <= i < c.len() implies m.contains_key(#[trigger] c[i].pid) && c[i] == m[c[i].pid] by {
                assert(c[i] == full[n - 1 - i]);
            }
            assert forall|i: int|
                0 <= i < c.len() - 1 implies (#[trigger] c[i].pid) == c[i + 1].parent_pid by {
                assert(c[i] == full[n - 1 - i]);
                assert(c[i + 1] == full[n - 1 - (i + 1)]);
                assert(full[n - 2 - i].parent_pid == full[n - 1 - i].pid);
            }
        }
        if m.contains_key(pid) {
            assert(c.len() >= 1);
            assert(c.last() == full[0]);
        }
        if c.len() >= 1 {
            assert(c[0] == full[n - 1]);
            assert(cur == full.last().parent_pid);
            if !m.contains_key(cur) {
            } else {
                assert(visited@.contains(cur));
                let k = choose|k: int| 0 <= k < visited@.len() && visited@[k] == cur;
                assert(pids_of(full)[k] == cur);
                assert(pids_of(c)[n - 1 - k] == pids_of(full)[k]);
                assert(pids_of(c).contains(cur));
            }
        }
    }
    r
}

/// Walks the ancestry of whichever process the inode index holds as
/// the owner of `inode`; an unknown inode yields an empty chain.
pub fn resolve_inode_ancestry(inode: u64, inodes: &InodeIndex, procs: &ProcessIndex) -> (r: Vec<
    ProcessRecord,
>)
    ensures
        inodes@.contains_key(inode) ==> valid_chain(procs@, inodes@[inode], chain_views(r@)),
        !inodes@.contains_key(inode) ==> r@ == Seq::<ProcessRecord>::empty(),
{
    match inodes.get(inode) {
        Some(pid) => resolve_ancestry(pid, procs),
        None => Vec::new(),
    }
}

} // verus!
