//! The correlators: given a query and the snapshot, find the owning
//! process(es).
//!
//! The port correlator walks the combined TCP and TCP6 tables in order
//! and reports every `Listen` connection on the queried port, resolving
//! its socket inode through the inode index where possible. The file
//! correlator walks a fresh per-process descriptor scan and reports each
//! pid holding the canonical target path open, at most once.

use vstd::prelude::*;
use crate::model::ConnectionRecord;
use crate::model::ConnState;
use crate::model::DescriptorTargetView;
use crate::model::FdListing;
use crate::model::FdListingView;
use crate::model::MatchResult;
use crate::snapshot::InodeIndex;

verus! {

/// What the port correlator reports for one matching connection: the
/// pid the inode index knows for its socket, else the kernel's uid.
pub open spec fn match_of(c: ConnectionRecord, idx: Map<u64, u64>) -> MatchResult {
    if idx.contains_key(c.inode) {
        MatchResult::Found(idx[c.inode])
    } else {
        MatchResult::UnknownOwner(c.uid)
    }
}

/// Whether a connection answers a port query: same local port, and in
/// `Listen` state — only a listening socket identifies the port's owner.
pub open spec fn is_candidate(c: ConnectionRecord, port: u16) -> bool {
    c.local_port == port && c.state is Listen
}

/// All match results for a port query over `conns`, in table order.
pub open spec fn port_matches(conns: Seq<ConnectionRecord>, idx: Map<u64, u64>, port: u16) -> Seq<MatchResult>
    decreases conns.len(),
{
    if conns.len() == 0 {
        Seq::empty()
    } else {
        let prev = port_matches(conns.drop_last(), idx, port);
        if is_candidate(conns.last(), port) {
            prev.push(match_of(conns.last(), idx))
        } else {
            prev
        }
    }
}

/// Finds the owners of a TCP port: every `Listen` connection whose local
/// port equals `port` yields one result, TCP table first, then TCP6,
/// each in its native order. No match yields an empty sequence.
#[verifier::loop_isolation(false)]
pub fn find_by_port(port: u16, tcp: &Vec<ConnectionRecord>, tcp6: &Vec<ConnectionRecord>, inodes: &InodeIndex) -> (r: Vec<MatchResult>)
    ensures
        r@ == port_matches(tcp@ + tcp6@, inodes@, port),
{
    let ghost all = tcp@ + tcp6@;
    let mut r: Vec<MatchResult> = Vec::new();
    let mut i: usize = 0;
    while i < tcp.len()
        invariant
            i <= tcp.len(),
            r@ == port_matches(all.take(i as int), inodes@, port),
        decreases tcp.len() - i,
    {
        let c = tcp[i];
        if c.local_port == port && matches!(c.state, ConnState::Listen) {
            match inodes.get(c.inode) {
                Some(pid) => r.push(MatchResult::Found(pid)),
                None => r.push(MatchResult::UnknownOwner(c.uid)),
            }
        }
        proof {
            assert(all.take(i + 1 as int).drop_last() =~= all.take(i as int));
            assert(all.take(i + 1 as int).last() == tcp@[i as int]);
        }
        i = i + 1;
    }
    let mut j: usize = 0;
    while j < tcp6.len()
        invariant
            j <= tcp6.len(),
            r@ == port_matches(all.take(tcp@.len() + j as int), inodes@, port),
        decreases tcp6.len() - j,
    {
        let c = tcp6[j];
        if c.local_port == port && matches!(c.state, ConnState::Listen) {
            match inodes.get(c.inode) {
                Some(pid) => r.push(MatchResult::Found(pid)),
                None => r.push(MatchResult::UnknownOwner(c.uid)),
            }
        }
        proof {
            assert(all.take(tcp@.len() + (j + 1) as int).drop_last() =~= all.take(tcp@.len() + j as int));
            assert(all.take(tcp@.len() + (j + 1) as int).last() == tcp6@[j as int]);
        }
        j = j + 1;
    }
    proof {
        assert(all.take(tcp@.len() + tcp6@.len() as int) =~= all);
    }
    r
}

/// Whether one descriptor table holds `target` open as a file path.
pub open spec fn has_open(fds: Seq<DescriptorTargetView>, target: Seq<char>) -> bool {
    exists|k: int|
        0 <= k < fds.len() && (#[trigger] fds[k] matches DescriptorTargetView::FilePath(p) && p
            == target)
}

/// The pids holding `target` open, in scan order, each at most once:
/// a listing contributes its pid only if some descriptor points at
/// `target` and the pid was not already reported.
pub open spec fn file_matches(listings: Seq<FdListingView>, target: Seq<char>) -> Seq<u64>
    decreases listings.len(),
{
    if listings.len() == 0 {
        Seq::empty()
    } else {
        let prev = file_matches(listings.drop_last(), target);
        let l = listings.last();
        if has_open(l.fds, target) && !prev.contains(l.pid) {
            prev.push(l.pid)
        } else {
            prev
        }
    }
}

/// The listing sequence as ghost values.
pub open spec fn listing_views(listings: Seq<FdListing>) -> Seq<FdListingView> {
    listings.map_values(|l: FdListing| l@)
}

/// Whether `v` already holds `x`.
#[verifier::loop_isolation(false)]
pub(crate) fn contains_pid(v: &Vec<u64>, x: u64) -> (r: bool)
    ensures
        r == v@.contains(x),
{
    let mut i: usize = 0;
    while i < v.len()
        invariant
            i <= v.len(),
            forall|k: int| 0 <= k < i ==> v@[k] != x,
        decreases v.len() - i,
    {
        if v[i] == x {
            return true;
        }
        i = i + 1;
    }
    false
}

/// Whether some descriptor in `fds` is a file path equal to `target`.
#[verifier::loop_isolation(false)]
fn holds_target(fds: &Vec<crate::model::DescriptorTarget>, target: &String) -> (r: bool)
    ensures
        r == has_open(fds@.map_values(|t: crate::model::DescriptorTarget| t@), target@),
{
    let ghost fvs = fds@.map_values(|t: crate::model::DescriptorTarget| t@);
    let mut i: usize = 0;
    while i < fds.len()
        invariant
            i <= fds.len(),
            forall|k: int|
                0 <= k < i ==> !(#[trigger] fvs[k] matches DescriptorTargetView::FilePath(p) && p
                    == target@),
        decreases fds.len() - i,
    {
        match &fds[i] {
            crate::model::DescriptorTarget::FilePath(p) => {
                if p.eq(target) {
                    proof {
                        assert(fvs[i as int] == fds@[i as int]@);
                        assert(fvs[i as int] matches DescriptorTargetView::FilePath(q) && q == target@);
                    }
                    return true;
                }
                proof {
                    assert(fvs[i as int] == fds@[i as int]@);
                    assert(!(fvs[i as int] matches DescriptorTargetView::FilePath(q) && q == target@));
                }
            },
            crate::model::DescriptorTarget::Socket(_) => {
                proof {
                    assert(fvs[i as int] == fds@[i as int]@);
                    assert(fvs[i as int] is Socket);
                }
            },
            crate::model::DescriptorTarget::Other => {
                proof {
                    assert(fvs[i as int] == fds@[i as int]@);
                    assert(fvs[i as int] is Other);
                }
            },
        }
        i = i + 1;
    }
    false
}

/// Finds the processes holding the file `target` open.
///
/// `target` is the canonicalized query path, or `None` when
/// canonicalization failed because the path does not exist: then nothing
/// matches and the result is empty, not an error. Otherwise every listing
/// with a descriptor on `target` yields its pid, de-duplicated: a pid
/// appears at most once however many descriptors point at the path.
#[verifier::loop_isolation(false)]
pub fn find_by_file(target: &Option<String>, listings: &Vec<FdListing>) -> (r: Vec<u64>)
    ensures
        match target {
            Some(t) => r@ == file_matches(listing_views(listings@), t@),
            None => r@ == Seq::<u64>::empty(),
        },
{
    let t = match target {
        Some(t) => t,
        None => {
            return Vec::new();
        },
    };
    let ghost lvs = listing_views(listings@);
    let mut r: Vec<u64> = Vec::new();
    let mut i: usize = 0;
    while i < listings.len()
        invariant
            i <= listings.len(),
            r@ == file_matches(lvs.take(i as int), t@),
        decreases listings.len() - i,
    {
        let l = &listings[i];
        if holds_target(&l.fds, t) {
            if !contains_pid(&r, l.pid) {
                r.push(l.pid);
            }
        }
        proof {
            assert(lvs.take(i + 1 as int).drop_last() =~= lvs.take(i as int));
            assert(lvs.take(i + 1 as int).last() == listings@[i as int]@);
        }
        i = i + 1;
    }
    proof {
        assert(lvs.take(listings@.len() as int) =~= lvs);
    }
    r
}

/// A connection that answers a port query but whose inode the index does
/// not know is reported with the kernel's fallback uid: the query's
/// result sequence holds `UnknownOwner` with that connection's uid.
pub proof fn lemma_unknown_owner_reported(conns: Seq<ConnectionRecord>, idx: Map<u64, u64>, port: u16, i: int)
    requires
        0 <= i < conns.len(),
        is_candidate(conns[i], port),
        !idx.contains_key(conns[i].inode),
    ensures
        port_matches(conns, idx, port).contains(MatchResult::UnknownOwner(conns[i].uid)),
    decreases conns.len(),
{
    if i == conns.len() - 1 {
        assert(conns.last() == conns[i]);
        let prev = port_matches(conns.drop_last(), idx, port);
        let m = match_of(conns[i], idx);
        assert(m == MatchResult::UnknownOwner(conns[i].uid));
        assert(port_matches(conns, idx, port).last() == m);
    } else {
        lemma_unknown_owner_reported(conns.drop_last(), idx, port, i);
        let prev = port_matches(conns.drop_last(), idx, port);
        let j = choose|j: int| 0 <= j < prev.len() && prev[j] == MatchResult::UnknownOwner(conns[i].uid);
        if is_candidate(conns.last(), port) {
            assert(port_matches(conns, idx, port)[j] == MatchResult::UnknownOwner(conns[i].uid));
        }
    }
}

/// The file correlator never reports a pid twice, however many
/// descriptors a process holds open on the target path.
pub proof fn lemma_file_matches_unique(listings: Seq<FdListingView>, target: Seq<char>)
    ensures
        file_matches(listings, target).no_duplicates(),
    decreases listings.len(),
{
    if listings.len() == 0 {
    } else {
        lemma_file_matches_unique(listings.drop_last(), target);
        let prev = file_matches(listings.drop_last(), target);
        let l = listings.last();
        if has_open(l.fds, target) && !prev.contains(l.pid) {
            assert(file_matches(listings, target) == prev.push(l.pid));
            assert forall|a: int, b: int|
                0 <= a < b < prev.push(l.pid).len() implies prev.push(l.pid)[a] != prev.push(l.pid)[b] by {
                if b == prev.len() {
                    assert(prev[a] != l.pid) by {
                        if prev[a] == l.pid {
                            assert(prev.contains(l.pid));
                        }
                    }
                }
            }
        }
    }
}

/// A pid is reported by the file correlator exactly when some scanned
/// listing with that pid holds the target path open.
pub proof fn lemma_file_matches_exact(listings: Seq<FdListingView>, target: Seq<char>, pid: u64)
    ensures
        file_matches(listings, target).contains(pid) <==> (exists|k: int|
            0 <= k < listings.len() && #[trigger] listings[k].pid == pid && has_open(listings[k].fds, target)),
    decreases listings.len(),
{
    if listings.len() == 0 {
    } else {
        lemma_file_matches_exact(listings.drop_last(), target, pid);
        let prev = file_matches(listings.drop_last(), target);
        let cur = file_matches(listings, target);
        let l = listings.last();
        if prev.contains(pid) {
            let j = choose|j: int| 0 <= j < prev.len() && prev[j] == pid;
            if has_open(l.fds, target) && !prev.contains(l.pid) {
                assert(cur[j] == pid);
            }
            let k = choose|k: int|
                0 <= k < listings.drop_last().len() && #[trigger] listings.drop_last()[k].pid == pid
                    && has_open(listings.drop_last()[k].fds, target);
            assert(listings[k].pid == pid && has_open(listings[k].fds, target));
        } else {
            if has_open(l.fds, target) && l.pid == pid {
                assert(cur.last() == pid || prev.contains(pid)) by {
                    if !prev.contains(l.pid) {
                        assert(cur == prev.push(l.pid));
                    }
                }
                assert(listings[listings.len() - 1].pid == pid && has_open(
                    listings[listings.len() - 1].fds,
                    target,
                ));
                assert(cur.contains(pid));
            } else {
                if cur.contains(pid) {
                    let j = choose|j: int| 0 <= j < cur.len() && cur[j] == pid;
                    if has_open(l.fds, target) && !prev.contains(l.pid) {
                        assert(cur == prev.push(l.pid));
                        assert(j == prev.len() || prev.contains(pid));
                        assert(l.pid == pid);
                    } else {
                        assert(cur == prev);
                        assert(prev.contains(pid));
                    }
                }
                if exists|k: int|
                    0 <= k < listings.len() && #[trigger] listings[k].pid == pid && has_open(
                        listings[k].fds,
                        target,
                    ) {
                    let k = choose|k: int|
                        0 <= k < listings.len() && #[trigger] listings[k].pid == pid && has_open(
                            listings[k].fds,
                            target,
                        );
                    assert(k < listings.len() - 1);
                    assert(listings.drop_last()[k].pid == pid && has_open(listings.drop_last()[k].fds, target));
                    assert(prev.contains(pid));
                }
            }
        }
    }
}

} // verus!

