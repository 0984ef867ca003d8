//! The snapshot pass: one walk over the per-process scan results builds
//! the pid-keyed process index and the socket-inode index.
//!
//! Both indexes are described exactly, as folds over the scan sequence:
//! [`procs_after`] says which records the process index holds, and
//! [`inodes_after`] which socket inodes map to which pid. Later entries
//! overwrite earlier ones, so a shared inode keeps the last owner seen,
//! as the scan order has it.

use vstd::prelude::*;
use std::collections::HashMap;
use crate::model::DescriptorTargetView;
use crate::model::ProcessRecord;
use crate::model::ProcessRecordView;
use crate::model::ProcessScan;
use crate::model::ProcessScanView;

verus! {

broadcast use vstd::std_specs::hash::group_hash_axioms;

/// The snapshot's mapping from pid to the record built for that process.
pub struct ProcessIndex {
    table: HashMap<u64, ProcessRecord>,
}

impl View for ProcessIndex {
    type V = Map<u64, ProcessRecordView>;

    closed spec fn view(&self) -> Map<u64, ProcessRecordView> {
        Map::new(
            |pid: u64| self.table@.contains_key(pid),
            |pid: u64| self.table@[pid]@,
        )
    }
}

impl ProcessIndex {
    /// Every record sits under its own pid: the one key `insert` files
    /// it by.
    #[verifier::type_invariant]
    closed spec fn keyed_by_pid(&self) -> bool {
        forall|k: u64| #[trigger] self.table@.contains_key(k) ==> self.table@[k]@.pid == k
    }

    pub fn new() -> (r: Self)
        ensures
            r@ == Map::<u64, ProcessRecordView>::empty(),
    {
        let r = ProcessIndex { table: HashMap::new() };
        proof {
            assert(r@ =~= Map::<u64, ProcessRecordView>::empty());
        }
        r
    }

    /// Inserts `rec` under its pid, replacing any record already there.
    pub fn insert(self, rec: ProcessRecord) -> (r: Self)
        ensures
            r@ == self@.insert(rec.pid, rec@),
    {
        proof {
            use_type_invariant(&self);
        }
        let ghost pre = self@;
        let ghost k = rec.pid;
        let ghost v = rec@;
        let ProcessIndex { mut table } = self;
        let pid = rec.pid;
        table.insert(pid, rec);
        let r = ProcessIndex { table };
        proof {
            assert(r@ =~= pre.insert(k, v));
        }
        r
    }

    /// A found record carries the pid it was looked up by: `insert`
    /// files every record under its own pid.
    pub fn get(&self, pid: u64) -> (r: Option<&ProcessRecord>)
        ensures
            match r {
                Some(rec) => self@.contains_key(pid) && rec@ == self@[pid] && rec@.pid == pid,
                None => !self@.contains_key(pid),
            },
    {
        proof {
            use_type_invariant(self);
        }
        self.table.get(&pid)
    }

    pub fn contains(&self, pid: u64) -> (r: bool)
        ensures
            r == self@.contains_key(pid),
    {
        self.table.contains_key(&pid)
    }

    pub fn len(&self) -> (r: usize)
        ensures
            r == self@.len(),
    {
        proof {
            assert(self@.dom() =~= self.table@.dom());
        }
        self.table.len()
    }

    /// An index built from finitely many scans has a finite domain.
    pub proof fn lemma_finite_dom(&self)
        ensures
            self@.dom().finite(),
    {
        assert(self.table@.dom().finite());
        assert(self@.dom() =~= self.table@.dom());
    }
}

/// The snapshot's mapping from socket inode to the pid last seen holding
/// a descriptor on that inode.
pub struct InodeIndex {
    table: HashMap<u64, u64>,
}

impl View for InodeIndex {
    type V = Map<u64, u64>;

    closed spec fn view(&self) -> Map<u64, u64> {
        self.table@
    }
}

impl InodeIndex {
    pub fn new() -> (r: Self)
        ensures
            r@ == Map::<u64, u64>::empty(),
    {
        InodeIndex { table: HashMap::new() }
    }

    /// Records `pid` as the owner of `inode`, overwriting any prior owner.
    pub fn insert(&mut self, inode: u64, pid: u64)
        ensures
            final(self)@ == old(self)@.insert(inode, pid),
    {
        self.table.insert(inode, pid);
    }

    pub fn get(&self, inode: u64) -> (r: Option<u64>)
        ensures
            match r {
                Some(pid) => self@.contains_key(inode) && pid == self@[inode],
                None => !self@.contains_key(inode),
            },
    {
        match self.table.get(&inode) {
            Some(pid) => Some(*pid),
            None => None,
        }
    }
}

/// The argument vector joined into one display string, one space between
/// arguments, as the process index stores it.
pub open spec fn join_spaced(args: Seq<Seq<char>>) -> Seq<char>
    decreases args.len(),
{
    if args.len() == 0 {
        Seq::empty()
    } else if args.len() == 1 {
        args[0]
    } else {
        join_spaced(args.drop_last()) + seq![' '] + args.last()
    }
}

/// The record the snapshot builds from one scan; meaningful only when the
/// scan's argument vector was readable.
pub open spec fn scan_record(s: ProcessScanView) -> ProcessRecordView {
    ProcessRecordView {
        pid: s.pid,
        cmd: join_spaced(s.args.unwrap()),
        exe: s.exe,
        parent_pid: match s.lineage {
            Some(l) => l.parent_pid,
            None => 0,
        },
        uid: s.uid,
    }
}

/// The process index after scanning `scans` in order: every scan whose
/// argument vector was readable contributes its record; the rest are
/// dropped.
pub open spec fn procs_after(scans: Seq<ProcessScanView>) -> Map<u64, ProcessRecordView>
    decreases scans.len(),
{
    if scans.len() == 0 {
        Map::empty()
    } else {
        let m = procs_after(scans.drop_last());
        let s = scans.last();
        if s.args is Some {
            m.insert(s.pid, scan_record(s))
        } else {
            m
        }
    }
}

/// `base` extended with one entry per socket descriptor in `fds`, each
/// mapping the socket's inode to `pid`.
pub open spec fn socket_entries(pid: u64, fds: Seq<DescriptorTargetView>, base: Map<u64, u64>) -> Map<u64, u64>
    decreases fds.len(),
{
    if fds.len() == 0 {
        base
    } else {
        let m = socket_entries(pid, fds.drop_last(), base);
        match fds.last() {
            DescriptorTargetView::Socket(inode) => m.insert(inode, pid),
            _ => m,
        }
    }
}

/// The inode index after scanning `scans` in order: every scan whose
/// descriptor table was readable contributes its socket inodes, later
/// scans overwriting earlier owners of the same inode.
pub open spec fn inodes_after(scans: Seq<ProcessScanView>) -> Map<u64, u64>
    decreases scans.len(),
{
    if scans.len() == 0 {
        Map::empty()
    } else {
        let m = inodes_after(scans.drop_last());
        let s = scans.last();
        match s.lineage {
            Some(l) => socket_entries(s.pid, l.fds, m),
            None => m,
        }
    }
}

/// The scan sequence as ghost values.
pub open spec fn scan_views(scans: Seq<ProcessScan>) -> Seq<ProcessScanView> {
    scans.map_values(|s: ProcessScan| s@)
}

/// Joins an argument vector with single spaces, as the display string.
#[verifier::loop_isolation(false)]
fn join_args(args: &Vec<String>) -> (r: String)
    ensures
        r@ == join_spaced(args@.map_values(|s: String| s@)),
{
    let ghost avs = args@.map_values(|s: String| s@);
    let mut r = String::new();
    let mut i: usize = 0;
    while i < args.len()
        invariant
            i <= args.len(),
            r@ == join_spaced(avs.take(i as int)),
        decreases args.len() - i,
    {
        if i > 0 {
            r.append(" ");
            proof {
                reveal_strlit(" ");
                assert(" "@ =~= seq![' ']);
            }
        }
        r.append(args[i].as_str());
        proof {
            assert(avs.take(i + 1 as int).drop_last() =~= avs.take(i as int));
            assert(avs.take(i + 1 as int).last() == avs[i as int]);
        }
        i = i + 1;
    }
    proof {
        assert(avs.take(args@.len() as int) =~= avs);
    }
    r
}

/// Builds the snapshot: one pass over the scans, filling both indexes.
///
/// Every socket descriptor of a scan with a readable descriptor table is
/// recorded in the inode index; every scan with a readable argument
/// vector contributes a process record, with unreadable fields kept as
/// `None` and an unreadable parent defaulting to `0`.
#[verifier::loop_isolation(false)]
pub fn build_snapshot(scans: &Vec<ProcessScan>) -> (r: (ProcessIndex, InodeIndex))
    ensures
        r.0@ == procs_after(scan_views(scans@)),
        r.1@ == inodes_after(scan_views(scans@)),
{
    let ghost svs = scan_views(scans@);
    let mut procs = ProcessIndex::new();
    let mut inodes = InodeIndex::new();
    let mut i: usize = 0;
    while i < scans.len()
        invariant
            i <= scans.len(),
            procs@ == procs_after(svs.take(i as int)),
            inodes@ == inodes_after(svs.take(i as int)),
        decreases scans.len() - i,
    {
        let s = &scans[i];
        if let Some(l) = &s.lineage {
            let ghost base = inodes@;
            let ghost fvs = l@.fds;
            let mut j: usize = 0;
            while j < l.fds.len()
                invariant
                    j <= l.fds.len(),
                    inodes@ == socket_entries(s.pid, fvs.take(j as int), base),
                decreases l.fds.len() - j,
            {
                match &l.fds[j] {
                    crate::model::DescriptorTarget::Socket(inode) => {
                        inodes.insert(*inode, s.pid);
                    },
                    _ => {},
                }
                proof {
                    assert(fvs.take(j + 1 as int).drop_last() =~= fvs.take(j as int));
                    assert(fvs.take(j + 1 as int).last() == l.fds@[j as int]@);
                }
                j = j + 1;
            }
            proof {
                assert(fvs.take(l.fds@.len() as int) =~= fvs);
            }
        }
        if let Some(args) = &s.args {
            let cmd = join_args(args);
            let exe = match &s.exe {
                Some(e) => Some(e.clone()),
                None => None,
            };
            let parent_pid = match &s.lineage {
                Some(l) => l.parent_pid,
                None => 0,
            };
            let rec = ProcessRecord { pid: s.pid, cmd, exe, parent_pid, uid: s.uid };
            proof {
                assert(rec@ == scan_record(s@));
            }
            procs = procs.insert(rec);
        }
        proof {
            assert(svs.take(i + 1 as int).drop_last() =~= svs.take(i as int));
            assert(svs.take(i + 1 as int).last() == scans@[i as int]@);
        }
        i = i + 1;
    }
    proof {
        assert(svs.take(scans@.len() as int) =~= svs);
    }
    (procs, inodes)
}

} // verus!
