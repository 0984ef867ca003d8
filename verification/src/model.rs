//! The data the engine works on: per-process scan results as the host
//! exposes them, the records and connection rows built from them, and the
//! outcome of a port query.

use vstd::prelude::*;

verus! {

/// The kind of resource an open file descriptor points at.
#[derive(Debug)]
pub enum DescriptorTarget {
    /// A socket, identified by its kernel inode number.
    Socket(u64),
    /// A filesystem path.
    FilePath(String),
    /// Anything else (pipes, devices, ...).
    Other,
}

/// Ghost image of a [`DescriptorTarget`].
pub ghost enum DescriptorTargetView {
    Socket(u64),
    FilePath(Seq<char>),
    Other,
}

impl View for DescriptorTarget {
    type V = DescriptorTargetView;

    open spec fn view(&self) -> DescriptorTargetView {
        match self {
            DescriptorTarget::Socket(inode) => DescriptorTargetView::Socket(*inode),
            DescriptorTarget::FilePath(p) => DescriptorTargetView::FilePath(p@),
            DescriptorTarget::Other => DescriptorTargetView::Other,
        }
    }
}

/// TCP connection state; the engine only ever distinguishes `Listen`
/// from everything else.
#[derive(Clone, Copy, PartialEq, Eq, Structural, Debug)]
pub enum ConnState {
    Listen,
    Established,
    Other,
}

/// One row of the host's TCP or TCP6 connection table.
#[derive(Clone, Copy, PartialEq, Eq, Structural, Debug)]
pub struct ConnectionRecord {
    pub local_port: u16,
    pub state: ConnState,
    /// Kernel inode of the socket backing this connection.
    pub inode: u64,
    /// Owner uid as reported by the kernel; the fallback when no
    /// descriptor-level owner is found.
    pub uid: u32,
}

/// Outcome of a port query for one matching connection.
#[derive(Clone, Copy, PartialEq, Eq, Structural, Debug)]
pub enum MatchResult {
    /// An owning process was located through the inode index.
    Found(u64),
    /// No descriptor-level owner; the kernel-reported uid stands in.
    UnknownOwner(u32),
}

/// One live process as captured by the snapshot. Immutable once built.
#[derive(Debug)]
pub struct ProcessRecord {
    pub pid: u64,
    /// The argument vector joined into one display string.
    pub cmd: String,
    /// Resolved executable path; `None` when unreadable.
    pub exe: Option<String>,
    /// Parent process id; `0` means the root was reached.
    pub parent_pid: u64,
    /// Owning user id; `None` when unreadable.
    pub uid: Option<u32>,
}

/// Ghost image of a [`ProcessRecord`].
pub ghost struct ProcessRecordView {
    pub pid: u64,
    pub cmd: Seq<char>,
    pub exe: Option<Seq<char>>,
    pub parent_pid: u64,
    pub uid: Option<u32>,
}

impl View for ProcessRecord {
    type V = ProcessRecordView;

    open spec fn view(&self) -> ProcessRecordView {
        ProcessRecordView {
            pid: self.pid,
            cmd: self.cmd@,
            exe: match self.exe {
                Some(ref e) => Some(e@),
                None => None,
            },
            parent_pid: self.parent_pid,
            uid: self.uid,
        }
    }
}

impl Clone for ProcessRecord {
    fn clone(&self) -> (res: Self)
        ensures
            res@ == self@,
    {
        ProcessRecord {
            pid: self.pid,
            cmd: self.cmd.clone(),
            exe: match self.exe {
                Some(ref e) => Some(e.clone()),
                None => None,
            },
            parent_pid: self.parent_pid,
            uid: self.uid,
        }
    }
}

/// What one process's status and descriptor-table read yielded, when both
/// succeeded: its parent id and the targets of its open descriptors.
#[derive(Debug)]
pub struct LineageScan {
    pub parent_pid: u64,
    pub fds: Vec<DescriptorTarget>,
}

/// Ghost image of a [`LineageScan`].
pub ghost struct LineageScanView {
    pub parent_pid: u64,
    pub fds: Seq<DescriptorTargetView>,
}

impl View for LineageScan {
    type V = LineageScanView;

    open spec fn view(&self) -> LineageScanView {
        LineageScanView { parent_pid: self.parent_pid, fds: self.fds@.map_values(|t: DescriptorTarget| t@) }
    }
}

/// Everything the snapshot pass could read about one process. Each field
/// that can fail independently is optional; an unreadable argument vector
/// drops the process from the index altogether.
#[derive(Debug)]
pub struct ProcessScan {
    pub pid: u64,
    /// Argument vector; `None` when unreadable.
    pub args: Option<Vec<String>>,
    /// Executable path; `None` when unreadable.
    pub exe: Option<String>,
    /// Owning user id; `None` when unreadable.
    pub uid: Option<u32>,
    /// Parent id and descriptor table; `None` when either read failed.
    pub lineage: Option<LineageScan>,
}

/// Ghost image of a [`ProcessScan`].
pub ghost struct ProcessScanView {
    pub pid: u64,
    pub args: Option<Seq<Seq<char>>>,
    pub exe: Option<Seq<char>>,
    pub uid: Option<u32>,
    pub lineage: Option<LineageScanView>,
}

impl View for ProcessScan {
    type V = ProcessScanView;

    open spec fn view(&self) -> ProcessScanView {
        ProcessScanView {
            pid: self.pid,
            args: match self.args {
                Some(ref v) => Some(v@.map_values(|s: String| s@)),
                None => None,
            },
            exe: match self.exe {
                Some(ref e) => Some(e@),
                None => None,
            },
            uid: self.uid,
            lineage: match self.lineage {
                Some(ref l) => Some(l@),
                None => None,
            },
        }
    }
}

/// One process's descriptor table as seen by the file correlator's fresh
/// re-scan; a process whose table is unreadable contributes an empty list.
#[derive(Debug)]
pub struct FdListing {
    pub pid: u64,
    pub fds: Vec<DescriptorTarget>,
}

/// Ghost image of an [`FdListing`].
pub ghost struct FdListingView {
    pub pid: u64,
    pub fds: Seq<DescriptorTargetView>,
}

impl View for FdListing {
    type V = FdListingView;

    open spec fn view(&self) -> FdListingView {
        FdListingView { pid: self.pid, fds: self.fds@.map_values(|t: DescriptorTarget| t@) }
    }
}

} // verus!
