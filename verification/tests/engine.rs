//! End-to-end checks of the correlation engine on hand-built scans.

use usedby::build_snapshot;
use usedby::find_by_file;
use usedby::find_by_port;
use usedby::resolve_ancestry;
use usedby::resolve_inode_ancestry;
use usedby::ConnState;
use usedby::ConnectionRecord;
use usedby::DescriptorTarget;
use usedby::FdListing;
use usedby::LineageScan;
use usedby::MatchResult;
use usedby::ProcessScan;

fn scan(
    pid: u64,
    args: Option<Vec<&str>>,
    exe: Option<&str>,
    uid: Option<u32>,
    lineage: Option<(u64, Vec<DescriptorTarget>)>,
) -> ProcessScan {
    ProcessScan {
        pid,
        args: args.map(|v| v.into_iter().map(|s| s.to_string()).collect()),
        exe: exe.map(|s| s.to_string()),
        uid,
        lineage: lineage.map(|(parent_pid, fds)| LineageScan { parent_pid, fds }),
    }
}

fn server_scans() -> Vec<ProcessScan> {
    vec![
        scan(1, Some(vec!["init"]), Some("/sbin/init"), Some(0), Some((0, vec![]))),
        scan(100, Some(vec!["shell"]), Some("/bin/sh"), Some(1000), Some((1, vec![]))),
        scan(
            205,
            Some(vec!["server", "-p", "8080"]),
            Some("/usr/bin/server"),
            Some(1000),
            Some((100, vec![DescriptorTarget::Socket(555)])),
        ),
    ]
}

fn listen(port: u16, inode: u64, uid: u32) -> ConnectionRecord {
    ConnectionRecord { local_port: port, state: ConnState::Listen, inode, uid }
}

#[test]
fn snapshot_indexes_sockets_by_inode() {
    let (_, inodes) = build_snapshot(&server_scans());
    let tcp = vec![listen(8080, 555, 1000)];
    let matches = find_by_port(8080, &tcp, &vec![], &inodes);
    assert_eq!(matches, vec![MatchResult::Found(205)]);
}

#[test]
fn snapshot_holds_one_record_per_readable_process() {
    let (procs, _) = build_snapshot(&server_scans());
    assert_eq!(procs.len(), 3);
    assert!(procs.contains(1) && procs.contains(100) && procs.contains(205));
    assert!(!procs.contains(777));
}

#[test]
fn snapshot_joins_command_line_with_spaces() {
    let (procs, _) = build_snapshot(&server_scans());
    let rec = procs.get(205).unwrap();
    assert_eq!(rec.cmd, "server -p 8080");
    assert_eq!(rec.exe.as_deref(), Some("/usr/bin/server"));
    assert_eq!(rec.parent_pid, 100);
    assert_eq!(rec.uid, Some(1000));
}

#[test]
fn unreadable_command_line_drops_the_process_but_not_its_sockets() {
    let scans = vec![scan(9, None, Some("/bin/x"), Some(5), Some((1, vec![DescriptorTarget::Socket(77)])))];
    let (procs, inodes) = build_snapshot(&scans);
    assert!(procs.get(9).is_none());
    let tcp = vec![listen(4000, 77, 5)];
    assert_eq!(find_by_port(4000, &tcp, &vec![], &inodes), vec![MatchResult::Found(9)]);
}

#[test]
fn unreadable_stat_defaults_parent_to_zero_and_indexes_nothing() {
    let scans = vec![scan(33, Some(vec!["lone"]), None, None, None)];
    let (procs, inodes) = build_snapshot(&scans);
    let rec = procs.get(33).unwrap();
    assert_eq!(rec.parent_pid, 0);
    assert_eq!(rec.exe, None);
    assert_eq!(rec.uid, None);
    let tcp = vec![listen(4000, 77, 5)];
    assert_eq!(
        find_by_port(4000, &tcp, &vec![], &inodes),
        vec![MatchResult::UnknownOwner(5)]
    );
}

#[test]
fn shared_inode_keeps_the_last_owner_seen() {
    let scans = vec![
        scan(1, Some(vec!["a"]), None, None, Some((0, vec![DescriptorTarget::Socket(88)]))),
        scan(2, Some(vec!["b"]), None, None, Some((0, vec![DescriptorTarget::Socket(88)]))),
    ];
    let (_, inodes) = build_snapshot(&scans);
    let tcp = vec![listen(1234, 88, 0)];
    assert_eq!(find_by_port(1234, &tcp, &vec![], &inodes), vec![MatchResult::Found(2)]);
}

#[test]
fn ancestry_of_present_pid_ends_at_it_and_starts_at_the_root() {
    let (procs, _) = build_snapshot(&server_scans());
    let chain = resolve_ancestry(205, &procs);
    let pids: Vec<u64> = chain.iter().map(|r| r.pid).collect();
    assert_eq!(pids, vec![1, 100, 205]);
    assert!(procs.get(chain[0].parent_pid).is_none());
}

#[test]
fn ancestry_of_absent_pid_is_empty() {
    let (procs, _) = build_snapshot(&server_scans());
    let chain = resolve_ancestry(777, &procs);
    assert!(chain.is_empty());
}

#[test]
fn port_query_matches_only_the_queried_port() {
    // Scenario A: two records identical but for the local port.
    let (_, inodes) = build_snapshot(&server_scans());
    let tcp = vec![listen(8080, 555, 1000), listen(9090, 555, 1000)];
    let matches = find_by_port(8080, &tcp, &vec![], &inodes);
    assert_eq!(matches, vec![MatchResult::Found(205)]);
}

#[test]
fn full_ancestry_for_a_listening_socket() {
    // Scenario B: the socket's inode maps to the server; its chain is
    // reported root first.
    let (procs, inodes) = build_snapshot(&server_scans());
    let tcp = vec![listen(8080, 555, 1000)];
    let matches = find_by_port(8080, &tcp, &vec![], &inodes);
    assert_eq!(matches, vec![MatchResult::Found(205)]);
    let chain = resolve_ancestry(205, &procs);
    let cmds: Vec<&str> = chain.iter().map(|r| r.cmd.as_str()).collect();
    assert_eq!(cmds, vec!["init", "shell", "server -p 8080"]);
}

#[test]
fn established_connections_never_match() {
    // Scenario C: the inode would resolve, but the state is not Listen.
    let (_, inodes) = build_snapshot(&server_scans());
    let tcp = vec![ConnectionRecord {
        local_port: 8080,
        state: ConnState::Established,
        inode: 555,
        uid: 0,
    }];
    let matches = find_by_port(8080, &tcp, &vec![], &inodes);
    assert!(matches.is_empty());
}

#[test]
fn unknown_inode_falls_back_to_the_kernel_uid() {
    let (_, inodes) = build_snapshot(&server_scans());
    let tcp = vec![listen(8080, 999, 4242)];
    let matches = find_by_port(8080, &tcp, &vec![], &inodes);
    assert_eq!(matches, vec![MatchResult::UnknownOwner(4242)]);
}

#[test]
fn tcp_results_come_before_tcp6() {
    let (_, inodes) = build_snapshot(&server_scans());
    let tcp = vec![listen(8080, 999, 1)];
    let tcp6 = vec![listen(8080, 555, 2)];
    let matches = find_by_port(8080, &tcp, &tcp6, &inodes);
    assert_eq!(
        matches,
        vec![MatchResult::UnknownOwner(1), MatchResult::Found(205)]
    );
}

#[test]
fn missing_file_yields_no_pids() {
    let listings = vec![FdListing {
        pid: 42,
        fds: vec![DescriptorTarget::FilePath("/tmp/log".to_string())],
    }];
    assert!(find_by_file(&None, &listings).is_empty());
}

#[test]
fn three_descriptors_on_one_file_report_the_pid_once() {
    let listings = vec![FdListing {
        pid: 42,
        fds: vec![
            DescriptorTarget::FilePath("/tmp/log".to_string()),
            DescriptorTarget::FilePath("/tmp/log".to_string()),
            DescriptorTarget::FilePath("/tmp/log".to_string()),
            DescriptorTarget::Other,
        ],
    }];
    let pids = find_by_file(&Some("/tmp/log".to_string()), &listings);
    assert_eq!(pids, vec![42]);
}

#[test]
fn file_query_reports_each_holder_in_scan_order() {
    let open = |p: &str| DescriptorTarget::FilePath(p.to_string());
    let listings = vec![
        FdListing { pid: 7, fds: vec![open("/tmp/log")] },
        FdListing { pid: 8, fds: vec![open("/tmp/other")] },
        FdListing { pid: 9, fds: vec![DescriptorTarget::Socket(1), open("/tmp/log")] },
        FdListing { pid: 7, fds: vec![open("/tmp/log")] },
    ];
    let pids = find_by_file(&Some("/tmp/log".to_string()), &listings);
    assert_eq!(pids, vec![7, 9]);
}

#[test]
fn inode_ancestry_follows_the_index() {
    let (procs, inodes) = build_snapshot(&server_scans());
    let chain = resolve_inode_ancestry(555, &inodes, &procs);
    let pids: Vec<u64> = chain.iter().map(|r| r.pid).collect();
    assert_eq!(pids, vec![1, 100, 205]);
    assert!(resolve_inode_ancestry(999, &inodes, &procs).is_empty());
}

#[test]
fn self_parented_root_is_reported_once() {
    // A stylized table whose root is its own parent: the walk's revisit
    // guard ends the chain instead of looping.
    let scans = vec![
        scan(0, Some(vec!["init"]), None, Some(0), Some((0, vec![]))),
        scan(100, Some(vec!["shell"]), None, Some(1000), Some((0, vec![]))),
        scan(205, Some(vec!["server"]), None, Some(1000), Some((100, vec![]))),
    ];
    let (procs, _) = build_snapshot(&scans);
    let chain = resolve_ancestry(205, &procs);
    let pids: Vec<u64> = chain.iter().map(|r| r.pid).collect();
    assert_eq!(pids, vec![0, 100, 205]);
}
