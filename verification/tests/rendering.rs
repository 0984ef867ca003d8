//! Checks of the presenter: exact fixed-width rows and whole reports,
//! held against what std's formatting macro produces.

use usedby::build_snapshot;
use usedby::file_report;
use usedby::port_report;
use usedby::render_header;
use usedby::render_record;
use usedby::render_report;
use usedby::render_unknown_row;
use usedby::resolve_ancestry;
use usedby::ConnState;
use usedby::ConnectionRecord;
use usedby::DescriptorTarget;
use usedby::FdListing;
use usedby::LineageScan;
use usedby::ProcessScan;

fn row(a: &str, b: &str, c: &str, d: &str) -> String {
    format!("{:<8} {:<8} {:<26} {:<26}", a, b, c, d)
}

fn server_scans() -> Vec<ProcessScan> {
    vec![
        ProcessScan {
            pid: 1,
            args: Some(vec!["init".to_string()]),
            exe: Some("/sbin/init".to_string()),
            uid: Some(0),
            lineage: Some(LineageScan { parent_pid: 0, fds: vec![] }),
        },
        ProcessScan {
            pid: 100,
            args: Some(vec!["shell".to_string()]),
            exe: None,
            uid: None,
            lineage: Some(LineageScan { parent_pid: 1, fds: vec![] }),
        },
        ProcessScan {
            pid: 205,
            args: Some(vec!["server".to_string(), "-p".to_string(), "8080".to_string()]),
            exe: Some("/usr/bin/server".to_string()),
            uid: Some(1000),
            lineage: Some(LineageScan {
                parent_pid: 100,
                fds: vec![DescriptorTarget::Socket(555)],
            }),
        },
    ]
}

#[test]
fn header_row_matches_the_fixed_width_format() {
    assert_eq!(render_header(), row("PID", "UID", "EXE", "CMD"));
}

#[test]
fn record_row_renders_pid_uid_exe_and_command() {
    let (procs, _) = build_snapshot(&server_scans());
    let rec = procs.get(205).unwrap();
    assert_eq!(
        render_record(rec),
        format!("{:<8} {:<8} {:<26} {:<26}", 205, 1000, "/usr/bin/server", "server -p 8080")
    );
}

#[test]
fn unknown_fields_render_as_the_indicator() {
    let (procs, _) = build_snapshot(&server_scans());
    let rec = procs.get(100).unwrap();
    assert_eq!(render_record(rec), row("100", "?", "?", "shell"));
}

#[test]
fn large_pids_render_in_full_decimal() {
    let scans = vec![ProcessScan {
        pid: 1234567890,
        args: Some(vec!["big".to_string()]),
        exe: None,
        uid: Some(0),
        lineage: None,
    }];
    let (procs, _) = build_snapshot(&scans);
    let rec = procs.get(1234567890).unwrap();
    assert_eq!(render_record(rec), row("1234567890", "0", "?", "big"));
}

#[test]
fn unknown_owner_renders_the_single_fallback_row() {
    assert_eq!(
        render_unknown_row(4242),
        format!("{:<8} {:<8} {:<26} {:<26}", "?", 4242, "?", "?")
    );
}

#[test]
fn report_with_no_groups_is_the_header_alone() {
    assert_eq!(render_report(&vec![]), format!("{}\n", render_header()));
}

#[test]
fn groups_are_separated_by_exactly_one_blank_line() {
    let g1 = vec!["a".to_string(), "b".to_string()];
    let g2 = vec!["c".to_string()];
    let expected = format!("{}\na\nb\n\nc\n", render_header());
    assert_eq!(render_report(&vec![g1, g2]), expected);
}

#[test]
fn port_report_prints_the_whole_ancestry() {
    let (procs, inodes) = build_snapshot(&server_scans());
    let tcp = vec![ConnectionRecord {
        local_port: 8080,
        state: ConnState::Listen,
        inode: 555,
        uid: 1000,
    }];
    let report = port_report(8080, &tcp, &vec![], &procs, &inodes);
    let chain = resolve_ancestry(205, &procs);
    let mut expected = format!("{}\n", render_header());
    for rec in &chain {
        expected.push_str(&render_record(rec));
        expected.push('\n');
    }
    assert_eq!(report, expected);
    assert_eq!(report.lines().count(), 4);
}

#[test]
fn port_report_for_an_unknown_inode_prints_the_fallback_row() {
    let (procs, inodes) = build_snapshot(&server_scans());
    let tcp = vec![ConnectionRecord {
        local_port: 8080,
        state: ConnState::Listen,
        inode: 999,
        uid: 4242,
    }];
    let report = port_report(8080, &tcp, &vec![], &procs, &inodes);
    let expected = format!("{}\n{}\n", render_header(), row("?", "4242", "?", "?"));
    assert_eq!(report, expected);
}

#[test]
fn file_report_for_a_missing_path_prints_only_the_header() {
    let (procs, _) = build_snapshot(&server_scans());
    let listings = vec![FdListing {
        pid: 205,
        fds: vec![DescriptorTarget::FilePath("/tmp/log".to_string())],
    }];
    let report = file_report(&None, &listings, &procs);
    assert_eq!(report, format!("{}\n", render_header()));
}

#[test]
fn file_report_prints_one_group_per_holder() {
    let (procs, _) = build_snapshot(&server_scans());
    let open = DescriptorTarget::FilePath("/tmp/log".to_string());
    let listings = vec![FdListing { pid: 205, fds: vec![open] }];
    let report = file_report(&Some("/tmp/log".to_string()), &listings, &procs);
    let chain = resolve_ancestry(205, &procs);
    let mut expected = format!("{}\n", render_header());
    for rec in &chain {
        expected.push_str(&render_record(rec));
        expected.push('\n');
    }
    assert_eq!(report, expected);
}
