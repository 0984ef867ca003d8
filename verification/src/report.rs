//! The two query pipelines, snapshot to finished report text: correlate,
//! resolve each owner's ancestry, render.
//!
//! Each pipeline's contract fixes the match sequence exactly and ties
//! every match group to a chain the ancestry resolver stands behind:
//! under an acyclic parent relation those chains are the unique walks to
//! the root, so the whole report is pinned down.

use vstd::prelude::*;
use crate::ancestry::chain_views;
use crate::ancestry::resolve_ancestry;
use crate::ancestry::valid_chain;
use crate::correlate::file_matches;
use crate::correlate::find_by_file;
use crate::correlate::find_by_port;
use crate::correlate::listing_views;
use crate::correlate::port_matches;
use crate::model::ConnectionRecord;
use crate::model::FdListing;
use crate::model::MatchResult;
use crate::model::ProcessRecord;
use crate::model::ProcessRecordView;
use crate::render::group_views;
use crate::render::record_row;
use crate::render::render_record;
use crate::render::render_report;
use crate::render::render_unknown_row;
use crate::render::report_text;
use crate::render::unknown_row;
use crate::snapshot::InodeIndex;
use crate::snapshot::ProcessIndex;

verus! {

/// The display rows of an ancestry chain, in chain order.
pub open spec fn rows_of_chain(c: Seq<ProcessRecordView>) -> Seq<Seq<char>> {
    c.map_values(|r: ProcessRecordView| record_row(r))
}

/// What one match group must show: for a located owner, the rows of an
/// ancestry chain the resolver stands behind; for an unknown owner, the
/// single fallback row with the kernel-reported uid.
pub open spec fn group_for_match(
    m: Map<u64, ProcessRecordView>,
    mr: MatchResult,
    g: Seq<Seq<char>>,
) -> bool {
    match mr {
        MatchResult::Found(p) => exists|c: Seq<ProcessRecordView>|
            #[trigger] valid_chain(m, p, c) && g == rows_of_chain(c),
        MatchResult::UnknownOwner(uid) => g == seq![unknown_row(uid)],
    }
}

/// One group per match result, in match order.
pub open spec fn groups_for_matches(
    m: Map<u64, ProcessRecordView>,
    ms: Seq<MatchResult>,
    gs: Seq<Seq<Seq<char>>>,
) -> bool {
    gs.len() == ms.len() && forall|i: int|
        0 <= i < ms.len() ==> group_for_match(m, ms[i], #[trigger] gs[i])
}

/// One ancestry group: the rows of a chain the resolver stands behind
/// for `pid`.
pub open spec fn group_for_pid(m: Map<u64, ProcessRecordView>, pid: u64, g: Seq<Seq<char>>) -> bool {
    exists|c: Seq<ProcessRecordView>| #[trigger] valid_chain(m, pid, c) && g == rows_of_chain(c)
}

/// One ancestry group per reported pid, in report order.
pub open spec fn groups_for_pids(
    m: Map<u64, ProcessRecordView>,
    pids: Seq<u64>,
    gs: Seq<Seq<Seq<char>>>,
) -> bool {
    gs.len() == pids.len() && forall|i: int|
        0 <= i < pids.len() ==> group_for_pid(m, pids[i], #[trigger] gs[i])
}

/// The pids a file query reports: nothing when the path did not
/// canonicalize, else the de-duplicated holders of the canonical path.
pub open spec fn file_query_pids(target: Option<Seq<char>>, listings: Seq<FdListing>) -> Seq<u64> {
    match target {
        Some(t) => file_matches(listing_views(listings), t),
        None => Seq::empty(),
    }
}

/// The query path as a ghost value, kept absent when canonicalization
/// failed.
pub open spec fn target_view(target: Option<String>) -> Option<Seq<char>> {
    match target {
        Some(t) => Some(t@),
        None => None,
    }
}

/// Renders each chain record as one display row.
#[verifier::loop_isolation(false)]
fn render_rows(chain: &Vec<ProcessRecord>) -> (rows: Vec<String>)
    ensures
        rows@.map_values(|s: String| s@) == rows_of_chain(chain_views(chain@)),
{
    let mut rows: Vec<String> = Vec::new();
    let mut i: usize = 0;
    while i < chain.len()
        invariant
            i <= chain.len(),
            rows@.map_values(|s: String| s@) =~= rows_of_chain(chain_views(chain@)).take(i as int),
        decreases chain.len() - i,
    {
        rows.push(render_record(&chain[i]));
        proof {
            assert(rows@.map_values(|s: String| s@) =~= rows_of_chain(chain_views(chain@)).take(
                i + 1 as int,
            ));
        }
        i = i + 1;
    }
    proof {
        assert(rows_of_chain(chain_views(chain@)).take(chain@.len() as int) =~= rows_of_chain(
            chain_views(chain@),
        ));
    }
    rows
}

/// One group per match: resolved ancestry rows for located owners, the
/// fallback row for unknown ones.
#[verifier::loop_isolation(false)]
fn match_groups(matches: &Vec<MatchResult>, procs: &ProcessIndex) -> (groups: Vec<Vec<String>>)
    ensures
        groups_for_matches(procs@, matches@, group_views(groups@)),
{
    let mut groups: Vec<Vec<String>> = Vec::new();
    let mut i: usize = 0;
    while i < matches.len()
        invariant
            i <= matches.len(),
            groups_for_matches(procs@, matches@.take(i as int), group_views(groups@)),
        decreases matches.len() - i,
    {
        let ghost old_groups = groups@;
        match matches[i] {
            MatchResult::Found(p) => {
                let chain = resolve_ancestry(p, procs);
                let rows = render_rows(&chain);
                groups.push(rows);
                proof {
                    assert(group_views(groups@) =~= group_views(old_groups).push(
                        rows@.map_values(|s: String| s@),
                    ));
                    assert(valid_chain(procs@, p, chain_views(chain@)) && group_views(groups@)[
                        i as int
                    ] == rows_of_chain(chain_views(chain@)));
                    assert(group_for_match(procs@, matches@[i as int], group_views(groups@)[i as int]));
                }
            },
            MatchResult::UnknownOwner(uid) => {
                let row = render_unknown_row(uid);
                let mut g: Vec<String> = Vec::new();
                g.push(row);
                groups.push(g);
                proof {
                    assert(group_views(groups@) =~= group_views(old_groups).push(
                        g@.map_values(|s: String| s@),
                    ));
                    assert(group_views(groups@)[i as int] =~= seq![unknown_row(uid)]);
                    assert(group_for_match(procs@, matches@[i as int], group_views(groups@)[i as int]));
                }
            },
        }
        proof {
            let pre = matches@.take(i as int);
            let post = matches@.take(i + 1 as int);
            assert(post.drop_last() =~= pre);
            assert(post.last() == matches@[i as int]);
            assert forall|k: int|
                0 <= k < post.len() implies group_for_match(procs@, post[k], #[trigger] group_views(
                groups@,
            )[k]) by {
                if k < i {
                    assert(group_views(groups@)[k] == group_views(old_groups)[k]);
                    assert(group_for_match(procs@, pre[k], group_views(old_groups)[k]));
                }
            }
        }
        i = i + 1;
    }
    proof {
        assert(matches@.take(matches@.len() as int) =~= matches@);
    }
    groups
}

/// One ancestry group per pid.
#[verifier::loop_isolation(false)]
fn pid_groups(pids: &Vec<u64>, procs: &ProcessIndex) -> (groups: Vec<Vec<String>>)
    ensures
        groups_for_pids(procs@, pids@, group_views(groups@)),
{
    let mut groups: Vec<Vec<String>> = Vec::new();
    let mut i: usize = 0;
    while i < pids.len()
        invariant
            i <= pids.len(),
            groups_for_pids(procs@, pids@.take(i as int), group_views(groups@)),
        decreases pids.len() - i,
    {
        let ghost old_groups = groups@;
        let chain = resolve_ancestry(pids[i], procs);
        let rows = render_rows(&chain);
        groups.push(rows);
        proof {
            assert(group_views(groups@) =~= group_views(old_groups).push(
                rows@.map_values(|s: String| s@),
            ));
            assert(valid_chain(procs@, pids@[i as int], chain_views(chain@)) && group_views(
                groups@,
            )[i as int] == rows_of_chain(chain_views(chain@)));
            let pre = pids@.take(i as int);
            let post = pids@.take(i + 1 as int);
            assert(post.drop_last() =~= pre);
            assert(post.last() == pids@[i as int]);
            assert forall|k: int|
                0 <= k < post.len() implies group_for_pid(procs@, post[k], #[trigger] group_views(
                groups@,
            )[k]) by {
                if k < i {
                    assert(group_views(groups@)[k] == group_views(old_groups)[k]);
                    assert(group_for_pid(procs@, pre[k], group_views(old_groups)[k]));
                }
            }
        }
        i = i + 1;
    }
    proof {
        assert(pids@.take(pids@.len() as int) =~= pids@);
    }
    groups
}

/// The whole report for a port query: the header line, then one group
/// per matching `Listen` connection, in table order — the resolved
/// ancestry of the located owner, or the unknown-owner fallback row.
pub fn port_report(
    port: u16,
    tcp: &Vec<ConnectionRecord>,
    tcp6: &Vec<ConnectionRecord>,
    procs: &ProcessIndex,
    inodes: &InodeIndex,
) -> (r: String)
    ensures
        exists|gs: Seq<Seq<Seq<char>>>|
            #[trigger] groups_for_matches(procs@, port_matches(tcp@ + tcp6@, inodes@, port), gs)
                && r@ == report_text(gs),
{
    let matches = find_by_port(port, tcp, tcp6, inodes);
    let groups = match_groups(&matches, procs);
    let r = render_report(&groups);
    proof {
        assert(groups_for_matches(procs@, port_matches(tcp@ + tcp6@, inodes@, port), group_views(
            groups@,
        )) && r@ == report_text(group_views(groups@)));
    }
    r
}

/// The whole report for a file query: the header line, then one
/// ancestry group per process holding the canonical path open, each pid
/// at most once. A path that did not canonicalize yields the header
/// alone.
pub fn file_report(target: &Option<String>, listings: &Vec<FdListing>, procs: &ProcessIndex) -> (r:
    String)
    ensures
        exists|gs: Seq<Seq<Seq<char>>>|
            #[trigger] groups_for_pids(
                procs@,
                file_query_pids(target_view(*target), listings@),
                gs,
            ) && r@ == report_text(gs),
{
    let pids = find_by_file(target, listings);
    let groups = pid_groups(&pids, procs);
    let r = render_report(&groups);
    proof {
        assert(groups_for_pids(
            procs@,
            file_query_pids(target_view(*target), listings@),
            group_views(groups@),
        ) && r@ == report_text(group_views(groups@)));
    }
    r
}

/// A file query whose path did not canonicalize reports nothing: its
/// pid sequence is empty, so the report is the header line and not one
/// row more.
pub proof fn lemma_missing_path_header_only(
    m: Map<u64, ProcessRecordView>,
    listings: Seq<FdListing>,
    gs: Seq<Seq<Seq<char>>>,
)
    requires
        groups_for_pids(m, file_query_pids(None, listings), gs),
    ensures
        report_text(gs) == crate::render::header_row() + seq!['\n'],
{
    assert(gs.len() == 0);
    assert(gs =~= Seq::<Seq<Seq<char>>>::empty());
    assert(report_text(gs) =~= crate::render::header_row() + seq!['\n']);
}

} // verus!
