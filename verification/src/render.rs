//! The presenter: fixed-width text rows for ancestry chains and
//! unknown-owner fallbacks, and the assembly of a whole report.
//!
//! Four left-aligned columns of minimum widths 8, 8, 26 and 26, one
//! space between columns; a header row printed once; match groups
//! separated by exactly one blank line. Every string is specified down
//! to its characters, including the decimal rendering of pids and uids.

use vstd::prelude::*;
use vstd::string::StringExecFns;
use vstd::string::StrSliceExecFns;
use crate::model::ProcessRecord;
use crate::model::ProcessRecordView;
use crate::UNKNOWN_INDICATOR;

verus! {

/// The character for one decimal digit.
pub open spec fn digit_char(d: int) -> char {
    if d == 0 {
        '0'
    } else if d == 1 {
        '1'
    } else if d == 2 {
        '2'
    } else if d == 3 {
        '3'
    } else if d == 4 {
        '4'
    } else if d == 5 {
        '5'
    } else if d == 6 {
        '6'
    } else if d == 7 {
        '7'
    } else if d == 8 {
        '8'
    } else {
        '9'
    }
}

/// The decimal rendering of `n`, most significant digit first, no sign
/// and no leading zero except for `n == 0` itself.
pub open spec fn dec_rep(n: nat) -> Seq<char>
    decreases n,
{
    if n < 10 {
        seq![digit_char(n as int)]
    } else {
        dec_rep(n / 10).push(digit_char((n % 10) as int))
    }
}

/// `n` spaces.
pub open spec fn spaces(n: nat) -> Seq<char>
    decreases n,
{
    if n == 0 {
        Seq::empty()
    } else {
        spaces((n - 1) as nat).push(' ')
    }
}

/// `s` left-aligned in a field of minimum width `w`: padded with
/// trailing spaces when shorter, kept whole when longer.
pub open spec fn padded(s: Seq<char>, w: nat) -> Seq<char> {
    if s.len() >= w {
        s
    } else {
        s + spaces((w - s.len()) as nat)
    }
}

/// One output row: four left-aligned columns of minimum widths
/// 8, 8, 26 and 26, separated by single spaces.
pub open spec fn row_text(a: Seq<char>, b: Seq<char>, c: Seq<char>, d: Seq<char>) -> Seq<char> {
    padded(a, 8) + seq![' '] + padded(b, 8) + seq![' '] + padded(c, 26) + seq![' '] + padded(d, 26)
}

/// The row printed for one process record: pid, uid or the unknown
/// indicator, executable or the unknown indicator, command line.
pub open spec fn record_row(r: ProcessRecordView) -> Seq<char> {
    row_text(
        dec_rep(r.pid as nat),
        match r.uid {
            Some(u) => dec_rep(u as nat),
            None => UNKNOWN_INDICATOR@,
        },
        match r.exe {
            Some(e) => e,
            None => UNKNOWN_INDICATOR@,
        },
        r.cmd,
    )
}

/// The single fallback row for a connection with no located owner:
/// every column unknown but the kernel-reported uid.
pub open spec fn unknown_row(uid: u32) -> Seq<char> {
    row_text(UNKNOWN_INDICATOR@, dec_rep(uid as nat), UNKNOWN_INDICATOR@, UNKNOWN_INDICATOR@)
}

/// The header row, printed exactly once per invocation.
pub open spec fn header_row() -> Seq<char> {
    row_text("PID"@, "UID"@, "EXE"@, "CMD"@)
}

/// One match group's text: each row followed by a line break.
pub open spec fn group_text(rows: Seq<Seq<char>>) -> Seq<char>
    decreases rows.len(),
{
    if rows.len() == 0 {
        Seq::empty()
    } else {
        group_text(rows.drop_last()) + rows.last() + seq!['\n']
    }
}

/// All match groups, consecutive groups separated by one blank line.
pub open spec fn groups_text(groups: Seq<Seq<Seq<char>>>) -> Seq<char>
    decreases groups.len(),
{
    if groups.len() == 0 {
        Seq::empty()
    } else if groups.len() == 1 {
        group_text(groups[0])
    } else {
        groups_text(groups.drop_last()) + seq!['\n'] + group_text(groups.last())
    }
}

/// A whole report: the header line, then the match groups.
pub open spec fn report_text(groups: Seq<Seq<Seq<char>>>) -> Seq<char> {
    header_row() + seq!['\n'] + groups_text(groups)
}

/// The groups' rows as ghost values.
pub open spec fn group_views(groups: Seq<Vec<String>>) -> Seq<Seq<Seq<char>>> {
    groups.map_values(|g: Vec<String>| g@.map_values(|s: String| s@))
}

/// The text of one decimal digit.
fn digit_str(d: u64) -> (s: &'static str)
    requires
        d < 10,
    ensures
        s@ =~= seq![digit_char(d as int)],
{
    let s: &'static str = match d {
        0 => "0",
        1 => "1",
        2 => "2",
        3 => "3",
        4 => "4",
        5 => "5",
        6 => "6",
        7 => "7",
        8 => "8",
        _ => "9",
    };
    proof {
        reveal_strlit("0");
        reveal_strlit("1");
        reveal_strlit("2");
        reveal_strlit("3");
        reveal_strlit("4");
        reveal_strlit("5");
        reveal_strlit("6");
        reveal_strlit("7");
        reveal_strlit("8");
        reveal_strlit("9");
    }
    s
}

/// The yet-unemitted digits, least significant first, as the characters
/// they will add in front of what is already emitted.
spec fn rev_digit_chars(ds: Seq<u64>) -> Seq<char>
    decreases ds.len(),
{
    if ds.len() == 0 {
        Seq::empty()
    } else {
        seq![digit_char(ds.last() as int)] + rev_digit_chars(ds.drop_last())
    }
}

/// Renders `n` in decimal.
#[verifier::loop_isolation(false)]
fn u64_dec(n: u64) -> (r: String)
    ensures
        r@ == dec_rep(n as nat),
{
    let mut digits: Vec<u64> = Vec::new();
    let mut m: u64 = n;
    while m >= 10
        invariant
            dec_rep(n as nat) =~= dec_rep(m as nat) + rev_digit_chars(digits@),
            forall|i: int| 0 <= i < digits@.len() ==> #[trigger] digits@[i] < 10,
        decreases m,
    {
        let d = m % 10;
        let ghost old_digits = digits@;
        let ghost old_m = m;
        digits.push(d);
        m = m / 10;
        proof {
            assert(digits@.drop_last() =~= old_digits);
            assert(rev_digit_chars(digits@) =~= seq![digit_char(d as int)] + rev_digit_chars(
                old_digits,
            ));
            assert(dec_rep(old_m as nat) =~= dec_rep(m as nat).push(digit_char(d as int)));
            assert(dec_rep(n as nat) =~= dec_rep(m as nat) + rev_digit_chars(digits@));
        }
    }
    let mut r = String::from_str(digit_str(m));
    let mut j: usize = digits.len();
    proof {
        assert(digits@.take(digits@.len() as int) =~= digits@);
        assert(r@ + rev_digit_chars(digits@.take(j as int)) =~= dec_rep(n as nat));
    }
    while j > 0
        invariant
            j <= digits@.len(),
            r@ + rev_digit_chars(digits@.take(j as int)) =~= dec_rep(n as nat),
        decreases j,
    {
        let ghost old_r = r@;
        r.append(digit_str(digits[j - 1]));
        proof {
            assert(digits@.take(j as int).drop_last() =~= digits@.take(j - 1 as int));
            assert(digits@.take(j as int).last() == digits@[j - 1]);
            assert(rev_digit_chars(digits@.take(j as int)) =~= seq![
                digit_char(digits@[j - 1] as int),
            ] + rev_digit_chars(digits@.take(j - 1 as int)));
            assert(r@ + rev_digit_chars(digits@.take(j - 1 as int)) =~= dec_rep(n as nat));
        }
        j = j - 1;
    }
    proof {
        assert(digits@.take(0int) =~= Seq::<u64>::empty());
        assert(r@ + Seq::<char>::empty() =~= r@);
        assert(r@ =~= dec_rep(n as nat));
    }
    r
}

/// Appends `s` to `out`, left-aligned in a field of minimum width
/// `width`.
#[verifier::loop_isolation(false)]
fn append_padded(out: &mut String, s: &str, width: usize)
    ensures
        final(out)@ == old(out)@ + padded(s@, width as nat),
{
    out.append(s);
    let mut k: usize = s.unicode_len();
    proof {
        reveal_strlit(" ");
        assert(" "@ =~= seq![' ']);
        assert(spaces(0) =~= Seq::<char>::empty());
        assert(out@ =~= old(out)@ + s@ + spaces((k - s@.len()) as nat));
    }
    while k < width
        invariant
            s@.len() <= k,
            k == s@.len() || k <= width,
            out@ == old(out)@ + s@ + spaces((k - s@.len()) as nat),
        decreases width - k,
    {
        out.append(" ");
        k = k + 1;
        proof {
            reveal_strlit(" ");
            assert(" "@ =~= seq![' ']);
            assert(spaces((k - s@.len()) as nat) =~= spaces((k - 1 - s@.len()) as nat).push(' '));
            assert(out@ =~= old(out)@ + s@ + spaces((k - s@.len()) as nat));
        }
    }
    proof {
        if s@.len() >= width as nat {
            assert(out@ =~= old(out)@ + padded(s@, width as nat));
        } else {
            assert(out@ =~= old(out)@ + padded(s@, width as nat));
        }
    }
}

/// One row of four left-aligned columns, widths 8, 8, 26 and 26.
fn render_columns(a: &str, b: &str, c: &str, d: &str) -> (r: String)
    ensures
        r@ == row_text(a@, b@, c@, d@),
{
    let mut r = String::new();
    append_padded(&mut r, a, 8);
    r.append(" ");
    append_padded(&mut r, b, 8);
    r.append(" ");
    append_padded(&mut r, c, 26);
    r.append(" ");
    append_padded(&mut r, d, 26);
    proof {
        reveal_strlit(" ");
        assert(" "@ =~= seq![' ']);
        assert(r@ =~= row_text(a@, b@, c@, d@));
    }
    r
}

/// The header row: `PID`, `UID`, `EXE`, `CMD`.
pub fn render_header() -> (r: String)
    ensures
        r@ == header_row(),
{
    render_columns("PID", "UID", "EXE", "CMD")
}

/// The display row for one process record, unknown fields rendered as
/// the unknown indicator.
pub fn render_record(rec: &ProcessRecord) -> (r: String)
    ensures
        r@ == record_row(rec@),
{
    let pid_text = u64_dec(rec.pid);
    let uid_text = match rec.uid {
        Some(u) => u64_dec(u as u64),
        None => String::from_str(UNKNOWN_INDICATOR),
    };
    let exe_text: &str = match &rec.exe {
        Some(e) => e.as_str(),
        None => UNKNOWN_INDICATOR,
    };
    render_columns(pid_text.as_str(), uid_text.as_str(), exe_text, rec.cmd.as_str())
}

/// The single fallback row for an owner known only by uid.
pub fn render_unknown_row(uid: u32) -> (r: String)
    ensures
        r@ == unknown_row(uid),
{
    let uid_text = u64_dec(uid as u64);
    render_columns(UNKNOWN_INDICATOR, uid_text.as_str(), UNKNOWN_INDICATOR, UNKNOWN_INDICATOR)
}

/// Assembles a whole report: the header line first, every group's rows
/// each on its own line, one blank line between consecutive groups.
/// With no groups at all, the report is the header line alone.
#[verifier::loop_isolation(false)]
pub fn render_report(groups: &Vec<Vec<String>>) -> (r: String)
    ensures
        r@ == report_text(group_views(groups@)),
{
    let ghost gvs = group_views(groups@);
    let mut r = render_header();
    r.append("\n");
    proof {
        reveal_strlit("\n");
        assert("\n"@ =~= seq!['\n']);
        assert(gvs.take(0int) =~= Seq::<Seq<Seq<char>>>::empty());
        assert(r@ =~= header_row() + seq!['\n'] + groups_text(gvs.take(0int)));
    }
    let mut i: usize = 0;
    while i < groups.len()
        invariant
            i <= groups.len(),
            r@ == header_row() + seq!['\n'] + groups_text(gvs.take(i as int)),
        decreases groups.len() - i,
    {
        if i > 0 {
            r.append("\n");
            proof {
                reveal_strlit("\n");
                assert("\n"@ =~= seq!['\n']);
            }
        }
        let g = &groups[i];
        let ghost rows = gvs[i as int];
        let ghost r_at_group = r@;
        let mut j: usize = 0;
        proof {
            assert(rows.take(0int) =~= Seq::<Seq<char>>::empty());
            assert(group_text(rows.take(0int)) =~= Seq::<char>::empty());
            assert(r@ =~= r_at_group + group_text(rows.take(0int)));
        }
        while j < g.len()
            invariant
                j <= g.len(),
                r@ == r_at_group + group_text(rows.take(j as int)),
            decreases g.len() - j,
        {
            r.append(g[j].as_str());
            r.append("\n");
            proof {
                reveal_strlit("\n");
                assert("\n"@ =~= seq!['\n']);
                assert(rows.take(j + 1 as int).drop_last() =~= rows.take(j as int));
                assert(rows.take(j + 1 as int).last() == g@[j as int]@);
                assert(r@ =~= r_at_group + group_text(rows.take(j + 1 as int)));
            }
            j = j + 1;
        }
        proof {
            assert(rows.take(g@.len() as int) =~= rows);
            assert(gvs.take(i + 1 as int).drop_last() =~= gvs.take(i as int));
            assert(gvs.take(i + 1 as int).last() == gvs[i as int]);
            if i == 0 {
                assert(groups_text(gvs.take(1int)) =~= group_text(gvs[0int]));
                assert(r@ =~= header_row() + seq!['\n'] + groups_text(gvs.take(i + 1 as int)));
            } else {
                assert(groups_text(gvs.take(i + 1 as int)) =~= groups_text(gvs.take(i as int))
                    + seq!['\n'] + group_text(gvs[i as int]));
                assert(r@ =~= header_row() + seq!['\n'] + groups_text(gvs.take(i + 1 as int)));
            }
        }
        i = i + 1;
    }
    proof {
        assert(gvs.take(groups@.len() as int) =~= gvs);
    }
    r
}

} // verus!
