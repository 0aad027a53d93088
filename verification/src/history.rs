//! Scan history: the metrics a snapshot records, counted over the tree, and
//! the trend report over past snapshots.
use vstd::prelude::*;
use crate::display::{
    cells_cuttable_v, headers_view, info_line, labels_cuttable_at_3_v, out_all, push_line,
    push_lines, rows_view, series_view, sparkline_lines_v, str_line, sub_header_lines,
    table_lines_exec, table_lines_v, table_printable, write_lines, Output,
};
use crate::autofix::fix_skip_dirs;
use crate::autofix_scan::keyword_count;
use crate::complexity::{brace_scan, brace_scan_exec, lemma_brace_scan_bounds, weights};
use crate::pattern::{regex_compiles, regex_is_match, Pattern};
use crate::sast::{has_extension, has_extension_exec};
use crate::tree::{entry_path, is_skipped, skipped, strings_view, strs_view, BlobContent, TreeEntry};
use crate::value::{get, get_field, json_parse, parse_json, DocValue};
use crate::text::{
    byte_prefix, byte_prefix_exec, chars_of, decimal, decimal_exec, extend, extend_str,
    ends_with, ends_with_str, is_boundary, is_boundary_exec, lines, lines_of, matches_at, starts_with,
    starts_with_str, string_of,
    total_len, trim, trim_exec, utf8_len, utf8_len_capped, utf8_len_capped_exec, views, contains, contains_str,
};

verus! {

/// The line that shows how a metric moved: down (green, improving), up
/// (red, worsening) or level (yellow).
pub open spec fn direction_line(label: Seq<char>, old: nat, new: nat) -> Seq<char> {
    let (arrow, color) = if new < old {
        ("↓"@, "\x1b[32m"@)
    } else if new > old {
        ("↑"@, "\x1b[31m"@)
    } else {
        ("→"@, "\x1b[33m"@)
    };
    "      "@ + color + arrow + "\x1b[0m "@ + label + ": "@ + decimal(old) + " → "@ + decimal(new)
}

fn direction_line_exec(label: &str, old: usize, new: usize) -> (r: Vec<char>)
    ensures
        r@ == direction_line(label@, old as nat, new as nat),
{
    let mut l: Vec<char> = Vec::new();
    extend_str(&mut l, "      ");
    if new < old {
        extend_str(&mut l, "\x1b[32m");
        extend_str(&mut l, "↓");
    } else if new > old {
        extend_str(&mut l, "\x1b[31m");
        extend_str(&mut l, "↑");
    } else {
        extend_str(&mut l, "\x1b[33m");
        extend_str(&mut l, "→");
    }
    extend_str(&mut l, "\x1b[0m ");
    extend_str(&mut l, label);
    extend_str(&mut l, ": ");
    extend(&mut l, &decimal_exec(old));
    extend_str(&mut l, " → ");
    extend(&mut l, &decimal_exec(new));
    proof {
        assert(l@ =~= direction_line(label@, old as nat, new as nat));
    }
    l
}

/// Shows how a metric moved from `old` to `new`.
pub fn show_direction(o: &mut Output, label: &str, before: usize, after: usize)
    ensures
        final(o)@ == write_lines(old(o)@, seq![direction_line(label@, before as nat, after as nat)]),
{
    let ghost o0 = o@;
    let l = direction_line_exec(label, before, after);
    crate::display::out_chars(o, &l);
    proof {
        crate::display::lemma_write_lines_one(o0, l@);
    }
}

/// A past snapshot as the trend report shows it: when it was taken, at
/// which commit, its SAST high and medium counts, its average complexity as
/// text and in tenths, its advisory and secret counts, and how many of its
/// dependency licenses were copyleft and how many permissive.
pub struct TrendRow {
    pub timestamp: String,
    pub commit_hash: String,
    pub sast_high: usize,
    pub sast_medium: usize,
    pub complexity_text: String,
    pub complexity_tenths: usize,
    pub sca_cve_count: usize,
    pub secrets_found: usize,
    pub license_copyleft: usize,
    pub license_permissive: usize,
}

/// The texts and numbers of a snapshot row.
pub type TrendView = (Seq<char>, Seq<char>, nat, nat, Seq<char>, nat, nat, nat, nat, nat);

/// The views of snapshot rows.
pub open spec fn trends_view(rs: Seq<TrendRow>) -> Seq<TrendView> {
    Seq::new(
        rs.len(),
        |i: int|
            (
                rs[i].timestamp@,
                rs[i].commit_hash@,
                rs[i].sast_high as nat,
                rs[i].sast_medium as nat,
                rs[i].complexity_text@,
                rs[i].complexity_tenths as nat,
                rs[i].sca_cve_count as nat,
                rs[i].secrets_found as nat,
                rs[i].license_copyleft as nat,
                rs[i].license_permissive as nat,
            ),
    )
}

/// The first `n` bytes of `s` (all of it when shorter).
pub open spec fn head_bytes(s: Seq<char>, n: nat) -> Seq<char> {
    byte_prefix(s, utf8_len_capped(s, n) as int)
}

/// `s` can be cut at its first `n` bytes (or is no longer).
pub open spec fn head_cuttable(s: Seq<char>, n: nat) -> bool {
    is_boundary(s, utf8_len_capped(s, n) as int)
}

fn head_bytes_exec(s: &str, n: usize) -> (r: Option<Vec<char>>)
    requires
        n < 1000,
    ensures
        r is Some <==> head_cuttable(s@, n as nat),
        r matches Some(v) ==> v@ == head_bytes(s@, n as nat),
{
    let c = chars_of(s);
    let m = utf8_len_capped_exec(&c, n);
    if !is_boundary_exec(&c, m) {
        return None;
    }
    Some(byte_prefix_exec(&c, m))
}

/// The rows of the trend table.
pub open spec fn trend_rows(rs: Seq<TrendView>) -> Seq<Seq<Seq<char>>> {
    Seq::new(
        rs.len(),
        |i: int|
            seq![
                head_bytes(rs[i].0, 10),
                head_bytes(rs[i].1, 7),
                decimal(rs[i].2),
                decimal(rs[i].3),
                rs[i].4,
                decimal(rs[i].6),
                decimal(rs[i].7),
            ],
    )
}

/// The headers of the trend table.
pub open spec fn trend_headers() -> Seq<Seq<char>> {
    seq!["Date"@, "Commit"@, "SAST High"@, "SAST Med"@, "Avg Complexity"@, "CVEs"@, "Secrets"@]
}

/// A series of a trend: each snapshot's date with one of its values.
pub open spec fn trend_series(rs: Seq<TrendView>, which: nat) -> Seq<(Seq<char>, nat)> {
    Seq::new(
        rs.len(),
        |i: int|
            (
                head_bytes(rs[i].0, 10),
                if which == 0 {
                    rs[i].2
                } else if which == 1 {
                    rs[i].5
                } else if which == 2 {
                    rs[i].6
                } else {
                    rs[i].8
                },
            ),
    )
}

/// The report on past snapshots, oldest first.
pub open spec fn trends_report(rs: Seq<TrendView>) -> Seq<Seq<char>> {
    if rs.len() == 0 {
        seq![info_line("No historical data available yet. Run more scans to see trends."@)]
    } else {
        sub_header_lines("Findings Trends Over Time"@) + table_lines_v(trend_headers(), trend_rows(rs)) + if rs.len()
            >= 2 {
            let first = rs[0];
            let last = rs.last();
            seq![""@, "    \x1b[1mVulnerability Trend (SAST HIGH):\x1b[0m"@] + sparkline_lines_v(trend_series(rs, 0))
                + seq![""@, "    \x1b[1mComplexity Trend:\x1b[0m"@] + sparkline_lines_v(trend_series(rs, 1)) + seq![
                ""@,
                "    \x1b[1mCVE Count Trend:\x1b[0m"@,
            ] + sparkline_lines_v(trend_series(rs, 2)) + seq![
                ""@,
                "    \x1b[1mLicense Drift (copyleft licenses):\x1b[0m"@,
            ] + sparkline_lines_v(trend_series(rs, 3)) + seq![
                ""@,
                "    \x1b[1mDirection Summary:\x1b[0m"@,
                direction_line("SAST HIGH findings"@, first.2, last.2),
                direction_line("Avg complexity"@, first.5, last.5),
                direction_line("CVE count"@, first.6, last.6),
                direction_line("Secrets found"@, first.7, last.7),
                direction_line("Copyleft licenses"@, first.8, last.8),
                direction_line("Permissive licenses"@, first.9, last.9),
            ]
        } else {
            Seq::empty()
        }
    }
}

/// The trend report can be made: every date and commit can be cut, the
/// table printed, and the dates cut at byte 3 in the sparklines.
pub open spec fn trends_printable(rs: Seq<TrendView>) -> bool {
    &&& forall|i: int| 0 <= i < rs.len() ==> head_cuttable(#[trigger] rs[i].0, 10) && head_cuttable(rs[i].1, 7)
    &&& cells_cuttable_v(trend_rows(rs))
    &&& (rs.len() >= 2 ==> labels_cuttable_at_3_v(trend_series(rs, 0)))
}

/// The trend table's rows and the three series, when every date and commit can be cut.
fn trend_inputs(rows: &Vec<TrendRow>) -> (r: Option<(Vec<Vec<String>>, Vec<(String, usize)>, Vec<(String, usize)>, Vec<(String, usize)>, Vec<(String, usize)>)>)
    ensures
        r is Some <==> forall|k: int|
            0 <= k < trends_view(rows@).len() ==> head_cuttable(#[trigger] trends_view(rows@)[k].0, 10)
                && head_cuttable(trends_view(rows@)[k].1, 7),
        r matches Some(x) ==> {
            &&& rows_view(x.0@) == trend_rows(trends_view(rows@))
            &&& series_view(x.1@) == trend_series(trends_view(rows@), 0)
            &&& series_view(x.2@) == trend_series(trends_view(rows@), 1)
            &&& series_view(x.3@) == trend_series(trends_view(rows@), 2)
            &&& series_view(x.4@) == trend_series(trends_view(rows@), 3)
        },
{
    let ghost rv = trends_view(rows@);
    let mut table: Vec<Vec<String>> = Vec::new();
    let mut s0: Vec<(String, usize)> = Vec::new();
    let mut s1: Vec<(String, usize)> = Vec::new();
    let mut s2: Vec<(String, usize)> = Vec::new();
    let mut s3: Vec<(String, usize)> = Vec::new();
    let mut i: usize = 0;
    proof {
        assert(rv.take(0) =~= Seq::<TrendView>::empty());
        assert(series_view(s0@) =~= trend_series(rv.take(0), 0));
        assert(series_view(s1@) =~= trend_series(rv.take(0), 1));
        assert(series_view(s2@) =~= trend_series(rv.take(0), 2));
        assert(series_view(s3@) =~= trend_series(rv.take(0), 3));
    }
    while i < rows.len()
        invariant
            i <= rows@.len(),
            rv == trends_view(rows@),
            table@.len() == i,
            series_view(s0@) == trend_series(rv.take(i as int), 0),
            series_view(s1@) == trend_series(rv.take(i as int), 1),
            series_view(s2@) == trend_series(rv.take(i as int), 2),
            series_view(s3@) == trend_series(rv.take(i as int), 3),
            forall|k: int| 0 <= k < i ==> head_cuttable(#[trigger] rv[k].0, 10) && head_cuttable(rv[k].1, 7),
            forall|k: int| 0 <= k < i ==> #[trigger] rows_view(table@)[k] == trend_rows(rv)[k],
        decreases rows@.len() - i,
    {
        let r = &rows[i];
        proof {
            assert(rv[i as int].0 == r.timestamp@);
            assert(rv[i as int].1 == r.commit_hash@);
        }
        let d = match head_bytes_exec(r.timestamp.as_str(), 10) {
            Some(d) => d,
            None => return None,
        };
        let c = match head_bytes_exec(r.commit_hash.as_str(), 7) {
            Some(c) => c,
            None => return None,
        };
        let mut row: Vec<String> = Vec::new();
        row.push(string_of(&d));
        row.push(string_of(&c));
        row.push(string_of(&decimal_exec(r.sast_high)));
        row.push(string_of(&decimal_exec(r.sast_medium)));
        row.push(r.complexity_text.clone());
        row.push(string_of(&decimal_exec(r.sca_cve_count)));
        row.push(string_of(&decimal_exec(r.secrets_found)));
        let ghost before = table@;
        table.push(row);
        let ghost b0 = series_view(s0@);
        let ghost b1 = series_view(s1@);
        let ghost b2 = series_view(s2@);
        let ghost b3 = series_view(s3@);
        s0.push((string_of(&d), r.sast_high));
        s1.push((string_of(&d), r.complexity_tenths));
        s2.push((string_of(&d), r.sca_cve_count));
        s3.push((string_of(&d), r.license_copyleft));
        proof {
            assert(rv.take(i + 1) =~= rv.take(i as int).push(rv[i as int]));
            assert(series_view(s0@) =~= b0.push((d@, r.sast_high as nat)));
            assert(series_view(s1@) =~= b1.push((d@, r.complexity_tenths as nat)));
            assert(series_view(s2@) =~= b2.push((d@, r.sca_cve_count as nat)));
            assert(series_view(s3@) =~= b3.push((d@, r.license_copyleft as nat)));
            assert(trend_series(rv.take(i + 1), 3) =~= trend_series(rv.take(i as int), 3).push(
                (d@, r.license_copyleft as nat),
            ));
            assert(trend_series(rv.take(i + 1), 0) =~= trend_series(rv.take(i as int), 0).push((d@, r.sast_high as nat)));
            assert(trend_series(rv.take(i + 1), 1) =~= trend_series(rv.take(i as int), 1).push(
                (d@, r.complexity_tenths as nat),
            ));
            assert(trend_series(rv.take(i + 1), 2) =~= trend_series(rv.take(i as int), 2).push(
                (d@, r.sca_cve_count as nat),
            ));
            assert forall|k: int| 0 <= k < i + 1 implies #[trigger] rows_view(table@)[k] == trend_rows(rv)[k] by {
                if k < i {
                    assert(table@[k] == before[k]);
                    assert(rows_view(table@)[k] == rows_view(before)[k]);
                } else {
                    assert(rows_view(table@)[k] =~= trend_rows(rv)[k]);
                }
            }
        }
        i += 1;
    }
    proof {
        assert(rows_view(table@) =~= trend_rows(rv));
        assert(rv.take(rows@.len() as int) =~= rv);
    }
    Some((table, s0, s1, s2, s3))
}

/// The three series share their labels, so they can be cut alike.
proof fn lemma_series_labels(rv: Seq<TrendView>)
    ensures
        labels_cuttable_at_3_v(trend_series(rv, 0)) ==> labels_cuttable_at_3_v(trend_series(rv, 1))
            && labels_cuttable_at_3_v(trend_series(rv, 2)) && labels_cuttable_at_3_v(trend_series(rv, 3)),
{
    if labels_cuttable_at_3_v(trend_series(rv, 0)) {
        assert forall|k: int| 0 <= k < rv.len() && utf8_len(#[trigger] trend_series(rv, 1)[k].0) > 3 implies is_boundary(
            trend_series(rv, 1)[k].0,
            3,
        ) by {
            assert(trend_series(rv, 1)[k].0 == trend_series(rv, 0)[k].0);
        }
        assert forall|k: int| 0 <= k < rv.len() && utf8_len(#[trigger] trend_series(rv, 2)[k].0) > 3 implies is_boundary(
            trend_series(rv, 2)[k].0,
            3,
        ) by {
            assert(trend_series(rv, 2)[k].0 == trend_series(rv, 0)[k].0);
        }
        assert forall|k: int| 0 <= k < rv.len() && utf8_len(#[trigger] trend_series(rv, 3)[k].0) > 3 implies is_boundary(
            trend_series(rv, 3)[k].0,
            3,
        ) by {
            assert(trend_series(rv, 3)[k].0 == trend_series(rv, 0)[k].0);
        }
    }
}

/// The charts and direction summary of at least two snapshots.
fn trend_charts(
    rows: &Vec<TrendRow>,
    s0: &Vec<(String, usize)>,
    s1: &Vec<(String, usize)>,
    s2: &Vec<(String, usize)>,
    s3: &Vec<(String, usize)>,
) -> (r: Vec<Vec<char>>)
    requires
        rows@.len() >= 2,
        series_view(s0@) == trend_series(trends_view(rows@), 0),
        series_view(s1@) == trend_series(trends_view(rows@), 1),
        series_view(s2@) == trend_series(trends_view(rows@), 2),
        series_view(s3@) == trend_series(trends_view(rows@), 3),
        labels_cuttable_at_3_v(trend_series(trends_view(rows@), 0)),
    ensures
        ({
            let rv = trends_view(rows@);
            let first = rv[0];
            let last = rv.last();
            views(r@) == seq![""@, "    \x1b[1mVulnerability Trend (SAST HIGH):\x1b[0m"@] + sparkline_lines_v(
                trend_series(rv, 0),
            ) + seq![""@, "    \x1b[1mComplexity Trend:\x1b[0m"@] + sparkline_lines_v(trend_series(rv, 1)) + seq![
                ""@,
                "    \x1b[1mCVE Count Trend:\x1b[0m"@,
            ] + sparkline_lines_v(trend_series(rv, 2)) + seq![
                ""@,
                "    \x1b[1mLicense Drift (copyleft licenses):\x1b[0m"@,
            ] + sparkline_lines_v(trend_series(rv, 3)) + seq![
                ""@,
                "    \x1b[1mDirection Summary:\x1b[0m"@,
                direction_line("SAST HIGH findings"@, first.2, last.2),
                direction_line("Avg complexity"@, first.5, last.5),
                direction_line("CVE count"@, first.6, last.6),
                direction_line("Secrets found"@, first.7, last.7),
                direction_line("Copyleft licenses"@, first.8, last.8),
                direction_line("Permissive licenses"@, first.9, last.9),
            ]
        }),
{
    let ghost rv = trends_view(rows@);
    proof {
        lemma_series_labels(rv);
    }
    let mut body: Vec<Vec<char>> = Vec::new();
    push_line(&mut body, str_line(""));
    push_line(&mut body, str_line("    \x1b[1mVulnerability Trend (SAST HIGH):\x1b[0m"));
    push_lines(&mut body, sparkline_exec(s0));
    push_line(&mut body, str_line(""));
    push_line(&mut body, str_line("    \x1b[1mComplexity Trend:\x1b[0m"));
    push_lines(&mut body, sparkline_exec(s1));
    push_line(&mut body, str_line(""));
    push_line(&mut body, str_line("    \x1b[1mCVE Count Trend:\x1b[0m"));
    push_lines(&mut body, sparkline_exec(s2));
    push_line(&mut body, str_line(""));
    push_line(&mut body, str_line("    \x1b[1mLicense Drift (copyleft licenses):\x1b[0m"));
    push_lines(&mut body, sparkline_exec(s3));
    let first = &rows[0];
    let last = &rows[rows.len() - 1];
    push_line(&mut body, str_line(""));
    push_line(&mut body, str_line("    \x1b[1mDirection Summary:\x1b[0m"));
    push_line(&mut body, direction_line_exec("SAST HIGH findings", first.sast_high, last.sast_high));
    push_line(&mut body, direction_line_exec("Avg complexity", first.complexity_tenths, last.complexity_tenths));
    push_line(&mut body, direction_line_exec("CVE count", first.sca_cve_count, last.sca_cve_count));
    push_line(&mut body, direction_line_exec("Secrets found", first.secrets_found, last.secrets_found));
    push_line(&mut body, direction_line_exec("Copyleft licenses", first.license_copyleft, last.license_copyleft));
    push_line(&mut body, direction_line_exec("Permissive licenses", first.license_permissive, last.license_permissive));
    proof {
        assert(rv[0].2 == first.sast_high);
        assert(rv.last() == rv[rows@.len() - 1]);
    }
    body
}

/// Display trend charts from historical scan data (oldest snapshot first).
///
/// Returns `false`, writing nothing, when a date or commit cannot be cut
/// where it must, or the table or sparklines cannot be printed.
pub fn display_trends(o: &mut Output, rows: &Vec<TrendRow>) -> (ok: bool)
    ensures
        ok == (trends_view(rows@).len() == 0 || trends_printable(trends_view(rows@))),
        ok ==> final(o)@ == write_lines(old(o)@, trends_report(trends_view(rows@))),
        !ok ==> final(o)@ == old(o)@,
{
    let ghost o0 = o@;
    let ghost rv = trends_view(rows@);
    if rows.len() == 0 {
        crate::display::print_info(o, "No historical data available yet. Run more scans to see trends.");
        proof {
            crate::display::lemma_write_lines_one(
                o0,
                info_line("No historical data available yet. Run more scans to see trends."@),
            );
        }
        return true;
    }
    let (table, s0, s1, s2, s3) = match trend_inputs(rows) {
        Some(x) => x,
        None => return false,
    };
    proof {
        crate::display::lemma_table_view(Seq::<&str>::empty(), table@);
    }
    if !table_printable(table.as_slice()) {
        return false;
    }
    let two = rows.len() >= 2;
    if two && !labels_at_3(&s0) {
        return false;
    }
    let mut body: Vec<Vec<char>> = Vec::new();
    let h: Vec<&str> = vec!["Date", "Commit", "SAST High", "SAST Med", "Avg Complexity", "CVEs", "Secrets"];
    proof {
        assert(headers_view(h@) =~= trend_headers());
    }
    push_lines(&mut body, table_lines_exec(h.as_slice(), table.as_slice()));
    if two {
        push_lines(&mut body, trend_charts(rows, &s0, &s1, &s2, &s3));
    }
    proof {
        assert(sub_header_lines("Findings Trends Over Time"@) + views(body@) =~= trends_report(rv));
    }
    crate::display::print_sub_header(o, "Findings Trends Over Time");
    out_all(o, &body);
    proof {
        crate::display::lemma_write_lines_append(o0, sub_header_lines("Findings Trends Over Time"@), views(body@));
    }
    true
}

/// Whether every label longer than three bytes can be cut at byte 3.
fn labels_at_3(data: &Vec<(String, usize)>) -> (r: bool)
    ensures
        r == labels_cuttable_at_3_v(series_view(data@)),
{
    let ghost sv = series_view(data@);
    let mut i: usize = 0;
    while i < data.len()
        invariant
            i <= data@.len(),
            sv == series_view(data@),
            forall|k: int| 0 <= k < i && utf8_len(#[trigger] sv[k].0) > 3 ==> is_boundary(sv[k].0, 3),
        decreases data@.len() - i,
    {
        let c = chars_of(data[i].0.as_str());
        assert(sv[i as int].0 == c@);
        if utf8_len_capped_exec(&c, 4) > 3 && !is_boundary_exec(&c, 3) {
            return false;
        }
        i += 1;
    }
    true
}

/// The lines of a sparkline.
fn sparkline_exec(data: &Vec<(String, usize)>) -> (r: Vec<Vec<char>>)
    requires
        labels_cuttable_at_3_v(series_view(data@)),
    ensures
        views(r@) == sparkline_lines_v(series_view(data@)),
{
    proof {
        crate::display::lemma_sparkline_view(data@);
    }
    let mut tmp = Output::new();
    let ghost t0 = tmp@;
    crate::display::print_sparkline(&mut tmp, data.as_slice());
    proof {
        crate::display::lemma_write_lines_printed(t0, sparkline_lines_v(series_view(data@)));
        assert(t0.printed + sparkline_lines_v(series_view(data@)) =~= sparkline_lines_v(series_view(data@)));
    }
    let mut r: Vec<Vec<char>> = Vec::new();
    let mut i: usize = 0;
    while i < tmp.printed.len()
        invariant
            i <= tmp.printed@.len(),
            r@.len() == i,
            forall|k: int| 0 <= k < i ==> #[trigger] r@[k]@ == tmp.printed@[k]@,
        decreases tmp.printed@.len() - i,
    {
        r.push(chars_of(tmp.printed[i].as_str()));
        i += 1;
    }
    proof {
        assert(views(r@) =~= tmp@.printed);
    }
    r
}

/// The rules the snapshot counts SAST findings with: severity, pattern, extensions.
pub open spec fn count_rule_table() -> Seq<(Seq<char>, Seq<char>, Seq<Seq<char>>)> {
    seq![
        (
            "HIGH"@,
            r#"(?i)(execute|query|raw)\s*\(.*(\+|format!|f"|fmt\.Sprintf)"#@,
            seq![".rs"@, ".go"@, ".py"@, ".ts"@, ".js"@, ".java"@],
        ),
        ("HIGH"@, r"\beval\s*\("@, seq![".js"@, ".ts"@, ".py"@, ".php"@]),
        ("HIGH"@, r#"(?i)(SECRET_KEY|API_KEY|PASSWORD)\s*=\s*['"][^'"]{4,}['"]"#@, seq![".py"@, ".js"@, ".ts"@, ".java"@]),
        ("MEDIUM"@, r"\.innerHTML\s*="@, seq![".js"@, ".ts"@, ".tsx"@]),
        ("MEDIUM"@, r"(?i)(md5|sha-?1)\s*\("@, seq![".py"@, ".java"@, ".go"@]),
        ("INFO"@, r"\bunsafe\s*\{"@, seq![".rs"@]),
    ]
}

/// A counting rule.
pub struct CountRule {
    pub severity: &'static str,
    pub pattern: &'static str,
    pub extensions: Vec<&'static str>,
}

/// The texts of a counting rule.
pub open spec fn count_rule_view(r: CountRule) -> (Seq<char>, Seq<char>, Seq<Seq<char>>) {
    (r.severity@, r.pattern@, strs_view(r.extensions@))
}

fn count_rules() -> (r: Vec<CountRule>)
    ensures
        Seq::new(r@.len(), |i: int| count_rule_view(r@[i])) == count_rule_table(),
{
    let mut v: Vec<CountRule> = Vec::new();
    v.push(CountRule {
        severity: "HIGH",
        pattern: r#"(?i)(execute|query|raw)\s*\(.*(\+|format!|f"|fmt\.Sprintf)"#,
        extensions: vec![".rs", ".go", ".py", ".ts", ".js", ".java"],
    });
    v.push(CountRule { severity: "HIGH", pattern: r"\beval\s*\(", extensions: vec![".js", ".ts", ".py", ".php"] });
    v.push(CountRule {
        severity: "HIGH",
        pattern: r#"(?i)(SECRET_KEY|API_KEY|PASSWORD)\s*=\s*['"][^'"]{4,}['"]"#,
        extensions: vec![".py", ".js", ".ts", ".java"],
    });
    v.push(CountRule { severity: "MEDIUM", pattern: r"\.innerHTML\s*=", extensions: vec![".js", ".ts", ".tsx"] });
    v.push(CountRule { severity: "MEDIUM", pattern: r"(?i)(md5|sha-?1)\s*\(", extensions: vec![".py", ".java", ".go"] });
    v.push(CountRule { severity: "INFO", pattern: r"\bunsafe\s*\{", extensions: vec![".rs"] });
    proof {
        assert(Seq::new(v@.len(), |i: int| count_rule_view(v@[i])) =~~= count_rule_table());
    }
    v
}

/// Counts one more finding of the severity: "HIGH", "MEDIUM", or anything else as info.
pub open spec fn add_severity(c: (nat, nat, nat), sev: Seq<char>) -> (nat, nat, nat) {
    if sev == "HIGH"@ {
        ((c.0 + 1) as nat, c.1, c.2)
    } else if sev == "MEDIUM"@ {
        (c.0, (c.1 + 1) as nat, c.2)
    } else {
        (c.0, c.1, (c.2 + 1) as nat)
    }
}

/// The counts after the first `n` rules looked at a line of the file at `path`.
pub open spec fn line_counts(
    rules: Seq<(Seq<char>, Seq<char>, Seq<Seq<char>>)>,
    path: Seq<char>,
    line: Seq<char>,
    c: (nat, nat, nat),
    n: int,
) -> (nat, nat, nat)
    decreases n,
{
    if n <= 0 {
        c
    } else {
        let prev = line_counts(rules, path, line, c, n - 1);
        let r = rules[n - 1];
        if has_extension(path, r.2) && regex_is_match(r.1, line) {
            add_severity(prev, r.0)
        } else {
            prev
        }
    }
}

/// The counts after the lines of a file.
pub open spec fn file_counts(path: Seq<char>, ls: Seq<Seq<char>>, c: (nat, nat, nat)) -> (nat, nat, nat)
    decreases ls.len(),
{
    if ls.len() == 0 {
        c
    } else {
        line_counts(count_rule_table(), path, ls.last(), file_counts(path, ls.drop_last(), c), 6)
    }
}

/// The SAST counts (high, medium, info) over the tree's files outside skipped directories.
pub open spec fn sast_counts(entries: Seq<TreeEntry>, ignore: Seq<Seq<char>>) -> (nat, nat, nat)
    decreases entries.len(),
{
    if entries.len() == 0 {
        (0, 0, 0)
    } else {
        let prev = sast_counts(entries.drop_last(), ignore);
        let e = entries.last();
        let p = entry_path(e);
        if skipped(p, fix_skip_dirs(), ignore) {
            prev
        } else {
            match e.content {
                BlobContent::Text(c) => file_counts(p, lines(c@), prev),
                _ => prev,
            }
        }
    }
}

/// Counts only grow.
proof fn lemma_line_counts_grow(
    rules: Seq<(Seq<char>, Seq<char>, Seq<Seq<char>>)>,
    path: Seq<char>,
    line: Seq<char>,
    c: (nat, nat, nat),
    n: int,
)
    ensures
        line_counts(rules, path, line, c, n).0 >= c.0,
        line_counts(rules, path, line, c, n).1 >= c.1,
        line_counts(rules, path, line, c, n).2 >= c.2,
    decreases n,
{
    if n > 0 {
        lemma_line_counts_grow(rules, path, line, c, n - 1);
    }
}

proof fn lemma_file_counts_grow(path: Seq<char>, ls: Seq<Seq<char>>, c: (nat, nat, nat))
    ensures
        file_counts(path, ls, c).0 >= c.0,
        file_counts(path, ls, c).1 >= c.1,
        file_counts(path, ls, c).2 >= c.2,
    decreases ls.len(),
{
    if ls.len() > 0 {
        lemma_file_counts_grow(path, ls.drop_last(), c);
        lemma_line_counts_grow(count_rule_table(), path, ls.last(), file_counts(path, ls.drop_last(), c), 6);
    }
}

proof fn lemma_sast_counts_grow(entries: Seq<TreeEntry>, ignore: Seq<Seq<char>>, i: int)
    requires
        0 <= i <= entries.len(),
    ensures
        sast_counts(entries, ignore).0 >= sast_counts(entries.take(i), ignore).0,
        sast_counts(entries, ignore).1 >= sast_counts(entries.take(i), ignore).1,
        sast_counts(entries, ignore).2 >= sast_counts(entries.take(i), ignore).2,
    decreases entries.len() - i,
{
    if i < entries.len() {
        lemma_sast_counts_grow(entries, ignore, i + 1);
        assert(entries.take(i + 1).drop_last() =~= entries.take(i));
        let e = entries.take(i + 1).last();
        match e.content {
            BlobContent::Text(c) => {
                lemma_file_counts_grow(entry_path(e), lines(c@), sast_counts(entries.take(i), ignore));
            },
            _ => {},
        }
    } else {
        assert(entries.take(i) =~= entries);
    }
}

/// Each count of `a` is at most that of `b`.
pub open spec fn le3(a: (nat, nat, nat), b: (nat, nat, nat)) -> bool {
    a.0 <= b.0 && a.1 <= b.1 && a.2 <= b.2
}

proof fn lemma_line_counts_mono(
    rules: Seq<(Seq<char>, Seq<char>, Seq<Seq<char>>)>,
    path: Seq<char>,
    line: Seq<char>,
    c: (nat, nat, nat),
    d: (nat, nat, nat),
    n: int,
    m: int,
)
    requires
        le3(c, d),
        n <= m,
    ensures
        le3(line_counts(rules, path, line, c, n), line_counts(rules, path, line, d, m)),
    decreases m,
{
    if m > 0 && n < m {
        lemma_line_counts_mono(rules, path, line, c, d, n, m - 1);
    } else if m > 0 && n == m {
        lemma_line_counts_mono(rules, path, line, c, d, n - 1, m - 1);
    }
}

proof fn lemma_file_counts_mono(path: Seq<char>, ls: Seq<Seq<char>>, c: (nat, nat, nat), j: int)
    requires
        0 <= j <= ls.len(),
    ensures
        le3(file_counts(path, ls.take(j), c), file_counts(path, ls, c)),
    decreases ls.len() - j,
{
    if j < ls.len() {
        lemma_file_counts_mono(path, ls, c, j + 1);
        assert(ls.take(j + 1).drop_last() =~= ls.take(j));
        let prev = file_counts(path, ls.take(j), c);
        lemma_line_counts_mono(count_rule_table(), path, ls.take(j + 1).last(), prev, prev, 0, 6);
    } else {
        assert(ls.take(j) =~= ls);
    }
}

/// When a count overflows while a line is counted, the tree's final count overflows too.
proof fn lemma_overflow_final(
    entries: Seq<TreeEntry>,
    ignore: Seq<Seq<char>>,
    i: int,
    path: Seq<char>,
    lv: Seq<Seq<char>>,
    j: int,
    cj: (nat, nat, nat),
    k: int,
)
    requires
        0 <= i < entries.len(),
        0 <= j < lv.len(),
        0 <= k < 6,
        entries.take(i + 1).drop_last() == entries.take(i),
        path == entry_path(entries.take(i + 1).last()),
        !skipped(path, fix_skip_dirs(), ignore),
        entries.take(i + 1).last().content matches BlobContent::Text(x) && lines(x@) == lv,
        cj == file_counts(path, lv.take(j), sast_counts(entries.take(i), ignore)),
        !counts_fit(line_counts(count_rule_table(), path, lv[j], cj, k + 1)),
    ensures
        !counts_fit(sast_counts(entries, ignore)),
{
    let c0 = sast_counts(entries.take(i), ignore);
    lemma_line_counts_mono(count_rule_table(), path, lv[j], cj, cj, k + 1, 6);
    assert(lv.take(j + 1).drop_last() =~= lv.take(j));
    assert(lv.take(j + 1).last() == lv[j]);
    assert(file_counts(path, lv.take(j + 1), c0) == line_counts(count_rule_table(), path, lv[j], cj, 6));
    lemma_file_counts_mono(path, lv, c0, j + 1);
    assert(sast_counts(entries.take(i + 1), ignore) == file_counts(path, lv, c0));
    lemma_sast_counts_grow(entries, ignore, i + 1);
}

/// All three counts fit in a `usize`.
pub open spec fn counts_fit(c: (nat, nat, nat)) -> bool {
    c.0 <= usize::MAX && c.1 <= usize::MAX && c.2 <= usize::MAX
}

/// Every counting rule compiles.
pub open spec fn count_rules_compile() -> bool {
    forall|i: int| 0 <= i < count_rule_table().len() ==> regex_compiles(#[trigger] count_rule_table()[i].1)
}

/// The counts after the rules looked at one line; `None` when a count exceeds `usize::MAX`.
fn count_line(
    rules: &Vec<CountRule>,
    pats: &Vec<Pattern>,
    path: &Vec<char>,
    line: &str,
    c0: (usize, usize, usize),
) -> (r: Option<(usize, usize, usize)>)
    requires
        Seq::new(rules@.len(), |i: int| count_rule_view(rules@[i])) == count_rule_table(),
        rules@.len() == 6,
        pats@.len() == rules@.len(),
        forall|i: int| 0 <= i < pats@.len() ==> (#[trigger] pats@[i]).source() == rules@[i].pattern@,
    ensures
        r is Some <==> counts_fit(
            line_counts(count_rule_table(), path@, line@, (c0.0 as nat, c0.1 as nat, c0.2 as nat), 6),
        ),
        r matches Some(x) ==> (x.0 as nat, x.1 as nat, x.2 as nat) == line_counts(
            count_rule_table(),
            path@,
            line@,
            (c0.0 as nat, c0.1 as nat, c0.2 as nat),
            6,
        ),
{
    let ghost table = count_rule_table();
    let ghost cj = (c0.0 as nat, c0.1 as nat, c0.2 as nat);
    let mut c = c0;
    let mut k: usize = 0;
    while k < rules.len()
        invariant
            k <= rules@.len(),
            rules@.len() == 6,
            table == count_rule_table(),
            Seq::new(rules@.len(), |i: int| count_rule_view(rules@[i])) == table,
            pats@.len() == rules@.len(),
            forall|i: int| 0 <= i < pats@.len() ==> (#[trigger] pats@[i]).source() == rules@[i].pattern@,
            (c.0 as nat, c.1 as nat, c.2 as nat) == line_counts(table, path@, line@, cj, k as int),
            cj == (c0.0 as nat, c0.1 as nat, c0.2 as nat),
        decreases rules@.len() - k,
    {
        assert(count_rule_view(rules@[k as int]) == table[k as int]);
        let r = &rules[k];
        if has_extension_exec(path, &r.extensions) && pats[k].is_match(line) {
            let sev = chars_of(r.severity);
            let next = if crate::text::eq_str(&sev, "HIGH") {
                match c.0.checked_add(1) {
                    Some(x) => Some((x, c.1, c.2)),
                    None => None,
                }
            } else if crate::text::eq_str(&sev, "MEDIUM") {
                match c.1.checked_add(1) {
                    Some(x) => Some((c.0, x, c.2)),
                    None => None,
                }
            } else {
                match c.2.checked_add(1) {
                    Some(x) => Some((c.0, c.1, x)),
                    None => None,
                }
            };
            match next {
                Some(x) => {
                    c = x;
                },
                None => {
                    proof {
                        assert(table[k as int] == (r.severity@, r.pattern@, strs_view(r.extensions@)));
                        assert(line_counts(table, path@, line@, cj, k + 1) == add_severity(
                            (c.0 as nat, c.1 as nat, c.2 as nat),
                            r.severity@,
                        ));
                        assert(!counts_fit(line_counts(table, path@, line@, cj, k + 1)));
                        lemma_line_counts_mono(table, path@, line@, cj, cj, k + 1, 6);
                        let a = line_counts(table, path@, line@, cj, k + 1);
                        let b = line_counts(table, path@, line@, cj, 6);
                        assert(le3(a, b));
                        assert(!counts_fit(b));
                        assert(cj == (c0.0 as nat, c0.1 as nat, c0.2 as nat));
                        assert(!counts_fit(
                            line_counts(count_rule_table(), path@, line@, (c0.0 as nat, c0.1 as nat, c0.2 as nat), 6),
                        ));
                    }
                    return None;
                },
            }
        }
        k += 1;
    }
    Some(c)
}

/// Counts the SAST findings of the snapshot (high, medium, info) over the
/// tree's files outside skipped directories: every line each rule for the
/// file's extension matches. `None` when a pattern does not compile or a
/// count exceeds `usize::MAX`.
pub fn count_sast_findings(entries: &Vec<TreeEntry>, ignore_dirs: &Vec<String>) -> (r: Option<(usize, usize, usize)>)
    ensures
        r is Some <==> count_rules_compile() && counts_fit(sast_counts(entries@, strings_view(ignore_dirs@))),
        r matches Some(c) ==> (c.0 as nat, c.1 as nat, c.2 as nat) == sast_counts(entries@, strings_view(ignore_dirs@)),
{
    let ghost iv = strings_view(ignore_dirs@);
    let ghost table = count_rule_table();
    let rules = count_rules();
    let mut pats: Vec<Pattern> = Vec::new();
    let mut q: usize = 0;
    while q < rules.len()
        invariant
            q <= rules@.len(),
            table == count_rule_table(),
            Seq::new(rules@.len(), |i: int| count_rule_view(rules@[i])) == table,
            pats@.len() == q,
            forall|i: int| 0 <= i < q ==> (#[trigger] pats@[i]).source() == rules@[i].pattern@,
            forall|i: int| 0 <= i < q ==> regex_compiles(#[trigger] table[i].1),
        decreases rules@.len() - q,
    {
        assert(count_rule_view(rules@[q as int]) == table[q as int]);
        match Pattern::new(rules[q].pattern) {
            Some(p) => {
                pats.push(p);
            },
            None => {
                assert(!regex_compiles(table[q as int].1));
                return None;
            },
        }
        q += 1;
    }
    proof {
        assert(Seq::new(rules@.len(), |i: int| count_rule_view(rules@[i])).len() == rules@.len());
        assert(rules@.len() == 6);
    }
    let defaults: Vec<&str> = vec!["vendor/", "node_modules/", ".git/", "target/", "dist/", "build/"];
    proof {
        assert(strs_view(defaults@) =~= fix_skip_dirs());
    }
    let mut c: (usize, usize, usize) = (0, 0, 0);
    let mut i: usize = 0;
    proof {
        assert(entries@.take(0) =~= Seq::<TreeEntry>::empty());
    }
    while i < entries.len()
        invariant
            i <= entries@.len(),
            iv == strings_view(ignore_dirs@),
            table == count_rule_table(),
            rules@.len() == 6,
            Seq::new(rules@.len(), |i: int| count_rule_view(rules@[i])) == table,
            pats@.len() == rules@.len(),
            forall|i: int| 0 <= i < pats@.len() ==> (#[trigger] pats@[i]).source() == rules@[i].pattern@,
            strs_view(defaults@) == fix_skip_dirs(),
            (c.0 as nat, c.1 as nat, c.2 as nat) == sast_counts(entries@.take(i as int), iv),
        decreases entries@.len() - i,
    {
        let e = &entries[i];
        proof {
            assert(entries@.take(i + 1).drop_last() =~= entries@.take(i as int));
            assert(entries@.take(i + 1).last() == *e);
        }
        let mut path = chars_of(e.dir.as_str());
        extend_str(&mut path, e.name.as_str());
        assert(path@ == entry_path(*e));
        if !is_skipped(&path, defaults.as_slice(), ignore_dirs.as_slice()) {
            match &e.content {
                BlobContent::Text(text) => {
                    let ls = lines_of(text.as_str());
                    let ghost lv = lines(text@);
                    let ghost c0 = (c.0 as nat, c.1 as nat, c.2 as nat);
                    let n = ls.len();
                    let mut j: usize = 0;
                    proof {
                        assert(lv.take(0) =~= Seq::<Seq<char>>::empty());
                    }
                    while j < n
                        invariant
                            j <= n,
                            n == ls@.len(),
                            views(ls@) == lv,
                            lv == lines(text@),
                            table == count_rule_table(),
                            rules@.len() == 6,
                            Seq::new(rules@.len(), |i: int| count_rule_view(rules@[i])) == table,
                            pats@.len() == rules@.len(),
                            forall|i: int| 0 <= i < pats@.len() ==> (#[trigger] pats@[i]).source() == rules@[i].pattern@,
                            (c.0 as nat, c.1 as nat, c.2 as nat) == file_counts(path@, lv.take(j as int), c0),
                            i < entries@.len(),
                            entries@.take(i + 1).drop_last() == entries@.take(i as int),
                            entries@.take(i + 1).last() == *e,
                            c0 == sast_counts(entries@.take(i as int), iv),
                            !skipped(path@, fix_skip_dirs(), iv),
                            path@ == entry_path(*e),
                            e.content matches BlobContent::Text(x) && x@ == text@,
                            iv == strings_view(ignore_dirs@),
                        decreases n - j,
                    {
                        proof {
                            assert(lv.take(j + 1).drop_last() =~= lv.take(j as int));
                            assert(lv.take(j + 1).last() == ls@[j as int]@);
                        }
                        let line = string_of(&ls[j]);
                        let ghost cj = (c.0 as nat, c.1 as nat, c.2 as nat);
                        match count_line(&rules, &pats, &path, line.as_str(), c) {
                            Some(x) => {
                                c = x;
                            },
                            None => {
                                proof {
                                    lemma_overflow_final(entries@, iv, i as int, path@, lv, j as int, cj, 5);
                                }
                                return None;
                            },
                        }
                        j += 1;
                    }
                    proof {
                        assert(lv.take(n as int) =~= lv);
                    }
                },
                _ => {},
            }
        }
        i += 1;
    }
    proof {
        assert(entries@.take(entries@.len() as int) =~= entries@);
    }
    Some(c)
}

/// The path lies under one of the prefixes, taken as they are.
pub open spec fn under_any(path: Seq<char>, prefixes: Seq<Seq<char>>) -> bool {
    exists|i: int| 0 <= i < prefixes.len() && starts_with(path, #[trigger] prefixes[i])
}

fn under_any_strings(path: &Vec<char>, prefixes: &Vec<String>) -> (r: bool)
    ensures
        r == under_any(path@, strings_view(prefixes@)),
{
    let ghost pv = strings_view(prefixes@);
    let mut i: usize = 0;
    while i < prefixes.len()
        invariant
            i <= prefixes@.len(),
            pv == strings_view(prefixes@),
            forall|k: int| 0 <= k < i ==> !starts_with(path@, #[trigger] pv[k]),
        decreases prefixes@.len() - i,
    {
        let pc = chars_of(prefixes[i].as_str());
        if crate::text::starts_with_exec(path, &pc) {
            assert(pv[i as int] == pc@);
            return true;
        }
        i += 1;
    }
    false
}

/// The pattern the snapshot counts secret assignments with.
pub open spec fn secret_count_pattern() -> Seq<char> {
    r#"(?i)(api[_-]?key|secret[_-]?key|password|passwd|token|auth[_-]?token)\s*[=:]\s*['"][^'"]{8,}['"]"#@
}

/// The number of lines the pattern matches.
pub open spec fn match_count_lines(pat: Seq<char>, ls: Seq<Seq<char>>) -> nat
    decreases ls.len(),
{
    if ls.len() == 0 {
        0
    } else {
        match_count_lines(pat, ls.drop_last()) + if regex_is_match(pat, ls.last()) {
            1nat
        } else {
            0nat
        }
    }
}

/// The secret assignments counted over the tree's files outside skipped
/// directories (ignored directories taken as plain prefixes).
pub open spec fn secret_count(entries: Seq<TreeEntry>, ignore: Seq<Seq<char>>) -> nat
    decreases entries.len(),
{
    if entries.len() == 0 {
        0
    } else {
        let prev = secret_count(entries.drop_last(), ignore);
        let e = entries.last();
        let p = entry_path(e);
        if under_any(p, fix_skip_dirs()) || under_any(p, ignore) {
            prev
        } else {
            match e.content {
                BlobContent::Text(c) => prev + match_count_lines(secret_count_pattern(), lines(c@)),
                _ => prev,
            }
        }
    }
}

proof fn lemma_secret_count_grow(entries: Seq<TreeEntry>, ignore: Seq<Seq<char>>, i: int)
    requires
        0 <= i <= entries.len(),
    ensures
        secret_count(entries.take(i), ignore) <= secret_count(entries, ignore),
    decreases entries.len() - i,
{
    if i < entries.len() {
        lemma_secret_count_grow(entries, ignore, i + 1);
        assert(entries.take(i + 1).drop_last() =~= entries.take(i));
    } else {
        assert(entries.take(i) =~= entries);
    }
}

/// The number of lines of the file the pattern matches.
fn match_count_lines_exec(pat: &Pattern, ls: &Vec<Vec<char>>) -> (r: usize)
    ensures
        r == match_count_lines(pat.source(), views(ls@)),
{
    let ghost lv = views(ls@);
    let n = ls.len();
    let mut r: usize = 0;
    let mut j: usize = 0;
    proof {
        assert(lv.take(0) =~= Seq::<Seq<char>>::empty());
    }
    while j < n
        invariant
            j <= n,
            n == ls@.len(),
            lv == views(ls@),
            r <= j,
            r == match_count_lines(pat.source(), lv.take(j as int)),
        decreases n - j,
    {
        proof {
            assert(lv.take(j + 1).drop_last() =~= lv.take(j as int));
            assert(lv.take(j + 1).last() == ls@[j as int]@);
        }
        let text = string_of(&ls[j]);
        if pat.is_match(text.as_str()) {
            r += 1;
        }
        j += 1;
    }
    proof {
        assert(lv.take(n as int) =~= lv);
    }
    r
}

/// Counts the lines of the tree's files (outside skipped directories, ignored
/// ones taken as plain prefixes) that assign a secret-looking literal.
/// `None` when the pattern does not compile or the count exceeds `usize::MAX`.
pub fn count_secrets(entries: &Vec<TreeEntry>, ignore_dirs: &Vec<String>) -> (r: Option<usize>)
    ensures
        r is Some <==> regex_compiles(secret_count_pattern()) && secret_count(entries@, strings_view(ignore_dirs@))
            <= usize::MAX,
        r matches Some(n) ==> n == secret_count(entries@, strings_view(ignore_dirs@)),
{
    let ghost iv = strings_view(ignore_dirs@);
    let pat = match Pattern::new(
        r#"(?i)(api[_-]?key|secret[_-]?key|password|passwd|token|auth[_-]?token)\s*[=:]\s*['"][^'"]{8,}['"]"#,
    ) {
        Some(p) => p,
        None => return None,
    };
    let defaults: Vec<String> = vec![
        "vendor/".to_string(),
        "node_modules/".to_string(),
        ".git/".to_string(),
        "target/".to_string(),
        "dist/".to_string(),
        "build/".to_string(),
    ];
    proof {
        assert(strings_view(defaults@) =~= fix_skip_dirs());
    }
    let mut total: usize = 0;
    let mut i: usize = 0;
    proof {
        assert(entries@.take(0) =~= Seq::<TreeEntry>::empty());
    }
    while i < entries.len()
        invariant
            i <= entries@.len(),
            iv == strings_view(ignore_dirs@),
            strings_view(defaults@) == fix_skip_dirs(),
            pat.source() == secret_count_pattern(),
            total == secret_count(entries@.take(i as int), iv),
        decreases entries@.len() - i,
    {
        let e = &entries[i];
        proof {
            assert(entries@.take(i + 1).drop_last() =~= entries@.take(i as int));
            assert(entries@.take(i + 1).last() == *e);
        }
        let mut path = chars_of(e.dir.as_str());
        extend_str(&mut path, e.name.as_str());
        assert(path@ == entry_path(*e));
        if !(under_any_strings(&path, &defaults) || under_any_strings(&path, ignore_dirs)) {
            match &e.content {
                BlobContent::Text(c) => {
                    let ls = lines_of(c.as_str());
                    let k = match_count_lines_exec(&pat, &ls);
                    match total.checked_add(k) {
                        Some(t) => {
                            total = t;
                        },
                        None => {
                            proof {
                                lemma_secret_count_grow(entries@, iv, i + 1);
                            }
                            return None;
                        },
                    }
                },
                _ => {},
            }
        }
        i += 1;
    }
    proof {
        assert(entries@.take(entries@.len() as int) =~= entries@);
    }
    Some(total)
}

/// The non-overlapping occurrences of `p` in `s` from index `i` on, found left to right.
pub open spec fn occurrences_from(s: Seq<char>, p: Seq<char>, i: int) -> nat
    decreases s.len() + 1 - i,
{
    if i < 0 || p.len() == 0 || i + p.len() > s.len() {
        0
    } else if matches_at(s, p, i) {
        1 + occurrences_from(s, p, i + p.len())
    } else {
        occurrences_from(s, p, i + 1)
    }
}

/// `str::matches(p).count()` for a non-empty literal `p`.
pub open spec fn occurrences(s: Seq<char>, p: Seq<char>) -> nat {
    occurrences_from(s, p, 0)
}

fn occurrences_exec(s: &Vec<char>, p: &str) -> (r: usize)
    ensures
        r == occurrences(s@, p@),
{
    let pc = chars_of(p);
    if pc.len() == 0 {
        return 0;
    }
    let n = s.len();
    let m = pc.len();
    let mut r: usize = 0;
    let mut i: usize = 0;
    while i <= n && m <= n - i
        invariant
            n == s@.len(),
            m == p@.len(),
            m > 0,
            pc@ == p@,
            i <= n,
            r <= i,
            occurrences(s@, p@) == r + occurrences_from(s@, p@, i as int),
        decreases n + 1 - i,
    {
        if crate::text::matches_at_exec(s, &pc, i) {
            r += 1;
            i += m;
        } else {
            i += 1;
        }
    }
    r
}

/// Requirement lines (not blank, not comments) and those among them without "==".
pub open spec fn requirement_counts(ls: Seq<Seq<char>>) -> (nat, nat)
    decreases ls.len(),
{
    if ls.len() == 0 {
        (0, 0)
    } else {
        let prev = requirement_counts(ls.drop_last());
        let t = trim(ls.last());
        if t.len() == 0 || starts_with(t, "#"@) {
            prev
        } else {
            ((prev.0 + 1) as nat, if contains(t, "=="@) {
                prev.1
            } else {
                (prev.1 + 1) as nat
            })
        }
    }
}

/// The dependency counts of a lockfile: `[[package]]` sections of a
/// Cargo.lock, entries of a package-lock's `packages` object less the root.
pub open spec fn lockfile_count(name: Seq<char>, c: Seq<char>) -> nat {
    if name == "Cargo.lock"@ {
        occurrences(c, "[[package]]"@)
    } else if name == "package-lock.json"@ {
        match json_parse(c) {
            Some(v) => match get(v, "packages"@) {
                Some(DocValue::Object(es)) => if es@.len() > 0 {
                    (es@.len() - 1) as nat
                } else {
                    0
                },
                _ => 0,
            },
            None => 0,
        }
    } else {
        0
    }
}

/// The requirement counts over the requirements.txt files not under an ignored prefix.
pub open spec fn requirements_pass(entries: Seq<TreeEntry>, ignore: Seq<Seq<char>>) -> (nat, nat)
    decreases entries.len(),
{
    if entries.len() == 0 {
        (0, 0)
    } else {
        let prev = requirements_pass(entries.drop_last(), ignore);
        let e = entries.last();
        if e.name@ == "requirements.txt"@ && !under_any(entry_path(e), ignore) {
            match e.content {
                BlobContent::Text(c) => {
                    let rc = requirement_counts(lines(c@));
                    ((prev.0 + rc.0) as nat, (prev.1 + rc.1) as nat)
                },
                _ => prev,
            }
        } else {
            prev
        }
    }
}

/// The dependency counts over every Cargo.lock and package-lock.json.
pub open spec fn lockfiles_pass(entries: Seq<TreeEntry>) -> nat
    decreases entries.len(),
{
    if entries.len() == 0 {
        0
    } else {
        lockfiles_pass(entries.drop_last()) + match entries.last().content {
            BlobContent::Text(c) => lockfile_count(entries.last().name@, c@),
            _ => 0,
        }
    }
}

/// The dependency counts of the snapshot: all dependencies, and the
/// unpinned ones of requirements files.
pub open spec fn sca_metrics(entries: Seq<TreeEntry>, ignore: Seq<Seq<char>>) -> (nat, nat) {
    let r = requirements_pass(entries, ignore);
    ((r.0 + lockfiles_pass(entries)) as nat, r.1)
}

fn requirement_counts_exec(ls: &Vec<Vec<char>>) -> (r: (usize, usize))
    ensures
        (r.0 as nat, r.1 as nat) == requirement_counts(views(ls@)),
{
    let ghost lv = views(ls@);
    let n = ls.len();
    let mut a: usize = 0;
    let mut b: usize = 0;
    let mut j: usize = 0;
    proof {
        assert(lv.take(0) =~= Seq::<Seq<char>>::empty());
    }
    while j < n
        invariant
            j <= n,
            n == ls@.len(),
            lv == views(ls@),
            b <= a,
            a <= j,
            (a as nat, b as nat) == requirement_counts(lv.take(j as int)),
        decreases n - j,
    {
        proof {
            assert(lv.take(j + 1).drop_last() =~= lv.take(j as int));
            assert(lv.take(j + 1).last() == ls@[j as int]@);
        }
        let t = trim_exec(&ls[j]);
        if !(t.len() == 0 || starts_with_str(&t, "#")) {
            a += 1;
            if !contains_str(&t, "==") {
                b += 1;
            }
        }
        j += 1;
    }
    proof {
        assert(lv.take(n as int) =~= lv);
    }
    (a, b)
}

fn lockfile_count_exec(name: &str, c: &str) -> (r: usize)
    ensures
        r == lockfile_count(name@, c@),
{
    let nc = chars_of(name);
    if crate::text::eq_str(&nc, "Cargo.lock") {
        let cc = chars_of(c);
        occurrences_exec(&cc, "[[package]]")
    } else if crate::text::eq_str(&nc, "package-lock.json") {
        let doc = parse_json(c);
        match &doc {
            Some(v) => match get_field(v, "packages") {
                Some(DocValue::Object(es)) => if es.len() > 0 {
                    es.len() - 1
                } else {
                    0
                },
                _ => 0,
            },
            None => 0,
        }
    } else {
        0
    }
}

proof fn lemma_requirements_pass_grow(entries: Seq<TreeEntry>, ignore: Seq<Seq<char>>, i: int)
    requires
        0 <= i <= entries.len(),
    ensures
        requirements_pass(entries.take(i), ignore).0 <= requirements_pass(entries, ignore).0,
        requirements_pass(entries.take(i), ignore).1 <= requirements_pass(entries, ignore).1,
    decreases entries.len() - i,
{
    if i < entries.len() {
        lemma_requirements_pass_grow(entries, ignore, i + 1);
        assert(entries.take(i + 1).drop_last() =~= entries.take(i));
    } else {
        assert(entries.take(i) =~= entries);
    }
}

proof fn lemma_lockfiles_pass_grow(entries: Seq<TreeEntry>, i: int)
    requires
        0 <= i <= entries.len(),
    ensures
        lockfiles_pass(entries.take(i)) <= lockfiles_pass(entries),
    decreases entries.len() - i,
{
    if i < entries.len() {
        lemma_lockfiles_pass_grow(entries, i + 1);
        assert(entries.take(i + 1).drop_last() =~= entries.take(i));
    } else {
        assert(entries.take(i) =~= entries);
    }
}

/// Counts the snapshot's dependencies: the requirement lines of
/// requirements.txt files (not under an ignored prefix) and those among them
/// not pinned with "==", then the packages of every Cargo.lock and
/// package-lock.json. `None` when a count exceeds `usize::MAX`.
pub fn count_sca_metrics(entries: &Vec<TreeEntry>, ignore_dirs: &Vec<String>) -> (r: Option<(usize, usize)>)
    ensures
        r is Some <==> sca_metrics(entries@, strings_view(ignore_dirs@)).0 <= usize::MAX,
        r matches Some(x) ==> (x.0 as nat, x.1 as nat) == sca_metrics(entries@, strings_view(ignore_dirs@)),
{
    let ghost iv = strings_view(ignore_dirs@);
    let mut total: usize = 0;
    let mut unpinned: usize = 0;
    let mut i: usize = 0;
    proof {
        assert(entries@.take(0) =~= Seq::<TreeEntry>::empty());
    }
    while i < entries.len()
        invariant
            i <= entries@.len(),
            iv == strings_view(ignore_dirs@),
            unpinned <= total,
            (total as nat, unpinned as nat) == requirements_pass(entries@.take(i as int), iv),
        decreases entries@.len() - i,
    {
        let e = &entries[i];
        proof {
            assert(entries@.take(i + 1).drop_last() =~= entries@.take(i as int));
            assert(entries@.take(i + 1).last() == *e);
        }
        let name = chars_of(e.name.as_str());
        let mut path = chars_of(e.dir.as_str());
        extend_str(&mut path, e.name.as_str());
        assert(path@ == entry_path(*e));
        if crate::text::eq_str(&name, "requirements.txt") && !under_any_strings(&path, ignore_dirs) {
            match &e.content {
                BlobContent::Text(c) => {
                    let ls = lines_of(c.as_str());
                    let (a, b) = requirement_counts_exec(&ls);
                    proof {
                        lemma_requirement_counts_le(views(ls@));
                    }
                    match total.checked_add(a) {
                        Some(t) => {
                            total = t;
                            unpinned = unpinned + b;
                        },
                        None => {
                            proof {
                                lemma_requirements_pass_grow(entries@, iv, i + 1);
                            }
                            return None;
                        },
                    }
                },
                _ => {},
            }
        }
        i += 1;
    }
    proof {
        assert(entries@.take(entries@.len() as int) =~= entries@);
    }
    let ghost base = total as nat;
    let mut k: usize = 0;
    proof {
        assert(entries@.take(0) =~= Seq::<TreeEntry>::empty());
    }
    while k < entries.len()
        invariant
            k <= entries@.len(),
            iv == strings_view(ignore_dirs@),
            base == requirements_pass(entries@, iv).0,
            unpinned as nat == requirements_pass(entries@, iv).1,
            total == base + lockfiles_pass(entries@.take(k as int)),
        decreases entries@.len() - k,
    {
        let e = &entries[k];
        proof {
            assert(entries@.take(k + 1).drop_last() =~= entries@.take(k as int));
            assert(entries@.take(k + 1).last() == *e);
        }
        match &e.content {
            BlobContent::Text(c) => {
                let add = lockfile_count_exec(e.name.as_str(), c.as_str());
                match total.checked_add(add) {
                    Some(t) => {
                        total = t;
                    },
                    None => {
                        proof {
                            lemma_lockfiles_pass_grow(entries@, k + 1);
                        }
                        return None;
                    },
                }
            },
            _ => {},
        }
        k += 1;
    }
    proof {
        assert(entries@.take(entries@.len() as int) =~= entries@);
    }
    Some((total, unpinned))
}

/// Unpinned requirements are among the requirements.
proof fn lemma_requirement_counts_le(ls: Seq<Seq<char>>)
    ensures
        requirement_counts(ls).1 <= requirement_counts(ls).0,
    decreases ls.len(),
{
    if ls.len() > 0 {
        lemma_requirement_counts_le(ls.drop_last());
    }
}

/// The keywords whose presence on a body line adds one to a function's
/// complexity in a snapshot.
pub open spec fn metric_keywords() -> Seq<Seq<char>> {
    seq!["if"@, "else if"@, "while"@, "for"@, "loop"@, "match"@, "=>"@, "&&"@, "||"@, "?"@]
}

/// The weight of each line: how many of the snapshot's keywords it contains.
pub open spec fn metric_weights(ls: Seq<Seq<char>>) -> Seq<nat> {
    Seq::new(ls.len(), |j: int| keyword_count(metric_keywords(), ls[j]))
}

/// The pattern of a function header in a snapshot.
pub open spec fn fn_header_pattern() -> Seq<char> {
    r"^\s*(?:pub\s+)?(?:async\s+)?fn\s+(\w+)"@
}

/// The source files whose functions a snapshot measures.
pub open spec fn metric_source(p: Seq<char>) -> bool {
    ||| ends_with(p, ".rs"@)
    ||| ends_with(p, ".go"@)
    ||| ends_with(p, ".py"@)
    ||| ends_with(p, ".ts"@)
    ||| ends_with(p, ".js"@)
}

/// The complexities of the functions from line `i` on: each line the header
/// pattern matches opens a brace-delimited body; the complexity is one plus
/// the weights of the body's lines after the header; the search goes on
/// after the line that closed the body.
pub open spec fn metric_complexities_from(ls: Seq<Seq<char>>, w: Seq<nat>, i: int) -> Seq<nat>
    decreases ls.len() + 1 - i,
{
    if i < 0 || i >= ls.len() {
        Seq::empty()
    } else if regex_is_match(fn_header_pattern(), ls[i]) {
        let r = brace_scan(ls, w, i, i, 0, false);
        proof {
            lemma_brace_scan_bounds(ls, w, i, i, 0, false);
        }
        seq![1 + r.1] + metric_complexities_from(ls, w, r.0 + 1)
    } else {
        metric_complexities_from(ls, w, i + 1)
    }
}

/// The complexities of the functions of one file's text.
pub open spec fn file_complexities(c: Seq<char>) -> Seq<nat> {
    let ls = lines(c);
    metric_complexities_from(ls, metric_weights(ls), 0)
}

/// The complexities of the functions of the tree's source files outside
/// skipped directories (ignored directories taken as plain prefixes), in walk order.
pub open spec fn complexity_values(entries: Seq<TreeEntry>, ignore: Seq<Seq<char>>) -> Seq<nat>
    decreases entries.len(),
{
    if entries.len() == 0 {
        Seq::empty()
    } else {
        let prev = complexity_values(entries.drop_last(), ignore);
        let e = entries.last();
        let p = entry_path(e);
        if !metric_source(p) || under_any(p, fix_skip_dirs()) || under_any(p, ignore) {
            prev
        } else {
            match e.content {
                BlobContent::Text(c) => prev + file_complexities(c@),
                _ => prev,
            }
        }
    }
}

/// Every value fits in a `usize`.
pub open spec fn all_fit(v: Seq<nat>) -> bool {
    forall|k: int| 0 <= k < v.len() ==> #[trigger] v[k] <= usize::MAX
}

/// How many values exceed `t`.
pub open spec fn count_above(v: Seq<nat>, t: nat) -> nat
    decreases v.len(),
{
    if v.len() == 0 {
        0
    } else {
        count_above(v.drop_last(), t) + if v.last() > t {
            1nat
        } else {
            0nat
        }
    }
}

fn metric_keyword_count(text: &[char]) -> (r: usize)
    ensures
        r == keyword_count(metric_keywords(), text@),
{
    let kws: Vec<&str> = vec!["if", "else if", "while", "for", "loop", "match", "=>", "&&", "||", "?"];
    proof {
        assert(strs_view(kws@) =~= metric_keywords());
    }
    let ghost kv = metric_keywords();
    let mut r: usize = 0;
    let mut i: usize = 0;
    proof {
        assert(kv.take(0) =~= Seq::<Seq<char>>::empty());
    }
    while i < kws.len()
        invariant
            i <= kws@.len(),
            kws@.len() == 10,
            strs_view(kws@) == kv,
            kv == metric_keywords(),
            r == keyword_count(kv.take(i as int), text@),
            r <= i,
        decreases kws@.len() - i,
    {
        proof {
            assert(kv.take(i + 1).drop_last() =~= kv.take(i as int));
            assert(kv.take(i + 1).last() == kws@[i as int]@);
        }
        if contains_str(text, kws[i]) {
            r += 1;
        }
        i += 1;
    }
    proof {
        assert(kv.take(10) =~= kv);
    }
    r
}

/// Appends the complexities of the file's functions; `false` (with `out`
/// unspecified) when one exceeds `usize::MAX`.
fn push_file_complexities(c: &str, pat: &Pattern, out: &mut Vec<usize>) -> (ok: bool)
    requires
        pat.source() == fn_header_pattern(),
    ensures
        ok == all_fit(file_complexities(c@)),
        ok ==> weights(final(out)@) == weights(old(out)@) + file_complexities(c@),
{
    let cs = chars_of(c);
    let cl = cs.len();
    let ls = crate::text::lines_exec(&cs);
    let ghost lv = views(ls@);
    proof {
        crate::text::lemma_lines_total_len(c@);
        assert(cl == c@.len());
        assert(lv == lines(c@));
    }
    let n = ls.len();
    let mut ws: Vec<usize> = Vec::new();
    let mut j: usize = 0;
    while j < n
        invariant
            j <= n,
            n == ls@.len(),
            lv == views(ls@),
            ws@.len() == j,
            forall|m: int| 0 <= m < j ==> ws@[m] as nat == #[trigger] metric_weights(lv)[m],
        decreases n - j,
    {
        let w = metric_keyword_count(&ls[j]);
        proof {
            assert(lv[j as int] == ls@[j as int]@);
        }
        ws.push(w);
        j += 1;
    }
    let ghost wv = weights(ws@);
    proof {
        assert(wv =~= metric_weights(lv));
    }
    let ghost o0 = weights(out@);
    let ghost full = metric_complexities_from(lv, wv, 0);
    let mut i: usize = 0;
    proof {
        assert(o0 + full =~= weights(out@) + metric_complexities_from(lv, wv, 0));
        assert(file_complexities(c@) == full);
    }
    while i < n
        invariant
            n == ls@.len(),
            lv == views(ls@),
            wv == weights(ws@),
            ws@.len() == n,
            total_len(lv) <= usize::MAX,
            pat.source() == fn_header_pattern(),
            i <= n,
            full == metric_complexities_from(lv, wv, 0),
            full == file_complexities(c@),
            o0 + full == weights(out@) + metric_complexities_from(lv, wv, i as int),
            weights(out@).len() >= o0.len(),
            forall|k: int| 0 <= k < weights(out@).len() - o0.len() ==> #[trigger] full[k] <= usize::MAX,
        decreases n - i,
    {
        proof {
            assert(lv[i as int] == ls@[i as int]@);
        }
        let text = string_of(&ls[i]);
        if pat.is_match(text.as_str()) {
            let ghost before = weights(out@);
            let r = brace_scan_exec(&ls, &ws, i);
            proof {
                lemma_brace_scan_bounds(lv, wv, i as int, i as int, 0, false);
            }
            let next = if r.0 < n {
                r.0 + 1
            } else {
                n
            };
            let ghost rest = metric_complexities_from(lv, wv, next as int);
            let ghost cplx: nat = 1 + brace_scan(lv, wv, i as int, i as int, 0, false).1;
            proof {
                let e = brace_scan(lv, wv, i as int, i as int, 0, false).0;
                if e >= n {
                    assert(metric_complexities_from(lv, wv, e + 1) =~= Seq::<nat>::empty());
                }
                assert(metric_complexities_from(lv, wv, i as int) == seq![cplx] + rest);
                assert(o0 + full =~= before.push(cplx) + rest);
            }
            match r.1 {
                Some(x) => {
                    out.push(x);
                    proof {
                        assert(weights(out@) =~= before.push(cplx));
                        assert(full[before.len() - o0.len()] == cplx) by {
                            assert((o0 + full)[before.len() as int] == cplx);
                        }
                    }
                },
                None => {
                    proof {
                        assert((o0 + full)[before.len() as int] == cplx);
                        assert(full[before.len() - o0.len()] > usize::MAX);
                        assert(!all_fit(full));
                    }
                    return false;
                },
            }
            i = next;
        } else {
            i += 1;
        }
    }
    proof {
        assert(metric_complexities_from(lv, wv, i as int) =~= Seq::<nat>::empty());
        assert(o0 + full =~= weights(out@));
        assert(full.len() == weights(out@).len() - o0.len());
        assert(file_complexities(c@) == full);
    }
    true
}

proof fn lemma_values_prefix(entries: Seq<TreeEntry>, ignore: Seq<Seq<char>>, i: int)
    requires
        0 <= i <= entries.len(),
    ensures
        complexity_values(entries.take(i), ignore).len() <= complexity_values(entries, ignore).len(),
        forall|k: int|
            0 <= k < complexity_values(entries.take(i), ignore).len() ==> #[trigger] complexity_values(
                entries.take(i),
                ignore,
            )[k] == complexity_values(entries, ignore)[k],
    decreases entries.len() - i,
{
    if i < entries.len() {
        lemma_values_prefix(entries, ignore, i + 1);
        assert(entries.take(i + 1).drop_last() =~= entries.take(i));
        let a = complexity_values(entries.take(i), ignore);
        let b = complexity_values(entries.take(i + 1), ignore);
        assert forall|k: int| 0 <= k < a.len() implies #[trigger] a[k] == b[k] by {}
    } else {
        assert(entries.take(i) =~= entries);
    }
}

/// The number of values above `t`.
pub fn complexities_above(v: &Vec<usize>, t: usize) -> (r: usize)
    ensures
        r == count_above(weights(v@), t as nat),
{
    let ghost wv = weights(v@);
    let mut r: usize = 0;
    let mut i: usize = 0;
    proof {
        assert(wv.take(0) =~= Seq::<nat>::empty());
    }
    while i < v.len()
        invariant
            i <= v@.len(),
            wv == weights(v@),
            r <= i,
            r == count_above(wv.take(i as int), t as nat),
        decreases v@.len() - i,
    {
        proof {
            assert(wv.take(i + 1).drop_last() =~= wv.take(i as int));
        }
        if v[i] > t {
            r += 1;
        }
        i += 1;
    }
    proof {
        assert(wv.take(v@.len() as int) =~= wv);
    }
    r
}

/// Measures the functions of the tree's source files (.rs, .go, .py, .ts,
/// .js; outside skipped directories, ignored ones taken as plain prefixes):
/// their complexities in walk order, and how many exceed ten. `None` when the
/// header pattern does not compile or a complexity exceeds `usize::MAX`.
pub fn count_complexity_metrics(entries: &Vec<TreeEntry>, ignore_dirs: &Vec<String>) -> (r: Option<(Vec<usize>, usize)>)
    ensures
        r is Some <==> regex_compiles(fn_header_pattern()) && all_fit(
            complexity_values(entries@, strings_view(ignore_dirs@)),
        ),
        r matches Some(x) ==> weights(x.0@) == complexity_values(entries@, strings_view(ignore_dirs@)),
        r matches Some(x) ==> x.1 == count_above(complexity_values(entries@, strings_view(ignore_dirs@)), 10),
{
    let ghost iv = strings_view(ignore_dirs@);
    let pat = match Pattern::new(r"^\s*(?:pub\s+)?(?:async\s+)?fn\s+(\w+)") {
        Some(p) => p,
        None => return None,
    };
    let defaults: Vec<String> = vec![
        "vendor/".to_string(),
        "node_modules/".to_string(),
        ".git/".to_string(),
        "target/".to_string(),
        "dist/".to_string(),
        "build/".to_string(),
    ];
    proof {
        assert(strings_view(defaults@) =~= fix_skip_dirs());
    }
    let mut out: Vec<usize> = Vec::new();
    let mut i: usize = 0;
    proof {
        assert(entries@.take(0) =~= Seq::<TreeEntry>::empty());
        assert(weights(out@) =~= Seq::<nat>::empty());
    }
    while i < entries.len()
        invariant
            i <= entries@.len(),
            iv == strings_view(ignore_dirs@),
            strings_view(defaults@) == fix_skip_dirs(),
            pat.source() == fn_header_pattern(),
            weights(out@) == complexity_values(entries@.take(i as int), iv),
        decreases entries@.len() - i,
    {
        let e = &entries[i];
        proof {
            assert(entries@.take(i + 1).drop_last() =~= entries@.take(i as int));
            assert(entries@.take(i + 1).last() == *e);
        }
        let mut path = chars_of(e.dir.as_str());
        extend_str(&mut path, e.name.as_str());
        assert(path@ == entry_path(*e));
        let source = ends_with_str(&path, ".rs") || ends_with_str(&path, ".go") || ends_with_str(&path, ".py")
            || ends_with_str(&path, ".ts") || ends_with_str(&path, ".js");
        if source && !(under_any_strings(&path, &defaults) || under_any_strings(&path, ignore_dirs)) {
            match &e.content {
                BlobContent::Text(c) => {
                    let ghost before = weights(out@);
                    if !push_file_complexities(c.as_str(), &pat, &mut out) {
                        proof {
                            let fc = file_complexities(c@);
                            let k = choose|k: int| 0 <= k < fc.len() && !(#[trigger] fc[k] <= usize::MAX);
                            let cv = complexity_values(entries@.take(i + 1), iv);
                            assert(cv == before + fc);
                            assert(cv[before.len() + k] == fc[k]);
                            lemma_values_prefix(entries@, iv, i + 1);
                            let full = complexity_values(entries@, iv);
                            assert(full[before.len() + k] == cv[before.len() + k]);
                        }
                        return None;
                    }
                },
                _ => {},
            }
        }
        i += 1;
    }
    proof {
        assert(entries@.take(entries@.len() as int) =~= entries@);
        assert forall|k: int| 0 <= k < weights(out@).len() implies #[trigger] weights(out@)[k] <= usize::MAX by {}
    }
    let above = complexities_above(&out, 10);
    Some((out, above))
}

} // verus!
