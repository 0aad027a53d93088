//! Repository analytics over the commit history: what changed most, who
//! committed, when, and how the history reads as charts and tables.
//!
//! The commits arrive as the history walk hands them over, newest first;
//! each with the paths its diff against its first parent touches and the
//! line counts of that diff.
use vstd::prelude::*;
use crate::calendar::{
    day_text, hour_at, minute_text, utc_day_text, month_key, month_key_of, shifted_hour, two_digits, utc_minute_text, utc_weekday, weekday,
    year_text,
};
use crate::display::{
    bar_chart_lines_v, chart_printable, info_line, labels_cuttable_at_3_v, labels_cuttable_v, lemma_bar_chart_view,
    lemma_sparkline_view, lemma_write_lines_append, lemma_write_lines_one, print_bar_chart, print_direct,
    print_direct_line, print_info, print_sparkline, print_sub_header, series_view, sparkline_lines_v,
    sparkline_printable, sub_header_lines, summary_stat_line, print_summary_stat, write_line, write_lines, Output,
    OutputView, cells_cuttable_v, headers_view, lemma_table_view, ok_line, print_ok, print_table, print_warning,
    rows_view, table_lines_v, table_printable, truncate_label, warning_line,
};
use crate::pattern::{regex_compiles, regex_is_match, Pattern};
use crate::tally::{order_by, order_by_exec, wide_keys, rank_desc, sort_by_key, sort_by_key_exec, tally, tally_keys, top, top_keys, Counted};
use crate::text::{
    byte_prefix, byte_prefix_exec, is_boundary, is_boundary_exec, trim, trim_exec, utf8_len, utf8_len_capped_exec,
    chars_of, decimal, decimal_exec, decimal_wide_exec, extend, extend_str, string_of, string_views};

verus! {

/// One commit of the history walk.
pub struct CommitInfo {
    /// The commit id in hexadecimal.
    pub id: String,
    /// Commit time, in seconds after the Unix epoch.
    pub seconds: i64,
    /// The committer's time zone, in minutes east of UTC.
    pub offset_minutes: i32,
    /// How many parents the commit has (more than one for a merge).
    pub parents: usize,
    /// The author's name ("unknown" when it has none).
    pub author: String,
    /// The commit message ("" when it has none).
    pub message: String,
    /// The paths the diff against the first parent touches.
    pub paths: Vec<String>,
    /// Lines the diff adds.
    pub insertions: usize,
    /// Lines the diff removes.
    pub deletions: usize,
}

/// Where the walk stops when it looks back to `cutoff`: at the first commit,
/// from `i` on, older than the cutoff (the number of commits when none is).
pub open spec fn recent_end(cs: Seq<CommitInfo>, cutoff: int, i: int) -> int
    decreases cs.len() - i,
{
    if i < 0 || i >= cs.len() {
        cs.len() as int
    } else if cs[i].seconds < cutoff {
        i
    } else {
        recent_end(cs, cutoff, i + 1)
    }
}

/// The commits the walk sees before the first one older than `cutoff`.
pub open spec fn recent(cs: Seq<CommitInfo>, cutoff: int) -> Seq<CommitInfo> {
    cs.take(recent_end(cs, cutoff, 0))
}

/// The paths the commits touch, commit after commit.
pub open spec fn paths_of(cs: Seq<CommitInfo>) -> Seq<Seq<char>>
    decreases cs.len(),
{
    if cs.len() == 0 {
        Seq::empty()
    } else {
        paths_of(cs.drop_last()) + string_views(cs.last().paths@)
    }
}

/// The keys counted and ranked from the most frequent, the first `limit` of them.
pub open spec fn top_chart(keys: Seq<Seq<char>>, limit: nat) -> Seq<Counted> {
    top(rank_desc(tally(keys)), limit)
}

/// A sub-header followed by a bar chart.
pub open spec fn chart_report(title: Seq<char>, items: Seq<Counted>, color: Seq<char>) -> Seq<Seq<char>> {
    sub_header_lines(title) + bar_chart_lines_v(items, color)
}

proof fn lemma_recent_end(cs: Seq<CommitInfo>, cutoff: int, i: int)
    requires
        0 <= i <= cs.len(),
    ensures
        i <= recent_end(cs, cutoff, i) <= cs.len(),
        forall|k: int| i <= k < recent_end(cs, cutoff, i) ==> (#[trigger] cs[k]).seconds >= cutoff,
    decreases cs.len() - i,
{
    if i < cs.len() && cs[i].seconds >= cutoff {
        lemma_recent_end(cs, cutoff, i + 1);
    }
}

/// The number of commits the walk sees before the first one older than `cutoff`.
pub fn recent_len(commits: &Vec<CommitInfo>, cutoff: i64) -> (n: usize)
    ensures
        n == recent_end(commits@, cutoff as int, 0),
{
    let mut i: usize = 0;
    while i < commits.len() && commits[i].seconds >= cutoff
        invariant
            i <= commits@.len(),
            recent_end(commits@, cutoff as int, 0) == recent_end(commits@, cutoff as int, i as int),
        decreases commits@.len() - i,
    {
        i += 1;
    }
    i
}

/// The paths the first `n` commits touch.
fn collect_paths(commits: &Vec<CommitInfo>, n: usize) -> (r: Vec<String>)
    requires
        n <= commits@.len(),
    ensures
        string_views(r@) == paths_of(commits@.take(n as int)),
{
    let mut r: Vec<String> = Vec::new();
    let mut i: usize = 0;
    proof {
        assert(commits@.take(0) =~= Seq::<CommitInfo>::empty());
        assert(string_views(r@) =~= Seq::<Seq<char>>::empty());
    }
    while i < n
        invariant
            i <= n,
            n <= commits@.len(),
            string_views(r@) == paths_of(commits@.take(i as int)),
        decreases n - i,
    {
        proof {
            assert(commits@.take(i + 1).drop_last() =~= commits@.take(i as int));
            assert(commits@.take(i + 1).last() == commits@[i as int]);
        }
        let ghost before = string_views(r@);
        let ps = &commits[i].paths;
        let mut j: usize = 0;
        while j < ps.len()
            invariant
                j <= ps@.len(),
                i < commits@.len(),
                ps@ == commits@[i as int].paths@,
                string_views(r@) == before + string_views(ps@).take(j as int),
            decreases ps@.len() - j,
        {
            let ghost pre = string_views(r@);
            r.push(ps[j].clone());
            proof {
                assert(string_views(r@) =~= pre.push(ps@[j as int]@));
                assert(string_views(ps@).take(j + 1) =~= string_views(ps@).take(j as int).push(ps@[j as int]@));
                assert(string_views(r@) =~= before + string_views(ps@).take(j + 1));
            }
            j += 1;
        }
        proof {
            assert(string_views(ps@).take(ps@.len() as int) =~= string_views(ps@));
        }
        i += 1;
    }
    r
}

/// Prints a sub-header and the chart of the keys' top counts; `false`,
/// writing nothing, when a label longer than 30 bytes cannot be cut at byte 29.
fn print_top_chart(o: &mut Output, title: &str, keys: &Vec<String>, limit: usize, color: &str) -> (ok: bool)
    ensures
        ok == labels_cuttable_v(top_chart(string_views(keys@), limit as nat), 30),
        ok ==> final(o)@ == write_lines(
            old(o)@,
            chart_report(title@, top_chart(string_views(keys@), limit as nat), color@),
        ),
        !ok ==> final(o)@ == old(o)@,
{
    let ghost o0 = o@;
    let items = top_keys(keys, limit);
    proof {
        lemma_bar_chart_view(items@, color@);
    }
    if !chart_printable(items.as_slice()) {
        return false;
    }
    print_sub_header(o, title);
    print_bar_chart(o, items.as_slice(), color);
    proof {
        lemma_write_lines_append(o0, sub_header_lines(title@), bar_chart_lines_v(series_view(items@), color@));
    }
    true
}

/// The report of the files changed most often by the commits of the last
/// year (those before the first commit older than `cutoff`): the `limit`
/// most frequent paths, as a chart.
pub open spec fn most_changed_report(cs: Seq<CommitInfo>, cutoff: int, limit: nat) -> Seq<Seq<char>> {
    chart_report(
        "Most Frequently Changed Files (1 year)"@,
        top_chart(paths_of(recent(cs, cutoff)), limit),
        "\x1b[34m"@,
    )
}

/// Charts the files changed most often in the commits newer than `cutoff`
/// (the walk stops at the first older one), the `limit` most frequent.
/// `false`, writing nothing, when a path longer than 30 bytes cannot be cut
/// at byte 29.
pub fn most_changed_files(o: &mut Output, commits: &Vec<CommitInfo>, cutoff: i64, limit: usize) -> (ok: bool)
    ensures
        ok == labels_cuttable_v(top_chart(paths_of(recent(commits@, cutoff as int)), limit as nat), 30),
        ok ==> final(o)@ == write_lines(old(o)@, most_changed_report(commits@, cutoff as int, limit as nat)),
        !ok ==> final(o)@ == old(o)@,
{
    let n = recent_len(commits, cutoff);
    proof {
        lemma_recent_end(commits@, cutoff as int, 0);
    }
    let keys = collect_paths(commits, n);
    print_top_chart(o, "Most Frequently Changed Files (1 year)", &keys, limit, "\x1b[34m")
}

/// The report of the files changed most often by the first 500 commits.
pub open spec fn churn_report(cs: Seq<CommitInfo>, limit: nat) -> Seq<Seq<char>> {
    chart_report(
        "Code Churn (top files in last 500 commits)"@,
        top_chart(paths_of(top(cs, 500)), limit),
        "\x1b[33m"@,
    )
}

/// Charts the files changed most often in the latest 500 commits, the
/// `limit` most frequent. `false`, writing nothing, when a path longer than
/// 30 bytes cannot be cut at byte 29.
pub fn code_churn(o: &mut Output, commits: &Vec<CommitInfo>, limit: usize) -> (ok: bool)
    ensures
        ok == labels_cuttable_v(top_chart(paths_of(top(commits@, 500)), limit as nat), 30),
        ok ==> final(o)@ == write_lines(old(o)@, churn_report(commits@, limit as nat)),
        !ok ==> final(o)@ == old(o)@,
{
    let n = if commits.len() > 500 {
        500
    } else {
        commits.len()
    };
    proof {
        if commits@.len() <= 500 {
            assert(commits@.take(n as int) =~= commits@);
        }
    }
    let keys = collect_paths(commits, n);
    print_top_chart(o, "Code Churn (top files in last 500 commits)", &keys, limit, "\x1b[33m")
}

/// The authors of the commits that are not merges, in walk order.
pub open spec fn non_merge_authors(cs: Seq<CommitInfo>) -> Seq<Seq<char>>
    decreases cs.len(),
{
    if cs.len() == 0 {
        Seq::empty()
    } else if cs.last().parents > 1 {
        non_merge_authors(cs.drop_last())
    } else {
        non_merge_authors(cs.drop_last()).push(cs.last().author@)
    }
}

/// The report of the top contributors: the 20 authors with the most commits
/// that are not merges.
pub open spec fn contributors_report(cs: Seq<CommitInfo>) -> Seq<Seq<char>> {
    chart_report("Top Contributors (by commits, no merges)"@, top_chart(non_merge_authors(cs), 20), "\x1b[32m"@)
}

/// Charts the 20 authors with the most commits, merges left out. `false`,
/// writing nothing, when a name longer than 30 bytes cannot be cut at byte 29.
pub fn top_contributors(o: &mut Output, commits: &Vec<CommitInfo>) -> (ok: bool)
    ensures
        ok == labels_cuttable_v(top_chart(non_merge_authors(commits@), 20), 30),
        ok ==> final(o)@ == write_lines(old(o)@, contributors_report(commits@)),
        !ok ==> final(o)@ == old(o)@,
{
    let mut keys: Vec<String> = Vec::new();
    let mut i: usize = 0;
    proof {
        assert(commits@.take(0) =~= Seq::<CommitInfo>::empty());
        assert(string_views(keys@) =~= Seq::<Seq<char>>::empty());
    }
    while i < commits.len()
        invariant
            i <= commits@.len(),
            string_views(keys@) == non_merge_authors(commits@.take(i as int)),
        decreases commits@.len() - i,
    {
        proof {
            assert(commits@.take(i + 1).drop_last() =~= commits@.take(i as int));
            assert(commits@.take(i + 1).last() == commits@[i as int]);
        }
        if commits[i].parents <= 1 {
            let ghost before = string_views(keys@);
            keys.push(commits[i].author.clone());
            proof {
                assert(string_views(keys@) =~= before.push(commits@[i as int].author@));
            }
        }
        i += 1;
    }
    proof {
        assert(commits@.take(commits@.len() as int) =~= commits@);
    }
    print_top_chart(o, "Top Contributors (by commits, no merges)", &keys, 20, "\x1b[32m")
}

/// The pattern of a commit message that speaks of a bug fix.
pub open spec fn bug_fix_pattern() -> Seq<char> {
    "(?i)(fix|bug|broken)"@
}

/// The text of a regular expression that matches, in any case, a text
/// holding one of the words.
pub open spec fn any_word_ci(words: Seq<Seq<char>>) -> Seq<char> {
    "(?i)("@ + crate::text::join(words, "|"@) + ")"@
}

/// A commit counts as a bug fix when its message mentions "fix", "bug" or
/// "broken", in any case: the bug-fix pattern is exactly the case-insensitive
/// alternation of those three words.
pub proof fn lemma_bug_fix_words()
    ensures
        bug_fix_pattern() == any_word_ci(seq!["fix"@, "bug"@, "broken"@]),
{
    reveal_strlit("(?i)(fix|bug|broken)");
    reveal_strlit("(?i)(");
    reveal_strlit(")");
    reveal_strlit("|");
    reveal_strlit("fix");
    reveal_strlit("bug");
    reveal_strlit("broken");
    let w = seq!["fix"@, "bug"@, "broken"@];
    assert(w.drop_last() =~= seq!["fix"@, "bug"@]);
    assert(w.drop_last().drop_last() =~= seq!["fix"@]);
    assert(crate::text::join(w.drop_last().drop_last(), "|"@) == "fix"@);
    assert(crate::text::join(w.drop_last(), "|"@) == "fix"@ + "|"@ + "bug"@);
    assert(crate::text::join(w, "|"@) == "fix"@ + "|"@ + "bug"@ + "|"@ + "broken"@);
    assert(any_word_ci(w) =~= "(?i)(fix|bug|broken)"@);
}

/// The paths touched by the commits whose message the pattern matches.
pub open spec fn matching_paths(pat: Seq<char>, cs: Seq<CommitInfo>) -> Seq<Seq<char>>
    decreases cs.len(),
{
    if cs.len() == 0 {
        Seq::empty()
    } else if regex_is_match(pat, cs.last().message@) {
        matching_paths(pat, cs.drop_last()) + string_views(cs.last().paths@)
    } else {
        matching_paths(pat, cs.drop_last())
    }
}

/// The report of the files most associated with bug fixes.
pub open spec fn bug_fix_report(cs: Seq<CommitInfo>, limit: nat) -> Seq<Seq<char>> {
    chart_report(
        "Files Most Associated with Bug Fixes"@,
        top_chart(matching_paths(bug_fix_pattern(), cs), limit),
        "\x1b[31m"@,
    )
}

/// Charts the files most often touched by commits whose message speaks of a
/// fix, a bug or something broken, the `limit` most frequent. `false`,
/// writing nothing, when the pattern does not compile or a path longer than
/// 30 bytes cannot be cut at byte 29.
pub fn bug_fix_files(o: &mut Output, commits: &Vec<CommitInfo>, limit: usize) -> (ok: bool)
    ensures
        ok == (regex_compiles(bug_fix_pattern()) && labels_cuttable_v(
            top_chart(matching_paths(bug_fix_pattern(), commits@), limit as nat),
            30,
        )),
        ok ==> final(o)@ == write_lines(old(o)@, bug_fix_report(commits@, limit as nat)),
        !ok ==> final(o)@ == old(o)@,
{
    let pat = match Pattern::new("(?i)(fix|bug|broken)") {
        Some(p) => p,
        None => return false,
    };
    let mut keys: Vec<String> = Vec::new();
    let mut i: usize = 0;
    proof {
        assert(commits@.take(0) =~= Seq::<CommitInfo>::empty());
        assert(string_views(keys@) =~= Seq::<Seq<char>>::empty());
    }
    while i < commits.len()
        invariant
            i <= commits@.len(),
            pat.source() == bug_fix_pattern(),
            string_views(keys@) == matching_paths(bug_fix_pattern(), commits@.take(i as int)),
        decreases commits@.len() - i,
    {
        proof {
            assert(commits@.take(i + 1).drop_last() =~= commits@.take(i as int));
            assert(commits@.take(i + 1).last() == commits@[i as int]);
        }
        if pat.is_match(commits[i].message.as_str()) {
            let ghost before = string_views(keys@);
            let ps = &commits[i].paths;
            let mut j: usize = 0;
            while j < ps.len()
                invariant
                    j <= ps@.len(),
                    i < commits@.len(),
                    ps@ == commits@[i as int].paths@,
                    string_views(keys@) == before + string_views(ps@).take(j as int),
                decreases ps@.len() - j,
            {
                let ghost pre = string_views(keys@);
                keys.push(ps[j].clone());
                proof {
                    assert(string_views(keys@) =~= pre.push(ps@[j as int]@));
                    assert(string_views(ps@).take(j + 1) =~= string_views(ps@).take(j as int).push(ps@[j as int]@));
                    assert(string_views(keys@) =~= before + string_views(ps@).take(j + 1));
                }
                j += 1;
            }
            proof {
                assert(string_views(ps@).take(ps@.len() as int) =~= string_views(ps@));
            }
        }
        i += 1;
    }
    proof {
        assert(commits@.take(commits@.len() as int) =~= commits@);
    }
    print_top_chart(o, "Files Most Associated with Bug Fixes", &keys, limit, "\x1b[31m")
}

/// The month keys of the commits whose time `chrono` can place, in walk order.
pub open spec fn month_keys(cs: Seq<CommitInfo>) -> Seq<Seq<char>>
    decreases cs.len(),
{
    if cs.len() == 0 {
        Seq::empty()
    } else {
        let p = month_keys(cs.drop_last());
        match month_key(cs.last().seconds as int) {
            Some(k) => p.push(k),
            None => p,
        }
    }
}

/// The months with their commit counts, in ascending order of month.
pub open spec fn months(cs: Seq<CommitInfo>) -> Seq<Counted> {
    sort_by_key(tally(month_keys(cs)))
}

/// The last `n` items, or all of them when there are fewer.
pub open spec fn last_n<T>(s: Seq<T>, n: nat) -> Seq<T> {
    if s.len() > n {
        s.skip(s.len() - n)
    } else {
        s
    }
}

/// The month chart can be printed: the sparkline's labels (when there is
/// one) can be cut at byte 3 and the bar chart's labels at byte 29.
pub open spec fn frequency_printable(ms: Seq<Counted>) -> bool {
    &&& (ms.len() > 12 ==> labels_cuttable_at_3_v(last_n(ms, 12)))
    &&& labels_cuttable_v(last_n(ms, 24), 30)
}

/// What the month report does to the output: a sub-header; with more than
/// twelve months, a sparkline of the last twelve followed by an empty line
/// printed straight to the terminal; then the bar chart of the last 24.
pub open spec fn frequency_effect(o: OutputView, ms: Seq<Counted>) -> OutputView {
    let title = sub_header_lines("Commit Frequency by Month"@);
    let bars = bar_chart_lines_v(last_n(ms, 24), "\x1b[35m"@);
    if ms.len() > 12 {
        write_lines(print_direct_line(write_lines(o, title + sparkline_lines_v(last_n(ms, 12))), ""@), bars)
    } else {
        write_lines(o, title + bars)
    }
}

/// The last `n` items.
fn last_items(v: &Vec<(String, usize)>, n: usize) -> (r: Vec<(String, usize)>)
    ensures
        series_view(r@) == last_n(series_view(v@), n as nat),
{
    let start = if v.len() > n {
        v.len() - n
    } else {
        0
    };
    let mut r: Vec<(String, usize)> = Vec::new();
    let mut i: usize = start;
    proof {
        assert(series_view(r@) =~= series_view(v@).subrange(start as int, start as int));
    }
    while i < v.len()
        invariant
            start <= i <= v@.len(),
            series_view(r@) == series_view(v@).subrange(start as int, i as int),
        decreases v@.len() - i,
    {
        let ghost pre = series_view(r@);
        r.push((v[i].0.clone(), v[i].1));
        proof {
            assert(series_view(r@) =~= pre.push(series_view(v@)[i as int]));
            assert(series_view(r@) =~= series_view(v@).subrange(start as int, i + 1));
        }
        i += 1;
    }
    proof {
        if v@.len() > n {
            assert(series_view(r@) =~= series_view(v@).skip(series_view(v@).len() - n));
        } else {
            assert(series_view(r@) =~= series_view(v@));
        }
    }
    r
}

/// The month keys of the commits, counted and sorted by month.
fn month_counts(commits: &Vec<CommitInfo>, n: usize, merges_only: bool) -> (r: Vec<(String, usize)>)
    requires
        n <= commits@.len(),
    ensures
        merges_only ==> series_view(r@) == sort_by_key(tally(merge_month_keys(commits@.take(n as int)))),
        !merges_only ==> series_view(r@) == sort_by_key(tally(month_keys(commits@.take(n as int)))),
{
    let mut keys: Vec<String> = Vec::new();
    let mut i: usize = 0;
    proof {
        assert(commits@.take(0) =~= Seq::<CommitInfo>::empty());
        assert(string_views(keys@) =~= Seq::<Seq<char>>::empty());
    }
    while i < n
        invariant
            i <= n,
            n <= commits@.len(),
            merges_only ==> string_views(keys@) == merge_month_keys(commits@.take(i as int)),
            !merges_only ==> string_views(keys@) == month_keys(commits@.take(i as int)),
        decreases n - i,
    {
        proof {
            assert(commits@.take(i + 1).drop_last() =~= commits@.take(i as int));
            assert(commits@.take(i + 1).last() == commits@[i as int]);
        }
        if !merges_only || commits[i].parents > 1 {
            match month_key_of(commits[i].seconds) {
                Some(k) => {
                    let ghost pre = string_views(keys@);
                    keys.push(k);
                    proof {
                        assert(string_views(keys@) =~= pre.push(k@));
                    }
                },
                None => {},
            }
        }
        i += 1;
    }
    let t = tally_keys(&keys);
    sort_by_key_exec(&t)
}

/// Charts the commits per month, in month order: with more than twelve
/// months, first a sparkline of the last twelve (and an empty line straight
/// to the terminal), then a bar chart of the last 24. `false`, writing
/// nothing, when a label cannot be cut where the charts cut it.
pub fn commit_frequency_by_month(o: &mut Output, commits: &Vec<CommitInfo>) -> (ok: bool)
    ensures
        ok == frequency_printable(months(commits@)),
        ok ==> final(o)@ == frequency_effect(old(o)@, months(commits@)),
        !ok ==> final(o)@ == old(o)@,
{
    let ghost o0 = o@;
    let ms = month_counts(commits, commits.len(), false);
    proof {
        assert(commits@.take(commits@.len() as int) =~= commits@);
    }
    let ghost mv = series_view(ms@);
    let recent12 = last_items(&ms, 12);
    let recent24 = last_items(&ms, 24);
    proof {
        lemma_sparkline_view(recent12@);
        lemma_bar_chart_view(recent24@, "\x1b[35m"@);
    }
    let spark_ok = ms.len() <= 12 || sparkline_printable(recent12.as_slice());
    if !spark_ok || !chart_printable(recent24.as_slice()) {
        return false;
    }
    print_sub_header(o, "Commit Frequency by Month");
    if ms.len() > 12 {
        print_sparkline(o, recent12.as_slice());
        proof {
            lemma_write_lines_append(o0, sub_header_lines("Commit Frequency by Month"@), sparkline_lines_v(
                last_n(mv, 12),
            ));
        }
        print_direct(o, "");
        print_bar_chart(o, recent24.as_slice(), "\x1b[35m");
    } else {
        print_bar_chart(o, recent24.as_slice(), "\x1b[35m");
        proof {
            lemma_write_lines_append(o0, sub_header_lines("Commit Frequency by Month"@), bar_chart_lines_v(
                last_n(mv, 24),
                "\x1b[35m"@,
            ));
        }
    }
    true
}

/// The month keys of the merge commits (more than one parent) whose time
/// `chrono` can place, in walk order.
pub open spec fn merge_month_keys(cs: Seq<CommitInfo>) -> Seq<Seq<char>>
    decreases cs.len(),
{
    if cs.len() == 0 {
        Seq::empty()
    } else {
        let p = merge_month_keys(cs.drop_last());
        if cs.last().parents > 1 {
            match month_key(cs.last().seconds as int) {
                Some(k) => p.push(k),
                None => p,
            }
        } else {
            p
        }
    }
}

/// The months with their merge counts over the last year, in month order.
pub open spec fn merge_months(cs: Seq<CommitInfo>, cutoff: int) -> Seq<Counted> {
    sort_by_key(tally(merge_month_keys(recent(cs, cutoff))))
}

/// The merge report: a sub-header, then the chart of merges per month, or a
/// note that there were none.
pub open spec fn merge_report(ms: Seq<Counted>) -> Seq<Seq<char>> {
    if ms.len() == 0 {
        sub_header_lines("Merge Frequency by Month (1 year)"@).push(
            info_line("No merge commits found in the last year"@),
        )
    } else {
        chart_report("Merge Frequency by Month (1 year)"@, ms, "\x1b[34m"@)
    }
}

/// Charts the merge commits per month among the commits newer than `cutoff`
/// (the walk stops at the first older one), in month order. `false`, writing
/// nothing, when a month label longer than 30 bytes cannot be cut at byte 29.
pub fn merge_frequency(o: &mut Output, commits: &Vec<CommitInfo>, cutoff: i64) -> (ok: bool)
    ensures
        ok == labels_cuttable_v(merge_months(commits@, cutoff as int), 30),
        ok ==> final(o)@ == write_lines(old(o)@, merge_report(merge_months(commits@, cutoff as int))),
        !ok ==> final(o)@ == old(o)@,
{
    let ghost o0 = o@;
    let n = recent_len(commits, cutoff);
    proof {
        lemma_recent_end(commits@, cutoff as int, 0);
    }
    let ms = month_counts(commits, n, true);
    proof {
        lemma_bar_chart_view(ms@, "\x1b[34m"@);
    }
    if !chart_printable(ms.as_slice()) {
        return false;
    }
    print_sub_header(o, "Merge Frequency by Month (1 year)");
    if ms.len() == 0 {
        print_info(o, "No merge commits found in the last year");
        proof {
            crate::display::lemma_write_lines_push(
                o0,
                sub_header_lines("Merge Frequency by Month (1 year)"@),
                info_line("No merge commits found in the last year"@),
            );
        }
    } else {
        print_bar_chart(o, ms.as_slice(), "\x1b[34m");
        proof {
            lemma_write_lines_append(o0, sub_header_lines("Merge Frequency by Month (1 year)"@), bar_chart_lines_v(
                series_view(ms@),
                "\x1b[34m"@,
            ));
        }
    }
    true
}

/// How many commits `chrono` places on weekday `d` (Monday is 0).
pub open spec fn weekday_count(cs: Seq<CommitInfo>, d: nat) -> nat
    decreases cs.len(),
{
    if cs.len() == 0 {
        0
    } else {
        weekday_count(cs.drop_last(), d) + if utc_weekday(cs.last().seconds as int) == Some(d) {
            1nat
        } else {
            0nat
        }
    }
}

/// The short names of the weekdays, from Monday.
pub open spec fn day_names() -> Seq<Seq<char>> {
    seq!["Mon"@, "Tue"@, "Wed"@, "Thu"@, "Fri"@, "Sat"@, "Sun"@]
}

/// The commits per weekday, Monday first.
pub open spec fn weekday_items(cs: Seq<CommitInfo>) -> Seq<Counted> {
    Seq::new(7, |d: int| (day_names()[d], weekday_count(cs, d as nat)))
}

/// Charts the commits per weekday (UTC), Monday first. `false`, writing
/// nothing, when a label cannot be cut where the chart cuts it.
pub fn activity_by_day_of_week(o: &mut Output, commits: &Vec<CommitInfo>) -> (ok: bool)
    ensures
        ok == labels_cuttable_v(weekday_items(commits@), 30),
        ok ==> final(o)@ == write_lines(
            old(o)@,
            chart_report("Commit Activity by Day of Week"@, weekday_items(commits@), "\x1b[36m"@),
        ),
        !ok ==> final(o)@ == old(o)@,
{
    let ghost o0 = o@;
    let mut counts: Vec<usize> = vec![0, 0, 0, 0, 0, 0, 0];
    let mut i: usize = 0;
    proof {
        assert(commits@.take(0) =~= Seq::<CommitInfo>::empty());
    }
    while i < commits.len()
        invariant
            i <= commits@.len(),
            counts@.len() == 7,
            forall|d: int| 0 <= d < 7 ==> #[trigger] counts@[d] == weekday_count(commits@.take(i as int), d as nat),
            forall|d: int| 0 <= d < 7 ==> #[trigger] counts@[d] <= i,
        decreases commits@.len() - i,
    {
        proof {
            assert(commits@.take(i + 1).drop_last() =~= commits@.take(i as int));
            assert(commits@.take(i + 1).last() == commits@[i as int]);
        }
        match weekday(commits[i].seconds) {
            Some(d) => {
                let du = d as usize;
                let c = counts[du];
                counts.set(du, c + 1);
            },
            None => {},
        }
        i += 1;
    }
    proof {
        assert(commits@.take(commits@.len() as int) =~= commits@);
    }
    let names: Vec<&str> = vec!["Mon", "Tue", "Wed", "Thu", "Fri", "Sat", "Sun"];
    let mut items: Vec<(String, usize)> = Vec::new();
    let mut d: usize = 0;
    while d < 7
        invariant
            d <= 7,
            names@.len() == 7,
            counts@.len() == 7,
            forall|k: int| 0 <= k < 7 ==> (#[trigger] names@[k])@ == day_names()[k],
            forall|k: int| 0 <= k < 7 ==> #[trigger] counts@[k] == weekday_count(commits@, k as nat),
            series_view(items@) == weekday_items(commits@).take(d as int),
        decreases 7 - d,
    {
        let ghost pre = series_view(items@);
        items.push((names[d].to_string(), counts[d]));
        proof {
            assert(series_view(items@) =~= pre.push((names@[d as int]@, counts@[d as int] as nat)));
            assert(series_view(items@) =~= weekday_items(commits@).take(d + 1));
        }
        d += 1;
    }
    proof {
        assert(weekday_items(commits@).take(7) =~= weekday_items(commits@));
        lemma_bar_chart_view(items@, "\x1b[36m"@);
    }
    if !chart_printable(items.as_slice()) {
        return false;
    }
    print_sub_header(o, "Commit Activity by Day of Week");
    print_bar_chart(o, items.as_slice(), "\x1b[36m");
    proof {
        lemma_write_lines_append(o0, sub_header_lines("Commit Activity by Day of Week"@), bar_chart_lines_v(
            series_view(items@),
            "\x1b[36m"@,
        ));
    }
    true
}

/// How many commits fall in hour `h` of their committer's clock.
pub open spec fn hour_count(cs: Seq<CommitInfo>, h: nat) -> nat
    decreases cs.len(),
{
    if cs.len() == 0 {
        0
    } else {
        hour_count(cs.drop_last(), h) + if shifted_hour(cs.last().seconds as int, cs.last().offset_minutes as int)
            == Some(h) {
            1nat
        } else {
            0nat
        }
    }
}

/// The commits per hour of the day, from `00:00` to `23:00`.
pub open spec fn hour_items(cs: Seq<CommitInfo>) -> Seq<Counted> {
    Seq::new(24, |h: int| (two_digits(h as nat) + ":00"@, hour_count(cs, h as nat)))
}

/// Charts the commits per hour of the day on the committer's clock. `false`,
/// writing nothing, when a label cannot be cut where the chart cuts it.
pub fn activity_by_hour(o: &mut Output, commits: &Vec<CommitInfo>) -> (ok: bool)
    ensures
        ok == labels_cuttable_v(hour_items(commits@), 30),
        ok ==> final(o)@ == write_lines(
            old(o)@,
            chart_report("Commit Activity by Hour of Day"@, hour_items(commits@), "\x1b[35m"@),
        ),
        !ok ==> final(o)@ == old(o)@,
{
    let ghost o0 = o@;
    let mut counts: Vec<usize> = Vec::new();
    let mut h: usize = 0;
    while h < 24
        invariant
            h <= 24,
            counts@.len() == h,
            forall|k: int| 0 <= k < h ==> #[trigger] counts@[k] == 0,
        decreases 24 - h,
    {
        counts.push(0);
        h += 1;
    }
    let mut i: usize = 0;
    proof {
        assert(commits@.take(0) =~= Seq::<CommitInfo>::empty());
    }
    while i < commits.len()
        invariant
            i <= commits@.len(),
            counts@.len() == 24,
            forall|k: int| 0 <= k < 24 ==> #[trigger] counts@[k] == hour_count(commits@.take(i as int), k as nat),
            forall|k: int| 0 <= k < 24 ==> #[trigger] counts@[k] <= i,
        decreases commits@.len() - i,
    {
        proof {
            assert(commits@.take(i + 1).drop_last() =~= commits@.take(i as int));
            assert(commits@.take(i + 1).last() == commits@[i as int]);
        }
        match hour_at(commits[i].seconds, commits[i].offset_minutes) {
            Some(hh) => {
                let hu = hh as usize;
                let c = counts[hu];
                counts.set(hu, c + 1);
            },
            None => {},
        }
        i += 1;
    }
    proof {
        assert(commits@.take(commits@.len() as int) =~= commits@);
    }
    let mut items: Vec<(String, usize)> = Vec::new();
    let mut k: usize = 0;
    while k < 24
        invariant
            k <= 24,
            counts@.len() == 24,
            forall|m: int| 0 <= m < 24 ==> #[trigger] counts@[m] == hour_count(commits@, m as nat),
            series_view(items@) == hour_items(commits@).take(k as int),
        decreases 24 - k,
    {
        let mut label: Vec<char> = Vec::new();
        if k < 10 {
            label.push('0');
        }
        let dk = decimal_exec(k);
        extend(&mut label, &dk);
        extend_str(&mut label, ":00");
        proof {
            assert(label@ =~= two_digits(k as nat) + ":00"@);
        }
        let ghost pre = series_view(items@);
        items.push((string_of(&label), counts[k]));
        proof {
            assert(series_view(items@) =~= pre.push((label@, counts@[k as int] as nat)));
            assert(series_view(items@) =~= hour_items(commits@).take(k + 1));
        }
        k += 1;
    }
    proof {
        assert(hour_items(commits@).take(24) =~= hour_items(commits@));
        lemma_bar_chart_view(items@, "\x1b[35m"@);
    }
    if !chart_printable(items.as_slice()) {
        return false;
    }
    print_sub_header(o, "Commit Activity by Hour of Day");
    print_bar_chart(o, items.as_slice(), "\x1b[35m");
    proof {
        lemma_write_lines_append(o0, sub_header_lines("Commit Activity by Hour of Day"@), bar_chart_lines_v(
            series_view(items@),
            "\x1b[35m"@,
        ));
    }
    true
}

/// The velocity report: the commits of the last year and their averages.
pub open spec fn velocity_report(total: nat, per_day: Seq<char>, per_week: Seq<char>) -> Seq<Seq<char>> {
    sub_header_lines("Commit Velocity"@) + seq![
        summary_stat_line("Total commits (last year)"@, decimal(total)),
        summary_stat_line("Average per day"@, per_day),
        summary_stat_line("Average per week"@, per_week),
    ]
}

/// Prints the commit velocity: the commits newer than `cutoff` (the walk
/// stops at the first older one) with their daily and weekly averages, as
/// `averages` formats them from that number.
pub fn commits_per_day<F: Fn(usize) -> (String, String)>(
    o: &mut Output,
    commits: &Vec<CommitInfo>,
    cutoff: i64,
    averages: F,
)
    requires
        forall|n: usize| call_requires(averages, (n,)),
    ensures
        exists|n: usize, r: (String, String)|
            #![trigger call_ensures(averages, (n,), r)]
            {
                &&& n == recent_end(commits@, cutoff as int, 0)
                &&& call_ensures(averages, (n,), r)
                &&& final(o)@ == write_lines(old(o)@, velocity_report(n as nat, r.0@, r.1@))
            },
{
    let ghost o0 = o@;
    let total = recent_len(commits, cutoff);
    let r = averages(total);
    print_sub_header(o, "Commit Velocity");
    let t = string_of(&decimal_exec(total));
    print_summary_stat(o, "Total commits (last year)", t.as_str());
    print_summary_stat(o, "Average per day", r.0.as_str());
    print_summary_stat(o, "Average per week", r.1.as_str());
    proof {
        let h = sub_header_lines("Commit Velocity"@);
        let a = summary_stat_line("Total commits (last year)"@, decimal(total as nat));
        let b = summary_stat_line("Average per day"@, r.0@);
        let c = summary_stat_line("Average per week"@, r.1@);
        crate::display::lemma_write_lines_push(o0, h, a);
        crate::display::lemma_write_lines_push(o0, h.push(a), b);
        crate::display::lemma_write_lines_push(o0, h.push(a).push(b), c);
        assert(h.push(a).push(b).push(c) =~= velocity_report(total as nat, r.0@, r.1@));
        assert(call_ensures(averages, (total,), r));
    }
}

/// The first commit, from `i` on, whose time `chrono` can place.
pub open spec fn first_placed(cs: Seq<CommitInfo>, i: int) -> Option<int>
    decreases cs.len() - i,
{
    if i < 0 || i >= cs.len() {
        None
    } else if utc_minute_text(cs[i].seconds as int) is Some {
        Some(i)
    } else {
        first_placed(cs, i + 1)
    }
}

/// Whole days from `b` to `a` seconds, rounded toward zero.
pub open spec fn span_days(a: int, b: int) -> int {
    let d = a - b;
    if d >= 0 {
        d / 86400
    } else {
        -((-d) / 86400)
    }
}

/// The overview: totals, then the dates of the oldest and the newest commit
/// where `chrono` places them (the newest being the first the walk places,
/// the oldest the last commit walked), then the whole days between them.
pub open spec fn overview_report(cs: Seq<CommitInfo>, branches: nat, tags: nat) -> Seq<Seq<char>> {
    let newest = first_placed(cs, 0);
    let oldest: Option<int> = if cs.len() > 0 && utc_minute_text(cs.last().seconds as int) is Some {
        Some(cs.len() - 1)
    } else {
        None
    };
    let base = sub_header_lines("Repository Overview"@) + seq![
        summary_stat_line("Total commits"@, decimal(cs.len())),
        summary_stat_line("Branches"@, decimal(branches)),
        summary_stat_line("Tags"@, decimal(tags)),
    ];
    let with_first = match oldest {
        Some(k) => base.push(summary_stat_line("First commit"@, utc_minute_text(cs[k].seconds as int)->0)),
        None => base,
    };
    let with_last = match newest {
        Some(k) => with_first.push(summary_stat_line("Last commit"@, utc_minute_text(cs[k].seconds as int)->0)),
        None => with_first,
    };
    match (oldest, newest) {
        (Some(a), Some(b)) => with_last.push(
            summary_stat_line(
                "Active span"@,
                year_text(span_days(cs[b].seconds as int, cs[a].seconds as int)) + " days"@,
            ),
        ),
        _ => with_last,
    }
}

proof fn lemma_first_placed(cs: Seq<CommitInfo>, i: int)
    requires
        0 <= i,
    ensures
        first_placed(cs, i) matches Some(k) ==> i <= k < cs.len() && utc_minute_text(cs[k].seconds as int) is Some,
    decreases cs.len() - i,
{
    if i < cs.len() && utc_minute_text(cs[i].seconds as int) is None {
        lemma_first_placed(cs, i + 1);
    }
}

/// An integer as `{}` writes it.
fn signed_text(v: i128) -> (r: Vec<char>)
    requires
        v > i128::MIN,
    ensures
        r@ == year_text(v as int),
{
    let mut r: Vec<char> = Vec::new();
    if v < 0 {
        r.push('-');
        let d = decimal_wide_exec((-v) as u128);
        extend(&mut r, &d);
    } else {
        let d = decimal_wide_exec(v as u128);
        extend(&mut r, &d);
    }
    proof {
        assert(r@ =~= year_text(v as int));
    }
    r
}

/// Prints the repository overview: the number of commits, branches and tags,
/// the dates of the oldest and newest commits, and the days between them.
pub fn repo_overview(o: &mut Output, commits: &Vec<CommitInfo>, branches: usize, tags: usize)
    ensures
        final(o)@ == write_lines(old(o)@, overview_report(commits@, branches as nat, tags as nat)),
{
    let ghost o0 = o@;
    let ghost cs = commits@;
    print_sub_header(o, "Repository Overview");
    let t = string_of(&decimal_exec(commits.len()));
    print_summary_stat(o, "Total commits", t.as_str());
    let b = string_of(&decimal_exec(branches));
    print_summary_stat(o, "Branches", b.as_str());
    let g = string_of(&decimal_exec(tags));
    print_summary_stat(o, "Tags", g.as_str());
    let ghost base = sub_header_lines("Repository Overview"@) + seq![
        summary_stat_line("Total commits"@, decimal(cs.len())),
        summary_stat_line("Branches"@, decimal(branches as nat)),
        summary_stat_line("Tags"@, decimal(tags as nat)),
    ];
    proof {
        let h = sub_header_lines("Repository Overview"@);
        let l1 = summary_stat_line("Total commits"@, decimal(cs.len()));
        let l2 = summary_stat_line("Branches"@, decimal(branches as nat));
        let l3 = summary_stat_line("Tags"@, decimal(tags as nat));
        crate::display::lemma_write_lines_push(o0, h, l1);
        crate::display::lemma_write_lines_push(o0, h.push(l1), l2);
        crate::display::lemma_write_lines_push(o0, h.push(l1).push(l2), l3);
        assert(h.push(l1).push(l2).push(l3) =~= base);
    }
    let mut newest: Option<(usize, String)> = None;
    let mut i: usize = 0;
    while i < commits.len() && newest.is_none()
        invariant
            i <= commits@.len(),
            cs == commits@,
            newest is None ==> first_placed(cs, 0) == first_placed(cs, i as int),
            newest is Some ==> i < commits@.len(),
            newest matches Some(x) ==> first_placed(cs, 0) == Some(x.0 as int) && x.0 < cs.len() && utc_minute_text(
                cs[x.0 as int].seconds as int,
            ) == Some(x.1@),
        decreases commits@.len() - i + if newest is None {
            1int
        } else {
            0int
        },
    {
        match minute_text(commits[i].seconds) {
            Some(s) => {
                newest = Some((i, s));
            },
            None => {
                i += 1;
            },
        }
    }
    proof {
        if newest is None {
            assert(first_placed(cs, i as int) is None);
        }
    }
    let oldest: Option<String> = if commits.len() > 0 {
        minute_text(commits[commits.len() - 1].seconds)
    } else {
        None
    };
    let ghost with_first = if oldest is Some {
        base.push(summary_stat_line("First commit"@, oldest->0@))
    } else {
        base
    };
    match &oldest {
        Some(s) => {
            print_summary_stat(o, "First commit", s.as_str());
            proof {
                crate::display::lemma_write_lines_push(o0, base, summary_stat_line("First commit"@, s@));
            }
        },
        None => {},
    }
    let ghost with_last = if newest is Some {
        with_first.push(summary_stat_line("Last commit"@, (newest->0).1@))
    } else {
        with_first
    };
    match &newest {
        Some(x) => {
            print_summary_stat(o, "Last commit", x.1.as_str());
            proof {
                crate::display::lemma_write_lines_push(o0, with_first, summary_stat_line("Last commit"@, x.1@));
            }
        },
        None => {},
    }
    match (&oldest, &newest) {
        (Some(_), Some(x)) => {
            let a = commits[x.0].seconds as i128;
            let z = commits[commits.len() - 1].seconds as i128;
            let d = a - z;
            let days: i128 = if d >= 0 {
                d / 86400
            } else {
                -((-d) / 86400)
            };
            let mut v = signed_text(days);
            extend_str(&mut v, " days");
            let vs = string_of(&v);
            print_summary_stat(o, "Active span", vs.as_str());
            proof {
                crate::display::lemma_write_lines_push(o0, with_last, summary_stat_line("Active span"@, vs@));
            }
        },
        _ => {},
    }
}

/// Prints a table whose cells can be cut where the table cuts them.
fn print_table_v(o: &mut Output, headers: &Vec<&str>, rows: &Vec<Vec<String>>)
    requires
        cells_cuttable_v(rows_view(rows@)),
    ensures
        final(o)@ == write_lines(old(o)@, table_lines_v(headers_view(headers@), rows_view(rows@))),
{
    proof {
        lemma_table_view(headers@, rows@);
    }
    print_table(o, headers.as_slice(), rows.as_slice());
}

/// Whether the table's cells can be cut where the table cuts them.
fn table_ok(rows: &Vec<Vec<String>>) -> (r: bool)
    ensures
        r == cells_cuttable_v(rows_view(rows@)),
{
    proof {
        lemma_table_view(Seq::<&str>::empty(), rows@);
    }
    table_printable(rows.as_slice())
}

/// The pattern of a revert, hotfix or emergency commit message.
pub open spec fn emergency_pattern() -> Seq<char> {
    "(?i)(revert|hotfix|emergency|rollback)"@
}

/// The commits whose trimmed message the pattern matches: id and trimmed message.
pub open spec fn emergency_entries(pat: Seq<char>, cs: Seq<CommitInfo>) -> Seq<(Seq<char>, Seq<char>)>
    decreases cs.len(),
{
    if cs.len() == 0 {
        Seq::empty()
    } else {
        let p = emergency_entries(pat, cs.drop_last());
        let m = trim(cs.last().message@);
        if regex_is_match(pat, m) {
            p.push((cs.last().id@, m))
        } else {
            p
        }
    }
}

/// The entry can be shown: its id has a 7-byte prefix and a message longer
/// than 60 bytes can be cut at byte 59.
pub open spec fn entry_showable(e: (Seq<char>, Seq<char>)) -> bool {
    &&& utf8_len(e.0) >= 7
    &&& is_boundary(e.0, 7)
    &&& (utf8_len(e.1) > 60 ==> is_boundary(e.1, 59))
}

/// The table rows of the entries: short id and message cut to 60 bytes.
pub open spec fn emergency_rows(es: Seq<(Seq<char>, Seq<char>)>) -> Seq<Seq<Seq<char>>> {
    Seq::new(es.len(), |i: int| seq![byte_prefix(es[i].0, 7), truncate_label(es[i].1, 60)])
}

/// The emergency report can be printed.
pub open spec fn emergency_printable(es: Seq<(Seq<char>, Seq<char>)>) -> bool {
    &&& forall|i: int| 0 <= i < es.len() ==> entry_showable(#[trigger] es[i])
    &&& cells_cuttable_v(emergency_rows(es))
}

/// The emergency report: a sub-header, then either a note that there were
/// none or a warning with their number and their table.
pub open spec fn emergency_report(es: Seq<(Seq<char>, Seq<char>)>) -> Seq<Seq<char>> {
    let h = sub_header_lines("Reverts / Hotfixes / Emergency Commits (1 year)"@);
    if es.len() == 0 {
        h.push(ok_line("No revert/hotfix/emergency commits found in the last year"@))
    } else {
        h.push(warning_line("Found "@ + decimal(es.len()) + " emergency-type commits:"@)) + table_lines_v(
            seq!["Hash"@, "Message"@],
            emergency_rows(es),
        )
    }
}

proof fn lemma_entries_prefix(pat: Seq<char>, cs: Seq<CommitInfo>, j: int)
    requires
        0 <= j <= cs.len(),
    ensures
        emergency_entries(pat, cs.take(j)).len() <= emergency_entries(pat, cs).len(),
        forall|k: int|
            0 <= k < emergency_entries(pat, cs.take(j)).len() ==> #[trigger] emergency_entries(pat, cs.take(j))[k]
                == emergency_entries(pat, cs)[k],
    decreases cs.len() - j,
{
    if j < cs.len() {
        lemma_entries_prefix(pat, cs, j + 1);
        assert(cs.take(j + 1).drop_last() =~= cs.take(j));
        let a = emergency_entries(pat, cs.take(j));
        let b = emergency_entries(pat, cs.take(j + 1));
        assert forall|k: int| 0 <= k < a.len() implies #[trigger] a[k] == b[k] by {}
    } else {
        assert(cs.take(j) =~= cs);
    }
}

/// Lists the reverts, hotfixes and emergency commits among the commits newer
/// than `cutoff` (the walk stops at the first older one): short id and
/// trimmed message. `false`, writing nothing, when the pattern does not
/// compile or an entry cannot be shown.
pub fn emergency_commits(o: &mut Output, commits: &Vec<CommitInfo>, cutoff: i64) -> (ok: bool)
    ensures
        ({
            let es = emergency_entries(emergency_pattern(), recent(commits@, cutoff as int));
            &&& ok == (regex_compiles(emergency_pattern()) && emergency_printable(es))
            &&& ok ==> final(o)@ == write_lines(old(o)@, emergency_report(es))
            &&& !ok ==> final(o)@ == old(o)@
        }),
{
    let ghost o0 = o@;
    let pat = match Pattern::new("(?i)(revert|hotfix|emergency|rollback)") {
        Some(p) => p,
        None => return false,
    };
    let n = recent_len(commits, cutoff);
    proof {
        lemma_recent_end(commits@, cutoff as int, 0);
    }
    let ghost rc = recent(commits@, cutoff as int);
    let ghost es = emergency_entries(emergency_pattern(), rc);
    let mut rows: Vec<Vec<String>> = Vec::new();
    let mut count: usize = 0;
    let mut i: usize = 0;
    proof {
        assert(rc.take(0) =~= Seq::<CommitInfo>::empty());
        assert(rows_view(rows@) =~= emergency_rows(emergency_entries(emergency_pattern(), rc.take(0))));
    }
    while i < n
        invariant
            i <= n,
            n <= commits@.len(),
            rc == commits@.take(n as int),
            n == recent_end(commits@, cutoff as int, 0),
            o@ == o0,
            es == emergency_entries(emergency_pattern(), rc),
            pat.source() == emergency_pattern(),
            count == emergency_entries(emergency_pattern(), rc.take(i as int)).len(),
            count <= i,
            rows_view(rows@) == emergency_rows(emergency_entries(emergency_pattern(), rc.take(i as int))),
            forall|k: int|
                0 <= k < count ==> entry_showable(
                    #[trigger] emergency_entries(emergency_pattern(), rc.take(i as int))[k],
                ),
        decreases n - i,
    {
        let ghost pe = emergency_entries(emergency_pattern(), rc.take(i as int));
        proof {
            assert(rc.take(i + 1).drop_last() =~= rc.take(i as int));
            assert(rc.take(i + 1).last() == commits@[i as int]);
        }
        let mc = chars_of(commits[i].message.as_str());
        let m = trim_exec(&mc);
        let ms = string_of(&m);
        if pat.is_match(ms.as_str()) {
            proof {
                let ne = emergency_entries(emergency_pattern(), rc.take(i + 1));
                assert(ne == pe.push((commits@[i as int].id@, m@)));
                assert(ne[count as int] == (commits@[i as int].id@, m@));
                lemma_entries_prefix(emergency_pattern(), rc, i + 1);
                assert(ne[count as int] == es[count as int]);
                assert(count < es.len());
            }
            let idc = chars_of(commits[i].id.as_str());
            if utf8_len_capped_exec(&idc, 8) < 7 || !is_boundary_exec(&idc, 7) {
                proof {
                    assert(!entry_showable(es[count as int]));
                    assert(!emergency_printable(es));
                }
                return false;
            }
            let long = utf8_len_capped_exec(&m, 61) > 60;
            if long && !is_boundary_exec(&m, 59) {
                proof {
                    assert(!entry_showable(es[count as int]));
                    assert(!emergency_printable(es));
                }
                return false;
            }
            let short = string_of(&byte_prefix_exec(&idc, 7));
            let cell = if long {
                let mut c = byte_prefix_exec(&m, 59);
                c.push('…');
                string_of(&c)
            } else {
                ms
            };
            proof {
                assert(cell@ == truncate_label(m@, 60));
            }
            let ghost pre = rows_view(rows@);
            let ghost sv = short@;
            let ghost cv = cell@;
            let row = vec![short, cell];
            proof {
                assert(Seq::new(row@.len(), |j: int| row@[j]@) =~= seq![sv, cv]);
            }
            rows.push(row);
            proof {
                let ne = emergency_entries(emergency_pattern(), rc.take(i + 1));
                assert(ne == pe.push((commits@[i as int].id@, m@)));
                assert(rows_view(rows@) =~= emergency_rows(ne)) by {
                    assert(rows_view(rows@) =~= pre.push(seq![sv, cv]));
                }
            }
            count += 1;
        }
        i += 1;
    }
    proof {
        assert(rc.take(n as int) =~= rc);
    }
    if !table_ok(&rows) {
        return false;
    }
    print_sub_header(o, "Reverts / Hotfixes / Emergency Commits (1 year)");
    let ghost h = sub_header_lines("Reverts / Hotfixes / Emergency Commits (1 year)"@);
    if count == 0 {
        print_ok(o, "No revert/hotfix/emergency commits found in the last year");
        proof {
            crate::display::lemma_write_lines_push(o0, h, ok_line("No revert/hotfix/emergency commits found in the last year"@));
        }
    } else {
        let mut w: Vec<char> = Vec::new();
        extend_str(&mut w, "Found ");
        let dc = decimal_exec(count);
        extend(&mut w, &dc);
        extend_str(&mut w, " emergency-type commits:");
        let ws = string_of(&w);
        print_warning(o, ws.as_str());
        let ghost o1 = o@;
        let headers: Vec<&str> = vec!["Hash", "Message"];
        print_table_v(o, &headers, &rows);
        proof {
            let wl = warning_line(ws@);
            crate::display::lemma_write_lines_push(o0, h, wl);
            assert(headers_view(headers@) =~= seq!["Hash"@, "Message"@]);
            lemma_write_lines_append(o0, h.push(wl), table_lines_v(seq!["Hash"@, "Message"@], emergency_rows(es)));
        }
    }
    true
}

/// The files with their sizes and the size as shown, from the largest to
/// the smallest (equal sizes in walk order), the first `limit` of them.
pub open spec fn largest(fs: Seq<(Seq<char>, nat, Seq<char>)>, limit: nat) -> Seq<(Seq<char>, nat, Seq<char>)> {
    let ord = order_by(Seq::new(fs.len(), |i: int| fs[i].1 as int), true, fs.len());
    top(Seq::new(fs.len(), |k: int| fs[ord[k]]), limit)
}

/// The views of tracked files: path, size, size as shown.
pub open spec fn file_views(v: Seq<(String, usize, String)>) -> Seq<(Seq<char>, nat, Seq<char>)> {
    Seq::new(v.len(), |i: int| (v[i].0@, v[i].1 as nat, v[i].2@))
}

/// The report of the largest tracked files.
pub open spec fn largest_report(fs: Seq<(Seq<char>, nat, Seq<char>)>) -> Seq<Seq<char>> {
    sub_header_lines("Largest Tracked Files"@) + table_lines_v(
        seq!["File"@, "Size"@],
        Seq::new(fs.len(), |i: int| seq![fs[i].0, fs[i].2]),
    )
}

/// Lists the `limit` largest files of the tree (path, size, and the size as
/// the caller formatted it), largest first, equal sizes in walk order.
/// `false`, writing nothing, when a cell longer than 50 bytes cannot be cut
/// at byte 49.
pub fn largest_tracked_files(o: &mut Output, files: &Vec<(String, usize, String)>, limit: usize) -> (ok: bool)
    ensures
        ({
            let fs = largest(file_views(files@), limit as nat);
            &&& ok == cells_cuttable_v(Seq::new(fs.len(), |i: int| seq![fs[i].0, fs[i].2]))
            &&& ok ==> final(o)@ == write_lines(old(o)@, largest_report(fs))
            &&& !ok ==> final(o)@ == old(o)@
        }),
{
    let ghost o0 = o@;
    let ghost fv = file_views(files@);
    let mut keys: Vec<i128> = Vec::new();
    let mut i: usize = 0;
    while i < files.len()
        invariant
            i <= files@.len(),
            keys@.len() == i,
            forall|k: int| 0 <= k < i ==> #[trigger] keys@[k] as int == files@[k].1 as int,
        decreases files@.len() - i,
    {
        keys.push(files[i].1 as i128);
        i += 1;
    }
    let ghost kv = Seq::new(fv.len(), |i: int| fv[i].1 as int);
    proof {
        assert(wide_keys(keys@) =~= kv);
    }
    let ord = order_by_exec(&keys, true);
    let ghost ordv = order_by(kv, true, fv.len());
    proof {
        crate::tally::lemma_order_by(kv, true, fv.len());
    }
    let ghost sorted = Seq::new(fv.len(), |k: int| fv[ordv[k]]);
    let n = if limit < files.len() {
        limit
    } else {
        files.len()
    };
    let mut rows: Vec<Vec<String>> = Vec::new();
    let mut k: usize = 0;
    while k < n
        invariant
            k <= n,
            n <= files@.len(),
            ord@.len() == files@.len(),
            fv == file_views(files@),
            forall|m: int| 0 <= m < ord@.len() ==> ord@[m] as int == #[trigger] ordv[m],
            forall|m: int| 0 <= m < ord@.len() ==> #[trigger] ord@[m] < files@.len(),
            sorted == Seq::new(fv.len(), |k: int| fv[ordv[k]]),
            rows_view(rows@) == Seq::new(k as nat, |i: int| seq![sorted[i].0, sorted[i].2]),
        decreases n - k,
    {
        let j = ord[k];
        let ghost pre = rows_view(rows@);
        let p = files[j].0.clone();
        let t = files[j].2.clone();
        let ghost pv = p@;
        let ghost tv = t@;
        let row = vec![p, t];
        proof {
            assert(Seq::new(row@.len(), |m: int| row@[m]@) =~= seq![pv, tv]);
            assert(sorted[k as int] == fv[j as int]);
        }
        rows.push(row);
        proof {
            assert(rows_view(rows@) =~= pre.push(seq![pv, tv]));
            assert(ordv[k as int] == j as int);
            assert(pv == sorted[k as int].0 && tv == sorted[k as int].2);
            assert(rows_view(rows@) =~= Seq::new((k + 1) as nat, |i: int| seq![sorted[i].0, sorted[i].2]));
        }
        k += 1;
    }
    proof {
        let fs = largest(fv, limit as nat);
        if (limit as nat) < sorted.len() {
            assert(fs == sorted.take(limit as int));
        } else {
            assert(fs == sorted);
        }
        assert(rows_view(rows@) =~= Seq::new(fs.len(), |i: int| seq![fs[i].0, fs[i].2]));
    }
    if !table_ok(&rows) {
        return false;
    }
    print_sub_header(o, "Largest Tracked Files");
    let headers: Vec<&str> = vec!["File", "Size"];
    let ghost o1 = o@;
    print_table_v(o, &headers, &rows);
    proof {
        assert(headers_view(headers@) =~= seq!["File"@, "Size"@]);
        lemma_write_lines_append(o0, sub_header_lines("Largest Tracked Files"@), table_lines_v(
            seq!["File"@, "Size"@],
            rows_view(rows@),
        ));
    }
    true
}

/// A path with the time of a commit that touched it.
pub type Seen = (Seq<char>, int);

/// Every path the commits touch, with the commit's time, commit after commit.
pub open spec fn touches(cs: Seq<CommitInfo>) -> Seq<Seen>
    decreases cs.len(),
{
    if cs.len() == 0 {
        Seq::empty()
    } else {
        let c = cs.last();
        touches(cs.drop_last()) + Seq::new(c.paths@.len(), |j: int| (c.paths@[j]@, c.seconds as int))
    }
}

/// Whether the path is already among the seen ones.
pub open spec fn seen_before(t: Seq<Seen>, p: Seq<char>) -> bool {
    exists|i: int| 0 <= i < t.len() && (#[trigger] t[i]).0 == p
}

/// Each path once, with the time of the first (newest) commit that touched
/// it, in the order the paths first occur.
pub open spec fn first_seen(ts: Seq<Seen>) -> Seq<Seen>
    decreases ts.len(),
{
    if ts.len() == 0 {
        Seq::empty()
    } else {
        let t = first_seen(ts.drop_last());
        if seen_before(t, ts.last().0) {
            t
        } else {
            t.push(ts.last())
        }
    }
}

/// The paths from the oldest last change to the newest (equal times in
/// order), the first `limit` of them.
pub open spec fn stalest(t: Seq<Seen>, limit: nat) -> Seq<Seen> {
    let ord = order_by(Seq::new(t.len(), |i: int| t[i].1), false, t.len());
    top(Seq::new(t.len(), |k: int| t[ord[k]]), limit)
}

/// The table rows of the paths whose time `chrono` can place: path and day.
pub open spec fn dated_rows(t: Seq<Seen>) -> Seq<Seq<Seq<char>>>
    decreases t.len(),
{
    if t.len() == 0 {
        Seq::empty()
    } else {
        let p = dated_rows(t.drop_last());
        match utc_day_text(t.last().1) {
            Some(d) => p.push(seq![t.last().0, d]),
            None => p,
        }
    }
}

/// The stale-files rows: the `limit` paths whose last change among the
/// latest 1000 commits is oldest.
pub open spec fn stale_rows(cs: Seq<CommitInfo>, limit: nat) -> Seq<Seq<Seq<char>>> {
    dated_rows(stalest(first_seen(touches(top(cs, 1000))), limit))
}

/// The report of the stale files.
pub open spec fn stale_report(rows: Seq<Seq<Seq<char>>>) -> Seq<Seq<char>> {
    sub_header_lines("Stale Files (oldest by last modification)"@) + table_lines_v(
        seq!["File"@, "Last Modified"@],
        rows,
    )
}

/// Lists the `limit` files whose last change, within the latest 1000
/// commits, is oldest: path and day of that change, oldest first. `false`,
/// writing nothing, when a cell longer than 50 bytes cannot be cut at byte 49.
pub fn stale_files(o: &mut Output, commits: &Vec<CommitInfo>, limit: usize) -> (ok: bool)
    ensures
        ok == cells_cuttable_v(stale_rows(commits@, limit as nat)),
        ok ==> final(o)@ == write_lines(old(o)@, stale_report(stale_rows(commits@, limit as nat))),
        !ok ==> final(o)@ == old(o)@,
{
    let ghost o0 = o@;
    let n = if commits.len() > 1000 {
        1000
    } else {
        commits.len()
    };
    let ghost ws = top(commits@, 1000);
    proof {
        if commits@.len() <= 1000 {
            assert(commits@.take(n as int) =~= commits@);
        }
        assert(ws == commits@.take(n as int));
    }
    let mut seen: Vec<(String, i64)> = Vec::new();
    let mut i: usize = 0;
    proof {
        assert(ws.take(0) =~= Seq::<CommitInfo>::empty());
        assert(seen_views(seen@) =~= Seq::<Seen>::empty());
    }
    while i < n
        invariant
            i <= n,
            n <= commits@.len(),
            ws == commits@.take(n as int),
            seen_views(seen@) == first_seen(touches(ws.take(i as int))),
        decreases n - i,
    {
        proof {
            assert(ws.take(i + 1).drop_last() =~= ws.take(i as int));
            assert(ws.take(i + 1).last() == commits@[i as int]);
        }
        let ghost base = touches(ws.take(i as int));
        let ghost c = commits@[i as int];
        let ghost add = Seq::new(c.paths@.len(), |j: int| (c.paths@[j]@, c.seconds as int));
        let ps = &commits[i].paths;
        let ts = commits[i].seconds;
        let mut j: usize = 0;
        proof {
            assert(base + add.take(0) =~= base);
        }
        while j < ps.len()
            invariant
                j <= ps@.len(),
                i < n,
                n <= commits@.len(),
                c == commits@[i as int],
                ps@ == c.paths@,
                ts == c.seconds,
                add == Seq::new(c.paths@.len(), |j: int| (c.paths@[j]@, c.seconds as int)),
                seen_views(seen@) == first_seen(base + add.take(j as int)),
            decreases ps@.len() - j,
        {
            let ghost sv = seen_views(seen@);
            proof {
                assert((base + add.take(j + 1)).drop_last() =~= base + add.take(j as int));
                assert((base + add.take(j + 1)).last() == (ps@[j as int]@, ts as int));
            }
            let pc = chars_of(ps[j].as_str());
            let mut k: usize = 0;
            let mut found = false;
            while k < seen.len() && !found
                invariant
                    k <= seen@.len(),
                    sv == seen_views(seen@),
                    pc@ == ps@[j as int]@,
                    j < ps@.len(),
                    found ==> seen_before(sv, pc@),
                    !found ==> forall|m: int| 0 <= m < k ==> (#[trigger] sv[m]).0 != pc@,
                decreases seen@.len() - k + if found {
                    0int
                } else {
                    1int
                },
            {
                let sc = chars_of(seen[k].0.as_str());
                if crate::text::seq_eq(&sc, &pc) {
                    proof {
                        assert(sv[k as int].0 == pc@);
                    }
                    found = true;
                } else {
                    proof {
                        assert(sv[k as int].0 == sc@);
                    }
                    k += 1;
                }
            }
            if !found {
                seen.push((ps[j].clone(), ts));
                proof {
                    assert(!seen_before(sv, pc@));
                    assert(seen_views(seen@) =~= sv.push((pc@, ts as int)));
                }
            }
            j += 1;
        }
        proof {
            assert(add.take(ps@.len() as int) =~= add);
            assert(touches(ws.take(i + 1)) == base + add);
        }
        i += 1;
    }
    proof {
        assert(ws.take(n as int) =~= ws);
    }
    let ghost fs = first_seen(touches(ws));
    let mut keys: Vec<i128> = Vec::new();
    let mut q: usize = 0;
    while q < seen.len()
        invariant
            q <= seen@.len(),
            keys@.len() == q,
            forall|m: int| 0 <= m < q ==> #[trigger] keys@[m] as int == seen@[m].1 as int,
        decreases seen@.len() - q,
    {
        keys.push(seen[q].1 as i128);
        q += 1;
    }
    let ghost kv = Seq::new(fs.len(), |i: int| fs[i].1);
    proof {
        assert(wide_keys(keys@) =~= kv);
    }
    let ord = order_by_exec(&keys, false);
    let ghost ordv = order_by(kv, false, fs.len());
    proof {
        crate::tally::lemma_order_by(kv, false, fs.len());
    }
    let ghost sorted = Seq::new(fs.len(), |k: int| fs[ordv[k]]);
    let m = if limit < seen.len() {
        limit
    } else {
        seen.len()
    };
    let mut rows: Vec<Vec<String>> = Vec::new();
    let mut k: usize = 0;
    proof {
        assert(sorted.take(0) =~= Seq::<Seen>::empty());
        assert(rows_view(rows@) =~= Seq::<Seq<Seq<char>>>::empty());
    }
    while k < m
        invariant
            k <= m,
            m <= seen@.len(),
            ord@.len() == seen@.len(),
            fs == seen_views(seen@),
            forall|x: int| 0 <= x < ord@.len() ==> ord@[x] as int == #[trigger] ordv[x],
            forall|x: int| 0 <= x < ord@.len() ==> #[trigger] ord@[x] < seen@.len(),
            sorted == Seq::new(fs.len(), |k: int| fs[ordv[k]]),
            rows_view(rows@) == dated_rows(sorted.take(k as int)),
        decreases m - k,
    {
        let j = ord[k];
        proof {
            assert(ordv[k as int] == j as int);
            assert(sorted.take(k + 1).drop_last() =~= sorted.take(k as int));
            assert(sorted.take(k + 1).last() == fs[j as int]);
        }
        match day_text(seen[j].1) {
            Some(d) => {
                let ghost pre = rows_view(rows@);
                let p = seen[j].0.clone();
                let ghost pv = p@;
                let ghost dv = d@;
                let row = vec![p, d];
                proof {
                    assert(Seq::new(row@.len(), |x: int| row@[x]@) =~= seq![pv, dv]);
                }
                rows.push(row);
                proof {
                    assert(rows_view(rows@) =~= pre.push(seq![pv, dv]));
                }
            },
            None => {},
        }
        k += 1;
    }
    proof {
        let st = stalest(fs, limit as nat);
        if (limit as nat) < sorted.len() {
            assert(st == sorted.take(limit as int));
        } else {
            assert(sorted.take(m as int) =~= sorted);
            assert(st == sorted);
        }
    }
    if !table_ok(&rows) {
        return false;
    }
    print_sub_header(o, "Stale Files (oldest by last modification)");
    let headers: Vec<&str> = vec!["File", "Last Modified"];
    print_table_v(o, &headers, &rows);
    proof {
        assert(headers_view(headers@) =~= seq!["File"@, "Last Modified"@]);
        lemma_write_lines_append(o0, sub_header_lines("Stale Files (oldest by last modification)"@), table_lines_v(
            seq!["File"@, "Last Modified"@],
            rows_view(rows@),
        ));
    }
    true
}

/// The views of seen paths with their times.
pub open spec fn seen_views(v: Seq<(String, i64)>) -> Seq<Seen> {
    Seq::new(v.len(), |i: int| (v[i].0@, v[i].1 as int))
}

/// The commits that are not merges, in walk order.
pub open spec fn non_merges(cs: Seq<CommitInfo>) -> Seq<CommitInfo>
    decreases cs.len(),
{
    if cs.len() == 0 {
        Seq::empty()
    } else if cs.last().parents > 1 {
        non_merges(cs.drop_last())
    } else {
        non_merges(cs.drop_last()).push(cs.last())
    }
}

/// An author with the lines their commits add and remove.
pub type AuthorStat = (Seq<char>, nat, nat);

/// Whether the author already has a line.
pub open spec fn has_author(t: Seq<AuthorStat>, a: Seq<char>) -> bool {
    exists|i: int| 0 <= i < t.len() && (#[trigger] t[i]).0 == a
}

/// The line counts per author, authors in the order they first occur.
pub open spec fn author_stats(cs: Seq<CommitInfo>) -> Seq<AuthorStat>
    decreases cs.len(),
{
    if cs.len() == 0 {
        Seq::empty()
    } else {
        let t = author_stats(cs.drop_last());
        let c = cs.last();
        if has_author(t, c.author@) {
            let j = choose|j: int| 0 <= j < t.len() && (#[trigger] t[j]).0 == c.author@;
            t.update(j, (t[j].0, (t[j].1 + c.insertions) as nat, (t[j].2 + c.deletions) as nat))
        } else {
            t.push((c.author@, c.insertions as nat, c.deletions as nat))
        }
    }
}

/// The authors of the last year's work (the first 1000 commits that are not
/// merges, among those before the first one older than `cutoff`), from the
/// most lines changed to the fewest (ties in order), the first 20.
pub open spec fn ranked_authors(cs: Seq<CommitInfo>, cutoff: int) -> Seq<AuthorStat> {
    let t = author_stats(top(non_merges(recent(cs, cutoff)), 1000));
    let ord = order_by(Seq::new(t.len(), |i: int| (t[i].1 + t[i].2) as int), true, t.len());
    top(Seq::new(t.len(), |k: int| t[ord[k]]), 20)
}

/// Every author's changed lines fit in a `usize`.
pub open spec fn stats_fit(t: Seq<AuthorStat>) -> bool {
    forall|i: int| 0 <= i < t.len() ==> (#[trigger] t[i]).1 + t[i].2 <= usize::MAX
}

/// The table rows: author, lines added, lines removed, total.
pub open spec fn author_rows(t: Seq<AuthorStat>) -> Seq<Seq<Seq<char>>> {
    Seq::new(
        t.len(),
        |i: int|
            seq![
                t[i].0,
                "\x1b[32m+"@ + decimal(t[i].1) + "\x1b[0m"@,
                "\x1b[31m-"@ + decimal(t[i].2) + "\x1b[0m"@,
                decimal(t[i].1 + t[i].2),
            ],
    )
}

/// The report of lines per author.
pub open spec fn authors_report(t: Seq<AuthorStat>) -> Seq<Seq<char>> {
    sub_header_lines("Lines Added/Removed per Author (1 year, up to 1000 commits)"@) + table_lines_v(
        seq!["Author"@, "Added"@, "Removed"@, "Total"@],
        author_rows(t),
    )
}

/// The views of the wide line counts.
pub open spec fn stat_views(v: Seq<(String, u128, u128)>) -> Seq<AuthorStat> {
    Seq::new(v.len(), |i: int| (v[i].0@, v[i].1 as nat, v[i].2 as nat))
}

/// Tabulates the lines added and removed per author over the first 1000
/// commits that are not merges among those newer than `cutoff` (the walk
/// stops at the first older one): the 20 authors with the most lines
/// changed, most first. `false`, writing nothing, when an author's lines
/// exceed `usize::MAX` or a cell longer than 50 bytes cannot be cut at byte 49.
pub fn lines_per_author(o: &mut Output, commits: &Vec<CommitInfo>, cutoff: i64) -> (ok: bool)
    ensures
        ({
            let work = top(non_merges(recent(commits@, cutoff as int)), 1000);
            let rs = ranked_authors(commits@, cutoff as int);
            &&& ok == (stats_fit(author_stats(work)) && cells_cuttable_v(author_rows(rs)))
            &&& ok ==> final(o)@ == write_lines(old(o)@, authors_report(rs))
            &&& !ok ==> final(o)@ == old(o)@
        }),
{
    let ghost o0 = o@;
    let n = recent_len(commits, cutoff);
    proof {
        lemma_recent_end(commits@, cutoff as int, 0);
    }
    let ghost rc = recent(commits@, cutoff as int);
    let mut work: Vec<usize> = Vec::new();
    let mut i: usize = 0;
    proof {
        assert(rc.take(0) =~= Seq::<CommitInfo>::empty());
    }
    while i < n
        invariant
            i <= n,
            n <= commits@.len(),
            rc == commits@.take(n as int),
            work@.len() <= 1000,
            forall|k: int| 0 <= k < work@.len() ==> #[trigger] work@[k] < commits@.len(),
            Seq::new(work@.len(), |k: int| commits@[work@[k] as int]) == top(non_merges(rc.take(i as int)), 1000),
        decreases n - i,
    {
        proof {
            assert(rc.take(i + 1).drop_last() =~= rc.take(i as int));
            assert(rc.take(i + 1).last() == commits@[i as int]);
        }
        let ghost prev = non_merges(rc.take(i as int));
        if commits[i].parents <= 1 && work.len() < 1000 {
            let ghost pw = work@;
            work.push(i);
            proof {
                assert(Seq::new(work@.len(), |k: int| commits@[work@[k] as int]) =~= Seq::new(
                    pw.len(),
                    |k: int| commits@[pw[k] as int],
                ).push(commits@[i as int]));
                assert(non_merges(rc.take(i + 1)) == prev.push(commits@[i as int]));
                if prev.len() < 1000 {
                    assert(top(prev, 1000) == prev);
                    assert(top(prev.push(commits@[i as int]), 1000) == prev.push(commits@[i as int]));
                }
            }
        } else {
            proof {
                if commits@[i as int].parents <= 1 {
                    assert(non_merges(rc.take(i + 1)) == prev.push(commits@[i as int]));
                    assert(top(prev.push(commits@[i as int]), 1000) =~= top(prev, 1000));
                }
            }
        }
        i += 1;
    }
    proof {
        assert(rc.take(n as int) =~= rc);
    }
    let ghost ws = top(non_merges(rc), 1000);
    let mut stats: Vec<(String, u128, u128)> = Vec::new();
    let mut w: usize = 0;
    proof {
        assert(ws.take(0) =~= Seq::<CommitInfo>::empty());
        assert(stat_views(stats@) =~= Seq::<AuthorStat>::empty());
    }
    while w < work.len()
        invariant
            w <= work@.len(),
            work@.len() <= 1000,
            forall|k: int| 0 <= k < work@.len() ==> #[trigger] work@[k] < commits@.len(),
            Seq::new(work@.len(), |k: int| commits@[work@[k] as int]) == ws,
            stat_views(stats@) == author_stats(ws.take(w as int)),
            forall|k: int|
                0 <= k < stats@.len() ==> (#[trigger] stats@[k]).1 <= w * 0x1_0000_0000_0000_0000 && stats@[k].2
                    <= w * 0x1_0000_0000_0000_0000,
        decreases work@.len() - w,
    {
        let c = &commits[work[w]];
        proof {
            assert(ws.take(w + 1).drop_last() =~= ws.take(w as int));
            assert(ws.take(w + 1).last() == *c);
        }
        let ghost t = stat_views(stats@);
        let ac = chars_of(c.author.as_str());
        let mut k: usize = 0;
        let mut found = false;
        while k < stats.len() && !found
            invariant
                k <= stats@.len(),
                t == stat_views(stats@),
                ac@ == c.author@,
                found ==> k < stats@.len() && t[k as int].0 == ac@,
                !found ==> forall|m: int| 0 <= m < k ==> (#[trigger] t[m]).0 != ac@,
            decreases stats@.len() - k + if found {
                0int
            } else {
                1int
            },
        {
            let sc = chars_of(stats[k].0.as_str());
            proof {
                assert(t[k as int].0 == sc@);
            }
            if crate::text::seq_eq(&sc, &ac) {
                found = true;
            } else {
                k += 1;
            }
        }
        proof {
            assert(w * 0x1_0000_0000_0000_0000 + 0x1_0000_0000_0000_0000 == (w + 1) * 0x1_0000_0000_0000_0000)
                by (nonlinear_arith);
            assert((w + 1) * 0x1_0000_0000_0000_0000 <= 1000 * 0x1_0000_0000_0000_0000) by (nonlinear_arith)
                requires
                    w < 1000,
            ;
        }
        if found {
            proof {
                lemma_author_unique(ws.take(w as int));
                assert(has_author(t, c.author@));
            }
            let name = stats[k].0.clone();
            let a = stats[k].1 + c.insertions as u128;
            let d = stats[k].2 + c.deletions as u128;
            stats.set(k, (name, a, d));
            proof {
                let j = choose|j: int| 0 <= j < t.len() && (#[trigger] t[j]).0 == c.author@;
                assert(j == k);
                assert(stat_views(stats@) =~= t.update(j, (t[j].0, (t[j].1 + c.insertions) as nat, (t[j].2 + c.deletions) as nat)));
            }
        } else {
            proof {
                assert(!has_author(t, c.author@));
            }
            stats.push((c.author.clone(), c.insertions as u128, c.deletions as u128));
            proof {
                assert(stat_views(stats@) =~= t.push((c.author@, c.insertions as nat, c.deletions as nat)));
            }
        }
        w += 1;
    }
    proof {
        assert(ws.take(work@.len() as int) =~= ws);
    }
    let ghost t = author_stats(ws);
    let mut keys: Vec<i128> = Vec::new();
    let mut q: usize = 0;
    while q < stats.len()
        invariant
            q <= stats@.len(),
            t == stat_views(stats@),
            o@ == o0,
            t == author_stats(top(non_merges(recent(commits@, cutoff as int)), 1000)),
            keys@.len() == q,
            forall|m: int| 0 <= m < q ==> #[trigger] keys@[m] as int == t[m].1 + t[m].2,
            forall|m: int| 0 <= m < q ==> (#[trigger] t[m]).1 + t[m].2 <= usize::MAX,
            forall|k: int|
                0 <= k < stats@.len() ==> (#[trigger] stats@[k]).1 <= 1000 * 0x1_0000_0000_0000_0000 && stats@[k].2
                    <= 1000 * 0x1_0000_0000_0000_0000,
        decreases stats@.len() - q,
    {
        if stats[q].1 + stats[q].2 > (usize::MAX as u128) {
            proof {
                assert(!stats_fit(t)) by {
                    assert(t[q as int].1 + t[q as int].2 > usize::MAX);
                }
            }
            return false;
        }
        keys.push((stats[q].1 + stats[q].2) as i128);
        q += 1;
    }
    let ghost kv = Seq::new(t.len(), |i: int| (t[i].1 + t[i].2) as int);
    proof {
        assert(wide_keys(keys@) =~= kv);
        assert(stats_fit(t));
    }
    let ord = order_by_exec(&keys, true);
    let ghost ordv = order_by(kv, true, t.len());
    proof {
        crate::tally::lemma_order_by(kv, true, t.len());
    }
    let ghost sorted = Seq::new(t.len(), |k: int| t[ordv[k]]);
    let m = if stats.len() > 20 {
        20
    } else {
        stats.len()
    };
    let mut rows: Vec<Vec<String>> = Vec::new();
    let mut k: usize = 0;
    proof {
        assert(rows_view(rows@) =~= author_rows(sorted.take(0)));
    }
    while k < m
        invariant
            k <= m,
            m <= stats@.len(),
            ord@.len() == stats@.len(),
            t == stat_views(stats@),
            stats_fit(t),
            forall|x: int| 0 <= x < ord@.len() ==> ord@[x] as int == #[trigger] ordv[x],
            forall|x: int| 0 <= x < ord@.len() ==> #[trigger] ord@[x] < stats@.len(),
            sorted == Seq::new(t.len(), |k: int| t[ordv[k]]),
            rows_view(rows@) == author_rows(sorted.take(k as int)),
        decreases m - k,
    {
        let j = ord[k];
        proof {
            assert(ordv[k as int] == j as int);
            assert(sorted[k as int] == t[j as int]);
            assert(t[j as int].1 + t[j as int].2 <= usize::MAX);
        }
        let a = stats[j].1 as usize;
        let d = stats[j].2 as usize;
        let name = stats[j].0.clone();
        let mut c1: Vec<char> = Vec::new();
        extend_str(&mut c1, "\x1b[32m+");
        extend(&mut c1, &decimal_exec(a));
        extend_str(&mut c1, "\x1b[0m");
        let mut c2: Vec<char> = Vec::new();
        extend_str(&mut c2, "\x1b[31m-");
        extend(&mut c2, &decimal_exec(d));
        extend_str(&mut c2, "\x1b[0m");
        let c3 = decimal_exec(a + d);
        let ghost pre = rows_view(rows@);
        let ghost cells = seq![name@, c1@, c2@, c3@];
        let row = vec![name, string_of(&c1), string_of(&c2), string_of(&c3)];
        proof {
            assert(Seq::new(row@.len(), |x: int| row@[x]@) =~= cells);
        }
        rows.push(row);
        proof {
            assert(rows_view(rows@) =~= pre.push(cells));
            assert(author_rows(sorted.take(k + 1)) =~= author_rows(sorted.take(k as int)).push(cells));
        }
        k += 1;
    }
    proof {
        let rs = ranked_authors(commits@, cutoff as int);
        if 20 < sorted.len() {
            assert(rs == sorted.take(20));
        } else {
            assert(sorted.take(m as int) =~= sorted);
            assert(rs == sorted);
        }
    }
    if !table_ok(&rows) {
        return false;
    }
    print_sub_header(o, "Lines Added/Removed per Author (1 year, up to 1000 commits)");
    let headers: Vec<&str> = vec!["Author", "Added", "Removed", "Total"];
    print_table_v(o, &headers, &rows);
    proof {
        assert(headers_view(headers@) =~= seq!["Author"@, "Added"@, "Removed"@, "Total"@]);
        lemma_write_lines_append(
            o0,
            sub_header_lines("Lines Added/Removed per Author (1 year, up to 1000 commits)"@),
            table_lines_v(seq!["Author"@, "Added"@, "Removed"@, "Total"@], rows_view(rows@)),
        );
    }
    true
}

/// No author has two lines.
proof fn lemma_author_unique(cs: Seq<CommitInfo>)
    ensures
        forall|i: int, j: int|
            0 <= i < j < author_stats(cs).len() ==> (#[trigger] author_stats(cs)[i]).0 != (
            #[trigger] author_stats(cs)[j]).0,
    decreases cs.len(),
{
    if cs.len() > 0 {
        lemma_author_unique(cs.drop_last());
        let t = author_stats(cs.drop_last());
        let c = cs.last();
        if has_author(t, c.author@) {
            let j = choose|j: int| 0 <= j < t.len() && (#[trigger] t[j]).0 == c.author@;
            let r = author_stats(cs);
            assert forall|a: int, b: int| 0 <= a < b < r.len() implies (#[trigger] r[a]).0 != (#[trigger] r[b]).0 by {
                assert(r[a].0 == t[a].0 && r[b].0 == t[b].0);
            }
        }
    }
}

} // verus!
