use codejourney::analytics::{
    activity_by_day_of_week, activity_by_hour, bug_fix_files, code_churn, commit_frequency_by_month,
    commits_per_day, emergency_commits, largest_tracked_files, lines_per_author, merge_frequency,
    most_changed_files, recent_len, repo_overview, stale_files, top_contributors, CommitInfo,
};
use codejourney::calendar::month_key_of;
use codejourney::display::{
    chart_printable, flush_buffer, out, print_bar_chart, print_direct, print_info, print_ok,
    print_section_header, print_sparkline, print_sub_header, print_summary_stat, print_table, print_warning,
    sparkline_printable, start_buffering, table_printable, Output,
};
use codejourney::scan::{run_step, section_header};
use codejourney::tally::{order_by_exec, rank_by_count, sort_by_key_exec, tally_keys, top_keys};

fn commit(id: &str, seconds: i64, parents: usize, author: &str, message: &str, paths: &[&str]) -> CommitInfo {
    CommitInfo {
        id: id.to_string(),
        seconds,
        offset_minutes: 0,
        parents,
        author: author.to_string(),
        message: message.to_string(),
        paths: paths.iter().map(|p| p.to_string()).collect(),
        insertions: 0,
        deletions: 0,
    }
}

fn pairs(v: &[(&str, usize)]) -> Vec<(String, usize)> {
    v.iter().map(|(k, n)| (k.to_string(), *n)).collect()
}

fn bars(n: usize) -> String {
    "█".repeat(n)
}

const SUB_RULE: &str = "  ──────────────────────────────────────────────────";

#[test]
fn lines_go_to_terminal_without_buffer() {
    let mut o = Output::new();
    out(&mut o, "hello");
    out(&mut o, "world");
    assert_eq!(o.printed, vec!["hello".to_string(), "world".to_string()]);
    assert!(o.buffer.is_none());
}

#[test]
fn buffering_collects_lines_and_flush_ends_it() {
    let mut o = Output::new();
    out(&mut o, "before");
    start_buffering(&mut o);
    out(&mut o, "a");
    out(&mut o, "b");
    let text = flush_buffer(&mut o);
    assert_eq!(text, "a\nb\n");
    assert_eq!(o.printed, vec!["before".to_string()]);
    assert!(o.buffer.is_none());
    assert_eq!(flush_buffer(&mut o), "");
}

#[test]
fn direct_print_bypasses_the_buffer() {
    let mut o = Output::new();
    start_buffering(&mut o);
    out(&mut o, "kept");
    print_direct(&mut o, "");
    assert_eq!(o.printed, vec!["".to_string()]);
    assert_eq!(flush_buffer(&mut o), "kept\n");
}

#[test]
fn header_and_message_lines() {
    let mut o = Output::new();
    print_sub_header(&mut o, "Title");
    print_summary_stat(&mut o, "Files", "3");
    print_warning(&mut o, "bad");
    print_ok(&mut o, "good");
    print_info(&mut o, "note");
    assert_eq!(
        o.printed,
        vec![
            "\n  \x1b[1;33m▸ Title\x1b[0m".to_string(),
            SUB_RULE.to_string(),
            "    \x1b[1mFiles:\x1b[0m 3".to_string(),
            "    \x1b[1;31m⚠  bad\x1b[0m".to_string(),
            "    \x1b[1;32m✓  good\x1b[0m".to_string(),
            "    \x1b[2mnote\x1b[0m".to_string(),
        ]
    );
}

#[test]
fn section_header_text_matches_printed_header() {
    let text = section_header("AUDIT");
    let line = "═".repeat(60);
    let expected = format!(
        "\n\x1b[1;36m╔{line}╗\x1b[0m\n\x1b[1;36m║\x1b[0m \x1b[1;37m{:<58}\x1b[0m \x1b[1;36m║\x1b[0m\n\x1b[1;36m╚{line}╝\x1b[0m\n",
        "AUDIT"
    );
    assert_eq!(text, expected);
    let mut o = Output::new();
    start_buffering(&mut o);
    print_section_header(&mut o, "AUDIT");
    assert_eq!(flush_buffer(&mut o), text);
    assert!(o.printed.is_empty());
}

#[test]
fn section_header_pads_by_characters() {
    let text = section_header("ÄÖ");
    assert!(text.contains(&format!("\x1b[1;37m{:<58}\x1b[0m", "ÄÖ")));
}

#[test]
fn run_step_returns_what_the_step_buffered() {
    let mut o = Output::new();
    out(&mut o, "banner");
    let (text, res) = run_step(&mut o, |mut x: Output| {
        out(&mut x, "inside");
        (x, Ok(()))
    });
    assert_eq!(text, "inside\n");
    assert!(res.is_ok());
    assert_eq!(o.printed, vec!["banner".to_string()]);
    assert!(o.buffer.is_none());
}

#[test]
fn run_step_passes_the_error_on() {
    let mut o = Output::new();
    let (text, res) = run_step(&mut o, |x: Output| (x, Err("no repo".to_string())));
    assert_eq!(text, "");
    assert_eq!(res, Err("no repo".to_string()));
}

#[test]
fn bar_chart_scales_to_the_largest_value() {
    let mut o = Output::new();
    let items = pairs(&[("a", 2), ("bb", 4)]);
    assert!(chart_printable(&items));
    print_bar_chart(&mut o, &items, "C");
    assert_eq!(
        o.printed,
        vec![
            format!("    a  C{}\x1b[0m 2", bars(20)),
            format!("    bb C{}\x1b[0m 4", bars(40)),
        ]
    );
}

#[test]
fn bar_chart_without_items_says_no_data() {
    let mut o = Output::new();
    print_bar_chart(&mut o, &[], "C");
    assert_eq!(o.printed, vec!["    \x1b[2m(no data)\x1b[0m".to_string()]);
}

#[test]
fn bar_chart_cuts_long_labels() {
    let mut o = Output::new();
    let label = "abcdefghijklmnopqrstuvwxyz0123456789";
    let items = vec![(label.to_string(), 0usize)];
    print_bar_chart(&mut o, &items, "");
    assert_eq!(o.printed, vec![format!("    {}… \x1b[0m 0", &label[..29])]);
}

#[test]
fn chart_with_label_not_cuttable_is_refused() {
    let label = format!("{}é", "a".repeat(28));
    let items = vec![(format!("{label}xyz"), 1usize)];
    assert!(!chart_printable(&items));
}

#[test]
fn sparkline_levels_and_labels() {
    let mut o = Output::new();
    let data = pairs(&[("2024-01", 0), ("2024-02", 7), ("2024-03", 14)]);
    assert!(sparkline_printable(&data));
    print_sparkline(&mut o, &data);
    assert_eq!(
        o.printed,
        vec!["    \x1b[32m ▁  ▄  █ \x1b[0m".to_string(), "    \x1b[2m202 202 202 \x1b[0m".to_string()]
    );
}

#[test]
fn table_pads_columns() {
    let mut o = Output::new();
    let rows = vec![vec!["x".to_string(), "long cell".to_string()]];
    assert!(table_printable(&rows));
    print_table(&mut o, &["Key", "Value"], &rows);
    assert_eq!(
        o.printed,
        vec![
            "    \x1b[1mKey\x1b[0m  \x1b[1mValue    \x1b[0m  ".to_string(),
            format!("    {}──{}", "─".repeat(3), "─".repeat(9)),
            "    x    long cell  ".to_string(),
        ]
    );
}

#[test]
fn tally_counts_in_first_appearance_order() {
    let keys: Vec<String> = ["b", "a", "b", "c", "b", "a"].iter().map(|s| s.to_string()).collect();
    let t = tally_keys(&keys);
    assert_eq!(t, pairs(&[("b", 3), ("a", 2), ("c", 1)]));
    let total: usize = t.iter().map(|(_, n)| *n).sum();
    assert_eq!(total, keys.len());
}

#[test]
fn ranking_is_stable_and_descending() {
    let items = pairs(&[("x", 1), ("y", 3), ("z", 1), ("w", 3)]);
    let r = rank_by_count(&items);
    assert_eq!(r, pairs(&[("y", 3), ("w", 3), ("x", 1), ("z", 1)]));
}

#[test]
fn top_keys_truncates() {
    let keys: Vec<String> = ["p", "q", "q", "r", "r", "r"].iter().map(|s| s.to_string()).collect();
    assert_eq!(top_keys(&keys, 2), pairs(&[("r", 3), ("q", 2)]));
    assert_eq!(top_keys(&keys, 10).len(), 3);
}

#[test]
fn sorting_by_key_orders_months() {
    let items = pairs(&[("2024-03", 1), ("2023-12", 2), ("2024-01", 5)]);
    assert_eq!(sort_by_key_exec(&items), pairs(&[("2023-12", 2), ("2024-01", 5), ("2024-03", 1)]));
}

#[test]
fn order_by_keys_both_ways() {
    let keys: Vec<i128> = vec![5, -1, 5, 2];
    assert_eq!(order_by_exec(&keys, true), vec![0, 2, 3, 1]);
    assert_eq!(order_by_exec(&keys, false), vec![1, 3, 0, 2]);
}

#[test]
fn month_keys_come_from_utc_dates() {
    assert_eq!(month_key_of(0), Some("1970-01".to_string()));
    assert_eq!(month_key_of(1_431_648_000), Some("2015-05".to_string()));
    assert_eq!(month_key_of(-1), Some("1969-12".to_string()));
    assert_eq!(month_key_of(i64::MAX), None);
}

#[test]
fn recent_commits_stop_at_the_first_old_one() {
    let cs = vec![
        commit("a", 300, 1, "x", "", &[]),
        commit("b", 200, 1, "x", "", &[]),
        commit("c", 50, 1, "x", "", &[]),
        commit("d", 250, 1, "x", "", &[]),
    ];
    assert_eq!(recent_len(&cs, 100), 2);
    assert_eq!(recent_len(&cs, 0), 4);
}

#[test]
fn most_changed_files_charts_recent_paths() {
    let cs = vec![
        commit("a", 300, 1, "x", "", &["src/a.rs", "src/b.rs"]),
        commit("b", 200, 1, "x", "", &["src/a.rs"]),
        commit("c", 50, 1, "x", "", &["src/b.rs", "src/b.rs"]),
    ];
    let mut o = Output::new();
    assert!(most_changed_files(&mut o, &cs, 100, 10));
    assert_eq!(o.printed[0], "\n  \x1b[1;33m▸ Most Frequently Changed Files (1 year)\x1b[0m");
    assert_eq!(o.printed[2], format!("    src/a.rs \x1b[34m{}\x1b[0m 2", bars(40)));
    assert_eq!(o.printed[3], format!("    src/b.rs \x1b[34m{}\x1b[0m 1", bars(20)));
    assert_eq!(o.printed.len(), 4);
}

#[test]
fn code_churn_counts_every_commit() {
    let cs = vec![commit("a", 1, 1, "x", "", &["f"]), commit("b", 2, 1, "x", "", &["f", "g"])];
    let mut o = Output::new();
    assert!(code_churn(&mut o, &cs, 1));
    assert_eq!(o.printed.len(), 3);
    assert_eq!(o.printed[2], format!("    f \x1b[33m{}\x1b[0m 2", bars(40)));
}

#[test]
fn top_contributors_leave_out_merges() {
    let cs = vec![
        commit("a", 1, 1, "ann", "", &[]),
        commit("b", 1, 2, "bob", "", &[]),
        commit("c", 1, 1, "bob", "", &[]),
        commit("d", 1, 0, "ann", "", &[]),
    ];
    let mut o = Output::new();
    assert!(top_contributors(&mut o, &cs));
    assert_eq!(o.printed[2], format!("    ann \x1b[32m{}\x1b[0m 2", bars(40)));
    assert_eq!(o.printed[3], format!("    bob \x1b[32m{}\x1b[0m 1", bars(20)));
}

#[test]
fn bug_fix_files_follow_matching_messages() {
    let cs = vec![
        commit("a", 1, 1, "x", "Fix crash", &["a.rs"]),
        commit("b", 1, 1, "x", "add feature", &["b.rs"]),
        commit("c", 1, 1, "x", "BROKEN build", &["a.rs", "c.rs"]),
    ];
    let mut o = Output::new();
    assert!(bug_fix_files(&mut o, &cs, 5));
    assert_eq!(o.printed.len(), 4);
    assert_eq!(o.printed[2], format!("    a.rs \x1b[31m{}\x1b[0m 2", bars(40)));
    assert_eq!(o.printed[3], format!("    c.rs \x1b[31m{}\x1b[0m 1", bars(20)));
}

#[test]
fn month_frequency_with_few_months_is_one_chart() {
    let cs = vec![commit("a", 1_431_648_000, 1, "x", "", &[]), commit("b", 0, 1, "x", "", &[])];
    let mut o = Output::new();
    assert!(commit_frequency_by_month(&mut o, &cs));
    assert_eq!(o.printed.len(), 4);
    assert_eq!(o.printed[2], format!("    1970-01 \x1b[35m{}\x1b[0m 1", bars(40)));
    assert_eq!(o.printed[3], format!("    2015-05 \x1b[35m{}\x1b[0m 1", bars(40)));
}

#[test]
fn month_frequency_with_many_months_adds_a_sparkline() {
    let month = 31 * 24 * 3600;
    let cs: Vec<CommitInfo> = (0..13).map(|i| commit("a", i * month, 1, "x", "", &[])).collect();
    let mut o = Output::new();
    start_buffering(&mut o);
    assert!(commit_frequency_by_month(&mut o, &cs));
    assert_eq!(o.printed, vec!["".to_string()]);
    let text = flush_buffer(&mut o);
    assert_eq!(text.lines().count(), 2 + 2 + 13 + 1);
}

#[test]
fn merge_frequency_without_merges_says_so() {
    let cs = vec![commit("a", 10, 1, "x", "", &[])];
    let mut o = Output::new();
    assert!(merge_frequency(&mut o, &cs, 0));
    assert_eq!(o.printed[2], "    \x1b[2mNo merge commits found in the last year\x1b[0m");
}

#[test]
fn merge_frequency_counts_recent_merges() {
    let cs = vec![commit("a", 10, 2, "x", "", &[]), commit("b", 5, 3, "x", "", &[]), commit("c", 0, 2, "x", "", &[])];
    let mut o = Output::new();
    assert!(merge_frequency(&mut o, &cs, 5));
    assert_eq!(o.printed.len(), 3);
    assert_eq!(o.printed[2], format!("    1970-01 \x1b[34m{}\x1b[0m 2", bars(40)));
}

#[test]
fn weekday_activity_has_seven_rows() {
    // 1970-01-01 was a Thursday.
    let cs = vec![commit("a", 0, 1, "x", "", &[]), commit("b", 86400, 1, "x", "", &[])];
    let mut o = Output::new();
    assert!(activity_by_day_of_week(&mut o, &cs));
    assert_eq!(o.printed.len(), 9);
    assert_eq!(o.printed[2], "    Mon \x1b[36m\x1b[0m 0");
    assert_eq!(o.printed[5], format!("    Thu \x1b[36m{}\x1b[0m 1", bars(40)));
    assert_eq!(o.printed[6], format!("    Fri \x1b[36m{}\x1b[0m 1", bars(40)));
}

#[test]
fn hour_activity_uses_the_committer_clock() {
    let mut c = commit("a", 3600, 1, "x", "", &[]);
    c.offset_minutes = 120;
    let mut o = Output::new();
    assert!(activity_by_hour(&mut o, &vec![c]));
    assert_eq!(o.printed.len(), 26);
    assert_eq!(o.printed[2], "    00:00 \x1b[35m\x1b[0m 0");
    assert_eq!(o.printed[5], format!("    03:00 \x1b[35m{}\x1b[0m 1", bars(40)));
}

#[test]
fn velocity_uses_the_given_averages() {
    let cs = vec![commit("a", 10, 1, "x", "", &[]), commit("b", 9, 1, "x", "", &[])];
    let mut o = Output::new();
    commits_per_day(&mut o, &cs, 0, |n| (format!("{:.1}", n as f64 / 365.0), format!("{:.1}", n as f64 / 365.0 * 7.0)));
    assert_eq!(o.printed[2], "    \x1b[1mTotal commits (last year):\x1b[0m 2");
    assert_eq!(o.printed[3], "    \x1b[1mAverage per day:\x1b[0m 0.0");
    assert_eq!(o.printed[4], "    \x1b[1mAverage per week:\x1b[0m 0.0");
}

#[test]
fn overview_reports_dates_and_span() {
    let cs = vec![commit("a", 2 * 86400 + 60, 1, "x", "", &[]), commit("b", 0, 1, "x", "", &[])];
    let mut o = Output::new();
    repo_overview(&mut o, &cs, 3, 1);
    assert_eq!(
        o.printed[2..].to_vec(),
        vec![
            "    \x1b[1mTotal commits:\x1b[0m 2".to_string(),
            "    \x1b[1mBranches:\x1b[0m 3".to_string(),
            "    \x1b[1mTags:\x1b[0m 1".to_string(),
            "    \x1b[1mFirst commit:\x1b[0m 1970-01-01 00:00".to_string(),
            "    \x1b[1mLast commit:\x1b[0m 1970-01-03 00:01".to_string(),
            "    \x1b[1mActive span:\x1b[0m 2 days".to_string(),
        ]
    );
}

#[test]
fn overview_of_an_empty_history() {
    let mut o = Output::new();
    repo_overview(&mut o, &vec![], 0, 0);
    assert_eq!(o.printed.len(), 5);
}

#[test]
fn emergency_commits_list_short_ids() {
    let long = "r".repeat(70);
    let cs = vec![
        commit("0123456789abcdef", 20, 1, "x", "  Revert \"thing\"  \n", &[]),
        commit("fedcba9876543210", 20, 1, "x", "normal", &[]),
        commit("aaaaaaaaaaaaaaaa", 20, 1, "x", &format!("hotfix {long}"), &[]),
    ];
    let mut o = Output::new();
    assert!(emergency_commits(&mut o, &cs, 10));
    assert_eq!(o.printed[2], "    \x1b[1;31m⚠  Found 2 emergency-type commits:\x1b[0m");
    assert!(o.printed[5].starts_with("    0123456  Revert \"thing\""));
    assert!(o.printed[6].starts_with("    aaaaaaa  hotfix rrr"));
}

#[test]
fn emergency_commits_none_found() {
    let cs = vec![commit("0123456789", 20, 1, "x", "feature", &[])];
    let mut o = Output::new();
    assert!(emergency_commits(&mut o, &cs, 10));
    assert_eq!(o.printed[2], "    \x1b[1;32m✓  No revert/hotfix/emergency commits found in the last year\x1b[0m");
}

#[test]
fn emergency_commit_with_short_id_is_refused() {
    let cs = vec![commit("abc", 20, 1, "x", "revert", &[])];
    let mut o = Output::new();
    assert!(!emergency_commits(&mut o, &cs, 10));
    assert!(o.printed.is_empty());
}

#[test]
fn largest_files_sorted_by_size() {
    let files = vec![
        ("a.txt".to_string(), 10usize, "10 B".to_string()),
        ("b.bin".to_string(), 5000usize, "4.9 KB".to_string()),
        ("c.txt".to_string(), 10usize, "10 B".to_string()),
    ];
    let mut o = Output::new();
    assert!(largest_tracked_files(&mut o, &files, 2));
    assert_eq!(o.printed.len(), 6);
    assert!(o.printed[4].starts_with("    b.bin  4.9 KB"));
    assert!(o.printed[5].starts_with("    a.txt  10 B"));
}

#[test]
fn stale_files_keep_the_newest_touch() {
    let cs = vec![
        commit("a", 2 * 86400, 1, "x", "", &["new.rs", "old.rs"]),
        commit("b", 0, 1, "x", "", &["old.rs", "older.rs"]),
    ];
    let mut o = Output::new();
    assert!(stale_files(&mut o, &cs, 10));
    assert_eq!(o.printed.len(), 7);
    assert!(o.printed[4].starts_with("    older.rs  1970-01-01"));
    assert!(o.printed[5].starts_with("    new.rs    1970-01-03"));
    assert!(o.printed[6].starts_with("    old.rs    1970-01-03"));
}

#[test]
fn lines_per_author_sums_and_ranks() {
    let mut a = commit("a", 10, 1, "ann", "", &[]);
    a.insertions = 5;
    a.deletions = 1;
    let mut b = commit("b", 10, 1, "bob", "", &[]);
    b.insertions = 10;
    b.deletions = 10;
    let mut c = commit("c", 10, 1, "ann", "", &[]);
    c.insertions = 1;
    c.deletions = 0;
    let mut m = commit("d", 10, 2, "ann", "", &[]);
    m.insertions = 100;
    let mut o = Output::new();
    assert!(lines_per_author(&mut o, &vec![a, b, c, m], 0));
    assert_eq!(o.printed.len(), 6);
    assert!(o.printed[4].starts_with("    bob     \x1b[32m+10\x1b[0m"));
    assert!(o.printed[4].trim_end().ends_with("20"));
    assert!(o.printed[5].starts_with("    ann     \x1b[32m+6\x1b[0m "));
    assert!(o.printed[5].trim_end().ends_with("7"));
}

#[test]
fn lines_per_author_refuses_totals_past_usize() {
    let mut a = commit("a", 10, 1, "ann", "", &[]);
    a.insertions = usize::MAX;
    a.deletions = 1;
    let mut o = Output::new();
    assert!(!lines_per_author(&mut o, &vec![a], 0));
    assert!(o.printed.is_empty());
}

#[test]
fn flush_returns_every_buffered_line() {
    let mut o = Output::new();
    start_buffering(&mut o);
    out(&mut o, "one");
    out(&mut o, "two");
    out(&mut o, "three");
    assert_eq!(flush_buffer(&mut o), "one\ntwo\nthree\n");
    assert!(o.printed.is_empty());
    assert_eq!(flush_buffer(&mut o), "");
    out(&mut o, "after");
    assert_eq!(o.printed, vec!["after".to_string()]);
}
