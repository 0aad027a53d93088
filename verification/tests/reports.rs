use codejourney::display::{
    print_bar_chart, print_ok, print_section_header, print_sub_header, print_summary_stat, print_table,
    print_warning, start_buffering, flush_buffer, Output,
};
use codejourney::report::{
    detect_column_positions, html_escape, parse_bar_chart_line, parse_report, parse_sections, parse_stat_line,
    parse_table_columns, split_by_positions, strip_ansi, Element, Finding,
};
use codejourney::html::{html_report_body, SECTION_END, SECTION_OPEN, SECTION_TITLE_END};
use codejourney::tree::is_skipped;
use codejourney::value::{get_field, get_keys_exec, get_str_exec, keys_of, str_of, DocValue};

fn strings(v: &[&str]) -> Vec<String> {
    v.iter().map(|s| s.to_string()).collect()
}

#[test]
fn bar_chart_line_parses_label_and_value() {
    assert_eq!(parse_bar_chart_line("src/main.rs ██████ 42"), Some(("src/main.rs".to_string(), 42)));
    assert_eq!(parse_bar_chart_line("lone █ x"), None);
    assert_eq!(parse_bar_chart_line("no bar 3"), None);
}

#[test]
fn stat_line_needs_label_and_value() {
    assert_eq!(parse_stat_line("Files: 3"), Some(("Files".to_string(), "3".to_string())));
    assert_eq!(parse_stat_line("Files:"), None);
    assert_eq!(parse_stat_line("src/a.rs: 3"), None);
    assert_eq!(parse_stat_line("v1.0: x"), None);
    assert_eq!(parse_stat_line("Rule: ──"), None);
    assert_eq!(parse_stat_line(&format!("{}: 1", "L".repeat(41))), None);
}

#[test]
fn table_columns_and_positions() {
    assert_eq!(parse_table_columns("File    Function  Line"), strings(&["File", "Function", "Line"]));
    assert_eq!(parse_table_columns("File  Last Modified"), strings(&["File", "Last Modified"]));
    assert_eq!(parse_table_columns("  A b  C  "), strings(&["A b", "C"]));
    assert_eq!(detect_column_positions("File    Function  Line"), vec![0, 8, 18]);
    assert_eq!(detect_column_positions("Two words  Next"), vec![0, 11]);
    assert_eq!(
        split_by_positions("a.rs    main      L3", &[0, 8, 18], 3),
        strings(&["a.rs", "main", "L3"])
    );
    assert_eq!(split_by_positions("x y", &[0], 1), strings(&["x", "y"]));
    assert_eq!(split_by_positions("ab", &[0, 5], 2), strings(&["ab", ""]));
}

#[test]
fn html_escape_replaces_markup_characters() {
    assert_eq!(html_escape("<a href=\"x\">&</a>"), "&lt;a href=&quot;x&quot;&gt;&amp;&lt;/a&gt;");
    assert_eq!(html_escape("plain"), "plain");
}

#[test]
fn strip_ansi_removes_color_codes() {
    assert_eq!(strip_ansi("\x1b[1;31mred\x1b[0m and \x1b[2mdim\x1b[0m"), "red and dim");
    assert_eq!(strip_ansi("none"), "none");
}

#[test]
fn report_round_trip_through_the_parser() {
    let mut o = Output::new();
    start_buffering(&mut o);
    print_section_header(&mut o, "SECURITY AUDIT");
    print_sub_header(&mut o, "Secrets");
    print_summary_stat(&mut o, "Files scanned", "12");
    print_warning(&mut o, "2 secrets found");
    print_ok(&mut o, "No IPs");
    print_bar_chart(&mut o, &[("a.rs".to_string(), 4), ("b.rs".to_string(), 2)], "\x1b[34m");
    print_table(&mut o, &["Rule", "File"], &[vec!["aws-key".to_string(), "src/x.rs".to_string()]]);
    let text = flush_buffer(&mut o);
    let elems = parse_report(&text).expect("report parses");
    assert_eq!(elems.len(), 7);
    match &elems[0] {
        Element::SectionHeader(t) => assert_eq!(t, "SECURITY AUDIT"),
        _ => panic!("section header expected"),
    }
    match &elems[1] {
        Element::SubHeader(t) => assert_eq!(t, "Secrets"),
        _ => panic!("sub-header expected"),
    }
    match &elems[2] {
        Element::Stat(l, v) => {
            assert_eq!(l, "Files scanned");
            assert_eq!(v, "12");
        },
        _ => panic!("stat expected"),
    }
    match &elems[3] {
        Element::Warning(m) => assert_eq!(m, "2 secrets found"),
        _ => panic!("warning expected"),
    }
    match &elems[4] {
        Element::Passed(m) => assert_eq!(m, "No IPs"),
        _ => panic!("ok expected"),
    }
    match &elems[5] {
        Element::BarChart(items) => {
            assert_eq!(items, &vec![("a.rs".to_string(), 4), ("b.rs".to_string(), 2)]);
        },
        _ => panic!("chart expected"),
    }
    match &elems[6] {
        Element::Table { headers, rows } => {
            assert_eq!(headers, &strings(&["Rule", "File"]));
            assert_eq!(rows, &vec![strings(&["aws-key", "src/x.rs"])]);
        },
        _ => panic!("table expected"),
    }
}

#[test]
fn report_no_data_and_label_lines() {
    let elems = parse_report("    (no data)\nProject Licenses (SPDX):\n• item one\nfree text\n").unwrap();
    assert_eq!(elems.len(), 4);
    match &elems[0] {
        Element::Info(m) => assert_eq!(m, "No data available"),
        _ => panic!(),
    }
    match &elems[1] {
        Element::Info(m) => assert_eq!(m, "Project Licenses (SPDX):"),
        _ => panic!(),
    }
    match &elems[2] {
        Element::Warning(m) => assert_eq!(m, "item one"),
        _ => panic!(),
    }
    match &elems[3] {
        Element::Info(m) => assert_eq!(m, "free text"),
        _ => panic!(),
    }
}

#[test]
fn report_sparkline_is_skipped_with_its_labels() {
    let elems = parse_report("    ▁  ▄ \n    Jan Feb \nafter\n").unwrap();
    assert_eq!(elems.len(), 1);
}

#[test]
fn sections_collect_findings() {
    let text = "╔══╗\n║ ONE ║\n╚══╝\n⚠  bad thing\n✓  good thing\nFiles: 3\nsome info\n║ TWO ║\nCount: 1\n";
    let secs = parse_sections(text);
    assert_eq!(secs.len(), 2);
    assert_eq!(secs[0].title, "ONE");
    assert_eq!(secs[0].findings.len(), 4);
    match &secs[0].findings[0] {
        Finding::Warning(m) => assert_eq!(m, "bad thing"),
        _ => panic!(),
    }
    match &secs[0].findings[1] {
        Finding::Passed(m) => assert_eq!(m, "good thing"),
        _ => panic!(),
    }
    match &secs[0].findings[2] {
        Finding::Stat(l, v) => {
            assert_eq!(l, "Files");
            assert_eq!(v, "3");
        },
        _ => panic!(),
    }
    match &secs[0].findings[3] {
        Finding::Info(m) => assert_eq!(m, "some info"),
        _ => panic!(),
    }
    assert_eq!(secs[1].title, "TWO");
    assert_eq!(secs[1].findings.len(), 1);
}

#[test]
fn sections_without_header_are_dropped() {
    assert!(parse_sections("Files: 3\n").is_empty());
}

#[test]
fn skipping_by_defaults_and_ignored_dirs() {
    let path: Vec<char> = "vendor/lib.rs".chars().collect();
    assert!(is_skipped(&path, &["vendor/"], &[]));
    let path: Vec<char> = "gen/out.rs".chars().collect();
    assert!(is_skipped(&path, &[], &strings(&["gen"])));
    assert!(is_skipped(&path, &[], &strings(&["gen/"])));
    let path: Vec<char> = "general/out.rs".chars().collect();
    assert!(!is_skipped(&path, &[], &strings(&["gen"])));
}

#[test]
fn document_values_are_read_by_key() {
    let doc = DocValue::Object(vec![
        ("name".to_string(), DocValue::Str("demo".to_string())),
        (
            "deps".to_string(),
            DocValue::Object(vec![("a".to_string(), DocValue::Null), ("b".to_string(), DocValue::Bool(true))]),
        ),
    ]);
    assert!(get_field(&doc, "missing").is_none());
    assert_eq!(get_str_exec(&doc, "name"), Some("demo".to_string()));
    assert_eq!(get_str_exec(&doc, "deps"), None);
    assert_eq!(get_keys_exec(&doc, "deps"), Some(strings(&["a", "b"])));
    assert_eq!(keys_of(&doc), Some(strings(&["name", "deps"])));
    assert_eq!(str_of(&DocValue::Number("3".to_string())), None);
    assert_eq!(str_of(&DocValue::Str("x".to_string())), Some(&"x".to_string()));
}

#[test]
fn html_body_groups_sections_and_numbers_charts() {
    let elems = vec![
        Element::SectionHeader("A & B".to_string()),
        Element::BarChart(vec![("x<y".to_string(), 3), ("z".to_string(), 4)]),
        Element::SectionHeader("C".to_string()),
        Element::BarChart(vec![("w".to_string(), 1)]),
        Element::Info("note".to_string()),
    ];
    let (body, scripts) = html_report_body(&elems);
    assert!(body.starts_with(&format!("{SECTION_OPEN}A &amp; B{SECTION_TITLE_END}")));
    assert!(body.contains("<canvas id=\"chart_0\" height=\"120\"></canvas>"));
    assert!(body.contains("<canvas id=\"chart_1\" height=\"120\"></canvas>"));
    assert!(body.ends_with(&format!("py-1 px-3\">note</p>\n{SECTION_END}")));
    assert_eq!(body.matches(SECTION_END).count(), 2);
    assert!(scripts.contains("getElementById('chart_0')"));
    assert!(scripts.contains("labels: [\"x&lt;y\",\"z\"]"));
    assert!(scripts.contains("data: [3,4]"));
    assert!(scripts.contains("data: [1]"));
}

#[test]
fn html_table_rows_alternate_backgrounds() {
    let elems = vec![Element::Table {
        headers: strings(&["H"]),
        rows: vec![strings(&["a"]), strings(&["b"])],
    }];
    let (body, scripts) = html_report_body(&elems);
    assert!(scripts.is_empty());
    assert!(body.contains("<tr class=\"bg-white dark:bg-slate-800/30 hover"));
    assert!(body.contains("<tr class=\"bg-slate-50 dark:bg-slate-800/60 hover"));
    assert!(body.contains(">H</th>"));
    assert!(body.contains(">b</td>"));
}

#[test]
fn tall_charts_are_capped() {
    let items: Vec<(String, usize)> = (0..30).map(|i| (format!("k{i}"), i)).collect();
    let (body, _) = html_report_body(&vec![Element::BarChart(items)]);
    assert!(body.contains("height=\"600\""));
    let items: Vec<(String, usize)> = (0..5).map(|i| (format!("k{i}"), i)).collect();
    let (body, _) = html_report_body(&vec![Element::BarChart(items)]);
    assert!(body.contains("height=\"140\""));
}

#[test]
fn escaped_text_carries_no_markup() {
    let out = html_escape("<script>alert(\"x\")</script> & more");
    assert!(!out.contains('<') && !out.contains('>') && !out.contains('"'));
}

#[test]
fn defaults_always_skip_and_ignores_only_add() {
    let p: Vec<char> = "node_modules/x/index.js".chars().collect();
    assert!(is_skipped(&p, &["node_modules/"], &[]));
    assert!(is_skipped(&p, &["node_modules/"], &strings(&["docs"])));
    let q: Vec<char> = "docs/a.md".chars().collect();
    assert!(!is_skipped(&q, &["node_modules/"], &[]));
    assert!(is_skipped(&q, &["node_modules/"], &strings(&["docs"])));
    assert!(is_skipped(&q, &["node_modules/"], &strings(&["x", "docs"])));
}

#[test]
fn printed_bar_lines_read_back() {
    let mut o = Output::new();
    let items = vec![("src/main.rs".to_string(), 42usize), ("lib.rs".to_string(), 7usize)];
    print_bar_chart(&mut o, &items, "\x1b[36m");
    let first = strip_ansi(&o.printed[0]);
    assert_eq!(parse_bar_chart_line(&first), Some(("src/main.rs".to_string(), 42)));
    let second = strip_ansi(&o.printed[1]);
    assert_eq!(parse_bar_chart_line(&second), Some(("lib.rs".to_string(), 7)));
}

#[test]
fn escaping_leaves_plain_text_alone() {
    assert_eq!(html_escape("Findings: 3 files, 2 rules"), "Findings: 3 files, 2 rules");
    assert_eq!(html_escape("&amp;"), "&amp;amp;");
}
