use codejourney::autofix::ComplexFunction;
use codejourney::autofix_scan::{autofix_scan, collect_sast_findings, find_complex_functions};
use codejourney::complexity::{
    analyze_file, collect_functions, complexity_report, complexity_scan, language_rules, run, sort_by_complexity,
};
use codejourney::display::Output;
use codejourney::history::{
    complexities_above, count_complexity_metrics, count_sast_findings, count_sca_metrics, count_secrets,
    display_trends, show_direction, TrendRow,
};
use codejourney::license_scan::license_scan;
use codejourney::sast::{is_test_path_exec, sast_rules, sast_scan};
use codejourney::sca::sca_scan;
use codejourney::security::{
    dangerous_patterns, gitignore_coverage, hardcoded_ips, scan_secrets, secret_related_commits,
    security_sensitive_commits, sensitive_files, CommitChange,
};
use codejourney::tree::{BlobContent, TreeEntry};

fn file(dir: &str, name: &str, text: &str) -> TreeEntry {
    TreeEntry { dir: dir.to_string(), name: name.to_string(), content: BlobContent::Text(text.to_string()) }
}

fn has_line(o: &Output, needle: &str) -> bool {
    o.printed.iter().any(|l| l.contains(needle))
}

const RUST_SRC: &str = "fn simple() {\n    let x = 1;\n}\n\npub fn branchy(a: i32) -> i32 {\n    if a > 0 {\n        return 1;\n    }\n    while a < 0 {\n        break;\n    }\n    0\n}\n";

#[test]
fn rust_functions_and_complexity() {
    let rules = language_rules();
    let rust = rules.iter().find(|r| r.extensions.contains(&".rs")).unwrap();
    let fs = analyze_file(RUST_SRC, rust, false).unwrap();
    assert_eq!(fs.len(), 2);
    assert_eq!(fs[0], ("simple".to_string(), 1, 1));
    assert_eq!(fs[1].0, "branchy");
    assert_eq!(fs[1].1, 5);
    assert_eq!(fs[1].2, 3);
}

#[test]
fn python_functions_by_indentation() {
    let rules = language_rules();
    let py = rules.iter().find(|r| r.extensions.contains(&".py")).unwrap();
    let src = "def f(x):\n    if x:\n        return 1\n    return 2\n\ndef g():\n    pass\n";
    let fs = analyze_file(src, py, true).unwrap();
    assert_eq!(fs.len(), 2);
    assert_eq!(fs[0].0, "f");
    assert_eq!(fs[0].2, 2);
    assert_eq!(fs[1], ("g".to_string(), 6, 1));
}

#[test]
fn sorting_functions_by_complexity_is_stable() {
    let f = |n: &str, c: usize| ComplexFunction { file: "a.rs".to_string(), name: n.to_string(), line: 1, complexity: c };
    let sorted = sort_by_complexity(&vec![f("a", 2), f("b", 5), f("c", 2), f("d", 9)]);
    let names: Vec<String> = sorted.iter().map(|x| x.name.clone()).collect();
    assert_eq!(names, vec!["d", "b", "a", "c"]);
}

#[test]
fn collected_functions_carry_their_file() {
    let entries = vec![file("src/", "lib.rs", RUST_SRC), file("vendor/", "x.rs", RUST_SRC), file("", "notes.txt", "fn x() {}")];
    let (fs, stats) = collect_functions(&entries, &vec![]).unwrap();
    assert_eq!(fs.len(), 2);
    assert_eq!(fs[0].file, "src/lib.rs");
    assert_eq!(stats, vec![(".rs".to_string(), 1, 2)]);
}

#[test]
fn complexity_report_without_functions() {
    let mut o = Output::new();
    assert!(complexity_report(&mut o, &vec![], &vec![], 10, 20, "0.0"));
    assert!(has_line(&o, "No functions found to analyze"));
}

#[test]
fn complexity_scan_reports_average_and_top() {
    let mut o = Output::new();
    let entries = vec![file("src/", "lib.rs", RUST_SRC)];
    let ok = complexity_scan(&mut o, &entries, 2, 20, &vec![], |fs: &Vec<ComplexFunction>| {
        let total: usize = fs.iter().map(|f| f.complexity).sum();
        format!("{:.1}", total as f64 / fs.len() as f64)
    });
    assert!(ok);
    assert!(has_line(&o, "Cyclomatic Complexity Analysis"));
    assert!(has_line(&o, "Functions analyzed:\x1b[0m 2"));
    assert!(has_line(&o, "Average complexity:\x1b[0m 2.0"));
    assert!(has_line(&o, "1 functions exceed threshold of 2"));
}

#[test]
fn complexity_run_uses_default_threshold() {
    let mut o = Output::new();
    let entries = vec![file("src/", "lib.rs", RUST_SRC)];
    let ok = run(&mut o, &entries, &vec![], |_fs: &Vec<ComplexFunction>| "2.0".to_string());
    assert!(ok);
    assert!(has_line(&o, "Functions analyzed:\x1b[0m 2"));
    assert!(has_line(&o, "All functions are within complexity threshold (10)"));
    assert!(!has_line(&o, "exceed threshold"));
}

#[test]
fn snapshot_complexity_metrics() {
    let entries = vec![file("src/", "lib.rs", RUST_SRC), file("build/", "gen.rs", RUST_SRC)];
    let (cs, above) = count_complexity_metrics(&entries, &vec![]).unwrap();
    assert_eq!(cs, vec![1, 3]);
    assert_eq!(above, 0);
    assert_eq!(complexities_above(&vec![3, 11, 12, 10], 10), 2);
}

#[test]
fn snapshot_secret_and_sca_counts() {
    let entries = vec![
        file("", "config.py", "API_KEY = \"abcdefghijk\"\npassword: 'short'\n"),
        file("", "requirements.txt", "requests==2.0\nflask\n# note\n"),
        file("", "Cargo.lock", "[[package]]\nname = \"a\"\n[[package]]\nname = \"b\"\n"),
    ];
    assert_eq!(count_secrets(&entries, &vec![]), Some(1));
    assert_eq!(count_sca_metrics(&entries, &vec![]), Some((4, 1)));
}

#[test]
fn snapshot_sast_counts_by_severity() {
    let entries = vec![file("app/", "views.py", "data = pickle.loads(blob)\nx = eval(s)\n")];
    assert_eq!(count_sast_findings(&entries, &vec![]), Some((1, 0, 0)));
    let more = vec![file("web/", "a.js", "el.innerHTML = x;\n"), file("", "lib.rs", "unsafe { f() }\n")];
    assert_eq!(count_sast_findings(&more, &vec![]), Some((0, 1, 1)));
}

#[test]
fn direction_lines() {
    let mut o = Output::new();
    show_direction(&mut o, "HIGH", 5, 3);
    show_direction(&mut o, "MEDIUM", 1, 4);
    show_direction(&mut o, "INFO", 2, 2);
    assert!(o.printed[0].contains("↓"));
    assert!(o.printed[0].contains("\x1b[32m"));
    assert!(o.printed[1].contains("↑"));
    assert!(o.printed[1].contains("\x1b[31m"));
    assert!(o.printed[2].contains("\x1b[33m"));
}

#[test]
fn trends_of_two_snapshots() {
    let row = |ts: &str, high: usize, copyleft: usize| TrendRow {
        timestamp: ts.to_string(),
        commit_hash: "0123456789abcdef".to_string(),
        sast_high: high,
        sast_medium: 1,
        complexity_text: "2.5".to_string(),
        complexity_tenths: 25,
        sca_cve_count: 0,
        secrets_found: 0,
        license_copyleft: copyleft,
        license_permissive: 5,
    };
    let mut o = Output::new();
    assert!(display_trends(&mut o, &vec![row("2024-01-01T00:00:00Z", 4, 1), row("2024-02-01T00:00:00Z", 2, 3)]));
    assert!(has_line(&o, "Findings Trends Over Time"));
    assert!(has_line(&o, "2024-01-01"));
    assert!(has_line(&o, "License Drift (copyleft licenses):"));
    assert!(has_line(&o, "Copyleft licenses: 1 → 3"));
    assert!(has_line(&o, "Permissive licenses: 5 → 5"));
}

#[test]
fn test_paths_are_recognised() {
    let p: Vec<char> = "src/tests/helpers.py".chars().collect();
    assert!(is_test_path_exec(&p));
    let q: Vec<char> = "src/app.py".chars().collect();
    assert!(!is_test_path_exec(&q));
    assert!(!sast_rules().is_empty());
}

#[test]
fn sast_scan_reports_findings() {
    let mut o = Output::new();
    let entries = vec![file("app/", "views.py", "data = pickle.loads(blob)\n# pickle.loads(x)\n")];
    assert!(sast_scan(&mut o, &entries, &vec![]));
    assert!(has_line(&o, "Files scanned:\x1b[0m 1"));
    assert!(has_line(&o, "Insecure deserialization (Python pickle)"));
}

#[test]
fn sast_scan_clean_tree() {
    let mut o = Output::new();
    assert!(sast_scan(&mut o, &vec![file("", "main.rs", "fn main() {}\n")], &vec![]));
    assert!(has_line(&o, "No SAST issues detected"));
}

#[test]
fn sca_scan_lists_dependencies() {
    let mut o = Output::new();
    let entries = vec![file("", "requirements.txt", "requests==2.31.0\nflask\n")];
    assert!(sca_scan(&mut o, &entries, &vec![]));
    assert!(has_line(&o, "Software Composition Analysis (SCA)"));
    assert!(has_line(&o, "requests"));
}

#[test]
fn sca_scan_without_lockfiles() {
    let mut o = Output::new();
    assert!(sca_scan(&mut o, &vec![file("", "main.rs", "")], &vec![]));
    assert!(o.printed.len() >= 3);
}

#[test]
fn license_scan_of_a_cargo_project() {
    let mut o = Output::new();
    let entries = vec![
        file("", "Cargo.toml", "[package]\nname = \"x\"\nlicense = \"GPL-3.0\"\n[dependencies]\nserde = \"1\"\n"),
        file("", "LICENSE", "GNU GENERAL PUBLIC LICENSE\nVersion 3"),
    ];
    assert!(license_scan(&mut o, &entries, &vec![]));
    assert_eq!(o.printed[0], "\n  \x1b[1;33m▸ License Compliance\x1b[0m");
    assert!(has_line(&o, "GPL-3.0"));
}

#[test]
fn license_scan_without_manifests() {
    let mut o = Output::new();
    assert!(license_scan(&mut o, &vec![file("", "a.txt", "")], &vec![]));
    assert!(has_line(&o, "No dependency manifests found (Cargo.toml, package.json, go.mod)"));
}

#[test]
fn complex_functions_above_threshold() {
    let body: String = (0..12).map(|i| format!("    if x == {i} {{ y(); }}\n")).collect();
    let src = format!("fn big(x: i32) {{\n{body}}}\nfn small() {{\n}}\n");
    let fs = find_complex_functions(&vec![file("src/", "a.rs", &src)], 10, &vec![]).unwrap();
    assert_eq!(fs.len(), 1);
    assert_eq!(fs[0].name, "big");
    assert_eq!(fs[0].complexity, 13);
}

#[test]
fn autofix_findings_and_report() {
    let entries = vec![file("app/", "x.py", "cursor.execute(\"SELECT \" + q)\n")];
    let findings = collect_sast_findings(&entries, &vec![]).unwrap();
    assert!(!findings.is_empty());
    let mut o = Output::new();
    assert!(autofix_scan(&mut o, &entries, &vec![]));
    assert!(has_line(&o, "Fix Suggestions & Autofix"));
}

#[test]
fn secrets_are_reported() {
    let mut o = Output::new();
    let entries = vec![file("", "settings.py", "password = 'hunter22'\n"), file("", "other.py", "mock_password = 'x'\n")];
    assert!(scan_secrets(&mut o, &entries, &vec![]));
    assert!(has_line(&o, "Secrets & Credential Detection"));
    assert!(has_line(&o, "settings.py"));
    assert!(!has_line(&o, "other.py"));
}

#[test]
fn no_secrets_found() {
    let mut o = Output::new();
    assert!(scan_secrets(&mut o, &vec![file("", "main.go", "package main\n")], &vec![]));
    assert!(has_line(&o, "No potential secrets detected in tracked files"));
}

#[test]
fn dangerous_code_patterns() {
    let mut o = Output::new();
    assert!(dangerous_patterns(&mut o, &vec![file("", "a.js", "eval(input)\n")], &vec![]));
    assert!(has_line(&o, "Dangerous Code Patterns"));
}

#[test]
fn sensitive_files_in_tree() {
    let mut o = Output::new();
    assert!(sensitive_files(&mut o, &vec![file("", ".env", "X=1"), file("keys/", "id_rsa", "k")], &vec![]));
    assert!(has_line(&o, "Sensitive Files in Repository"));
    assert!(has_line(&o, ".env"));
}

#[test]
fn gitignore_check_with_and_without_file() {
    let mut o = Output::new();
    gitignore_coverage(&mut o, &None);
    assert!(has_line(&o, ".gitignore Coverage Check"));
    let mut p = Output::new();
    gitignore_coverage(&mut p, &Some(".env\n*.pem\n".to_string()));
    assert!(p.printed.len() > 2);
}

#[test]
fn hardcoded_ip_addresses() {
    let mut o = Output::new();
    assert!(hardcoded_ips(&mut o, &vec![file("", "cfg.py", "HOST = '10.1.2.3'\nLOCAL = '127.0.0.1'\n")], &vec![]));
    assert!(has_line(&o, "Hardcoded IP Addresses"));
    assert!(has_line(&o, "10.1.2.3"));
}

#[test]
fn commits_mentioning_secrets() {
    let mut o = Output::new();
    let commits = vec![
        ("0123456789abcdef".to_string(), "Remove leaked password".to_string()),
        ("fedcba9876543210".to_string(), "Add feature".to_string()),
    ];
    assert!(secret_related_commits(&mut o, &commits));
    assert!(has_line(&o, "Commits Mentioning Secrets/Credentials"));
    assert!(has_line(&o, "Remove leaked password"));
}

#[test]
fn commits_touching_sensitive_files() {
    let mut o = Output::new();
    let commits = vec![CommitChange {
        hash: "0123456789abcdef".to_string(),
        message: "rotate".to_string(),
        paths: vec!["config/secrets.yml".to_string(), "README.md".to_string()],
    }];
    assert!(security_sensitive_commits(&mut o, &commits));
    assert!(has_line(&o, "Recent Commits Touching Security-Sensitive Files"));
}

#[test]
fn advisories_match_only_their_ecosystem() {
    let lock = "[[package]]\nname = \"semver\"\nversion = \"1.0.20\"\n";
    let mut o = Output::new();
    assert!(autofix_scan(&mut o, &vec![file("", "Cargo.lock", lock)], &vec![]));
    assert!(has_line(&o, "No known CVEs found in current dependencies"));
    assert!(!has_line(&o, "CVE-2022-25883"));
    let req = "django==4.0.0\n";
    let mut p = Output::new();
    assert!(autofix_scan(&mut p, &vec![file("", "requirements.txt", req)], &vec![]));
    assert!(has_line(&p, "CVE-2024-27351"));
}

#[test]
fn license_scan_skips_every_default_directory() {
    let manifest = "[package]\nname = \"x\"\nlicense = \"MIT\"\n";
    let entries = vec![
        file("", "Cargo.toml", manifest),
        file("build/", "Cargo.toml", manifest),
        file("dist/", "package.json", "{\"license\": \"MIT\"}"),
    ];
    let mut o = Output::new();
    assert!(license_scan(&mut o, &entries, &vec![]));
    assert!(has_line(&o, "Manifests found:\x1b[0m 1"));
}

#[test]
fn sca_scan_skips_dist_and_build() {
    let entries = vec![file("dist/", "requirements.txt", "flask\n"), file("build/", "requirements.txt", "flask\n")];
    let mut o = Output::new();
    assert!(sca_scan(&mut o, &entries, &vec![]));
    assert!(has_line(&o, "No lockfiles found (Cargo.lock, package-lock.json, go.sum, requirements.txt)"));
}

#[test]
fn secret_scan_skips_defaults_and_ignored_dirs() {
    let line = "password = \"hunter2hunter2\"\n";
    let entries = vec![file("target/", "gen.rs", line), file("dist/", "app.js", line), file("docs/", "x.py", line)];
    let mut o = Output::new();
    assert!(scan_secrets(&mut o, &entries, &vec!["docs".to_string()]));
    assert!(has_line(&o, "No potential secrets detected in tracked files"));
    let mut p = Output::new();
    assert!(scan_secrets(&mut p, &entries, &vec![]));
    assert!(has_line(&p, "x.py"));
}
