use codejourney::autofix::{
    known_cves, parse_cargo_lock_deps, parse_go_sum_deps, parse_npm_lock_deps, parse_requirements_deps,
    refactoring_hint, sast_remediations, version_less_than, ComplexFunction, DepInfo,
};
use codejourney::license::{
    detect_license_from_content, is_copyleft, is_permissive, license_category, normalize_license,
    parse_cargo_toml, parse_go_mod, parse_package_json,
};
use codejourney::sca::{parse_cargo_lock, parse_go_sum, parse_package_lock, parse_requirements_txt};

fn triples(v: &[DepInfo]) -> Vec<(String, String, String)> {
    v.iter().map(|d| (d.name.clone(), d.version.clone(), d.source.clone())).collect()
}

fn t(n: &str, v: &str, s: &str) -> (String, String, String) {
    (n.to_string(), v.to_string(), s.to_string())
}

fn func(file: &str, complexity: usize) -> ComplexFunction {
    ComplexFunction { file: file.to_string(), name: "f".to_string(), line: 1, complexity }
}

#[test]
fn license_categories() {
    assert_eq!(license_category("mit"), "permissive");
    assert_eq!(license_category("GPL-3.0-only"), "copyleft (strong)");
    assert_eq!(license_category("LGPL-2.1"), "copyleft (weak)");
    assert_eq!(license_category("MPL-2.0"), "copyleft (weak)");
    assert_eq!(license_category("WTFPL"), "permissive");
    assert_eq!(license_category("Artistic-2.0"), "permissive");
    assert_eq!(license_category("Custom-1"), "unknown");
    assert!(is_copyleft("agpl-3.0"));
    assert!(!is_copyleft("Apache-2.0"));
    assert!(is_permissive("0BSD"));
    assert!(!is_permissive("GPL-2.0"));
}

#[test]
fn license_names_normalize_to_spdx() {
    assert_eq!(normalize_license(" \"mit\" "), "MIT");
    assert_eq!(normalize_license("apache 2.0"), "Apache-2.0");
    assert_eq!(normalize_license("GPLv3"), "GPL-3.0-only");
    assert_eq!(normalize_license("bsd3"), "BSD-3-Clause");
    assert_eq!(normalize_license("Custom-1"), "Custom-1");
}

#[test]
fn license_text_detection() {
    let mit = "MIT License\n\nPermission is hereby granted, free of charge, to any person...\nThe above copyright notice and this permission notice shall be included";
    assert_eq!(detect_license_from_content(mit), ("MIT".to_string(), "high"));
    let gpl3 = "GNU GENERAL PUBLIC LICENSE\nVersion 3, 29 June 2007";
    assert_eq!(detect_license_from_content(gpl3), ("GPL-3.0".to_string(), "high"));
    let lgpl = "GNU LESSER GENERAL PUBLIC LICENSE Version 3";
    assert_eq!(detect_license_from_content(lgpl), ("LGPL-3.0".to_string(), "high"));
    let bsd3 = "Redistribution and use in source and binary forms... Neither the name of";
    assert_eq!(detect_license_from_content(bsd3), ("BSD-3-Clause".to_string(), "high"));
    let bsd2 = "Redistribution and use in source and binary forms, with or without";
    assert_eq!(detect_license_from_content(bsd2), ("BSD-2-Clause".to_string(), "high"));
}

#[test]
fn license_detection_fallbacks() {
    assert_eq!(
        detect_license_from_content("// SPDX-License-Identifier: apache2\n"),
        ("Apache-2.0".to_string(), "high")
    );
    assert_eq!(detect_license_from_content("Released under the MIT License."), ("MIT".to_string(), "medium"));
    assert_eq!(detect_license_from_content("in the public domain"), ("Public Domain".to_string(), "medium"));
    assert_eq!(detect_license_from_content("all rights reserved"), ("Unknown".to_string(), "low"));
}

#[test]
fn cargo_manifest_fields() {
    let m = parse_cargo_toml(
        "[package]\nname = \"x\"\nlicense = \"mit\"\n[dependencies]\nserde = \"1\"\n[dev-dependencies]\nrand = \"0.8\"\n",
    );
    assert_eq!(m.project_license, Some("MIT".to_string()));
    let names: Vec<String> = m.dependencies.iter().map(|d| d.0.clone()).collect();
    assert_eq!(names, vec!["serde".to_string(), "rand".to_string()]);
    assert!(m.dependencies.iter().all(|d| d.1.is_none()));
    let bad = parse_cargo_toml("not toml [[[");
    assert!(bad.project_license.is_none());
    assert!(bad.dependencies.is_empty());
}

#[test]
fn package_json_fields() {
    let m = parse_package_json(r#"{"license":"ISC","dependencies":{"a":"1"},"devDependencies":{"b":"2"}}"#);
    assert_eq!(m.project_license, Some("ISC".to_string()));
    let names: Vec<String> = m.dependencies.iter().map(|d| d.0.clone()).collect();
    assert_eq!(names, vec!["a".to_string(), "b".to_string()]);
    assert!(parse_package_json("{").dependencies.is_empty());
}

#[test]
fn go_mod_requirements() {
    let m = parse_go_mod(
        "module x\n\nrequire (\n\tgithub.com/a/b v1.0.0\n\t// comment\n\tgolang.org/x/y v0.1.0 // indirect\n)\nrequire github.com/c/d v2.0.0\n",
    );
    let names: Vec<String> = m.dependencies.iter().map(|d| d.0.clone()).collect();
    assert_eq!(
        names,
        vec!["github.com/a/b".to_string(), "golang.org/x/y".to_string(), "github.com/c/d".to_string()]
    );
    assert!(m.project_license.is_none());
}

#[test]
fn version_comparison() {
    assert!(version_less_than("1.2.3", "1.2.10"));
    assert!(!version_less_than("1.2.10", "1.2.3"));
    assert!(!version_less_than("v2.0", "2.0.0"));
    assert!(version_less_than("0.9", "1"));
    assert!(!version_less_than("1.0.0", "1.0.0"));
    assert!(version_less_than("1.0rc1", "1.1"));
}

#[test]
fn known_cve_table_entries() {
    let cves = known_cves();
    assert!(!cves.is_empty());
    assert_eq!(cves[0].package, "lodash");
    assert_eq!(cves[0].cve_id, "CVE-2021-23337");
    assert!(cves.iter().all(|c| !c.fixed_version.is_empty()));
}

#[test]
fn remediation_table_entries() {
    let r = sast_remediations();
    assert_eq!(r[0].pattern_name, "SQL injection");
    assert_eq!(r[0].guidance, "Use parameterized queries instead of string interpolation");
}

#[test]
fn refactoring_hints_by_complexity_and_language() {
    assert_eq!(
        refactoring_hint(&func("a.rs", 35)),
        "Consider splitting this function into multiple smaller functions; Extract distinct logical blocks into separate helper functions; Consider using match arms with extracted functions"
    );
    assert_eq!(
        refactoring_hint(&func("a.py", 15)),
        "Look for repeated patterns that can be extracted into helpers; Consider guard clauses (early returns) for preconditions"
            .replace("Consider guard", "Consider using guard")
            + "; Consider using dictionary dispatch instead of long if/elif chains"
    );
    assert_eq!(refactoring_hint(&func("a.txt", 5)), "");
    assert_eq!(
        refactoring_hint(&func("a.jsx", 21)),
        "Extract conditional branches into well-named helper functions; Consider using early returns to reduce nesting depth; Consider using a strategy/map pattern instead of complex conditionals"
    );
}

#[test]
fn cargo_lock_packages() {
    let lock = "[[package]]\nname = \"a\"\nversion = \"1.0.0\"\n\n[[package]]\nname = \"b\"\nversion = \"0.2.1\"\nsource = \"registry\"\n";
    let expected = vec![t("a", "1.0.0", "Cargo.lock"), t("b", "0.2.1", "Cargo.lock")];
    assert_eq!(triples(&parse_cargo_lock(lock)), expected);
    let mut deps = Vec::new();
    parse_cargo_lock_deps(lock, &mut deps);
    assert_eq!(triples(&deps), expected);
}

#[test]
fn cargo_lock_incomplete_entry_is_dropped() {
    let lock = "[[package]]\nname = \"a\"\n[[package]]\nname = \"b\"\nversion = \"2\"\n";
    assert_eq!(triples(&parse_cargo_lock(lock)), vec![t("b", "2", "Cargo.lock")]);
}

#[test]
fn package_lock_packages() {
    let lock = r#"{"packages":{"":{"version":"1.0.0"},"node_modules/a":{"version":"1.2.3"},"node_modules/a/node_modules/b":{}}}"#;
    let deps = parse_package_lock(lock);
    let mut got = triples(&deps);
    got.sort();
    assert_eq!(got, vec![t("a", "1.2.3", "package-lock.json"), t("b", "unknown", "package-lock.json")]);
    let mut d2 = Vec::new();
    parse_npm_lock_deps(lock, &mut d2);
    let mut got2 = triples(&d2);
    got2.sort();
    assert_eq!(got2, got);
    assert!(parse_package_lock("not json").is_empty());
}

#[test]
fn go_sum_first_occurrence_wins() {
    let sum = "github.com/a/b v1.0.0 h1:x=\ngithub.com/a/b v1.0.0/go.mod h1:y=\ngithub.com/c/d v0.3.0/go.mod h1:z=\nbad\n";
    let expected = vec![t("github.com/a/b", "v1.0.0", "go.sum"), t("github.com/c/d", "v0.3.0", "go.sum")];
    assert_eq!(triples(&parse_go_sum(sum)), expected);
    let mut deps = Vec::new();
    parse_go_sum_deps(sum, &mut deps);
    assert_eq!(triples(&deps), expected);
}

#[test]
fn requirements_constraints() {
    let req = "# comment\nrequests==2.31.0\nflask>=2.0\nnumpy~=1.24\nsix<=1.16\nidna!=3.0\nuvicorn[standard]\n-r other.txt\n\n";
    assert_eq!(
        triples(&parse_requirements_txt(req)),
        vec![
            t("requests", "2.31.0", "requirements.txt"),
            t("flask", ">=2.0", "requirements.txt"),
            t("numpy", "~=1.24", "requirements.txt"),
            t("six", "<=1.16", "requirements.txt"),
            t("idna", "!=3.0", "requirements.txt"),
            t("uvicorn", "unpinned", "requirements.txt"),
        ]
    );
    let mut deps = Vec::new();
    parse_requirements_deps(req, &mut deps);
    assert_eq!(
        triples(&deps),
        vec![
            t("requests", "2.31.0", "requirements.txt"),
            t("flask", ">=2.0", "requirements.txt"),
            t("numpy~=1.24", "unpinned", "requirements.txt"),
            t("six<=1.16", "unpinned", "requirements.txt"),
            t("idna!=3.0", "unpinned", "requirements.txt"),
            t("uvicorn", "unpinned", "requirements.txt"),
        ]
    );
}

#[test]
fn no_license_is_both_copyleft_and_permissive() {
    for id in ["MIT", "GPL-3.0", "LGPL-2.1", "MPL-2.0", "Apache-2.0", "Zlib", "WTFPL", ""] {
        assert!(!(is_copyleft(id) && is_permissive(id)));
    }
    assert!(is_copyleft(&normalize_license("GPLv2")));
    assert!(is_permissive(&normalize_license("apache2")));
}

#[test]
fn every_supported_license_has_a_category() {
    for id in [
        "MIT", "Apache-2.0", "GPL-2.0", "GPL-3.0", "AGPL-3.0", "LGPL-2.1", "LGPL-3.0", "BSD-2-Clause", "BSD-3-Clause",
        "MPL-2.0", "EPL-1.0", "EPL-2.0", "Unlicense", "CC0-1.0", "BSL-1.0", "Zlib", "WTFPL", "Artistic-2.0", "CDDL-1.0",
        "ISC", "0BSD",
    ] {
        assert_ne!(license_category(id), "unknown", "{id}");
    }
}

#[test]
fn gpl_and_agpl_texts_are_told_apart() {
    let gpl = "GNU GENERAL PUBLIC LICENSE\nVersion 3, 29 June 2007\n13. Use with the GNU Affero General Public License.\n";
    assert_eq!(detect_license_from_content(gpl), ("GPL-3.0".to_string(), "high"));
    let agpl = "GNU AFFERO GENERAL PUBLIC LICENSE\nVersion 3, 19 November 2007\n13. Remote Network Interaction; Use with the GNU General Public License.\n";
    assert_eq!(detect_license_from_content(agpl), ("AGPL-3.0".to_string(), "high"));
}

#[test]
fn license_classes_follow_the_category() {
    assert!(is_copyleft("lgpl-3.0") && !is_permissive("lgpl-3.0"));
    assert!(is_permissive("0BSD") && !is_copyleft("0BSD"));
    assert!(!is_copyleft("Custom-1") && !is_permissive("Custom-1"));
}

#[test]
fn normalizing_twice_changes_nothing() {
    for raw in ["Custom-1", "  \"apache 2.0\" ", "GPLv3", "MIT"] {
        let once = normalize_license(raw);
        assert_eq!(normalize_license(&once), once);
    }
    assert_eq!(normalize_license("  \"apache 2.0\" "), "Apache-2.0");
}
