use codejourney::depgraph::{
    build_cargo_graph, build_go_graph, build_npm_graph, build_python_graph, find_cycles, find_phantom_deps,
    generate_dot, reachability, sort_names, DepEdge, DepGraph, DepNode,
};
use codejourney::depgraph_scan::depgraph_scan;
use codejourney::display::Output;
use codejourney::tree::{BlobContent, TreeEntry};

fn node(name: &str, version: &str) -> DepNode {
    DepNode { name: name.to_string(), version: version.to_string(), source: "test".to_string() }
}

fn edge(from: &str, to: &str) -> DepEdge {
    DepEdge { from: from.to_string(), to: to.to_string() }
}

fn names(g: &DepGraph) -> Vec<String> {
    let mut v: Vec<String> = g.nodes.iter().map(|n| n.name.clone()).collect();
    v.sort();
    v
}

fn file(dir: &str, name: &str, text: &str) -> TreeEntry {
    TreeEntry { dir: dir.to_string(), name: name.to_string(), content: BlobContent::Text(text.to_string()) }
}

const LOCK: &str = "[[package]]\nname = \"app\"\nversion = \"0.1.0\"\ndependencies = [\n \"serde\",\n \"rand 0.8.5 (registry+https://x)\",\n]\n\n[[package]]\nname = \"serde\"\nversion = \"1.0.0\"\n\n[[package]]\nname = \"rand\"\nversion = \"0.8.5\"\n\n[[package]]\nname = \"orphan\"\nversion = \"2.0.0\"\n";

#[test]
fn cargo_graph_nodes_edges_and_direct_deps() {
    let g = build_cargo_graph(LOCK, Some("[dependencies]\nserde = \"1\"\n[dev-dependencies]\nrand = \"0.8\"\n"));
    assert_eq!(names(&g), vec!["app", "orphan", "rand", "serde"]);
    let es: Vec<(String, String)> = g.edges.iter().map(|e| (e.from.clone(), e.to.clone())).collect();
    assert_eq!(es, vec![("app".to_string(), "serde".to_string()), ("app".to_string(), "rand".to_string())]);
    let mut d = g.direct_deps.clone();
    d.sort();
    assert_eq!(d, vec!["rand".to_string(), "serde".to_string()]);
}

#[test]
fn reachability_from_direct_deps() {
    let g = build_cargo_graph(LOCK, Some("[dependencies]\nserde = \"1\"\n"));
    let (mut reach, mut unreach) = reachability(&g);
    reach.sort();
    unreach.sort();
    assert_eq!(reach, vec!["serde".to_string()]);
    assert_eq!(unreach, vec!["app".to_string(), "orphan".to_string(), "rand".to_string()]);
}

#[test]
fn reachability_from_roots_without_manifest() {
    let g = build_cargo_graph(LOCK, None);
    let (mut reach, unreach) = reachability(&g);
    reach.sort();
    assert_eq!(reach, vec!["app", "orphan", "rand", "serde"]);
    assert!(unreach.is_empty());
}

#[test]
fn cycles_are_found() {
    let g = DepGraph {
        nodes: vec![node("a", "1"), node("b", "1"), node("c", "1")],
        edges: vec![edge("a", "b"), edge("b", "c"), edge("c", "a")],
        direct_deps: vec![],
    };
    let cycles = find_cycles(&g);
    assert_eq!(cycles.len(), 1);
    assert_eq!(cycles[0].len(), 3);
    let acyclic = DepGraph { nodes: vec![node("a", "1"), node("b", "1")], edges: vec![edge("a", "b")], direct_deps: vec![] };
    assert!(find_cycles(&acyclic).is_empty());
}

#[test]
fn dot_output_marks_cycle_edges_and_direct_deps() {
    let g = DepGraph {
        nodes: vec![node("a", "1"), node("b", "2")],
        edges: vec![edge("a", "b"), edge("b", "a")],
        direct_deps: vec!["a".to_string()],
    };
    let cycles = vec![vec!["a".to_string(), "b".to_string()]];
    let dot = generate_dot(&g, &cycles);
    assert!(dot.starts_with("digraph dependencies {\n  rankdir=LR;\n"));
    assert!(dot.contains("  \"a\" [label=\"a\\n1\", fillcolor=\"#4FC3F7\"];\n"));
    assert!(dot.contains("  \"b\" [label=\"b\\n2\", fillcolor=\"#E0E0E0\"];\n"));
    assert!(dot.contains("  \"a\" -> \"b\" [color=\"#FF5252\", penwidth=2.0, label=\"cycle\"];\n"));
    assert!(dot.ends_with("}\n"));
    let plain = generate_dot(&g, &vec![]);
    assert!(plain.contains("  \"a\" -> \"b\";\n"));
}

#[test]
fn python_graph_has_no_edges() {
    let g = build_python_graph("requests==2.0\nflask>=1.0\n# c\nnumpy\n");
    assert_eq!(names(&g), vec!["flask", "numpy", "requests"]);
    assert!(g.edges.is_empty());
    assert!(g.direct_deps.is_empty());
}

#[test]
fn go_graph_takes_requirements_as_direct() {
    let g = build_go_graph(
        "github.com/a/b v1.0.0 h1:x=\ngithub.com/c/d v0.1.0/go.mod h1:y=\n",
        Some("module m\nrequire (\n\tgithub.com/a/b v1.0.0\n)\n"),
    );
    assert_eq!(names(&g), vec!["github.com/a/b", "github.com/c/d", "m"]);
    let es: Vec<(String, String)> = g.edges.iter().map(|e| (e.from.clone(), e.to.clone())).collect();
    assert_eq!(
        es,
        vec![("m".to_string(), "github.com/a/b".to_string()), ("m".to_string(), "github.com/c/d".to_string())]
    );
    assert_eq!(g.direct_deps, vec!["github.com/a/b".to_string()]);
}

#[test]
fn npm_graph_from_lock_and_manifest() {
    let g = build_npm_graph(
        r#"{"packages":{"":{},"node_modules/a":{"version":"1.0.0","dependencies":{"b":"^2"}},"node_modules/b":{"version":"2.1.0"}}}"#,
        Some(r#"{"dependencies":{"a":"^1"}}"#),
    );
    assert_eq!(names(&g), vec!["a", "b"]);
    assert_eq!(g.direct_deps, vec!["a".to_string()]);
    assert!(g.edges.iter().any(|e| e.from == "a" && e.to == "b"));
}

#[test]
fn names_sort_ascending() {
    let v = sort_names(vec!["b".to_string(), "a".to_string(), "c".to_string()]);
    assert_eq!(v, vec!["a", "b", "c"]);
}

#[test]
fn phantom_deps_are_declared_but_unused() {
    let g = DepGraph {
        nodes: vec![],
        edges: vec![],
        direct_deps: vec!["serde".to_string(), "rand".to_string(), "tokio".to_string()],
    };
    let entries = vec![
        file("src/", "main.rs", "use serde::Deserialize;\nfn main() {}\n"),
        file("vendor/", "x.rs", "use rand::Rng;\n"),
    ];
    let phantom = find_phantom_deps(&g, &entries, &vec![]);
    assert_eq!(phantom, vec!["rand".to_string(), "tokio".to_string()]);
}

#[test]
fn depgraph_scan_without_dependency_files() {
    let mut o = Output::new();
    let (ok, dot, graphs) = depgraph_scan(&mut o, &vec![file("", "README.md", "hi")], &vec![]);
    assert!(ok);
    assert!(dot.is_none());
    assert!(graphs.is_empty());
    assert_eq!(
        o.printed,
        vec![
            "\n  \x1b[1;33m▸ Dependency Graph & Reachability Analysis\x1b[0m".to_string(),
            "  ──────────────────────────────────────────────────".to_string(),
            "    \x1b[2mNo dependency files found (Cargo.lock, package-lock.json, go.sum, requirements.txt)\x1b[0m".to_string(),
        ]
    );
}

#[test]
fn depgraph_scan_over_a_cargo_project() {
    let mut o = Output::new();
    let entries = vec![
        file("", "Cargo.lock", LOCK),
        file("", "Cargo.toml", "[package]\nname = \"app\"\n[dependencies]\nserde = \"1\"\n"),
        file("src/", "main.rs", "use serde::Serialize;\n"),
    ];
    let (ok, dot, graphs) = depgraph_scan(&mut o, &entries, &vec![]);
    assert!(ok);
    assert_eq!(graphs.len(), 1);
    assert_eq!(graphs[0].ecosystem, "Rust (Cargo)");
    assert!(dot.is_some());
    assert!(!o.printed.is_empty());
}

#[test]
fn relative_python_import_accounts_for_no_package() {
    let g = DepGraph { nodes: vec![], edges: vec![], direct_deps: vec!["left-pad".to_string()] };
    let entries = vec![file("", "app.py", "from . import utils\n")];
    assert_eq!(find_phantom_deps(&g, &entries, &vec![]), vec!["left-pad".to_string()]);
}

#[test]
fn two_way_dependency_is_one_cycle() {
    let g = DepGraph {
        nodes: vec![node("a", "1"), node("b", "1"), node("c", "1")],
        edges: vec![edge("a", "b"), edge("b", "a"), edge("c", "c")],
        direct_deps: vec![],
    };
    let cycles = find_cycles(&g);
    assert_eq!(cycles.len(), 1);
    assert!(cycles[0] == vec!["a".to_string(), "b".to_string()] || cycles[0] == vec!["b".to_string(), "a".to_string()]);
}

#[test]
fn separate_cycles_are_both_reported() {
    let g = DepGraph {
        nodes: vec![node("a", "1"), node("b", "1"), node("c", "1"), node("d", "1")],
        edges: vec![edge("a", "b"), edge("b", "a"), edge("c", "d"), edge("d", "c")],
        direct_deps: vec![],
    };
    let cycles = find_cycles(&g);
    assert_eq!(cycles.len(), 2);
    assert!(cycles.iter().any(|c| c.contains(&"a".to_string()) && c.contains(&"b".to_string())));
    assert!(cycles.iter().any(|c| c.contains(&"c".to_string()) && c.contains(&"d".to_string())));
}
