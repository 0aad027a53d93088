//! The dependency graph report: which lockfiles and manifests of the tree
//! make which graphs, and what the report says of each graph.
use vstd::prelude::*;
use crate::depgraph::{
    build_cargo_graph, build_go_graph, build_npm_graph, build_python_graph, cargo_direct,
    cargo_lock_graph, cycles_view, dot_lines, edges_view, find_cycles, find_node,
    find_phantom_deps, generate_dot, go_graph_edges, go_graph_nodes, go_mod_info, graph_wf,
    is_cycle, names_view, nodes_view, npm_direct, npm_lock_graph, python_nodes, reachability,
    reaches, sorted_names, tree_imports, unreachable_names, unused_deps, DepGraph, NodeView,
};
use crate::display::{
    sub_header_lines,
    buffered_text, cells_cuttable_v, headers_view, info_line, info_line_exec, ok_line,
    ok_line_exec, out_all, push_line, push_lines, rows_view, str_line, summary_line_exec,
    summary_stat_line, table_lines_exec, table_lines_v, table_printable, warning_line,
    warning_line_exec, write_lines, Output,
};
use crate::text::{
    chars_of, decimal, decimal_exec, ends_with, ends_with_str, eq_str, extend, extend_str, join,
    lines, seq_eq, slice, split_str, split_str_exec, string_of, views,
};
use crate::tree::{entry_path, is_skipped, skipped, strings_view, strs_view, BlobContent, TreeEntry};
use crate::value::{json_parse, toml_parse};
use crate::autofix::{fix_skip_dirs, go_sum_entries};

verus! {

/// The names of the files the dependency graphs are built from.
pub open spec fn is_dep_file_name(n: Seq<char>) -> bool {
    ||| n == "Cargo.lock"@
    ||| n == "Cargo.toml"@
    ||| n == "package-lock.json"@
    ||| n == "package.json"@
    ||| n == "go.sum"@
    ||| n == "go.mod"@
    ||| n == "requirements.txt"@
}

/// The readable lockfiles and manifests of the tree outside skipped
/// directories: (path, content), in walk order.
pub open spec fn dep_files(entries: Seq<TreeEntry>, ignore: Seq<Seq<char>>) -> Seq<(Seq<char>, Seq<char>)>
    decreases entries.len(),
{
    if entries.len() == 0 {
        Seq::empty()
    } else {
        let prev = dep_files(entries.drop_last(), ignore);
        let e = entries.last();
        if !skipped(entry_path(e), fix_skip_dirs(), ignore) && is_dep_file_name(e.name@) {
            match e.content {
                BlobContent::Text(c) => prev.push((entry_path(e), c@)),
                _ => prev,
            }
        } else {
            prev
        }
    }
}

/// The content of the file at `path`, if there is one.
pub open spec fn file_lookup(files: Seq<(Seq<char>, Seq<char>)>, path: Seq<char>) -> Option<Seq<char>>
    decreases files.len(),
{
    if files.len() == 0 {
        None
    } else if file_lookup(files.drop_last(), path) is Some {
        file_lookup(files.drop_last(), path)
    } else if files.last().0 == path {
        Some(files.last().1)
    } else {
        None
    }
}

/// `str::replace(from, to)` for a non-empty pattern.
pub open spec fn replace_str(s: Seq<char>, from: Seq<char>, to: Seq<char>) -> Seq<char> {
    join(split_str(s, from), to)
}

/// A graph as (packages, edges, direct dependencies).
pub type GraphSpec = (Seq<NodeView>, Seq<(Seq<char>, Seq<char>)>, Seq<Seq<char>>);

pub open spec fn graph_spec_of(g: DepGraph) -> GraphSpec {
    (nodes_view(g.nodes@), edges_view(g.edges@), names_view(g.direct_deps@))
}

pub open spec fn cargo_graph_spec(lock: Seq<char>, manifest: Option<Seq<char>>) -> GraphSpec {
    let lg = cargo_lock_graph(lock);
    (
        lg.0,
        lg.1,
        cargo_direct(
            match manifest {
                Some(m) => toml_parse(m),
                None => None,
            },
        ),
    )
}

pub open spec fn npm_graph_spec(lock: Seq<char>, manifest: Option<Seq<char>>) -> GraphSpec {
    let lg = npm_lock_graph(json_parse(lock));
    (
        lg.0,
        lg.1,
        npm_direct(
            match manifest {
                Some(m) => json_parse(m),
                None => None,
            },
        ),
    )
}

pub open spec fn go_graph_spec(sum: Seq<char>, modc: Option<Seq<char>>) -> GraphSpec {
    let info = go_mod_info(modc);
    let entries = go_sum_entries(lines(sum));
    (go_graph_nodes(entries, info.0), go_graph_edges(entries, info.0), info.1)
}

pub open spec fn python_graph_spec(req: Seq<char>) -> GraphSpec {
    (python_nodes(lines(req)), Seq::empty(), Seq::empty())
}

pub open spec fn root_cargo(files: Seq<(Seq<char>, Seq<char>)>) -> Seq<(Seq<char>, GraphSpec)> {
    match file_lookup(files, "Cargo.lock"@) {
        Some(l) => seq![("Rust (Cargo)"@, cargo_graph_spec(l, file_lookup(files, "Cargo.toml"@)))],
        None => Seq::empty(),
    }
}

pub open spec fn root_npm(files: Seq<(Seq<char>, Seq<char>)>) -> Seq<(Seq<char>, GraphSpec)> {
    match file_lookup(files, "package-lock.json"@) {
        Some(l) => seq![("Node.js (npm)"@, npm_graph_spec(l, file_lookup(files, "package.json"@)))],
        None => Seq::empty(),
    }
}

pub open spec fn root_go(files: Seq<(Seq<char>, Seq<char>)>) -> Seq<(Seq<char>, GraphSpec)> {
    match file_lookup(files, "go.sum"@) {
        Some(s) => seq![("Go"@, go_graph_spec(s, file_lookup(files, "go.mod"@)))],
        None => Seq::empty(),
    }
}

pub open spec fn root_python(files: Seq<(Seq<char>, Seq<char>)>) -> Seq<(Seq<char>, GraphSpec)> {
    match file_lookup(files, "requirements.txt"@) {
        Some(r) => seq![("Python"@, python_graph_spec(r))],
        None => Seq::empty(),
    }
}

/// The graphs of the root-level lockfiles, labelled by ecosystem.
pub open spec fn root_graphs(files: Seq<(Seq<char>, Seq<char>)>) -> Seq<(Seq<char>, GraphSpec)> {
    root_cargo(files) + root_npm(files) + root_go(files) + root_python(files)
}

/// The graphs of the nested Cargo.lock and package-lock.json files, in
/// order, each with the manifest beside it.
pub open spec fn nested_graphs(fs: Seq<(Seq<char>, Seq<char>)>, all: Seq<(Seq<char>, Seq<char>)>) -> Seq<(Seq<char>, GraphSpec)>
    decreases fs.len(),
{
    if fs.len() == 0 {
        Seq::empty()
    } else {
        let prev = nested_graphs(fs.drop_last(), all);
        let (path, content) = fs.last();
        if path == "Cargo.lock"@ || path == "package-lock.json"@ || path == "go.sum"@ || path == "requirements.txt"@ {
            prev
        } else if ends_with(path, "Cargo.lock"@) {
            prev.push(
                (
                    "Rust ("@ + path + ")"@,
                    cargo_graph_spec(content, file_lookup(all, replace_str(path, "Cargo.lock"@, "Cargo.toml"@))),
                ),
            )
        } else if ends_with(path, "package-lock.json"@) {
            prev.push(
                (
                    "Node.js ("@ + path + ")"@,
                    npm_graph_spec(content, file_lookup(all, replace_str(path, "package-lock.json"@, "package.json"@))),
                ),
            )
        } else {
            prev
        }
    }
}

/// All graphs of the tree's dependency files, in report order.
pub open spec fn graphs_spec(files: Seq<(Seq<char>, Seq<char>)>) -> Seq<(Seq<char>, GraphSpec)> {
    root_graphs(files) + nested_graphs(files, files)
}


pub open spec fn files_view(v: Seq<(String, String)>) -> Seq<(Seq<char>, Seq<char>)> {
    Seq::new(v.len(), |i: int| (v[i].0@, v[i].1@))
}

fn is_dep_file_name_exec(n: &[char]) -> (r: bool)
    ensures
        r == is_dep_file_name(n@),
{
    eq_str(n, "Cargo.lock") || eq_str(n, "Cargo.toml") || eq_str(n, "package-lock.json") || eq_str(
        n,
        "package.json",
    ) || eq_str(n, "go.sum") || eq_str(n, "go.mod") || eq_str(n, "requirements.txt")
}

/// The readable lockfiles and manifests of the tree.
pub fn dep_files_exec(entries: &Vec<TreeEntry>, ignore_dirs: &Vec<String>) -> (r: Vec<(String, String)>)
    ensures
        files_view(r@) == dep_files(entries@, strings_view(ignore_dirs@)),
{
    let ghost iv = strings_view(ignore_dirs@);
    let defaults: Vec<&str> = vec!["vendor/", "node_modules/", ".git/", "target/", "dist/", "build/"];
    proof {
        assert(strs_view(defaults@) =~= fix_skip_dirs());
    }
    let mut r: Vec<(String, String)> = Vec::new();
    let mut i: usize = 0;
    proof {
        assert(entries@.take(0) =~= Seq::<TreeEntry>::empty());
        assert(files_view(r@) =~= Seq::<(Seq<char>, Seq<char>)>::empty());
    }
    while i < entries.len()
        invariant
            i <= entries@.len(),
            iv == strings_view(ignore_dirs@),
            strs_view(defaults@) == fix_skip_dirs(),
            files_view(r@) == dep_files(entries@.take(i as int), iv),
        decreases entries@.len() - i,
    {
        let e = &entries[i];
        proof {
            assert(entries@.take(i + 1).drop_last() =~= entries@.take(i as int));
            assert(entries@.take(i + 1).last() == *e);
        }
        let mut path = chars_of(e.dir.as_str());
        extend_str(&mut path, e.name.as_str());
        assert(path@ == entry_path(*e));
        let name = chars_of(e.name.as_str());
        if !is_skipped(&path, defaults.as_slice(), ignore_dirs.as_slice()) && is_dep_file_name_exec(&name) {
            match &e.content {
                BlobContent::Text(c) => {
                    let ghost before = files_view(r@);
                    r.push((string_of(&path), c.clone()));
                    proof {
                        assert(files_view(r@) =~= before.push((path@, c@)));
                    }
                },
                _ => {},
            }
        }
        i += 1;
    }
    proof {
        assert(entries@.take(entries@.len() as int) =~= entries@);
    }
    r
}

/// The content of the file at `path`.
fn file_lookup_exec<'a>(files: &'a Vec<(String, String)>, path: &[char]) -> (r: Option<&'a String>)
    ensures
        r matches Some(c) ==> file_lookup(files_view(files@), path@) == Some(c@),
        r is None ==> file_lookup(files_view(files@), path@) is None,
{
    let ghost fv = files_view(files@);
    let mut i: usize = 0;
    proof {
        assert(fv.take(0) =~= Seq::<(Seq<char>, Seq<char>)>::empty());
    }
    while i < files.len()
        invariant
            i <= files@.len(),
            fv == files_view(files@),
            file_lookup(fv.take(i as int), path@) is None,
        decreases files@.len() - i,
    {
        proof {
            assert(fv.take(i + 1).drop_last() =~= fv.take(i as int));
            assert(fv.take(i + 1).last() == (files@[i as int].0@, files@[i as int].1@));
        }
        let p = chars_of(files[i].0.as_str());
        if seq_eq(&p, path) {
            proof {
                lemma_lookup_prefix(fv, i + 1, path@);
            }
            return Some(&files[i].1);
        }
        i += 1;
    }
    proof {
        assert(fv.take(files@.len() as int) =~= fv);
    }
    None
}

proof fn lemma_lookup_prefix(fs: Seq<(Seq<char>, Seq<char>)>, k: int, path: Seq<char>)
    requires
        0 <= k <= fs.len(),
        file_lookup(fs.take(k), path) is Some,
    ensures
        file_lookup(fs, path) == file_lookup(fs.take(k), path),
    decreases fs.len() - k,
{
    if k < fs.len() {
        assert(fs.take(k + 1).drop_last() =~= fs.take(k));
        lemma_lookup_prefix(fs, k + 1, path);
    } else {
        assert(fs.take(k) =~= fs);
    }
}

fn lookup_str<'a>(files: &'a Vec<(String, String)>, path: &str) -> (r: Option<&'a str>)
    ensures
        r matches Some(c) ==> file_lookup(files_view(files@), path@) == Some(c@),
        r is None ==> file_lookup(files_view(files@), path@) is None,
{
    let p = chars_of(path);
    match file_lookup_exec(files, &p) {
        Some(c) => Some(c.as_str()),
        None => None,
    }
}

fn replace_str_exec(s: &[char], from: &str, to: &str) -> (r: Vec<char>)
    requires
        from@.len() > 0,
    ensures
        r@ == replace_str(s@, from@, to@),
{
    let parts = split_str_exec(s, from);
    let ghost pv = views(parts@);
    let mut r: Vec<char> = Vec::new();
    let mut i: usize = 0;
    proof {
        assert(pv.take(0) =~= Seq::<Seq<char>>::empty());
    }
    while i < parts.len()
        invariant
            i <= parts@.len(),
            pv == views(parts@),
            r@ == join(pv.take(i as int), to@),
        decreases parts@.len() - i,
    {
        let ghost before = r@;
        if i > 0 {
            extend_str(&mut r, to);
        }
        extend(&mut r, &parts[i]);
        proof {
            crate::text::lemma_join_take(pv, to@, i as int);
            if i == 0 {
                assert(r@ =~= pv[0]);
            } else {
                assert(r@ =~= before + to@ + pv[i as int]);
            }
        }
        i += 1;
    }
    proof {
        assert(pv.take(parts@.len() as int) =~= pv);
    }
    r
}

pub open spec fn labelled_view(v: Seq<(String, DepGraph)>) -> Seq<(Seq<char>, GraphSpec)> {
    Seq::new(v.len(), |i: int| (v[i].0@, graph_spec_of(v[i].1)))
}

fn push_graph(gs: &mut Vec<(String, DepGraph)>, label: String, g: DepGraph)
    requires
        forall|i: int| 0 <= i < old(gs)@.len() ==> graph_wf(#[trigger] old(gs)@[i].1),
        graph_wf(g),
    ensures
        labelled_view(final(gs)@) == labelled_view(old(gs)@).push((label@, graph_spec_of(g))),
        forall|i: int| 0 <= i < final(gs)@.len() ==> graph_wf(#[trigger] final(gs)@[i].1),
{
    let ghost lv = label@;
    let ghost gv = graph_spec_of(g);
    gs.push((label, g));
    proof {
        assert(labelled_view(gs@) =~= labelled_view(old(gs)@).push((lv, gv)));
    }
}

/// Builds the graphs of the dependency files, in report order.
pub fn collect_graphs(files: &Vec<(String, String)>) -> (r: Vec<(String, DepGraph)>)
    ensures
        labelled_view(r@) == graphs_spec(files_view(files@)),
        forall|i: int| 0 <= i < r@.len() ==> graph_wf(#[trigger] r@[i].1),
{
    let ghost fv = files_view(files@);
    let mut gs: Vec<(String, DepGraph)> = Vec::new();
    proof {
        assert(labelled_view(gs@) =~= Seq::<(Seq<char>, GraphSpec)>::empty());
    }
    match lookup_str(files, "Cargo.lock") {
        Some(l) => {
            let m = lookup_str(files, "Cargo.toml");
            let g = build_cargo_graph(l, m);
            push_graph(&mut gs, "Rust (Cargo)".to_string(), g);
        },
        None => {},
    }
    let ghost a1 = labelled_view(gs@);
    proof {
        assert(a1 =~= root_cargo(fv));
    }
    match lookup_str(files, "package-lock.json") {
        Some(l) => {
            let m = lookup_str(files, "package.json");
            let g = build_npm_graph(l, m);
            push_graph(&mut gs, "Node.js (npm)".to_string(), g);
        },
        None => {},
    }
    let ghost a2 = labelled_view(gs@);
    proof {
        assert(a2 =~= a1 + root_npm(fv));
    }
    match lookup_str(files, "go.sum") {
        Some(sum) => {
            let m = lookup_str(files, "go.mod");
            let g = build_go_graph(sum, m);
            push_graph(&mut gs, "Go".to_string(), g);
        },
        None => {},
    }
    let ghost a3 = labelled_view(gs@);
    proof {
        assert(a3 =~= a2 + root_go(fv));
    }
    match lookup_str(files, "requirements.txt") {
        Some(req) => {
            let g = build_python_graph(req);
            proof {
                assert(edges_view(g.edges@) =~= Seq::<(Seq<char>, Seq<char>)>::empty());
                assert(names_view(g.direct_deps@) =~= Seq::<Seq<char>>::empty());
                assert(graph_spec_of(g) == python_graph_spec(req@));
            }
            push_graph(&mut gs, "Python".to_string(), g);
        },
        None => {},
    }
    proof {
        assert(labelled_view(gs@) =~= a3 + root_python(fv));
        assert(labelled_view(gs@) =~= root_graphs(fv));
    }
    let ghost base = labelled_view(gs@);
    let mut i: usize = 0;
    proof {
        assert(fv.take(0) =~= Seq::<(Seq<char>, Seq<char>)>::empty());
        assert(labelled_view(gs@) =~= base + nested_graphs(fv.take(0), fv));
    }
    while i < files.len()
        invariant
            i <= files@.len(),
            fv == files_view(files@),
            labelled_view(gs@) == base + nested_graphs(fv.take(i as int), fv),
            forall|k: int| 0 <= k < gs@.len() ==> graph_wf(#[trigger] gs@[k].1),
        decreases files@.len() - i,
    {
        proof {
            assert(fv.take(i + 1).drop_last() =~= fv.take(i as int));
            assert(fv.take(i + 1).last() == (files@[i as int].0@, files@[i as int].1@));
        }
        let ghost before = labelled_view(gs@);
        let path = chars_of(files[i].0.as_str());
        let content = files[i].1.as_str();
        if eq_str(&path, "Cargo.lock") || eq_str(&path, "package-lock.json") || eq_str(&path, "go.sum")
            || eq_str(&path, "requirements.txt") {
        } else if ends_with_str(&path, "Cargo.lock") {
            proof {
                reveal_strlit("Cargo.lock");
            }
            let mp = replace_str_exec(&path, "Cargo.lock", "Cargo.toml");
            let m = match file_lookup_exec(files, &mp) {
                Some(c) => Some(c.as_str()),
                None => None,
            };
            let g = build_cargo_graph(content, m);
            let mut label = chars_of("Rust (");
            extend(&mut label, &path);
            extend_str(&mut label, ")");
            push_graph(&mut gs, string_of(&label), g);
            proof {
                assert(labelled_view(gs@) =~= base + nested_graphs(fv.take(i + 1), fv));
            }
        } else if ends_with_str(&path, "package-lock.json") {
            proof {
                reveal_strlit("package-lock.json");
            }
            let mp = replace_str_exec(&path, "package-lock.json", "package.json");
            let m = match file_lookup_exec(files, &mp) {
                Some(c) => Some(c.as_str()),
                None => None,
            };
            let g = build_npm_graph(content, m);
            let mut label = chars_of("Node.js (");
            extend(&mut label, &path);
            extend_str(&mut label, ")");
            push_graph(&mut gs, string_of(&label), g);
            proof {
                assert(labelled_view(gs@) =~= base + nested_graphs(fv.take(i + 1), fv));
            }
        }
        i += 1;
    }
    proof {
        assert(fv.take(files@.len() as int) =~= fv);
    }
    gs
}


/// What the report found about one graph.
pub struct GraphAnalysis {
    pub ecosystem: String,
    pub graph: DepGraph,
    pub cycles: Vec<Vec<String>>,
    pub phantom: Vec<String>,
    pub reachable: Vec<String>,
    pub unreachable: Vec<String>,
}

/// The smaller of two numbers.
pub open spec fn min_nat(a: nat, b: nat) -> nat {
    if a < b {
        a
    } else {
        b
    }
}

/// The line for the `i`-th cycle (from 0): its chain, closed by its first name.
pub open spec fn cycle_line(i: nat, c: Seq<Seq<char>>) -> Seq<char> {
    "      "@ + decimal(i + 1) + ". "@ + join(c, " → "@) + " → "@ + (if c.len() > 0 {
        c[0]
    } else {
        Seq::empty()
    })
}

/// The report's lines on circular dependencies (at most ten chains listed).
pub open spec fn cycles_lines(cs: Seq<Seq<Seq<char>>>) -> Seq<Seq<char>> {
    if cs.len() == 0 {
        seq![ok_line("No circular dependencies detected"@)]
    } else {
        seq![warning_line(decimal(cs.len()) + " circular dependency chain(s) detected:"@)] + Seq::new(
            min_nat(10, cs.len()),
            |i: int| cycle_line(i as nat, cs[i]),
        )
    }
}

/// The version of the package named `p`, or nothing.
pub open spec fn node_version(ns: Seq<NodeView>, p: Seq<char>) -> Seq<char> {
    if find_node(ns, p) >= 0 {
        ns[find_node(ns, p)].1
    } else {
        Seq::empty()
    }
}

/// The rows of the unused dependency table (at most twenty).
pub open spec fn phantom_rows(ns: Seq<NodeView>, ps: Seq<Seq<char>>) -> Seq<Seq<Seq<char>>> {
    Seq::new(min_nat(20, ps.len()), |i: int| seq![ps[i], node_version(ns, ps[i])])
}

/// The report's lines on unused dependencies.
pub open spec fn phantom_lines(ns: Seq<NodeView>, ps: Seq<Seq<char>>) -> Seq<Seq<char>> {
    if ps.len() == 0 {
        seq![ok_line("No phantom (unused) dependencies detected"@)]
    } else {
        seq![warning_line(decimal(ps.len()) + " potentially unused dependencies:"@)] + table_lines_v(
            seq!["Package"@, "Version"@],
            phantom_rows(ns, ps),
        )
    }
}

/// The report's lines on reachability (unreachable packages listed when at most ten).
pub open spec fn reach_lines(reach_count: nat, un: Seq<Seq<char>>) -> Seq<Seq<char>> {
    seq![summary_stat_line("Reachable packages"@, decimal(reach_count))] + if un.len() > 0 {
        seq![info_line(decimal(un.len()) + " packages are not reachable from direct dependencies"@)]
            + if un.len() <= 10 {
            Seq::new(un.len(), |i: int| "      - "@ + un[i])
        } else {
            Seq::empty()
        }
    } else {
        Seq::empty()
    }
}

/// The report's lines on one graph.
pub open spec fn analysis_lines(a: GraphAnalysis) -> Seq<Seq<char>> {
    let ns = nodes_view(a.graph.nodes@);
    seq![
        ""@,
        "    \x1b[1m"@ + a.ecosystem@ + "\x1b[0m"@,
        summary_stat_line("Packages"@, decimal(ns.len())),
        summary_stat_line("Dependency edges"@, decimal(a.graph.edges@.len())),
        summary_stat_line("Direct dependencies"@, decimal(a.graph.direct_deps@.len())),
    ] + cycles_lines(cycles_view(a.cycles@)) + phantom_lines(ns, names_view(a.phantom@)) + reach_lines(
        a.reachable@.len(),
        names_view(a.unreachable@),
    )
}

/// The report's lines on all graphs.
pub open spec fn analyses_lines(v: Seq<GraphAnalysis>) -> Seq<Seq<char>>
    decreases v.len(),
{
    if v.len() == 0 {
        Seq::empty()
    } else {
        analyses_lines(v.drop_last()) + analysis_lines(v.last())
    }
}

/// The DOT text of all graphs, one after the other.
pub open spec fn analyses_dot(v: Seq<GraphAnalysis>) -> Seq<char>
    decreases v.len(),
{
    if v.len() == 0 {
        Seq::empty()
    } else {
        analyses_dot(v.drop_last()) + buffered_text(
            dot_lines(
                nodes_view(v.last().graph.nodes@),
                edges_view(v.last().graph.edges@),
                names_view(v.last().graph.direct_deps@),
                cycles_view(v.last().cycles@),
            ),
        )
    }
}

/// The unused dependency table of each graph can be printed.
pub open spec fn analyses_printable(v: Seq<GraphAnalysis>) -> bool {
    forall|i: int| 0 <= i < v.len() ==> cells_cuttable_v(
        phantom_rows(nodes_view((#[trigger] v[i]).graph.nodes@), names_view(v[i].phantom@)),
    )
}

/// What each analysis holds is what the analyses compute for its graph: its
/// cycles are cycles of the graph; for every cycle through a package, one of
/// them lies among the names that package can reach and be reached from; and
/// none is reported twice when no edge is listed twice.
pub open spec fn analysis_ok(a: GraphAnalysis, entries: Seq<TreeEntry>, ignore: Seq<Seq<char>>) -> bool {
    let ns = nodes_view(a.graph.nodes@);
    let es = edges_view(a.graph.edges@);
    let ds = names_view(a.graph.direct_deps@);
    &&& forall|c: int| 0 <= c < a.cycles@.len() ==> is_cycle(es, #[trigger] names_view(a.cycles@[c]@))
    &&& forall|c: Seq<Seq<char>>| #[trigger] is_cycle(es, c) && crate::depgraph::node_names(ns).contains(c[0])
        ==> a.cycles@.len() > 0
    &&& forall|c: Seq<Seq<char>>| #[trigger] is_cycle(es, c) && crate::depgraph::node_names(ns).contains(c[0])
        ==> crate::depgraph::some_cycle_within(es, crate::depgraph::cycles_view(a.cycles@), c[0])
    &&& es.no_duplicates() ==> forall|c1: int, c2: int| 0 <= c1 < c2 < a.cycles@.len() ==> !crate::depgraph::is_rotation(
        #[trigger] names_view(a.cycles@[c1]@),
        #[trigger] names_view(a.cycles@[c2]@),
    )
    &&& sorted_names(names_view(a.phantom@))
    &&& names_view(a.phantom@).to_multiset() == unused_deps(ds, tree_imports(entries, ignore)).to_multiset()
    &&& names_view(a.reachable@).no_duplicates()
    &&& forall|x: Seq<char>| #[trigger] names_view(a.reachable@).contains(x) <==> reaches(ns, es, ds, x)
    &&& names_view(a.unreachable@) == unreachable_names(crate::depgraph::node_names(ns), ns, es, ds)
}

fn cycle_line_exec(i: usize, c: &Vec<String>) -> (r: Vec<char>)
    requires
        i < 10,
    ensures
        r@ == cycle_line(i as nat, names_view(c@)),
{
    let mut l: Vec<char> = Vec::new();
    extend_str(&mut l, "      ");
    let d = decimal_exec(i + 1);
    extend(&mut l, &d);
    extend_str(&mut l, ". ");
    let ghost cv = names_view(c@);
    let mut k: usize = 0;
    let ghost base = l@;
    proof {
        assert(cv.take(0) =~= Seq::<Seq<char>>::empty());
        assert(l@ =~= base + join(cv.take(0), " → "@));
    }
    while k < c.len()
        invariant
            k <= c@.len(),
            cv == names_view(c@),
            l@ == base + join(cv.take(k as int), " → "@),
        decreases c@.len() - k,
    {
        let ghost before = l@;
        if k > 0 {
            extend_str(&mut l, " → ");
        }
        extend_str(&mut l, c[k].as_str());
        proof {
            crate::text::lemma_join_take(cv, " → "@, k as int);
            if k == 0 {
                assert(l@ =~= base + cv[0]);
            } else {
                assert(l@ =~= base + (join(cv.take(k as int), " → "@) + " → "@ + cv[k as int]));
            }
        }
        k += 1;
    }
    proof {
        assert(cv.take(c@.len() as int) =~= cv);
    }
    extend_str(&mut l, " → ");
    if c.len() > 0 {
        extend_str(&mut l, c[0].as_str());
    }
    proof {
        assert(l@ =~= cycle_line(i as nat, cv));
    }
    l
}

fn node_version_exec(g: &DepGraph, p: &[char]) -> (r: Vec<char>)
    ensures
        r@ == node_version(nodes_view(g.nodes@), p@),
{
    let ghost ns = nodes_view(g.nodes@);
    let mut i: usize = 0;
    while i < g.nodes.len()
        invariant
            i <= g.nodes@.len(),
            ns == nodes_view(g.nodes@),
            forall|j: int| 0 <= j < i ==> (#[trigger] ns[j]).0 != p@,
        decreases g.nodes@.len() - i,
    {
        let c = chars_of(g.nodes[i].name.as_str());
        if seq_eq(&c, p) {
            proof {
                crate::depgraph::lemma_find_node_first(ns, p@, i as int);
            }
            return chars_of(g.nodes[i].version.as_str());
        }
        i += 1;
    }
    proof {
        crate::depgraph::lemma_find_node_absent(ns, p@);
    }
    Vec::new()
}

fn phantom_rows_exec(g: &DepGraph, ps: &Vec<String>) -> (r: Vec<Vec<String>>)
    ensures
        rows_view(r@) == phantom_rows(nodes_view(g.nodes@), names_view(ps@)),
{
    let n = if ps.len() < 20 {
        ps.len()
    } else {
        20
    };
    let ghost ns = nodes_view(g.nodes@);
    let ghost pv = names_view(ps@);
    let mut r: Vec<Vec<String>> = Vec::new();
    let mut i: usize = 0;
    while i < n
        invariant
            i <= n,
            n == min_nat(20, ps@.len()),
            ns == nodes_view(g.nodes@),
            pv == names_view(ps@),
            r@.len() == i,
            forall|k: int| 0 <= k < i ==> #[trigger] rows_view(r@)[k] == phantom_rows(ns, pv)[k],
        decreases n - i,
    {
        let pc = chars_of(ps[i].as_str());
        let v = node_version_exec(g, &pc);
        let mut row: Vec<String> = Vec::new();
        row.push(ps[i].clone());
        row.push(string_of(&v));
        let ghost before = r@;
        proof {
            assert(Seq::new(row@.len(), |j: int| row@[j]@) =~= phantom_rows(ns, pv)[i as int]);
        }
        r.push(row);
        proof {
            assert forall|k: int| 0 <= k < i + 1 implies #[trigger] rows_view(r@)[k] == phantom_rows(ns, pv)[k] by {
                if k < i {
                    assert(r@[k] == before[k]);
                    assert(rows_view(before)[k] == phantom_rows(ns, pv)[k]);
                    assert(rows_view(r@)[k] == rows_view(before)[k]);
                } else {
                    assert(r@[k] == row);
                }
            }
        }
        i += 1;
    }
    proof {
        assert(rows_view(r@) =~= phantom_rows(ns, pv));
    }
    r
}

/// The report's lines on one graph, when its unused dependency table can be printed.
fn analysis_lines_exec(a: &GraphAnalysis) -> (r: Option<Vec<Vec<char>>>)
    ensures
        r is Some <==> cells_cuttable_v(phantom_rows(nodes_view(a.graph.nodes@), names_view(a.phantom@))),
        r matches Some(ls) ==> views(ls@) == analysis_lines(*a),
{
    let ghost ns = nodes_view(a.graph.nodes@);
    let rows = phantom_rows_exec(&a.graph, &a.phantom);
    let printable = table_printable(rows.as_slice());
    proof {
        crate::display::lemma_table_view(Seq::<&str>::empty(), rows@);
    }
    if !printable {
        return None;
    }
    let mut ls: Vec<Vec<char>> = Vec::new();
    push_line(&mut ls, str_line(""));
    let mut h = chars_of("    \x1b[1m");
    extend_str(&mut h, a.ecosystem.as_str());
    extend_str(&mut h, "\x1b[0m");
    push_line(&mut ls, h);
    push_line(&mut ls, summary_line_exec("Packages", &decimal_exec(a.graph.nodes.len())));
    push_line(&mut ls, summary_line_exec("Dependency edges", &decimal_exec(a.graph.edges.len())));
    push_line(&mut ls, summary_line_exec("Direct dependencies", &decimal_exec(a.graph.direct_deps.len())));
    proof {
        assert(views(ls@) =~= seq![
            ""@,
            "    \x1b[1m"@ + a.ecosystem@ + "\x1b[0m"@,
            summary_stat_line("Packages"@, decimal(ns.len())),
            summary_stat_line("Dependency edges"@, decimal(a.graph.edges@.len())),
            summary_stat_line("Direct dependencies"@, decimal(a.graph.direct_deps@.len())),
        ]);
    }
    let ghost l1 = views(ls@);
    // Cycles.
    let ghost cv = cycles_view(a.cycles@);
    if a.cycles.len() == 0 {
        push_line(&mut ls, ok_line_exec("No circular dependencies detected"));
        proof {
            assert(views(ls@) =~= l1 + cycles_lines(cv));
        }
    } else {
        let mut w = decimal_exec(a.cycles.len());
        extend_str(&mut w, " circular dependency chain(s) detected:");
        push_line(&mut ls, warning_line_exec(&w));
        let ghost l2 = views(ls@);
        let n = if a.cycles.len() < 10 {
            a.cycles.len()
        } else {
            10
        };
        let mut i: usize = 0;
        while i < n
            invariant
                i <= n,
                n == min_nat(10, a.cycles@.len()),
                cv == cycles_view(a.cycles@),
                views(ls@) == l2 + Seq::new(i as nat, |k: int| cycle_line(k as nat, cv[k])),
            decreases n - i,
        {
            let l = cycle_line_exec(i, &a.cycles[i]);
            let ghost before = views(ls@);
            push_line(&mut ls, l);
            proof {
                assert(cv[i as int] == names_view(a.cycles@[i as int]@));
                assert(views(ls@) =~= l2 + Seq::new((i + 1) as nat, |k: int| cycle_line(k as nat, cv[k])));
            }
            i += 1;
        }
        proof {
            assert(views(ls@) =~= l1 + cycles_lines(cv));
        }
    }
    let ghost l3 = views(ls@);
    // Unused dependencies.
    let ghost pv = names_view(a.phantom@);
    if a.phantom.len() == 0 {
        push_line(&mut ls, ok_line_exec("No phantom (unused) dependencies detected"));
        proof {
            assert(views(ls@) =~= l3 + phantom_lines(ns, pv));
        }
    } else {
        let mut w = decimal_exec(a.phantom.len());
        extend_str(&mut w, " potentially unused dependencies:");
        push_line(&mut ls, warning_line_exec(&w));
        let h: Vec<&str> = vec!["Package", "Version"];
        proof {
            assert(headers_view(h@) =~= seq!["Package"@, "Version"@]);
        }
        let t = table_lines_exec(h.as_slice(), rows.as_slice());
        push_lines(&mut ls, t);
        proof {
            assert(views(ls@) =~= l3 + phantom_lines(ns, pv));
        }
    }
    let ghost l4 = views(ls@);
    // Reachability.
    push_line(&mut ls, summary_line_exec("Reachable packages", &decimal_exec(a.reachable.len())));
    let ghost uv = names_view(a.unreachable@);
    if a.unreachable.len() > 0 {
        let mut m = decimal_exec(a.unreachable.len());
        extend_str(&mut m, " packages are not reachable from direct dependencies");
        push_line(&mut ls, info_line_exec(&m));
        if a.unreachable.len() <= 10 {
            let ghost l5 = views(ls@);
            let mut i: usize = 0;
            while i < a.unreachable.len()
                invariant
                    i <= a.unreachable@.len(),
                    uv == names_view(a.unreachable@),
                    views(ls@) == l5 + Seq::new(i as nat, |k: int| "      - "@ + uv[k]),
                decreases a.unreachable@.len() - i,
            {
                let mut l = chars_of("      - ");
                extend_str(&mut l, a.unreachable[i].as_str());
                push_line(&mut ls, l);
                proof {
                    assert(views(ls@) =~= l5 + Seq::new((i + 1) as nat, |k: int| "      - "@ + uv[k]));
                }
                i += 1;
            }
        }
    }
    proof {
        assert(views(ls@) =~= l4 + reach_lines(a.reachable@.len(), uv));
        assert(views(ls@) =~= analysis_lines(*a));
    }
    Some(ls)
}


/// The dependency graph analysis of the files of the tree (the walk's
/// entries, in walk order), skipping `ignore_dirs`: the report is written
/// to `o`; the DOT text of all graphs is returned (when graphs were built),
/// with what was found about each graph.
///
/// When an unused dependency table cannot be printed (a cell longer than 50
/// bytes that cannot be cut at byte 49), nothing is written and the flag is `false`.
pub fn depgraph_analysis(o: &mut Output, entries: &Vec<TreeEntry>, ignore_dirs: &Vec<String>) -> (r: (
    bool,
    Option<String>,
    Vec<GraphAnalysis>,
))
    ensures
        ({
            let files = dep_files(entries@, strings_view(ignore_dirs@));
            let gs = graphs_spec(files);
            &&& files.len() == 0 ==> r.0 && r.1 is None && r.2@.len() == 0 && final(o)@
                == write_lines(
                old(o)@,
                seq![info_line("No dependency files found (Cargo.lock, package-lock.json, go.sum, requirements.txt)"@)],
            )
            &&& files.len() > 0 && gs.len() == 0 ==> r.0 && r.1 is None && r.2@.len() == 0 && final(o)@
                == write_lines(old(o)@, seq![info_line("No dependency graphs could be built"@)])
            &&& files.len() > 0 && gs.len() > 0 ==> {
                &&& r.2@.len() == gs.len()
                &&& forall|i: int|
                    0 <= i < gs.len() ==> (#[trigger] r.2@[i]).ecosystem@ == gs[i].0 && graph_spec_of(
                        r.2@[i].graph,
                    ) == gs[i].1 && analysis_ok(r.2@[i], entries@, strings_view(ignore_dirs@))
                &&& r.0 == analyses_printable(r.2@)
                &&& r.0 ==> (final(o)@ == write_lines(old(o)@, analyses_lines(r.2@)) && (r.1 matches Some(d)
                    && d@ == analyses_dot(r.2@)))
                &&& !r.0 ==> final(o)@ == old(o)@ && r.1 is None
            }
        }),
{
    let ghost iv = strings_view(ignore_dirs@);
    let ghost o0 = o@;
    let files = dep_files_exec(entries, ignore_dirs);
    if files.len() == 0 {
        crate::display::print_info(o, "No dependency files found (Cargo.lock, package-lock.json, go.sum, requirements.txt)");
        proof {
            crate::display::lemma_write_lines_one(o0, info_line("No dependency files found (Cargo.lock, package-lock.json, go.sum, requirements.txt)"@));
        }
        return (true, None, Vec::new());
    }
    let gs = collect_graphs(&files);
    let ghost gsv = graphs_spec(files_view(files@));
    if gs.len() == 0 {
        crate::display::print_info(o, "No dependency graphs could be built");
        proof {
            crate::display::lemma_write_lines_one(o0, info_line("No dependency graphs could be built"@));
        }
        return (true, None, Vec::new());
    }
    let mut analyses: Vec<GraphAnalysis> = Vec::new();
    let mut gs = gs;
    let n = gs.len();
    let ghost lv = labelled_view(gs@);
    let mut k: usize = 0;
    while k < n
        invariant
            n == gs@.len(),
            k <= n,
            lv == labelled_view(gs@),
            lv == gsv,
            analyses@.len() == k,
            forall|i: int|
                0 <= i < k ==> (#[trigger] analyses@[i]).ecosystem@ == gsv[i].0 && graph_spec_of(
                    analyses@[i].graph,
                ) == gsv[i].1 && analysis_ok(analyses@[i], entries@, iv),
            iv == strings_view(ignore_dirs@),
        decreases n - k,
    {
        let eco = gs[k].0.clone();
        let g = &gs[k].1;
        let cycles = find_cycles(g);
        let phantom = find_phantom_deps(g, entries, ignore_dirs);
        let (reachable, unreachable) = reachability(g);
        let ghost gv = graph_spec_of(*g);
        let graph = clone_graph(g);
        let a = GraphAnalysis { ecosystem: eco, graph, cycles, phantom, reachable, unreachable };
        proof {
            assert(lv[k as int] == (gs@[k as int].0@, graph_spec_of(gs@[k as int].1)));
            assert(graph_spec_of(a.graph) == gv);
            assert(analysis_ok(a, entries@, iv));
        }
        analyses.push(a);
        k += 1;
    }
    match render_analyses(&analyses) {
        Some((all, dot)) => {
            out_all(o, &all);
            (true, Some(string_of(&dot)), analyses)
        },
        None => (false, None, analyses),
    }
}

/// The report lines and DOT text of all analyses, when every table can be printed.
fn render_analyses(analyses: &Vec<GraphAnalysis>) -> (r: Option<(Vec<Vec<char>>, Vec<char>)>)
    ensures
        r is Some <==> analyses_printable(analyses@),
        r matches Some(x) ==> views(x.0@) == analyses_lines(analyses@) && x.1@ == analyses_dot(analyses@),
{
    let mut all: Vec<Vec<char>> = Vec::new();
    let mut dot: Vec<char> = Vec::new();
    let mut i: usize = 0;
    proof {
        assert(analyses@.take(0) =~= Seq::<GraphAnalysis>::empty());
        assert(views(all@) =~= Seq::<Seq<char>>::empty());
    }
    while i < analyses.len()
        invariant
            i <= analyses@.len(),
            views(all@) == analyses_lines(analyses@.take(i as int)),
            dot@ == analyses_dot(analyses@.take(i as int)),
            forall|j: int| 0 <= j < i ==> cells_cuttable_v(
                phantom_rows(nodes_view((#[trigger] analyses@[j]).graph.nodes@), names_view(analyses@[j].phantom@)),
            ),
        decreases analyses@.len() - i,
    {
        proof {
            assert(analyses@.take(i + 1).drop_last() =~= analyses@.take(i as int));
            assert(analyses@.take(i + 1).last() == analyses@[i as int]);
        }
        match analysis_lines_exec(&analyses[i]) {
            Some(ls) => {
                push_lines(&mut all, ls);
                let d = generate_dot(&analyses[i].graph, &analyses[i].cycles);
                extend_str(&mut dot, d.as_str());
            },
            None => {
                return None;
            },
        }
        i += 1;
    }
    proof {
        assert(analyses@.take(analyses@.len() as int) =~= analyses@);
    }
    Some((all, dot))
}

/// A copy of a graph.
fn clone_graph(g: &DepGraph) -> (r: DepGraph)
    ensures
        graph_spec_of(r) == graph_spec_of(*g),
{
    let mut nodes: Vec<crate::depgraph::DepNode> = Vec::new();
    let mut i: usize = 0;
    while i < g.nodes.len()
        invariant
            i <= g.nodes@.len(),
            nodes@.len() == i,
            forall|k: int| 0 <= k < i ==> #[trigger] nodes_view(nodes@)[k] == nodes_view(g.nodes@)[k],
        decreases g.nodes@.len() - i,
    {
        let n = &g.nodes[i];
        let ghost before = nodes@;
        nodes.push(crate::depgraph::DepNode { name: n.name.clone(), version: n.version.clone(), source: n.source.clone() });
        proof {
            assert forall|k: int| 0 <= k < i + 1 implies #[trigger] nodes_view(nodes@)[k] == nodes_view(g.nodes@)[k] by {
                if k < i {
                    assert(nodes@[k] == before[k]);
                    assert(nodes_view(before)[k] == nodes_view(g.nodes@)[k]);
                }
            }
        }
        i += 1;
    }
    let mut edges: Vec<crate::depgraph::DepEdge> = Vec::new();
    let mut k: usize = 0;
    while k < g.edges.len()
        invariant
            k <= g.edges@.len(),
            edges@.len() == k,
            forall|j: int| 0 <= j < k ==> #[trigger] edges_view(edges@)[j] == edges_view(g.edges@)[j],
        decreases g.edges@.len() - k,
    {
        let e = &g.edges[k];
        let ghost before = edges@;
        edges.push(crate::depgraph::DepEdge { from: e.from.clone(), to: e.to.clone() });
        proof {
            assert forall|j: int| 0 <= j < k + 1 implies #[trigger] edges_view(edges@)[j] == edges_view(g.edges@)[j] by {
                if j < k {
                    assert(edges@[j] == before[j]);
                    assert(edges_view(before)[j] == edges_view(g.edges@)[j]);
                }
            }
        }
        k += 1;
    }
    let mut direct: Vec<String> = Vec::new();
    let mut d: usize = 0;
    while d < g.direct_deps.len()
        invariant
            d <= g.direct_deps@.len(),
            direct@.len() == d,
            forall|j: int| 0 <= j < d ==> #[trigger] direct@[j]@ == g.direct_deps@[j]@,
        decreases g.direct_deps@.len() - d,
    {
        direct.push(g.direct_deps[d].clone());
        d += 1;
    }
    let r = DepGraph { nodes, edges, direct_deps: direct };
    proof {
        assert(nodes_view(r.nodes@) =~= nodes_view(g.nodes@));
        assert(edges_view(r.edges@) =~= edges_view(g.edges@));
        assert(names_view(r.direct_deps@) =~= names_view(g.direct_deps@));
    }
    r
}

/// Runs the dependency graph and reachability analysis: a sub-header, then
/// the analysis of the tree's dependency files (see [`depgraph_analysis`]).
pub fn depgraph_scan(o: &mut Output, entries: &Vec<TreeEntry>, ignore_dirs: &Vec<String>) -> (r: (
    bool,
    Option<String>,
    Vec<GraphAnalysis>,
))
    ensures
        ({
            let h = write_lines(old(o)@, sub_header_lines("Dependency Graph & Reachability Analysis"@));
            let files = dep_files(entries@, strings_view(ignore_dirs@));
            let gs = graphs_spec(files);
            &&& files.len() == 0 ==> r.0 && r.1 is None && r.2@.len() == 0 && final(o)@
                == write_lines(
                h,
                seq![info_line("No dependency files found (Cargo.lock, package-lock.json, go.sum, requirements.txt)"@)],
            )
            &&& files.len() > 0 && gs.len() == 0 ==> r.0 && r.1 is None && r.2@.len() == 0 && final(o)@
                == write_lines(h, seq![info_line("No dependency graphs could be built"@)])
            &&& files.len() > 0 && gs.len() > 0 ==> {
                &&& r.2@.len() == gs.len()
                &&& forall|i: int|
                    0 <= i < gs.len() ==> (#[trigger] r.2@[i]).ecosystem@ == gs[i].0 && graph_spec_of(
                        r.2@[i].graph,
                    ) == gs[i].1 && analysis_ok(r.2@[i], entries@, strings_view(ignore_dirs@))
                &&& r.0 == analyses_printable(r.2@)
                &&& r.0 ==> (final(o)@ == write_lines(h, analyses_lines(r.2@)) && (r.1 matches Some(d)
                    && d@ == analyses_dot(r.2@)))
                &&& !r.0 ==> final(o)@ == h && r.1 is None
            }
        }),
{
    crate::display::print_sub_header(o, "Dependency Graph & Reachability Analysis");
    depgraph_analysis(o, entries, ignore_dirs)
}

} // verus!
