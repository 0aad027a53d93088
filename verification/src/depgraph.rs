//! Dependency graphs built from lockfiles and manifests, with cycle
//! detection, reachability from the direct dependencies and DOT output.
use vstd::prelude::*;
use crate::autofix::{
    go_sum_entries, names_of, npm_package_name, requirement_of, requirements_entries,
};
use crate::text::{
    chars_of, contains, contains_str, eq_str, extend, extend_str, lines, lines_of, seq_eq, slice,
    split_str_exec, split_ws, split_ws_exec, starts_with, starts_with_str, string_of,
    strip_prefix, strip_prefix_str, trim, trim_char, trim_char_exec, trim_end_matches,
    trim_end_matches_str, trim_exec, trim_qc, trim_qc_exec, views,
};
use crate::license::keys_or_empty;
use crate::text::{
    ends_with, ends_with_str, find, find_exec, lowercase, replace_char, replace_char_exec, split_str,
    to_lower, trim_start_matches, trim_start_matches_str,
};
use crate::tree::{entry_path, is_skipped, skipped, strings_view, strs_view, BlobContent, TreeEntry};
use crate::value::{get, get_field, get_keys, get_keys_exec, get_str, get_str_exec, json_parse, parse_json, parse_toml, toml_parse, DocValue};

verus! {

/// A package of a dependency graph.
pub struct DepNode {
    pub name: String,
    pub version: String,
    pub source: String,
}

/// A dependency of one package on another, by name.
pub struct DepEdge {
    pub from: String,
    pub to: String,
}

/// A dependency graph: packages (at most one per name), edges, and the names
/// the manifest declares directly (each once).
pub struct DepGraph {
    pub nodes: Vec<DepNode>,
    pub edges: Vec<DepEdge>,
    pub direct_deps: Vec<String>,
}

/// A package as (name, version, source).
pub type NodeView = (Seq<char>, Seq<char>, Seq<char>);

pub open spec fn nodes_view(v: Seq<DepNode>) -> Seq<NodeView> {
    Seq::new(v.len(), |i: int| (v[i].name@, v[i].version@, v[i].source@))
}

pub open spec fn edges_view(v: Seq<DepEdge>) -> Seq<(Seq<char>, Seq<char>)> {
    Seq::new(v.len(), |i: int| (v[i].from@, v[i].to@))
}

pub open spec fn names_view(v: Seq<String>) -> Seq<Seq<char>> {
    Seq::new(v.len(), |i: int| v[i]@)
}

/// The names of the packages.
pub open spec fn node_names(ns: Seq<NodeView>) -> Seq<Seq<char>> {
    Seq::new(ns.len(), |i: int| ns[i].0)
}

/// The first index of the package named `name`, or -1.
pub open spec fn find_node(ns: Seq<NodeView>, name: Seq<char>) -> int
    decreases ns.len(),
{
    if ns.len() == 0 {
        -1
    } else if find_node(ns.drop_last(), name) >= 0 {
        find_node(ns.drop_last(), name)
    } else if ns.last().0 == name {
        ns.len() - 1
    } else {
        -1
    }
}

/// Map insertion by name: the package replaces the one of the same name,
/// or is added at the end.
pub open spec fn insert_node(ns: Seq<NodeView>, n: NodeView) -> Seq<NodeView> {
    let i = find_node(ns, n.0);
    if i >= 0 {
        ns.update(i, n)
    } else {
        ns.push(n)
    }
}

/// Set insertion: `x` is added at the end unless already present.
pub open spec fn insert_name(s: Seq<Seq<char>>, x: Seq<char>) -> Seq<Seq<char>> {
    if s.contains(x) {
        s
    } else {
        s.push(x)
    }
}

/// The graph's package names are distinct and so are its direct dependencies.
pub open spec fn graph_wf(g: DepGraph) -> bool {
    node_names(nodes_view(g.nodes@)).no_duplicates() && names_view(g.direct_deps@).no_duplicates()
}

proof fn lemma_find_node(ns: Seq<NodeView>, name: Seq<char>)
    ensures
        find_node(ns, name) >= 0 ==> find_node(ns, name) < ns.len() && ns[find_node(ns, name)].0 == name,
        find_node(ns, name) < 0 ==> find_node(ns, name) == -1 && !node_names(ns).contains(name),
        find_node(ns, name) >= 0 ==> forall|j: int| 0 <= j < find_node(ns, name) ==> ns[j].0 != name,
    decreases ns.len(),
{
    if ns.len() > 0 {
        lemma_find_node(ns.drop_last(), name);
        let p = ns.drop_last();
        if find_node(p, name) >= 0 {
            assert forall|j: int| 0 <= j < find_node(ns, name) implies ns[j].0 != name by {
                assert(ns[j] == p[j]);
            }
        }
        if find_node(p, name) < 0 {
            assert forall|j: int| 0 <= j < p.len() implies ns[j].0 != name by {
                assert(ns[j] == p[j]);
                assert(node_names(p)[j] == p[j].0);
            }
            assert forall|j: int| 0 <= j < p.len() implies node_names(ns)[j] != name by {
                assert(node_names(p)[j] == node_names(ns)[j]);
            }
            if ns.last().0 != name {
                assert forall|j: int| 0 <= j < ns.len() implies node_names(ns)[j] != name by {
                    if j < p.len() {
                        assert(node_names(p)[j] == node_names(ns)[j]);
                    }
                }
            }
        }
    }
}

/// Inserting a package keeps the package names distinct.
pub proof fn lemma_insert_node_unique(ns: Seq<NodeView>, n: NodeView)
    requires
        node_names(ns).no_duplicates(),
    ensures
        node_names(insert_node(ns, n)).no_duplicates(),
        node_names(insert_node(ns, n)).contains(n.0),
{
    lemma_find_node(ns, n.0);
    let i = find_node(ns, n.0);
    if i >= 0 {
        assert(node_names(insert_node(ns, n)) =~= node_names(ns));
        assert(node_names(ns)[i] == n.0);
    } else {
        assert(node_names(insert_node(ns, n)) =~= node_names(ns).push(n.0));
        assert(node_names(insert_node(ns, n))[ns.len() as int] == n.0);
    }
}

/// Inserting a name keeps a list of names distinct.
pub proof fn lemma_insert_name_unique(s: Seq<Seq<char>>, x: Seq<char>)
    requires
        s.no_duplicates(),
    ensures
        insert_name(s, x).no_duplicates(),
        insert_name(s, x).contains(x),
{
    if !s.contains(x) {
        assert(s.push(x)[s.len() as int] == x);
    }
}

/// Inserts a package by name.
fn insert_node_exec(nodes: &mut Vec<DepNode>, n: DepNode)
    ensures
        nodes_view(final(nodes)@) == insert_node(nodes_view(old(nodes)@), (n.name@, n.version@, n.source@)),
{
    let ghost nv = (n.name@, n.version@, n.source@);
    let ghost ns = nodes_view(nodes@);
    let k = chars_of(n.name.as_str());
    let mut i: usize = 0;
    while i < nodes.len()
        invariant
            i <= nodes@.len(),
            ns == nodes_view(nodes@),
            ns == nodes_view(old(nodes)@),
            nv == (n.name@, n.version@, n.source@),
            k@ == n.name@,
            forall|j: int| 0 <= j < i ==> #[trigger] ns[j].0 != k@,
        decreases nodes@.len() - i,
    {
        let c = chars_of(nodes[i].name.as_str());
        assert(c@ == nodes@[i as int].name@);
        assert(ns[i as int].0 == nodes@[i as int].name@);
        if seq_eq(&c, &k) {
            proof {
                lemma_find_node(ns, nv.0);
                assert(ns[i as int].0 == nv.0);
                assert(find_node(ns, nv.0) == i) by {
                    if find_node(ns, nv.0) < 0 {
                        assert(node_names(ns)[i as int] == nv.0);
                    }
                }
            }
            let ghost n_name = n.name@;
            let ghost n_version = n.version@;
            let ghost n_source = n.source@;
            nodes.set(i, n);
            proof {
                assert(nodes@[i as int].name@ == n_name);
                assert(nodes_view(nodes@) =~= ns.update(i as int, nv));
            }
            return;
        }
        i += 1;
    }
    proof {
        lemma_find_node(ns, nv.0);
        if find_node(ns, nv.0) >= 0 {
            assert(ns[find_node(ns, nv.0)].0 == nv.0);
        }
    }
    nodes.push(n);
    proof {
        assert(nodes_view(nodes@) =~= ns.push(nv));
    }
}

/// Inserts a name into a list of distinct names.
fn insert_name_exec(names: &mut Vec<String>, x: &[char])
    ensures
        names_view(final(names)@) == insert_name(names_view(old(names)@), x@),
{
    let ghost s = names_view(names@);
    let mut i: usize = 0;
    while i < names.len()
        invariant
            i <= names@.len(),
            s == names_view(names@),
            forall|j: int| 0 <= j < i ==> #[trigger] s[j] != x@,
        decreases names@.len() - i,
    {
        let c = chars_of(names[i].as_str());
        if seq_eq(&c, x) {
            assert(s[i as int] == x@);
            return;
        }
        i += 1;
    }
    names.push(string_of(x));
    proof {
        assert(names_view(names@) =~= s.push(x@));
    }
}

/// The packages a requirements.txt lists, in order of first mention; a
/// package mentioned again takes the later version.
pub open spec fn python_nodes(ls: Seq<Seq<char>>) -> Seq<NodeView>
    decreases ls.len(),
{
    if ls.len() == 0 {
        Seq::empty()
    } else {
        let prev = python_nodes(ls.drop_last());
        match requirement_of(ls.last()) {
            Some(e) => insert_node(prev, (e.0, e.1, "requirements.txt"@)),
            None => prev,
        }
    }
}

/// Build graph from requirements.txt (flat – no transitive info).
pub fn build_python_graph(req_content: &str) -> (g: DepGraph)
    ensures
        graph_wf(g),
        nodes_view(g.nodes@) == python_nodes(lines(req_content@)),
        g.edges@.len() == 0,
        g.direct_deps@.len() == 0,
{
    let ls = lines_of(req_content);
    let ghost lv = lines(req_content@);
    let mut nodes: Vec<DepNode> = Vec::new();
    let mut i: usize = 0;
    proof {
        assert(lv.take(0) =~= Seq::<Seq<char>>::empty());
        assert(nodes_view(nodes@) =~= Seq::<NodeView>::empty());
        assert(node_names(nodes_view(nodes@)) =~= Seq::<Seq<char>>::empty());
    }
    while i < ls.len()
        invariant
            i <= ls@.len(),
            views(ls@) == lv,
            lv == lines(req_content@),
            nodes_view(nodes@) == python_nodes(lv.take(i as int)),
            node_names(nodes_view(nodes@)).no_duplicates(),
        decreases ls@.len() - i,
    {
        proof {
            assert(lv.take(i + 1).drop_last() =~= lv.take(i as int));
            assert(lv.take(i + 1).last() == ls@[i as int]@);
        }
        match crate::autofix::requirement_of_exec(&ls[i]) {
            Some((n, v)) => {
                let ghost before = nodes_view(nodes@);
                insert_node_exec(
                    &mut nodes,
                    DepNode {
                        name: string_of(&n),
                        version: string_of(&v),
                        source: "requirements.txt".to_string(),
                    },
                );
                proof {
                    lemma_insert_node_unique(before, (n@, v@, "requirements.txt"@));
                }
            },
            None => {},
        }
        i += 1;
    }
    proof {
        assert(lv.take(ls@.len() as int) =~= lv);
    }
    let g = DepGraph { nodes, edges: Vec::new(), direct_deps: Vec::new() };
    proof {
        assert(names_view(g.direct_deps@) =~= Seq::<Seq<char>>::empty());
    }
    g
}


/// The state of a go.mod reader: root module, inside a `require (` block,
/// direct dependencies so far.
pub type GoModState = (Seq<char>, bool, Seq<Seq<char>>);

/// One line of a go.mod.
pub open spec fn go_mod_graph_step(line: Seq<char>, st: GoModState) -> GoModState {
    let t = trim(line);
    let root = match strip_prefix(t, "module "@) {
        Some(rest) => trim(rest),
        None => st.0,
    };
    if t == "require ("@ {
        (root, true, st.2)
    } else if t == ")"@ {
        (root, false, st.2)
    } else if st.1 || starts_with(t, "require "@) {
        let req = match strip_prefix(t, "require "@) {
            Some(r) => r,
            None => t,
        };
        let direct = if !contains(req, "// indirect"@) && split_ws(req).len() > 0 {
            insert_name(st.2, split_ws(req)[0])
        } else {
            st.2
        };
        (root, st.1, direct)
    } else {
        (root, st.1, st.2)
    }
}

/// The reader's state after the given lines of a go.mod.
pub open spec fn go_mod_graph_scan(ls: Seq<Seq<char>>) -> GoModState
    decreases ls.len(),
{
    if ls.len() == 0 {
        (Seq::empty(), false, Seq::empty())
    } else {
        go_mod_graph_step(ls.last(), go_mod_graph_scan(ls.drop_last()))
    }
}

/// The root module and direct dependencies a go.mod (if any) declares.
pub open spec fn go_mod_info(mod_content: Option<Seq<char>>) -> (Seq<char>, Seq<Seq<char>>) {
    match mod_content {
        Some(c) => {
            let st = go_mod_graph_scan(lines(c));
            (st.0, st.2)
        },
        None => (Seq::empty(), Seq::empty()),
    }
}

/// The packages of a Go graph: the modules of go.sum, then the root module (if named).
pub open spec fn go_graph_nodes(entries: Seq<(Seq<char>, Seq<char>)>, root: Seq<char>) -> Seq<NodeView> {
    let ns = Seq::new(entries.len(), |i: int| (entries[i].0, entries[i].1, "go.sum"@));
    if root.len() > 0 {
        insert_node(ns, (root, "root"@, "go.mod"@))
    } else {
        ns
    }
}

/// The edges of a Go graph: the root module depends on every module of go.sum.
pub open spec fn go_graph_edges(entries: Seq<(Seq<char>, Seq<char>)>, root: Seq<char>) -> Seq<(Seq<char>, Seq<char>)> {
    if root.len() > 0 {
        Seq::new(entries.len(), |i: int| (root, entries[i].0))
    } else {
        Seq::empty()
    }
}

fn go_mod_info_exec(mod_src: &str) -> (r: (Vec<char>, Vec<String>))
    ensures
        r.0@ == go_mod_graph_scan(lines(mod_src@)).0,
        names_view(r.1@) == go_mod_graph_scan(lines(mod_src@)).2,
        names_view(r.1@).no_duplicates(),
{
    let ls = lines_of(mod_src);
    let ghost lv = lines(mod_src@);
    let mut root: Vec<char> = Vec::new();
    let mut in_require = false;
    let mut direct: Vec<String> = Vec::new();
    let mut i: usize = 0;
    proof {
        assert(lv.take(0) =~= Seq::<Seq<char>>::empty());
        assert(names_view(direct@) =~= Seq::<Seq<char>>::empty());
    }
    while i < ls.len()
        invariant
            i <= ls@.len(),
            views(ls@) == lv,
            lv == lines(mod_src@),
            (root@, in_require, names_view(direct@)) == go_mod_graph_scan(lv.take(i as int)),
            names_view(direct@).no_duplicates(),
        decreases ls@.len() - i,
    {
        proof {
            assert(lv.take(i + 1).drop_last() =~= lv.take(i as int));
            assert(lv.take(i + 1).last() == ls@[i as int]@);
        }
        let t = trim_exec(&ls[i]);
        match strip_prefix_str(&t, "module ") {
            Some(rest) => {
                root = trim_exec(&rest);
            },
            None => {},
        }
        if eq_str(&t, "require (") {
            in_require = true;
        } else if eq_str(&t, ")") {
            in_require = false;
        } else if in_require || starts_with_str(&t, "require ") {
            let req: Vec<char> = match strip_prefix_str(&t, "require ") {
                Some(r) => r,
                None => slice(&t, 0, t.len()),
            };
            proof {
                assert(t@.subrange(0, t@.len() as int) =~= t@);
            }
            if !contains_str(&req, "// indirect") {
                let w = split_ws_exec(&req);
                if w.len() > 0 {
                    let ghost before = names_view(direct@);
                    assert(views(w@)[0] == w@[0]@);
                    insert_name_exec(&mut direct, &w[0]);
                    proof {
                        lemma_insert_name_unique(before, w@[0]@);
                    }
                }
            }
        }
        i += 1;
    }
    proof {
        assert(lv.take(ls@.len() as int) =~= lv);
    }
    (root, direct)
}

/// Build graph from go.sum + go.mod.
pub fn build_go_graph(sum_content: &str, mod_content: Option<&str>) -> (g: DepGraph)
    ensures
        graph_wf(g),
        ({
            let info = go_mod_info(
                match mod_content {
                    Some(m) => Some(m@),
                    None => None,
                },
            );
            let entries = go_sum_entries(lines(sum_content@));
            &&& nodes_view(g.nodes@) == go_graph_nodes(entries, info.0)
            &&& edges_view(g.edges@) == go_graph_edges(entries, info.0)
            &&& names_view(g.direct_deps@) == info.1
        }),
{
    let (root, direct): (Vec<char>, Vec<String>) = match mod_content {
        Some(m) => go_mod_info_exec(m),
        None => {
            let d: Vec<String> = Vec::new();
            proof {
                assert(names_view(d@) =~= Seq::<Seq<char>>::empty());
            }
            (Vec::new(), d)
        },
    };
    let ghost entries = go_sum_entries(lines(sum_content@));
    let mut sum_deps: Vec<crate::autofix::DepInfo> = Vec::new();
    crate::autofix::parse_go_sum_deps(sum_content, &mut sum_deps);
    proof {
        assert(crate::autofix::deps_view(sum_deps@) =~= crate::autofix::with_source(entries, "go.sum"@));
        crate::autofix::lemma_go_sum_names_unique(lines(sum_content@));
    }
    let root_s = string_of(&root);
    let mut nodes: Vec<DepNode> = Vec::new();
    let mut edges: Vec<DepEdge> = Vec::new();
    let ghost ns_all = Seq::new(entries.len(), |i: int| (entries[i].0, entries[i].1, "go.sum"@));
    let mut i: usize = 0;
    proof {
        assert(nodes_view(nodes@) =~= ns_all.take(0));
        assert(edges_view(edges@) =~= Seq::<(Seq<char>, Seq<char>)>::empty());
    }
    while i < sum_deps.len()
        invariant
            i <= sum_deps@.len(),
            crate::autofix::deps_view(sum_deps@) == crate::autofix::with_source(entries, "go.sum"@),
            ns_all == Seq::new(entries.len(), |i: int| (entries[i].0, entries[i].1, "go.sum"@)),
            nodes_view(nodes@) == ns_all.take(i as int),
            root_s@ == root@,
            edges_view(edges@) == (if root@.len() > 0 {
                Seq::new(i as nat, |k: int| (root@, entries[k].0))
            } else {
                Seq::empty()
            }),
        decreases sum_deps@.len() - i,
    {
        let d = &sum_deps[i];
        proof {
            assert(crate::autofix::deps_view(sum_deps@)[i as int] == (d.name@, d.version@, d.source@));
            assert(crate::autofix::deps_view(sum_deps@).len() == sum_deps@.len());
            assert(crate::autofix::with_source(entries, "go.sum"@).len() == entries.len());
            assert(entries.len() == sum_deps@.len());
            assert(crate::autofix::with_source(entries, "go.sum"@)[i as int] == (entries[i as int].0, entries[i as int].1, "go.sum"@));
            assert(ns_all[i as int] == (d.name@, d.version@, d.source@));
        }
        let ghost before = nodes_view(nodes@);
        let nn = DepNode { name: d.name.clone(), version: d.version.clone(), source: d.source.clone() };
        assert((nn.name@, nn.version@, nn.source@) == ns_all[i as int]);
        nodes.push(nn);
        proof {
            assert(nodes_view(nodes@) =~= before.push(ns_all[i as int]));
            assert(ns_all.take(i + 1) =~= ns_all.take(i as int).push(ns_all[i as int]));
            assert(nodes_view(nodes@) =~= ns_all.take(i + 1));
        }
        if root.len() > 0 {
            let ghost eb = edges_view(edges@);
            let ne = DepEdge { from: root_s.clone(), to: d.name.clone() };
            assert(ne.from@ == root@ && ne.to@ == entries[i as int].0);
            edges.push(ne);
            proof {
                assert(edges_view(edges@) =~= eb.push((root@, entries[i as int].0)));
                assert(edges_view(edges@) =~= Seq::new((i + 1) as nat, |k: int| (root@, entries[k].0)));
            }
        }
        i += 1;
    }
    proof {
        assert(ns_all.take(sum_deps@.len() as int) =~= ns_all);
        assert(node_names(ns_all) =~= names_of(entries));
    }
    if root.len() > 0 {
        let ghost before = nodes_view(nodes@);
        insert_node_exec(
            &mut nodes,
            DepNode { name: root_s, version: "root".to_string(), source: "go.mod".to_string() },
        );
        proof {
            lemma_insert_node_unique(before, (root@, "root"@, "go.mod"@));
        }
    }
    let g = DepGraph { nodes, edges, direct_deps: direct };
    proof {
        if root@.len() > 0 {
            assert(edges_view(g.edges@) =~= go_graph_edges(entries, root@));
        }
    }
    g
}


/// There is an edge from `a` to `b`.
pub open spec fn has_edge(es: Seq<(Seq<char>, Seq<char>)>, a: Seq<char>, b: Seq<char>) -> bool {
    exists|k: int| 0 <= k < es.len() && (#[trigger] es[k]).0 == a && es[k].1 == b
}

/// `p` is a walk along edges.
pub open spec fn is_path(es: Seq<(Seq<char>, Seq<char>)>, p: Seq<Seq<char>>) -> bool {
    p.len() >= 1 && forall|i: int| 0 <= i < p.len() - 1 ==> has_edge(es, #[trigger] p[i], p[i + 1])
}

/// Some direct dependency is a package of the graph.
pub open spec fn has_direct_seed(ns: Seq<NodeView>, direct: Seq<Seq<char>>) -> bool {
    exists|i: int| 0 <= i < direct.len() && node_names(ns).contains(#[trigger] direct[i])
}

/// Where reachability starts: the direct dependencies that are packages of
/// the graph; when there are none, the packages no edge leads to.
pub open spec fn is_seed(ns: Seq<NodeView>, es: Seq<(Seq<char>, Seq<char>)>, direct: Seq<Seq<char>>, x: Seq<char>) -> bool {
    if has_direct_seed(ns, direct) {
        direct.contains(x) && node_names(ns).contains(x)
    } else {
        node_names(ns).contains(x) && !(exists|k: int| 0 <= k < es.len() && (#[trigger] es[k]).1 == x)
    }
}

/// `x` can be reached along edges from a seed.
pub open spec fn reaches(ns: Seq<NodeView>, es: Seq<(Seq<char>, Seq<char>)>, direct: Seq<Seq<char>>, x: Seq<char>) -> bool {
    exists|p: Seq<Seq<char>>| is_path(es, p) && is_seed(ns, es, direct, p[0]) && p.last() == x
}

/// The packages, in order, that cannot be reached.
pub open spec fn unreachable_names(names: Seq<Seq<char>>, ns: Seq<NodeView>, es: Seq<(Seq<char>, Seq<char>)>, direct: Seq<Seq<char>>) -> Seq<Seq<char>>
    decreases names.len(),
{
    if names.len() == 0 {
        Seq::empty()
    } else {
        let prev = unreachable_names(names.drop_last(), ns, es, direct);
        if reaches(ns, es, direct, names.last()) {
            prev
        } else {
            prev.push(names.last())
        }
    }
}

/// The names of a graph's packages and edge ends, each once, with each
/// package and edge mapped to indices into them.
struct VertexTable {
    vs: Vec<Vec<char>>,
    ends: Vec<(usize, usize)>,
    node_ix: Vec<usize>,
}

spec fn table_ok(t: VertexTable, ns: Seq<NodeView>, es: Seq<(Seq<char>, Seq<char>)>) -> bool {
    &&& views(t.vs@).no_duplicates()
    &&& t.ends@.len() == es.len()
    &&& forall|k: int| 0 <= k < es.len() ==> (#[trigger] t.ends@[k]).0 < t.vs@.len() && t.ends@[k].1 < t.vs@.len()
        && t.vs@[t.ends@[k].0 as int]@ == es[k].0 && t.vs@[t.ends@[k].1 as int]@ == es[k].1
    &&& t.node_ix@.len() == ns.len()
    &&& forall|i: int| 0 <= i < ns.len() ==> (#[trigger] t.node_ix@[i]) < t.vs@.len() && t.vs@[t.node_ix@[i] as int]@ == ns[i].0
}

/// The index of `x` among distinct names, added at the end when absent.
fn vertex_of(vs: &mut Vec<Vec<char>>, x: &[char]) -> (r: usize)
    requires
        views(old(vs)@).no_duplicates(),
    ensures
        views(final(vs)@).no_duplicates(),
        r < final(vs)@.len(),
        final(vs)@[r as int]@ == x@,
        final(vs)@.len() >= old(vs)@.len(),
        forall|i: int| 0 <= i < old(vs)@.len() ==> #[trigger] final(vs)@[i] == old(vs)@[i],
{
    let mut i: usize = 0;
    while i < vs.len()
        invariant
            i <= vs@.len(),
            vs@ == old(vs)@,
            views(old(vs)@).no_duplicates(),
            forall|j: int| 0 <= j < i ==> #[trigger] vs@[j]@ != x@,
        decreases vs@.len() - i,
    {
        if seq_eq(&vs[i], x) {
            return i;
        }
        i += 1;
    }
    let ghost before = views(vs@);
    let n = vs.len();
    vs.push(slice(x, 0, x.len()));
    proof {
        assert(x@.subrange(0, x@.len() as int) =~= x@);
        assert(views(vs@) =~= before.push(x@));
        assert forall|a: int, b: int| 0 <= a < b < views(vs@).len() implies views(vs@)[a] != views(vs@)[b] by {
            if b == n {
                assert(views(vs@)[a] == vs@[a]@);
            }
        }
    }
    n
}

fn build_table(g: &DepGraph) -> (t: VertexTable)
    ensures
        table_ok(t, nodes_view(g.nodes@), edges_view(g.edges@)),
{
    let ghost ns = nodes_view(g.nodes@);
    let ghost es = edges_view(g.edges@);
    let mut vs: Vec<Vec<char>> = Vec::new();
    let mut node_ix: Vec<usize> = Vec::new();
    let mut i: usize = 0;
    proof {
        assert(views(vs@) =~= Seq::<Seq<char>>::empty());
    }
    while i < g.nodes.len()
        invariant
            i <= g.nodes@.len(),
            ns == nodes_view(g.nodes@),
            views(vs@).no_duplicates(),
            node_ix@.len() == i,
            forall|j: int| 0 <= j < i ==> (#[trigger] node_ix@[j]) < vs@.len() && vs@[node_ix@[j] as int]@ == ns[j].0,
        decreases g.nodes@.len() - i,
    {
        let c = chars_of(g.nodes[i].name.as_str());
        let ghost old_vs = vs@;
        let v = vertex_of(&mut vs, &c);
        proof {
            assert forall|j: int| 0 <= j < i implies (#[trigger] node_ix@[j]) < vs@.len() && vs@[node_ix@[j] as int]@ == ns[j].0 by {
                assert(vs@[node_ix@[j] as int] == old_vs[node_ix@[j] as int]);
            }
        }
        node_ix.push(v);
        i += 1;
    }
    let mut ends: Vec<(usize, usize)> = Vec::new();
    let mut k: usize = 0;
    while k < g.edges.len()
        invariant
            k <= g.edges@.len(),
            ns == nodes_view(g.nodes@),
            es == edges_view(g.edges@),
            views(vs@).no_duplicates(),
            node_ix@.len() == ns.len(),
            forall|j: int| 0 <= j < ns.len() ==> (#[trigger] node_ix@[j]) < vs@.len() && vs@[node_ix@[j] as int]@ == ns[j].0,
            ends@.len() == k,
            forall|j: int| 0 <= j < k ==> (#[trigger] ends@[j]).0 < vs@.len() && ends@[j].1 < vs@.len()
                && vs@[ends@[j].0 as int]@ == es[j].0 && vs@[ends@[j].1 as int]@ == es[j].1,
        decreases g.edges@.len() - k,
    {
        let a = chars_of(g.edges[k].from.as_str());
        let b = chars_of(g.edges[k].to.as_str());
        let ghost vs0 = vs@;
        let x = vertex_of(&mut vs, &a);
        let ghost vs1 = vs@;
        let y = vertex_of(&mut vs, &b);
        proof {
            assert forall|j: int| 0 <= j < ns.len() implies (#[trigger] node_ix@[j]) < vs@.len() && vs@[node_ix@[j] as int]@ == ns[j].0 by {
                assert(vs@[node_ix@[j] as int] == vs0[node_ix@[j] as int]);
            }
            assert forall|j: int| 0 <= j < k implies (#[trigger] ends@[j]).0 < vs@.len() && ends@[j].1 < vs@.len()
                && vs@[ends@[j].0 as int]@ == es[j].0 && vs@[ends@[j].1 as int]@ == es[j].1 by {
                assert(vs@[ends@[j].0 as int] == vs0[ends@[j].0 as int]);
                assert(vs@[ends@[j].1 as int] == vs0[ends@[j].1 as int]);
            }
            assert(vs@[x as int] == vs1[x as int]);
        }
        ends.push((x, y));
        k += 1;
    }
    VertexTable { vs, ends, node_ix }
}

proof fn lemma_distinct_bounded(s: Seq<usize>, n: nat)
    requires
        s.no_duplicates(),
        forall|i: int| 0 <= i < s.len() ==> #[trigger] s[i] < n,
    ensures
        s.len() <= n,
{
    let t = s.map_values(|x: usize| x as int);
    s.lemma_no_duplicates_injective(|x: usize| x as int);
    t.unique_seq_to_set();
    vstd::set_lib::lemma_int_range(0, n as int);
    assert(t.to_set().subset_of(vstd::set_lib::set_int_range(0, n as int))) by {
        assert forall|v: int| t.to_set().contains(v) implies vstd::set_lib::set_int_range(0, n as int).contains(v) by {
            let i = choose|i: int| 0 <= i < t.len() && t[i] == v;
            assert(s[i] < n);
        }
    }
    vstd::set_lib::lemma_len_subset(t.to_set(), vstd::set_lib::set_int_range(0, n as int));
}


/// The index of `x` among the names, if it is one of them.
fn find_vertex(vs: &Vec<Vec<char>>, x: &[char]) -> (r: Option<usize>)
    ensures
        r matches Some(v) ==> v < vs@.len() && vs@[v as int]@ == x@,
        r is None ==> forall|j: int| 0 <= j < vs@.len() ==> #[trigger] vs@[j]@ != x@,
{
    let mut i: usize = 0;
    while i < vs.len()
        invariant
            i <= vs@.len(),
            forall|j: int| 0 <= j < i ==> #[trigger] vs@[j]@ != x@,
        decreases vs@.len() - i,
    {
        if seq_eq(&vs[i], x) {
            return Some(i);
        }
        i += 1;
    }
    None
}

/// Whether `x` is the name of a package.
fn is_node_name(g: &DepGraph, x: &[char]) -> (r: bool)
    ensures
        r == node_names(nodes_view(g.nodes@)).contains(x@),
{
    let ghost nn = node_names(nodes_view(g.nodes@));
    let mut i: usize = 0;
    while i < g.nodes.len()
        invariant
            i <= g.nodes@.len(),
            nn == node_names(nodes_view(g.nodes@)),
            forall|j: int| 0 <= j < i ==> #[trigger] nn[j] != x@,
        decreases g.nodes@.len() - i,
    {
        let c = chars_of(g.nodes[i].name.as_str());
        if seq_eq(&c, x) {
            assert(nn[i as int] == x@);
            return true;
        }
        i += 1;
    }
    false
}

/// Whether some edge leads to `x`.
fn has_incoming(g: &DepGraph, x: &[char]) -> (r: bool)
    ensures
        r == exists|k: int| 0 <= k < edges_view(g.edges@).len() && (#[trigger] edges_view(g.edges@)[k]).1 == x@,
{
    let ghost es = edges_view(g.edges@);
    let mut k: usize = 0;
    while k < g.edges.len()
        invariant
            k <= g.edges@.len(),
            es == edges_view(g.edges@),
            forall|j: int| 0 <= j < k ==> (#[trigger] es[j]).1 != x@,
        decreases g.edges@.len() - k,
    {
        let c = chars_of(g.edges[k].to.as_str());
        if seq_eq(&c, x) {
            assert(es[k as int].1 == x@);
            return true;
        }
        k += 1;
    }
    false
}

/// The vertex holding a name is unique.
proof fn lemma_vertex_unique(vs: Seq<Vec<char>>, a: int, b: int)
    requires
        views(vs).no_duplicates(),
        0 <= a < vs.len(),
        0 <= b < vs.len(),
        vs[a]@ == vs[b]@,
    ensures
        a == b,
{
    assert(views(vs)[a] == vs[a]@);
    assert(views(vs)[b] == vs[b]@);
}

/// A seed can be reached: by the path of just itself.
proof fn lemma_seed_reaches(ns: Seq<NodeView>, es: Seq<(Seq<char>, Seq<char>)>, ds: Seq<Seq<char>>, x: Seq<char>)
    requires
        is_seed(ns, es, ds, x),
    ensures
        reaches(ns, es, ds, x),
{
    let p = seq![x];
    assert(is_path(es, p));
    assert(p.last() == x);
}

/// What can be reached, and is one edge away, can be reached.
proof fn lemma_reach_step(ns: Seq<NodeView>, es: Seq<(Seq<char>, Seq<char>)>, ds: Seq<Seq<char>>, x: Seq<char>, y: Seq<char>)
    requires
        reaches(ns, es, ds, x),
        has_edge(es, x, y),
    ensures
        reaches(ns, es, ds, y),
{
    let p = choose|p: Seq<Seq<char>>| is_path(es, p) && is_seed(ns, es, ds, p[0]) && p.last() == x;
    let p2 = p.push(y);
    assert forall|i: int| 0 <= i < p2.len() - 1 implies has_edge(es, #[trigger] p2[i], p2[i + 1]) by {
        if i < p.len() - 1 {
            assert(p2[i] == p[i] && p2[i + 1] == p[i + 1]);
        } else {
            assert(p2[i] == x);
            assert(p2[i + 1] == y);
        }
    }
    assert(is_path(es, p2));
    assert(p2[0] == p[0]);
    assert(p2.last() == y);
}

/// The queue holds each marked vertex once, and nothing else.
spec fn queue_ok(marked: Seq<bool>, queue: Seq<usize>, n: nat) -> bool {
    &&& marked.len() == n
    &&& queue.no_duplicates()
    &&& forall|j: int| 0 <= j < queue.len() ==> (#[trigger] queue[j]) < n && marked[queue[j] as int]
    &&& forall|v: int| 0 <= v < n && #[trigger] marked[v] ==> queue.contains(v as usize)
}

/// Marks `v` and appends it to the queue.
fn mark_push(marked: &mut Vec<bool>, queue: &mut Vec<usize>, v: usize, Ghost(n): Ghost<nat>)
    requires
        queue_ok(old(marked)@, old(queue)@, n),
        n <= usize::MAX,
        v < n,
        !old(marked)@[v as int],
    ensures
        queue_ok(final(marked)@, final(queue)@, n),
        final(marked)@ == old(marked)@.update(v as int, true),
        final(queue)@ == old(queue)@.push(v),
{
    let ghost q0 = queue@;
    let ghost m0 = marked@;
    marked.set(v, true);
    queue.push(v);
    proof {
        assert forall|a: int, b: int| 0 <= a < b < queue@.len() implies queue@[a] != queue@[b] by {
            if b == q0.len() {
                assert(queue@[a] == q0[a]);
                assert(m0[q0[a] as int]);
            } else {
                assert(queue@[a] == q0[a] && queue@[b] == q0[b]);
            }
        }
        assert forall|j: int| 0 <= j < queue@.len() implies (#[trigger] queue@[j]) < n && marked@[queue@[j] as int] by {
            if j < q0.len() {
                assert(queue@[j] == q0[j]);
            }
        }
        assert forall|w: int| 0 <= w < n && #[trigger] marked@[w] implies queue@.contains(w as usize) by {
            if w != v {
                assert(m0[w]);
                assert(q0.contains(w as usize));
                let j = choose|j: int| 0 <= j < q0.len() && q0[j] == w as usize;
                assert(queue@[j] == w);
            } else {
                assert(queue@[q0.len() as int] == v);
            }
        }
    }
}

/// The seeds, marked and queued.
fn seed_phase(g: &DepGraph, t: &VertexTable) -> (r: (Vec<bool>, Vec<usize>))
    requires
        table_ok(*t, nodes_view(g.nodes@), edges_view(g.edges@)),
    ensures
        queue_ok(r.0@, r.1@, t.vs@.len()),
        forall|v: int| 0 <= v < t.vs@.len() && #[trigger] r.0@[v] ==> is_seed(nodes_view(g.nodes@), edges_view(g.edges@), names_view(g.direct_deps@), t.vs@[v]@),
        forall|x: Seq<char>| is_seed(nodes_view(g.nodes@), edges_view(g.edges@), names_view(g.direct_deps@), x) ==> exists|v: int| 0 <= v < t.vs@.len() && #[trigger] r.0@[v] && t.vs@[v]@ == x,
{
    let ghost ns = nodes_view(g.nodes@);
    let ghost es = edges_view(g.edges@);
    let ghost ds = names_view(g.direct_deps@);
    let n = t.vs.len();
    let mut marked: Vec<bool> = Vec::new();
    let mut i: usize = 0;
    while i < n
        invariant
            i <= n,
            marked@.len() == i,
            forall|j: int| 0 <= j < i ==> !(#[trigger] marked@[j]),
        decreases n - i,
    {
        marked.push(false);
        i += 1;
    }
    let mut queue: Vec<usize> = Vec::new();
    let mut d: usize = 0;
    while d < g.direct_deps.len()
        invariant
            d <= g.direct_deps@.len(),
            table_ok(*t, ns, es),
            n == t.vs@.len(),
            ns == nodes_view(g.nodes@),
            es == edges_view(g.edges@),
            ds == names_view(g.direct_deps@),
            queue_ok(marked@, queue@, n as nat),
            forall|v: int| 0 <= v < n && #[trigger] marked@[v] ==> ds.contains(t.vs@[v]@) && node_names(ns).contains(t.vs@[v]@),
            forall|j: int| 0 <= j < d && node_names(ns).contains(#[trigger] ds[j]) ==> exists|v: int| 0 <= v < n && marked@[v] && t.vs@[v]@ == ds[j],
        decreases g.direct_deps@.len() - d,
    {
        let x = chars_of(g.direct_deps[d].as_str());
        assert(x@ == ds[d as int]);
        let ghost m_before = marked@;
        if is_node_name(g, &x) {
            let ghost k = node_names(ns).index_of(x@);
            proof {
                assert(node_names(ns)[k] == x@);
                assert(t.vs@[t.node_ix@[k] as int]@ == ns[k].0);
            }
            match find_vertex(&t.vs, &x) {
                Some(v) => {
                    if !marked[v] {
                        mark_push(&mut marked, &mut queue, v, Ghost(n as nat));
                    }
                    assert(marked@[v as int] && t.vs@[v as int]@ == ds[d as int]);
                },
                None => {
                    proof {
                        assert(t.vs@[t.node_ix@[k] as int]@ == x@);
                    }
                },
            }
        }
        proof {
            assert forall|j: int| 0 <= j < d + 1 && node_names(ns).contains(#[trigger] ds[j]) implies exists|v: int| 0 <= v < n && marked@[v] && t.vs@[v]@ == ds[j] by {
                if j < d {
                    let v = choose|v: int| 0 <= v < n && m_before[v] && t.vs@[v]@ == ds[j];
                    assert(marked@[v]);
                }
            }
        }
        d += 1;
    }
    let ghost direct_phase = queue@.len() > 0;
    proof {
        if has_direct_seed(ns, ds) {
            let j = choose|j: int| 0 <= j < ds.len() && node_names(ns).contains(#[trigger] ds[j]);
            let v = choose|v: int| 0 <= v < n && marked@[v] && t.vs@[v]@ == ds[j];
            assert(queue@.contains(v as usize));
        }
        if direct_phase {
            let v = queue@[0];
            assert(marked@[v as int]);
            assert(ds.contains(t.vs@[v as int]@));
            let j = choose|j: int| 0 <= j < ds.len() && ds[j] == t.vs@[v as int]@;
            assert(node_names(ns).contains(ds[j]));
            assert(has_direct_seed(ns, ds));
        }
    }
    if queue.len() == 0 {
        let mut i: usize = 0;
        while i < g.nodes.len()
            invariant
                i <= g.nodes@.len(),
                table_ok(*t, ns, es),
                n == t.vs@.len(),
                ns == nodes_view(g.nodes@),
                es == edges_view(g.edges@),
                ds == names_view(g.direct_deps@),
                !has_direct_seed(ns, ds),
                queue_ok(marked@, queue@, n as nat),
                forall|v: int| 0 <= v < n && #[trigger] marked@[v] ==> is_seed(ns, es, ds, t.vs@[v]@),
                forall|j: int| 0 <= j < i && is_seed(ns, es, ds, #[trigger] ns[j].0) ==> marked@[t.node_ix@[j] as int],
            decreases g.nodes@.len() - i,
        {
            let x = chars_of(g.nodes[i].name.as_str());
            assert(x@ == ns[i as int].0);
            assert(node_names(ns)[i as int] == x@);
            let v = t.node_ix[i];
            assert(t.vs@[v as int]@ == x@);
            if !has_incoming(g, &x) && !marked[v] {
                mark_push(&mut marked, &mut queue, v, Ghost(n as nat));
            }
            i += 1;
        }
        proof {
            assert forall|x: Seq<char>| is_seed(ns, es, ds, x) implies exists|v: int| 0 <= v < n && #[trigger] marked@[v] && t.vs@[v]@ == x by {
                assert(node_names(ns).contains(x));
                let j = choose|j: int| 0 <= j < node_names(ns).len() && node_names(ns)[j] == x;
                assert(ns[j].0 == x);
                assert(is_seed(ns, es, ds, ns[j].0));
                assert(marked@[t.node_ix@[j] as int]);
                assert(t.vs@[t.node_ix@[j] as int]@ == x);
            }
        }
    } else {
        proof {
            assert(has_direct_seed(ns, ds));
            assert forall|x: Seq<char>| is_seed(ns, es, ds, x) implies exists|v: int| 0 <= v < n && #[trigger] marked@[v] && t.vs@[v]@ == x by {
                assert(ds.contains(x));
                let j = choose|j: int| 0 <= j < ds.len() && ds[j] == x;
                assert(node_names(ns).contains(ds[j]));
                let v = choose|v: int| 0 <= v < n && marked@[v] && t.vs@[v]@ == ds[j];
                assert(marked@[v] && t.vs@[v]@ == x);
            }
        }
    }
    let r = (marked, queue);
    proof {
        assert forall|x: Seq<char>| is_seed(nodes_view(g.nodes@), edges_view(g.edges@), names_view(g.direct_deps@), x) implies exists|v: int| 0 <= v < t.vs@.len() && #[trigger] r.0@[v] && t.vs@[v]@ == x by {
            assert(is_seed(ns, es, ds, x));
            let v = choose|v: int| 0 <= v < n && #[trigger] r.0@[v] && t.vs@[v]@ == x;
            assert(r.0@[v]);
        }
    }
    r
}

/// Breadth-first search from the queued vertices.
#[verifier::rlimit(80)]
#[verifier::spinoff_prover]
fn bfs_phase(t: &VertexTable, marked: &mut Vec<bool>, queue: &mut Vec<usize>, Ghost(ns): Ghost<Seq<NodeView>>, Ghost(es): Ghost<Seq<(Seq<char>, Seq<char>)>>, Ghost(ds): Ghost<Seq<Seq<char>>>)
    requires
        table_ok(*t, ns, es),
        queue_ok(old(marked)@, old(queue)@, t.vs@.len()),
        forall|v: int| 0 <= v < t.vs@.len() && #[trigger] old(marked)@[v] ==> reaches(ns, es, ds, t.vs@[v]@),
        forall|x: Seq<char>| is_seed(ns, es, ds, x) ==> exists|v: int| 0 <= v < t.vs@.len() && #[trigger] old(marked)@[v] && t.vs@[v]@ == x,
    ensures
        queue_ok(final(marked)@, final(queue)@, t.vs@.len()),
        forall|v: int| 0 <= v < t.vs@.len() && #[trigger] final(marked)@[v] ==> reaches(ns, es, ds, t.vs@[v]@),
        forall|x: Seq<char>| is_seed(ns, es, ds, x) ==> exists|v: int| 0 <= v < t.vs@.len() && #[trigger] final(marked)@[v] && t.vs@[v]@ == x,
        forall|kk: int| 0 <= kk < es.len() && final(marked)@[(#[trigger] t.ends@[kk]).0 as int] ==> final(marked)@[t.ends@[kk].1 as int],
{
    let n = t.vs.len();
    let mut head: usize = 0;
    while head < queue.len()
        invariant
            head <= queue@.len(),
            table_ok(*t, ns, es),
            n == t.vs@.len(),
            queue_ok(marked@, queue@, n as nat),
            forall|v: int| 0 <= v < n && #[trigger] marked@[v] ==> reaches(ns, es, ds, t.vs@[v]@),
            forall|x: Seq<char>| is_seed(ns, es, ds, x) ==> exists|v: int| 0 <= v < n && #[trigger] marked@[v] && t.vs@[v]@ == x,
            forall|j: int, k: int| 0 <= j < head && 0 <= k < es.len() && (#[trigger] t.ends@[k]).0 == #[trigger] queue@[j] ==> marked@[t.ends@[k].1 as int],
        decreases n - head,
    {
        proof {
            lemma_distinct_bounded(queue@, n as nat);
        }
        let u = queue[head];
        let mut k: usize = 0;
        while k < t.ends.len()
            invariant
                head < queue@.len(),
                u == queue@[head as int],
                k <= t.ends@.len(),
                table_ok(*t, ns, es),
                n == t.vs@.len(),
                queue_ok(marked@, queue@, n as nat),
                forall|v: int| 0 <= v < n && #[trigger] marked@[v] ==> reaches(ns, es, ds, t.vs@[v]@),
                forall|x: Seq<char>| is_seed(ns, es, ds, x) ==> exists|v: int| 0 <= v < n && #[trigger] marked@[v] && t.vs@[v]@ == x,
                forall|j: int, kk: int| 0 <= j < head && 0 <= kk < es.len() && (#[trigger] t.ends@[kk]).0 == #[trigger] queue@[j] ==> marked@[t.ends@[kk].1 as int],
                forall|kk: int| 0 <= kk < k && (#[trigger] t.ends@[kk]).0 == u ==> marked@[t.ends@[kk].1 as int],
            decreases t.ends@.len() - k,
        {
            let (a, b) = t.ends[k];
            if a == u && !marked[b] {
                let ghost q0 = queue@;
                let ghost m0 = marked@;
                proof {
                    assert(m0[u as int]);
                    assert(reaches(ns, es, ds, t.vs@[u as int]@));
                    assert(has_edge(es, t.vs@[u as int]@, t.vs@[b as int]@)) by {
                        assert(es[k as int].0 == t.vs@[u as int]@);
                    }
                    lemma_reach_step(ns, es, ds, t.vs@[u as int]@, t.vs@[b as int]@);
                }
                mark_push(marked, queue, b, Ghost(n as nat));
                proof {
                    assert(queue@[head as int] == q0[head as int]);
                    assert forall|w: int| 0 <= w < n && #[trigger] marked@[w] implies reaches(ns, es, ds, t.vs@[w]@) by {
                        if w != b {
                            assert(m0[w]);
                        }
                    }
                    assert forall|x: Seq<char>| is_seed(ns, es, ds, x) implies exists|v: int| 0 <= v < n && #[trigger] marked@[v] && t.vs@[v]@ == x by {
                        let v = choose|v: int| 0 <= v < n && #[trigger] m0[v] && t.vs@[v]@ == x;
                        assert(marked@[v]);
                    }
                    assert forall|j: int, kk: int| 0 <= j < head && 0 <= kk < es.len() && (#[trigger] t.ends@[kk]).0 == #[trigger] queue@[j] implies marked@[t.ends@[kk].1 as int] by {
                        assert(queue@[j] == q0[j]);
                        assert(m0[t.ends@[kk].1 as int]);
                    }
                    assert forall|kk: int| 0 <= kk < k + 1 && (#[trigger] t.ends@[kk]).0 == u implies marked@[t.ends@[kk].1 as int] by {
                        if kk < k {
                            assert(m0[t.ends@[kk].1 as int]);
                        }
                    }
                }
            }
            k += 1;
        }
        proof {
            assert forall|j: int, kk: int| 0 <= j < head + 1 && 0 <= kk < es.len() && (#[trigger] t.ends@[kk]).0 == #[trigger] queue@[j] implies marked@[t.ends@[kk].1 as int] by {
                if j == head {
                    assert(queue@[j] == u);
                }
            }
        }
        head += 1;
    }
    proof {
        assert forall|kk: int| 0 <= kk < es.len() && marked@[(#[trigger] t.ends@[kk]).0 as int] implies marked@[t.ends@[kk].1 as int] by {
            let a = t.ends@[kk].0;
            let j = queue@.index_of(a);
            assert(queue@[j] == a);
        }
    }
}

/// Compute reachability: which packages and dependencies can be reached
/// from the direct dependencies (the reachable names, each once), and the
/// packages that cannot (in package order).
pub fn reachability(g: &DepGraph) -> (r: (Vec<String>, Vec<String>))
    ensures
        names_view(r.0@).no_duplicates(),
        forall|x: Seq<char>|
            #[trigger] names_view(r.0@).contains(x) <==> reaches(
                nodes_view(g.nodes@),
                edges_view(g.edges@),
                names_view(g.direct_deps@),
                x,
            ),
        names_view(r.1@) == unreachable_names(
            node_names(nodes_view(g.nodes@)),
            nodes_view(g.nodes@),
            edges_view(g.edges@),
            names_view(g.direct_deps@),
        ),
{
    let ghost ns = nodes_view(g.nodes@);
    let ghost es = edges_view(g.edges@);
    let ghost ds = names_view(g.direct_deps@);
    let t = build_table(g);
    let n = t.vs.len();
    let (mut marked, mut queue) = seed_phase(g, &t);
    proof {
        assert forall|v: int| 0 <= v < n && #[trigger] marked@[v] implies reaches(ns, es, ds, t.vs@[v]@) by {
            lemma_seed_reaches(ns, es, ds, t.vs@[v]@);
        }
    }
    bfs_phase(&t, &mut marked, &mut queue, Ghost(ns), Ghost(es), Ghost(ds));
    proof {
        assert forall|v: int| 0 <= v < n implies (#[trigger] marked@[v] <==> reaches(ns, es, ds, t.vs@[v]@)) by {
            if reaches(ns, es, ds, t.vs@[v]@) {
                let p = choose|p: Seq<Seq<char>>| is_path(es, p) && is_seed(ns, es, ds, p[0]) && p.last() == t.vs@[v]@;
                lemma_path_marked(*&t, ns, es, ds, marked@, p, p.len() - 1);
                let w = choose|w: int| 0 <= w < n && marked@[w] && t.vs@[w]@ == p[p.len() - 1];
                lemma_vertex_unique(t.vs@, v, w);
            }
        }
    }
    let mut reach_names: Vec<String> = Vec::new();
    let mut j: usize = 0;
    while j < queue.len()
        invariant
            j <= queue@.len(),
            table_ok(t, ns, es),
            n == t.vs@.len(),
            queue_ok(marked@, queue@, n as nat),
            reach_names@.len() == j,
            forall|q: int| 0 <= q < j ==> #[trigger] reach_names@[q]@ == t.vs@[queue@[q] as int]@,
        decreases queue@.len() - j,
    {
        reach_names.push(string_of(&t.vs[queue[j]]));
        j += 1;
    }
    proof {
        assert forall|a: int, b: int| 0 <= a < b < reach_names@.len() implies names_view(reach_names@)[a] != names_view(reach_names@)[b] by {
            assert(names_view(reach_names@)[a] == t.vs@[queue@[a] as int]@);
            assert(names_view(reach_names@)[b] == t.vs@[queue@[b] as int]@);
            if t.vs@[queue@[a] as int]@ == t.vs@[queue@[b] as int]@ {
                lemma_vertex_unique(t.vs@, queue@[a] as int, queue@[b] as int);
            }
        }
        assert forall|x: Seq<char>| #[trigger] names_view(reach_names@).contains(x) <==> reaches(ns, es, ds, x) by {
            if names_view(reach_names@).contains(x) {
                let q = names_view(reach_names@).index_of(x);
                assert(names_view(reach_names@)[q] == reach_names@[q]@);
                assert(marked@[queue@[q] as int]);
            }
            if reaches(ns, es, ds, x) {
                let p = choose|p: Seq<Seq<char>>| is_path(es, p) && is_seed(ns, es, ds, p[0]) && p.last() == x;
                lemma_path_marked(t, ns, es, ds, marked@, p, p.len() - 1);
                let v = choose|v: int| 0 <= v < n && marked@[v] && t.vs@[v]@ == p[p.len() - 1];
                let q = queue@.index_of(v as usize);
                assert(reach_names@[q]@ == x);
                assert(names_view(reach_names@)[q] == x);
            }
        }
    }
    let mut unreach: Vec<String> = Vec::new();
    let ghost nn = node_names(ns);
    let mut i: usize = 0;
    proof {
        assert(nn.take(0) =~= Seq::<Seq<char>>::empty());
        assert(names_view(unreach@) =~= Seq::<Seq<char>>::empty());
    }
    while i < g.nodes.len()
        invariant
            i <= g.nodes@.len(),
            table_ok(t, ns, es),
            n == t.vs@.len(),
            ns == nodes_view(g.nodes@),
            nn == node_names(ns),
            marked@.len() == n,
            forall|v: int| 0 <= v < n ==> (#[trigger] marked@[v] <==> reaches(ns, es, ds, t.vs@[v]@)),
            names_view(unreach@) == unreachable_names(nn.take(i as int), ns, es, ds),
        decreases g.nodes@.len() - i,
    {
        proof {
            assert(nn.take(i + 1).drop_last() =~= nn.take(i as int));
            assert(nn.take(i + 1).last() == ns[i as int].0);
        }
        let v = t.node_ix[i];
        let ghost before = names_view(unreach@);
        if !marked[v] {
            unreach.push(g.nodes[i].name.clone());
            proof {
                assert(names_view(unreach@) =~= before.push(ns[i as int].0));
            }
        }
        i += 1;
    }
    proof {
        assert(nn.take(g.nodes@.len() as int) =~= nn);
    }
    (reach_names, unreach)
}

/// Along a path from a seed, every name is held by a marked vertex when the
/// marked vertices hold the seeds and are closed under edges.
proof fn lemma_path_marked(
    t: VertexTable,
    ns: Seq<NodeView>,
    es: Seq<(Seq<char>, Seq<char>)>,
    ds: Seq<Seq<char>>,
    marked: Seq<bool>,
    p: Seq<Seq<char>>,
    i: int,
)
    requires
        table_ok(t, ns, es),
        marked.len() == t.vs@.len(),
        is_path(es, p),
        is_seed(ns, es, ds, p[0]),
        0 <= i < p.len(),
        forall|x: Seq<char>| is_seed(ns, es, ds, x) ==> exists|v: int| 0 <= v < t.vs@.len() && #[trigger] marked[v] && t.vs@[v]@ == x,
        forall|kk: int| 0 <= kk < es.len() && marked[(#[trigger] t.ends@[kk]).0 as int] ==> marked[t.ends@[kk].1 as int],
    ensures
        exists|v: int| 0 <= v < t.vs@.len() && marked[v] && t.vs@[v]@ == p[i],
    decreases i,
{
    if i > 0 {
        lemma_path_marked(t, ns, es, ds, marked, p, i - 1);
        let v = choose|v: int| 0 <= v < t.vs@.len() && marked[v] && t.vs@[v]@ == p[i - 1];
        assert(has_edge(es, p[i - 1], p[i]));
        let kk = choose|kk: int| 0 <= kk < es.len() && (#[trigger] es[kk]).0 == p[i - 1] && es[kk].1 == p[i];
        let a = t.ends@[kk].0 as int;
        lemma_vertex_unique(t.vs@, a, v);
        assert(marked[t.ends@[kk].1 as int]);
    }
}


/// `c` is a cycle of the graph: at least two distinct names, each with an
/// edge to the next, and the last with an edge back to the first.
pub open spec fn is_cycle(es: Seq<(Seq<char>, Seq<char>)>, c: Seq<Seq<char>>) -> bool {
    &&& c.len() >= 2
    &&& c.no_duplicates()
    &&& forall|i: int| 0 <= i < c.len() - 1 ==> has_edge(es, #[trigger] c[i], c[i + 1])
    &&& has_edge(es, c.last(), c[0])
}

/// The name lists of cycles.
pub open spec fn cycles_view(v: Seq<Vec<String>>) -> Seq<Seq<Seq<char>>> {
    Seq::new(v.len(), |i: int| names_view(v[i]@))
}

/// The number of unvisited vertices.
spec fn count_false(s: Seq<bool>) -> nat
    decreases s.len(),
{
    if s.len() == 0 {
        0
    } else {
        count_false(s.drop_last()) + if s.last() {
            0nat
        } else {
            1nat
        }
    }
}

proof fn lemma_count_mono(a: Seq<bool>, b: Seq<bool>)
    requires
        a.len() == b.len(),
        forall|i: int| 0 <= i < a.len() && #[trigger] a[i] ==> b[i],
    ensures
        count_false(b) <= count_false(a),
    decreases a.len(),
{
    if a.len() > 0 {
        assert forall|i: int| 0 <= i < a.drop_last().len() && #[trigger] a.drop_last()[i] implies b.drop_last()[i] by {
            assert(a.drop_last()[i] == a[i]);
            assert(b.drop_last()[i] == b[i]);
        }
        lemma_count_mono(a.drop_last(), b.drop_last());
    }
}

proof fn lemma_count_mark(a: Seq<bool>, i: int)
    requires
        0 <= i < a.len(),
        !a[i],
    ensures
        count_false(a.update(i, true)) + 1 == count_false(a),
    decreases a.len(),
{
    if i == a.len() - 1 {
        assert(a.update(i, true).drop_last() =~= a.drop_last());
    } else {
        assert(a.update(i, true).drop_last() =~= a.drop_last().update(i, true));
        lemma_count_mark(a.drop_last(), i);
    }
}

/// There is an edge between the vertices `a` and `b`.
spec fn edge_ix(t: VertexTable, a: int, b: int) -> bool {
    exists|k: int| 0 <= k < t.ends@.len() && (#[trigger] t.ends@[k]).0 == a && t.ends@[k].1 == b
}

/// No vertex has the same out-neighbour twice.
spec fn rows_distinct(adj: Seq<Vec<usize>>) -> bool {
    forall|u: int, j1: int, j2: int|
        0 <= u < adj.len() && 0 <= j1 < j2 < adj[u]@.len() ==> #[trigger] adj[u]@[j1] != #[trigger] adj[u]@[j2]
}

/// Some edge among the first `k` goes from `u` to `x`.
spec fn from_end(t: VertexTable, k: int, u: int, x: int) -> bool {
    exists|kk: int| 0 <= kk < k && (#[trigger] t.ends@[kk]).0 == u && t.ends@[kk].1 == x
}

/// The out-neighbours of each vertex, in edge order.
fn build_adjacency(t: &VertexTable, Ghost(ns): Ghost<Seq<NodeView>>, Ghost(es): Ghost<Seq<(Seq<char>, Seq<char>)>>) -> (adj: Vec<Vec<usize>>)
    requires
        table_ok(*t, ns, es),
    ensures
        adj@.len() == t.vs@.len(),
        forall|u: int, j: int| 0 <= u < adj@.len() && 0 <= j < adj@[u]@.len() ==> (#[trigger] adj@[u]@[j]) < t.vs@.len() && edge_ix(*t, u, adj@[u]@[j] as int),
        forall|k: int| 0 <= k < t.ends@.len() ==> adj@[(#[trigger] t.ends@[k]).0 as int]@.contains(t.ends@[k].1),
        t.ends@.no_duplicates() ==> rows_distinct(adj@),
{
    let n = t.vs.len();
    let mut adj: Vec<Vec<usize>> = Vec::new();
    let mut i: usize = 0;
    while i < n
        invariant
            i <= n,
            adj@.len() == i,
            forall|u: int| 0 <= u < i ==> (#[trigger] adj@[u])@.len() == 0,
        decreases n - i,
    {
        adj.push(Vec::new());
        i += 1;
    }
    let mut k: usize = 0;
    while k < t.ends.len()
        invariant
            n == t.vs@.len(),
            adj@.len() == n,
            k <= t.ends@.len(),
            forall|kk: int| 0 <= kk < t.ends@.len() ==> (#[trigger] t.ends@[kk]).0 < n && t.ends@[kk].1 < n,
            forall|u: int, j: int| 0 <= u < adj@.len() && 0 <= j < adj@[u]@.len() ==> (#[trigger] adj@[u]@[j]) < n && edge_ix(*t, u, adj@[u]@[j] as int),
            forall|kk: int| 0 <= kk < k ==> adj@[(#[trigger] t.ends@[kk]).0 as int]@.contains(t.ends@[kk].1),
            forall|u: int, j: int| 0 <= u < adj@.len() && 0 <= j < adj@[u]@.len() ==> from_end(*t, k as int, u, #[trigger] adj@[u]@[j] as int),
            t.ends@.no_duplicates() ==> rows_distinct(adj@),
        decreases t.ends@.len() - k,
    {
        let (a, b) = t.ends[k];
        let ghost adj0 = adj@;
        let ghost row0 = adj@[a as int]@;
        adj[a].push(b);
        proof {
            assert(edge_ix(*t, a as int, b as int)) by {
                assert(t.ends@[k as int].0 == a && t.ends@[k as int].1 == b);
            }
            assert forall|u: int, j: int| 0 <= u < adj@.len() && 0 <= j < adj@[u]@.len() implies (#[trigger] adj@[u]@[j]) < n && edge_ix(*t, u, adj@[u]@[j] as int) by {
                if u != a {
                    assert(adj@[u] == adj0[u]);
                } else if j < row0.len() {
                    assert(adj@[u]@[j] == adj0[u]@[j]);
                }
            }
            assert(adj@[a as int]@ == row0.push(b));
            assert(adj@[a as int]@[row0.len() as int] == b);
            assert forall|u: int, j: int| 0 <= u < adj@.len() && 0 <= j < adj@[u]@.len() implies from_end(*t, k + 1, u, #[trigger] adj@[u]@[j] as int) by {
                if u == a && j == row0.len() {
                    assert(t.ends@[k as int].0 == u && t.ends@[k as int].1 == b);
                } else {
                    if u != a {
                        assert(adj@[u] == adj0[u]);
                    } else {
                        assert(adj@[u]@[j] == adj0[u]@[j]);
                    }
                    assert(from_end(*t, k as int, u, adj0[u]@[j] as int));
                    let kk = choose|kk: int| 0 <= kk < k && (#[trigger] t.ends@[kk]).0 == u && t.ends@[kk].1 == adj0[u]@[j] as int;
                    assert(t.ends@[kk].0 == u);
                }
            }
            if t.ends@.no_duplicates() {
                assert forall|u: int, j1: int, j2: int|
                    0 <= u < adj@.len() && 0 <= j1 < j2 < adj@[u]@.len() implies #[trigger] adj@[u]@[j1] != #[trigger] adj@[u]@[j2] by {
                    if u != a {
                        assert(adj@[u] == adj0[u]);
                    } else if j2 < row0.len() {
                        assert(adj@[u]@[j1] == adj0[u]@[j1]);
                        assert(adj@[u]@[j2] == adj0[u]@[j2]);
                    } else {
                        assert(adj@[u]@[j1] == adj0[u]@[j1]);
                        if adj0[u]@[j1] == b {
                            assert(from_end(*t, k as int, u, adj0[u]@[j1] as int));
                            let kk = choose|kk: int| 0 <= kk < k && (#[trigger] t.ends@[kk]).0 == u && t.ends@[kk].1 == adj0[u]@[j1] as int;
                            assert(t.ends@[kk] == t.ends@[k as int]);
                        }
                    }
                }
            }
            assert forall|kk: int| 0 <= kk < k + 1 implies adj@[(#[trigger] t.ends@[kk]).0 as int]@.contains(t.ends@[kk].1) by {
                let x = t.ends@[kk].0 as int;
                let y = t.ends@[kk].1;
                if kk < k {
                    assert(adj0[x]@.contains(y));
                    let q = choose|q: int| 0 <= q < adj0[x]@.len() && adj0[x]@[q] == y;
                    if x == a {
                        assert(adj@[x]@[q] == y);
                    } else {
                        assert(adj@[x] == adj0[x]);
                    }
                } else {
                    assert(adj@[x]@[row0.len() as int] == y);
                }
            }
        }
        k += 1;
    }
    adj
}

/// The DFS state is consistent: the path is a walk of distinct vertices on
/// the stack, and every recorded cycle is a cycle of the graph.
spec fn dfs_ok(
    t: VertexTable,
    es: Seq<(Seq<char>, Seq<char>)>,
    visited: Seq<bool>,
    on_stack: Seq<bool>,
    path: Seq<usize>,
    cycles: Seq<Vec<String>>,
) -> bool {
    let n = t.vs@.len();
    &&& visited.len() == n
    &&& on_stack.len() == n
    &&& path.no_duplicates()
    &&& forall|i: int| 0 <= i < path.len() ==> (#[trigger] path[i]) < n && on_stack[path[i] as int] && visited[path[i] as int]
    &&& forall|x: int| 0 <= x < n && #[trigger] on_stack[x] ==> path.contains(x as usize)
    &&& forall|i: int| 0 <= i < path.len() - 1 ==> edge_ix(t, #[trigger] path[i] as int, path[i + 1] as int)
    &&& forall|c: int| 0 <= c < cycles.len() ==> is_cycle(es, #[trigger] names_view(cycles[c]@))
}

proof fn lemma_edge_ix_names(t: VertexTable, ns: Seq<NodeView>, es: Seq<(Seq<char>, Seq<char>)>, a: int, b: int)
    requires
        table_ok(t, ns, es),
        edge_ix(t, a, b),
    ensures
        has_edge(es, t.vs@[a]@, t.vs@[b]@),
{
    let k = choose|k: int| 0 <= k < t.ends@.len() && (#[trigger] t.ends@[k]).0 == a && t.ends@[k].1 == b;
    assert(es[k].0 == t.vs@[a]@ && es[k].1 == t.vs@[b]@);
}

/// A vertex whose search is over: visited and off the stack.
spec fn finished(visited: Seq<bool>, on_stack: Seq<bool>, x: int) -> bool {
    visited[x] && !on_stack[x]
}

/// `y` can be reached from `x` along edges.
pub open spec fn reaches_from(es: Seq<(Seq<char>, Seq<char>)>, x: Seq<char>, y: Seq<char>) -> bool {
    exists|p: Seq<Seq<char>>| #[trigger] is_path(es, p) && p[0] == x && p.last() == y
}

/// `x` and `y` can each be reached from the other.
pub open spec fn same_class(es: Seq<(Seq<char>, Seq<char>)>, x: Seq<char>, y: Seq<char>) -> bool {
    reaches_from(es, x, y) && reaches_from(es, y, x)
}

/// Every member of `c` can reach `x` and be reached from it.
pub open spec fn cycle_within(es: Seq<(Seq<char>, Seq<char>)>, c: Seq<Seq<char>>, x: Seq<char>) -> bool {
    forall|i: int| 0 <= i < c.len() ==> same_class(es, #[trigger] c[i], x)
}

/// One of the listed cycles lies among the names that `x` can reach and be
/// reached from.
pub open spec fn some_cycle_within(es: Seq<(Seq<char>, Seq<char>)>, cs: Seq<Seq<Seq<char>>>, x: Seq<char>) -> bool {
    exists|k: int| 0 <= k < cs.len() && #[trigger] cycle_within(es, cs[k], x)
}

/// Joining two walks where the first ends and the second starts.
pub proof fn lemma_reach_trans(es: Seq<(Seq<char>, Seq<char>)>, x: Seq<char>, y: Seq<char>, z: Seq<char>)
    requires
        reaches_from(es, x, y),
        reaches_from(es, y, z),
    ensures
        reaches_from(es, x, z),
{
    let p = choose|p: Seq<Seq<char>>| #[trigger] is_path(es, p) && p[0] == x && p.last() == y;
    let q = choose|q: Seq<Seq<char>>| #[trigger] is_path(es, q) && q[0] == y && q.last() == z;
    let r = p + q.drop_first();
    assert forall|i: int| 0 <= i < r.len() - 1 implies has_edge(es, #[trigger] r[i], r[i + 1]) by {
        if i < p.len() - 1 {
            assert(r[i] == p[i] && r[i + 1] == p[i + 1]);
        } else if i == p.len() - 1 {
            assert(r[i] == p.last());
            assert(r[i + 1] == q[1]);
            assert(has_edge(es, q[0], q[1]));
        } else {
            let j = i - p.len() + 1;
            assert(r[i] == q[j] && r[i + 1] == q[j + 1]);
        }
    }
    assert(is_path(es, r));
    if q.len() == 1 {
        assert(r.last() == p.last());
    } else {
        assert(r.last() == q.last());
    }
}

/// An edge is a walk.
proof fn lemma_reach_edge(es: Seq<(Seq<char>, Seq<char>)>, x: Seq<char>, y: Seq<char>)
    requires
        has_edge(es, x, y),
    ensures
        reaches_from(es, x, y),
{
    let p = seq![x, y];
    assert(is_path(es, p));
}

/// The members of a walk reach each other forward along it.
proof fn lemma_walk_reaches(es: Seq<(Seq<char>, Seq<char>)>, p: Seq<Seq<char>>, i: int, j: int)
    requires
        is_path(es, p),
        0 <= i <= j < p.len(),
    ensures
        reaches_from(es, p[i], p[j]),
{
    let q = p.subrange(i, j + 1);
    assert forall|k: int| 0 <= k < q.len() - 1 implies has_edge(es, #[trigger] q[k], q[k + 1]) by {
        assert(q[k] == p[i + k] && q[k + 1] == p[i + k + 1]);
    }
    assert(is_path(es, q));
}

/// The members of a cycle of the graph can all reach each other.
pub proof fn lemma_cycle_members(es: Seq<(Seq<char>, Seq<char>)>, c: Seq<Seq<char>>, i: int, j: int)
    requires
        is_cycle(es, c),
        0 <= i < c.len(),
        0 <= j < c.len(),
    ensures
        same_class(es, c[i], c[j]),
{
    assert(is_path(es, c));
    let last = c.len() - 1;
    lemma_reach_edge(es, c.last(), c[0]);
    // Every member reaches the first one, and is reached from it.
    lemma_walk_reaches(es, c, i, last);
    lemma_reach_trans(es, c[i], c[last], c[0]);
    lemma_walk_reaches(es, c, 0, j);
    lemma_reach_trans(es, c[i], c[0], c[j]);
    lemma_walk_reaches(es, c, j, last);
    lemma_reach_trans(es, c[j], c[last], c[0]);
    lemma_walk_reaches(es, c, 0, i);
    lemma_reach_trans(es, c[j], c[0], c[i]);
}

/// A cycle lying among the names of one class lies among those of another
/// member of it.
proof fn lemma_within_moves(es: Seq<(Seq<char>, Seq<char>)>, c: Seq<Seq<char>>, x: Seq<char>, y: Seq<char>)
    requires
        cycle_within(es, c, x),
        same_class(es, x, y),
    ensures
        cycle_within(es, c, y),
{
    assert forall|i: int| 0 <= i < c.len() implies same_class(es, #[trigger] c[i], y) by {
        lemma_reach_trans(es, c[i], x, y);
        lemma_reach_trans(es, y, x, c[i]);
    }
}

/// A recorded cycle lies among the names of its own class.
proof fn lemma_cycle_within_own(es: Seq<(Seq<char>, Seq<char>)>, c: Seq<Seq<char>>, j: int)
    requires
        is_cycle(es, c),
        0 <= j < c.len(),
    ensures
        cycle_within(es, c, c[j]),
{
    assert forall|i: int| 0 <= i < c.len() implies same_class(es, #[trigger] c[i], c[j]) by {
        lemma_cycle_members(es, c, i, j);
    }
}

/// The cycles listed are kept, in place, when more are added.
spec fn cycles_kept(before: Seq<Vec<String>>, after: Seq<Vec<String>>) -> bool {
    before.len() <= after.len() && forall|k: int| 0 <= k < before.len() ==> #[trigger] after[k] == before[k]
}

/// Some recorded cycle lies in the class of the name of vertex `a`.
spec fn class_has_cycle(t: VertexTable, es: Seq<(Seq<char>, Seq<char>)>, cycles: Seq<Vec<String>>, a: int) -> bool {
    some_cycle_within(es, cycles_view(cycles), t.vs@[a]@)
}

proof fn lemma_class_cycle_kept(t: VertexTable, es: Seq<(Seq<char>, Seq<char>)>, c0: Seq<Vec<String>>, c1: Seq<Vec<String>>, a: int)
    requires
        cycles_kept(c0, c1),
        class_has_cycle(t, es, c0, a),
    ensures
        class_has_cycle(t, es, c1, a),
{
    let k = choose|k: int| 0 <= k < cycles_view(c0).len() && #[trigger] cycle_within(es, cycles_view(c0)[k], t.vs@[a]@);
    assert(c1[k] == c0[k]);
    assert(cycles_view(c1)[k] == cycles_view(c0)[k]);
}

/// The finished vertices, numbered in the order they finished (all below
/// `clock`): each edge from a finished vertex to another leads to a vertex
/// that finished earlier, or back to one from which it is reached, in a class
/// where a cycle has already been recorded.
spec fn closed(
    t: VertexTable,
    es: Seq<(Seq<char>, Seq<char>)>,
    cycles: Seq<Vec<String>>,
    visited: Seq<bool>,
    on_stack: Seq<bool>,
    ft: Seq<int>,
    clock: int,
) -> bool {
    &&& ft.len() == t.vs@.len()
    &&& forall|x: int| 0 <= x < t.vs@.len() && #[trigger] finished(visited, on_stack, x) ==> ft[x] < clock
    &&& forall|a: int, b: int|
        0 <= a < t.vs@.len() && 0 <= b < t.vs@.len() && a != b && finished(visited, on_stack, a) && #[trigger] edge_ix(t, a, b)
            ==> (finished(visited, on_stack, b) && ft[b] < ft[a]) || (class_has_cycle(t, es, cycles, a)
            && reaches_from(es, t.vs@[b]@, t.vs@[a]@))
}

proof fn lemma_closed_kept(
    t: VertexTable,
    es: Seq<(Seq<char>, Seq<char>)>,
    c0: Seq<Vec<String>>,
    c1: Seq<Vec<String>>,
    visited: Seq<bool>,
    on_stack: Seq<bool>,
    ft: Seq<int>,
    clock: int,
)
    requires
        cycles_kept(c0, c1),
        closed(t, es, c0, visited, on_stack, ft, clock),
    ensures
        closed(t, es, c1, visited, on_stack, ft, clock),
{
    assert forall|a: int, b: int|
        0 <= a < t.vs@.len() && 0 <= b < t.vs@.len() && a != b && finished(visited, on_stack, a) && #[trigger] edge_ix(t, a, b)
            implies (finished(visited, on_stack, b) && ft[b] < ft[a]) || (class_has_cycle(t, es, c1, a)
            && reaches_from(es, t.vs@[b]@, t.vs@[a]@)) by {
        if class_has_cycle(t, es, c0, a) {
            lemma_class_cycle_kept(t, es, c0, c1, a);
        }
    }
}

/// The search's invariant on finished vertices.
spec fn finish_order_ok(
    t: VertexTable,
    es: Seq<(Seq<char>, Seq<char>)>,
    cycles: Seq<Vec<String>>,
    visited: Seq<bool>,
    on_stack: Seq<bool>,
    ft: Seq<int>,
    clock: int,
) -> bool {
    closed(t, es, cycles, visited, on_stack, ft, clock)
}

/// The vertex that carries the name `x`.
spec fn vertex_named(t: VertexTable, x: Seq<char>) -> int {
    choose|v: int| 0 <= v < t.vs@.len() && t.vs@[v]@ == x
}

proof fn lemma_edge_vertices(t: VertexTable, ns: Seq<NodeView>, es: Seq<(Seq<char>, Seq<char>)>, x: Seq<char>, y: Seq<char>)
    requires
        table_ok(t, ns, es),
        has_edge(es, x, y),
    ensures
        0 <= vertex_named(t, x) < t.vs@.len(),
        t.vs@[vertex_named(t, x)]@ == x,
        0 <= vertex_named(t, y) < t.vs@.len(),
        t.vs@[vertex_named(t, y)]@ == y,
        edge_ix(t, vertex_named(t, x), vertex_named(t, y)),
{
    let k = choose|k: int| 0 <= k < es.len() && (#[trigger] es[k]).0 == x && es[k].1 == y;
    let a = t.ends@[k].0 as int;
    let b = t.ends@[k].1 as int;
    assert(0 <= a < t.vs@.len() && t.vs@[a]@ == x);
    assert(0 <= b < t.vs@.len() && t.vs@[b]@ == y);
    assert(exists|v: int| 0 <= v < t.vs@.len() && t.vs@[v]@ == x);
    assert(exists|v: int| 0 <= v < t.vs@.len() && t.vs@[v]@ == y);
    let va = vertex_named(t, x);
    let vb = vertex_named(t, y);
    lemma_vertex_unique(t.vs@, a, va);
    lemma_vertex_unique(t.vs@, b, vb);
    assert(t.ends@[k].0 == va && t.ends@[k].1 == vb);
}

/// If a recorded cycle lies in the class of member `i` of a cycle of the
/// graph, one lies in the class of its first member.
proof fn lemma_class_to_first(t: VertexTable, es: Seq<(Seq<char>, Seq<char>)>, cycles: Seq<Vec<String>>, c: Seq<Seq<char>>, i: int, a: int)
    requires
        is_cycle(es, c),
        0 <= i < c.len(),
        0 <= a < t.vs@.len(),
        t.vs@[a]@ == c[i],
        class_has_cycle(t, es, cycles, a),
    ensures
        some_cycle_within(es, cycles_view(cycles), c[0]),
{
    let cs = cycles_view(cycles);
    let k = choose|k: int| 0 <= k < cs.len() && #[trigger] cycle_within(es, cs[k], t.vs@[a]@);
    lemma_cycle_members(es, c, i, 0);
    lemma_within_moves(es, cs[k], c[i], c[0]);
}

/// Walking a cycle of the graph forward from a finished vertex, where no
/// recorded cycle lies in its class, stays among finished vertices that
/// finished ever earlier.
proof fn lemma_cycle_chain(
    t: VertexTable,
    ns: Seq<NodeView>,
    es: Seq<(Seq<char>, Seq<char>)>,
    cycles: Seq<Vec<String>>,
    visited: Seq<bool>,
    on_stack: Seq<bool>,
    ft: Seq<int>,
    clock: int,
    c: Seq<Seq<char>>,
    j: int,
)
    requires
        table_ok(t, ns, es),
        closed(t, es, cycles, visited, on_stack, ft, clock),
        is_cycle(es, c),
        0 <= j < c.len(),
        finished(visited, on_stack, vertex_named(t, c[0])),
        !some_cycle_within(es, cycles_view(cycles), c[0]),
    ensures
        0 <= vertex_named(t, c[j]) < t.vs@.len(),
        finished(visited, on_stack, vertex_named(t, c[j])),
        ft[vertex_named(t, c[j])] + j <= ft[vertex_named(t, c[0])],
    decreases j,
{
    if j == 0 {
        assert(has_edge(es, c[0], c[1]));
        lemma_edge_vertices(t, ns, es, c[0], c[1]);
    } else {
        lemma_cycle_chain(t, ns, es, cycles, visited, on_stack, ft, clock, c, j - 1);
        assert(has_edge(es, c[j - 1], c[j]));
        lemma_edge_vertices(t, ns, es, c[j - 1], c[j]);
        let a = vertex_named(t, c[j - 1]);
        let b = vertex_named(t, c[j]);
        assert(c[j - 1] != c[j]);
        assert(a != b);
        if class_has_cycle(t, es, cycles, a) {
            lemma_class_to_first(t, es, cycles, c, j - 1, a);
        }
    }
}

/// Where the first member of a cycle of the graph has finished, some
/// recorded cycle lies in its class.
proof fn lemma_closed_no_cycle(
    t: VertexTable,
    ns: Seq<NodeView>,
    es: Seq<(Seq<char>, Seq<char>)>,
    cycles: Seq<Vec<String>>,
    visited: Seq<bool>,
    on_stack: Seq<bool>,
    ft: Seq<int>,
    clock: int,
    c: Seq<Seq<char>>,
)
    requires
        table_ok(t, ns, es),
        closed(t, es, cycles, visited, on_stack, ft, clock),
        is_cycle(es, c),
    ensures
        finished(visited, on_stack, vertex_named(t, c[0])) ==> some_cycle_within(es, cycles_view(cycles), c[0]),
{
    if finished(visited, on_stack, vertex_named(t, c[0])) && !some_cycle_within(es, cycles_view(cycles), c[0]) {
        let last = c.len() - 1;
        lemma_cycle_chain(t, ns, es, cycles, visited, on_stack, ft, clock, c, last);
        lemma_edge_vertices(t, ns, es, c[last], c[0]);
        let a = vertex_named(t, c[last]);
        let b = vertex_named(t, c[0]);
        assert(c[last] != c[0]);
        assert(a != b);
        if class_has_cycle(t, es, cycles, a) {
            lemma_class_to_first(t, es, cycles, c, last, a);
        }
    }
}

/// The names of the vertices from `start` to the end of the path.
fn cycle_names(t: &VertexTable, path: &Vec<usize>, start: usize) -> (r: Vec<String>)
    requires
        start <= path@.len(),
        forall|i: int| 0 <= i < path@.len() ==> (#[trigger] path@[i]) < t.vs@.len(),
    ensures
        r@.len() == path@.len() - start,
        forall|i: int| 0 <= i < r@.len() ==> #[trigger] r@[i]@ == t.vs@[path@[start + i] as int]@,
{
    let mut r: Vec<String> = Vec::new();
    let mut i: usize = start;
    while i < path.len()
        invariant
            start <= i <= path@.len(),
            forall|q: int| 0 <= q < path@.len() ==> (#[trigger] path@[q]) < t.vs@.len(),
            r@.len() == i - start,
            forall|q: int| 0 <= q < r@.len() ==> #[trigger] r@[q]@ == t.vs@[path@[start + q] as int]@,
        decreases path@.len() - i,
    {
        r.push(string_of(&t.vs[path[i]]));
        i += 1;
    }
    r
}

/// The index `k` places on from `i`, going round a cycle of `n`.
pub open spec fn round_index(i: int, k: int, n: int) -> int {
    if i + k < n {
        i + k
    } else {
        i + k - n
    }
}

/// `b` is the cycle `a` started at another of its members (or at the same).
pub open spec fn is_rotation(a: Seq<Seq<char>>, b: Seq<Seq<char>>) -> bool {
    &&& a.len() == b.len()
    &&& exists|k: int| 0 <= k < a.len() && #[trigger] rotated_by(a, b, k)
}

/// Each member of `b` is the member of `a` that lies `k` places on.
pub open spec fn rotated_by(a: Seq<Seq<char>>, b: Seq<Seq<char>>, k: int) -> bool {
    forall|i: int| 0 <= i < a.len() ==> #[trigger] b[i] == a[round_index(i, k, a.len() as int)]
}

/// No two recorded cycles are the same cycle started at different members:
/// the edge closing one of them is never an edge inside another.
#[verifier::rlimit(40)]
#[verifier::spinoff_prover]
proof fn lemma_no_rotation(
    t: VertexTable,
    ns: Seq<NodeView>,
    es: Seq<(Seq<char>, Seq<char>)>,
    cycles: Seq<Vec<String>>,
    cv: Seq<Seq<int>>,
    tree: Set<(int, int)>,
    ex: Set<(int, int)>,
    visited: Seq<bool>,
    path: Seq<usize>,
    c1: int,
    c2: int,
)
    requires
        table_ok(t, ns, es),
        history_ok(t, cycles, cv, tree, ex, visited, path),
        0 <= c1 < c2 < cycles.len(),
    ensures
        !is_rotation(names_view(cycles[c1]@), names_view(cycles[c2]@)),
{
    reveal(history_ok);
    let a = names_view(cycles[c1]@);
    let b = names_view(cycles[c2]@);
    if is_rotation(a, b) {
        let n = a.len() as int;
        let v1 = cv[c1];
        let v2 = cv[c2];
        assert(v1.len() == n && v2.len() == n && n >= 2);
        let k = choose|k: int| 0 <= k < n && #[trigger] rotated_by(a, b, k);
        assert forall|i: int| 0 <= i < n implies #[trigger] v2[i] == v1[round_index(i, k, n)] by {
            let j = round_index(i, k, n);
            assert(b[i] == a[j]);
            assert(a[j] == cycles[c1]@[j]@);
            assert(b[i] == cycles[c2]@[i]@);
            assert(0 <= v1[j] < t.vs@.len() && cycles[c1]@[j]@ == t.vs@[v1[j]]@);
            assert(0 <= v2[i] < t.vs@.len() && cycles[c2]@[i]@ == t.vs@[v2[i]]@);
            lemma_vertex_unique(t.vs@, v1[j], v2[i]);
        }
        if k == 0 {
            assert(v2[0] == v1[round_index(0, 0, n)]);
            assert(v2[n - 1] == v1[round_index(n - 1, 0, n)]);
            assert(closing(v1) == closing(v2));
        } else {
            let i0 = n - 1 - k;
            assert(v2[i0] == v1[round_index(i0, k, n)]);
            assert(v2[i0 + 1] == v1[round_index(i0 + 1, k, n)]);
            assert(round_index(i0, k, n) == n - 1);
            assert(round_index(i0 + 1, k, n) == 0);
            assert(tree.contains((v2[i0], v2[i0 + 1])));
            assert(closing(v1) == (v2[i0], v2[i0 + 1]));
            assert(!tree.contains(closing(cv[c1])));
        }
    }
}

/// The closing edge of a recorded cycle: from its last vertex to its first.
spec fn closing(cv: Seq<int>) -> (int, int) {
    (cv.last(), cv[0])
}

/// What the search has recorded of the edges it looked at (`explored`) and
/// went down (`tree`), and of each reported cycle as vertices (`cyc_v`): the
/// edges inside a cycle and along the path were gone down, the edge that
/// closes a cycle was looked at but not gone down, and no two cycles are
/// closed by the same edge.
#[verifier::opaque]
spec fn history_ok(
    t: VertexTable,
    cycles: Seq<Vec<String>>,
    cyc_v: Seq<Seq<int>>,
    tree: Set<(int, int)>,
    explored: Set<(int, int)>,
    visited: Seq<bool>,
    path: Seq<usize>,
) -> bool {
    let n = t.vs@.len();
    &&& cyc_v.len() == cycles.len()
    &&& forall|c: int| 0 <= c < cycles.len() ==> (#[trigger] cyc_v[c]).len() == cycles[c]@.len() && cyc_v[c].len() >= 2
    &&& forall|c: int, i: int| 0 <= c < cycles.len() && 0 <= i < cyc_v[c].len() ==> 0 <= #[trigger] cyc_v[c][i] < n
        && cycles[c]@[i]@ == t.vs@[cyc_v[c][i]]@
    &&& forall|c: int, i: int| 0 <= c < cyc_v.len() && 0 <= i < cyc_v[c].len() - 1 ==> tree.contains((#[trigger] cyc_v[c][i], cyc_v[c][i + 1]))
    &&& forall|c: int| 0 <= c < cyc_v.len() ==> explored.contains(closing(#[trigger] cyc_v[c])) && !tree.contains(closing(cyc_v[c]))
    &&& forall|c1: int, c2: int| 0 <= c1 < c2 < cyc_v.len() ==> closing(#[trigger] cyc_v[c1]) != closing(#[trigger] cyc_v[c2])
    &&& tree.subset_of(explored)
    &&& forall|p: (int, int)| #[trigger] explored.contains(p) ==> 0 <= p.0 < n && visited[p.0]
    &&& forall|i: int| 0 <= i < path.len() - 1 ==> tree.contains((#[trigger] path[i] as int, path[i + 1] as int))
}

proof fn lemma_hist_explore(
    t: VertexTable,
    cycles: Seq<Vec<String>>,
    cv: Seq<Seq<int>>,
    tree: Set<(int, int)>,
    ex: Set<(int, int)>,
    visited: Seq<bool>,
    path: Seq<usize>,
    pair: (int, int),
)
    requires
        history_ok(t, cycles, cv, tree, ex, visited, path),
        0 <= pair.0 < t.vs@.len(),
        visited[pair.0],
        !ex.contains(pair),
    ensures
        history_ok(t, cycles, cv, tree, ex.insert(pair), visited, path),
        !tree.contains(pair),
        forall|c: int| 0 <= c < cv.len() ==> closing(#[trigger] cv[c]) != pair,
{
    reveal(history_ok);
    let ex1 = ex.insert(pair);
    assert forall|p: (int, int)| #[trigger] ex1.contains(p) implies 0 <= p.0 < t.vs@.len() && visited[p.0] by {
        if p != pair {
            assert(ex.contains(p));
        }
    }
    assert forall|c: int| 0 <= c < cv.len() implies closing(#[trigger] cv[c]) != pair by {
        assert(ex.contains(closing(cv[c])));
    }
    assert forall|c: int| 0 <= c < cv.len() implies ex1.contains(closing(#[trigger] cv[c])) && !tree.contains(closing(cv[c])) by {
        assert(ex.contains(closing(cv[c])));
    }
}

proof fn lemma_hist_tree(
    t: VertexTable,
    cycles: Seq<Vec<String>>,
    cv: Seq<Seq<int>>,
    tree: Set<(int, int)>,
    ex: Set<(int, int)>,
    visited: Seq<bool>,
    path: Seq<usize>,
    pair: (int, int),
)
    requires
        history_ok(t, cycles, cv, tree, ex, visited, path),
        ex.contains(pair),
        forall|c: int| 0 <= c < cv.len() ==> closing(#[trigger] cv[c]) != pair,
    ensures
        history_ok(t, cycles, cv, tree.insert(pair), ex, visited, path),
{
    reveal(history_ok);
    let tr = tree.insert(pair);
    assert forall|c: int| 0 <= c < cv.len() implies ex.contains(closing(#[trigger] cv[c])) && !tr.contains(closing(cv[c])) by {
    }
    assert forall|c: int, i: int| 0 <= c < cv.len() && 0 <= i < cv[c].len() - 1 implies tr.contains((#[trigger] cv[c][i], cv[c][i + 1])) by {
        assert(tree.contains((cv[c][i], cv[c][i + 1])));
    }
    assert forall|i: int| 0 <= i < path.len() - 1 implies tr.contains((#[trigger] path[i] as int, path[i + 1] as int)) by {
        assert(tree.contains((path[i] as int, path[i + 1] as int)));
    }
}

proof fn lemma_hist_push(
    t: VertexTable,
    cycles: Seq<Vec<String>>,
    cv: Seq<Seq<int>>,
    tree: Set<(int, int)>,
    ex: Set<(int, int)>,
    v0: Seq<bool>,
    v1: Seq<bool>,
    path: Seq<usize>,
    u: usize,
)
    requires
        history_ok(t, cycles, cv, tree, ex, v0, path),
        v1.len() == v0.len(),
        v0.len() == t.vs@.len(),
        forall|i: int| 0 <= i < v0.len() && #[trigger] v0[i] ==> v1[i],
        path.len() > 0 ==> tree.contains((path.last() as int, u as int)),
    ensures
        history_ok(t, cycles, cv, tree, ex, v1, path.push(u)),
{
    reveal(history_ok);
    let p1 = path.push(u);
    assert forall|p: (int, int)| #[trigger] ex.contains(p) implies 0 <= p.0 < t.vs@.len() && v1[p.0] by {
        assert(v0[p.0]);
    }
    assert forall|i: int| 0 <= i < p1.len() - 1 implies tree.contains((#[trigger] p1[i] as int, p1[i + 1] as int)) by {
        assert(p1[i] == path[i]);
        if i + 1 < path.len() {
            assert(p1[i + 1] == path[i + 1]);
            assert(tree.contains((path[i] as int, path[i + 1] as int)));
        } else {
            assert(p1[i + 1] == u);
            assert(path.last() == path[i]);
        }
    }
}

proof fn lemma_hist_pop(
    t: VertexTable,
    cycles: Seq<Vec<String>>,
    cv: Seq<Seq<int>>,
    tree: Set<(int, int)>,
    ex: Set<(int, int)>,
    visited: Seq<bool>,
    path: Seq<usize>,
)
    requires
        history_ok(t, cycles, cv, tree, ex, visited, path),
        path.len() > 0,
    ensures
        history_ok(t, cycles, cv, tree, ex, visited, path.drop_last()),
{
    reveal(history_ok);
    let p1 = path.drop_last();
    assert forall|i: int| 0 <= i < p1.len() - 1 implies tree.contains((#[trigger] p1[i] as int, p1[i + 1] as int)) by {
        assert(p1[i] == path[i]);
        assert(p1[i + 1] == path[i + 1]);
        assert(tree.contains((path[i] as int, path[i + 1] as int)));
    }
}

/// Recording the cycle from `start` to the end of the path, closed by the
/// edge back to its first vertex, keeps the record.
#[verifier::rlimit(60)]
#[verifier::spinoff_prover]
proof fn lemma_hist_record(
    t: VertexTable,
    cycles: Seq<Vec<String>>,
    cyc: Vec<String>,
    cv: Seq<Seq<int>>,
    tree: Set<(int, int)>,
    ex: Set<(int, int)>,
    visited: Seq<bool>,
    path: Seq<usize>,
    start: int,
)
    requires
        history_ok(t, cycles, cv, tree, ex, visited, path),
        0 <= start < path.len() - 1,
        forall|i: int| 0 <= i < path.len() ==> (#[trigger] path[i]) < t.vs@.len(),
        cyc@.len() == path.len() - start,
        forall|a: int| 0 <= a < cyc@.len() ==> #[trigger] cyc@[a]@ == t.vs@[path[start + a] as int]@,
        ex.contains((path.last() as int, path[start] as int)),
        !tree.contains((path.last() as int, path[start] as int)),
        forall|c: int| 0 <= c < cv.len() ==> closing(#[trigger] cv[c]) != (path.last() as int, path[start] as int),
    ensures
        history_ok(
            t,
            cycles.push(cyc),
            cv.push(Seq::new((path.len() - start) as nat, |a: int| path[start + a] as int)),
            tree,
            ex,
            visited,
            path,
        ),
{
    reveal(history_ok);
    let n = t.vs@.len();
    let seg: Seq<int> = Seq::new((path.len() - start) as nat, |a: int| path[start + a] as int);
    let c1 = cycles.push(cyc);
    let cv1 = cv.push(seg);
    let m = cycles.len() as int;
    assert(c1[m] == cyc);
    assert(cv1[m] == seg);
    assert forall|c: int| 0 <= c < c1.len() implies (#[trigger] cv1[c]).len() == c1[c]@.len() && cv1[c].len() >= 2 by {
        if c < m {
            assert(c1[c] == cycles[c]);
            assert(cv1[c] == cv[c]);
        }
    }
    assert forall|c: int, i: int| 0 <= c < c1.len() && 0 <= i < cv1[c].len() implies 0 <= #[trigger] cv1[c][i] < n
        && c1[c]@[i]@ == t.vs@[cv1[c][i]]@ by {
        if c < m {
            assert(c1[c] == cycles[c]);
            assert(cv1[c] == cv[c]);
        } else {
            assert(seg[i] == path[start + i] as int);
            assert(cyc@[i]@ == t.vs@[path[start + i] as int]@);
        }
    }
    assert forall|c: int, i: int| 0 <= c < cv1.len() && 0 <= i < cv1[c].len() - 1 implies tree.contains((#[trigger] cv1[c][i], cv1[c][i + 1])) by {
        if c < m {
            assert(cv1[c] == cv[c]);
        } else {
            assert(seg[i] == path[start + i] as int);
            assert(seg[i + 1] == path[start + i + 1] as int);
            assert(tree.contains((path[start + i] as int, path[start + i + 1] as int)));
        }
    }
    assert(closing(seg) == (path.last() as int, path[start] as int)) by {
        assert(seg.last() == path[path.len() - 1] as int);
        assert(seg[0] == path[start] as int);
    }
    assert forall|c: int| 0 <= c < cv1.len() implies ex.contains(closing(#[trigger] cv1[c])) && !tree.contains(closing(cv1[c])) by {
        if c < m {
            assert(cv1[c] == cv[c]);
        }
    }
    assert forall|a: int, b: int| 0 <= a < b < cv1.len() implies closing(#[trigger] cv1[a]) != closing(#[trigger] cv1[b]) by {
        assert(cv1[a] == cv[a]);
        if b < m {
            assert(cv1[b] == cv[b]);
        }
    }
}

/// Records the cycle closed by the edge from the end of the path back to `next`.
#[verifier::rlimit(60)]
#[verifier::spinoff_prover]
fn record_cycle(
    t: &VertexTable,
    path: &Vec<usize>,
    next: usize,
    cycles: &mut Vec<Vec<String>>,
    Ghost(ns): Ghost<Seq<NodeView>>,
    Ghost(es): Ghost<Seq<(Seq<char>, Seq<char>)>>,
    Ghost(visited): Ghost<Seq<bool>>,
    Ghost(on_stack): Ghost<Seq<bool>>,
    Ghost(d): Ghost<bool>,
    Ghost(cyc_v): Ghost<Seq<Seq<int>>>,
    Ghost(tree): Ghost<Set<(int, int)>>,
    Ghost(explored): Ghost<Set<(int, int)>>,
) -> (ret: Ghost<Seq<Seq<int>>>)
    requires
        table_ok(*t, ns, es),
        dfs_ok(*t, es, visited, on_stack, path@, old(cycles)@),
        next < t.vs@.len(),
        on_stack[next as int],
        path@.len() > 0,
        edge_ix(*t, path@.last() as int, next as int),
        d ==> history_ok(*t, old(cycles)@, cyc_v, tree, explored, visited, path@),
        d ==> explored.contains((path@.last() as int, next as int)),
        d ==> !tree.contains((path@.last() as int, next as int)),
        d ==> forall|c: int| 0 <= c < cyc_v.len() ==> closing(#[trigger] cyc_v[c]) != (path@.last() as int, next as int),
    ensures
        dfs_ok(*t, es, visited, on_stack, path@, final(cycles)@),
        old(cycles)@.len() <= final(cycles)@.len(),
        next != path@.last() ==> old(cycles)@.len() < final(cycles)@.len(),
        cycles_kept(old(cycles)@, final(cycles)@),
        next != path@.last() ==> class_has_cycle(*t, es, final(cycles)@, path@.last() as int) && reaches_from(
            es,
            t.vs@[next as int]@,
            t.vs@[path@.last() as int]@,
        ),
        d ==> history_ok(*t, final(cycles)@, ret@, tree, explored, visited, path@),
{
    let n = t.vs.len();
    assert(path@.contains(next));
    let mut start: usize = 0;
    while start < path.len() && path[start] != next
        invariant
            start <= path@.len(),
            path@.contains(next),
            forall|q: int| 0 <= q < start ==> path@[q] != next,
        decreases path@.len() - start,
    {
        start += 1;
    }
    proof {
        if start >= path@.len() {
            let q = choose|q: int| 0 <= q < path@.len() && path@[q] == next;
            assert(path@[q] != next);
        }
    }
    let cyc = cycle_names(t, path, start);
    proof {
        if next != path@.last() {
            assert(path@[start as int] == next);
            assert(start < path@.len() - 1);
        }
    }
    if cyc.len() >= 2 {
        let ghost cv = names_view(cyc@);
        let ghost c0 = cycles@;
        proof {
            let plen = path@.len() as int;
            assert(cv.len() == plen - start);
            assert forall|a: int| 0 <= a < cv.len() implies #[trigger] cv[a] == t.vs@[path@[start + a] as int]@ by {
                assert(cv[a] == cyc@[a]@);
            }
            assert forall|a: int, b: int| 0 <= a < b < cv.len() implies cv[a] != cv[b] by {
                assert(cv[a] == t.vs@[path@[start + a] as int]@);
                assert(cv[b] == t.vs@[path@[start + b] as int]@);
                if cv[a] == cv[b] {
                    lemma_vertex_unique(t.vs@, path@[start + a] as int, path@[start + b] as int);
                }
            }
            assert forall|a: int| 0 <= a < cv.len() - 1 implies has_edge(es, #[trigger] cv[a], cv[a + 1]) by {
                assert(cv[a] == t.vs@[path@[start + a] as int]@);
                assert(cv[a + 1] == t.vs@[path@[start + a + 1] as int]@);
                assert(edge_ix(*t, path@[start + a] as int, path@[start + a + 1] as int));
                lemma_edge_ix_names(*t, ns, es, path@[start + a] as int, path@[start + a + 1] as int);
            }
            assert(cv.last() == t.vs@[path@[plen - 1] as int]@);
            assert(cv[0] == t.vs@[next as int]@);
            lemma_edge_ix_names(*t, ns, es, path@.last() as int, next as int);
            assert(is_cycle(es, cv));
        }
        let ghost cy = cyc;
        proof {
            if d {
                assert(path@[start as int] == next);
                assert(start < path@.len() - 1);
                assert forall|i: int| 0 <= i < path@.len() implies (#[trigger] path@[i]) < t.vs@.len() by {
                    assert(dfs_ok(*t, es, visited, on_stack, path@, c0));
                }
            }
        }
        cycles.push(cyc);
        let ghost seg: Seq<int> = Seq::new((path@.len() - start) as nat, |a: int| path@[start + a] as int);
        let ghost cv1 = cyc_v.push(seg);
        proof {
            assert forall|c: int| 0 <= c < cycles@.len() implies is_cycle(es, #[trigger] names_view(cycles@[c]@)) by {
                if c < c0.len() {
                    assert(cycles@[c] == c0[c]);
                }
            }
            if d {
                assert(cycles@ == c0.push(cy));
                lemma_hist_record(*t, c0, cy, cyc_v, tree, explored, visited, path@, start as int);
            }
            let m = c0.len() as int;
            assert(cycles@[m] == cy);
            assert(cycles_view(cycles@)[m] == cv);
            let last = cv.len() - 1;
            lemma_cycle_within_own(es, cv, last);
            assert(cv[last] == t.vs@[path@[path@.len() - 1] as int]@);
            assert(cycle_within(es, cycles_view(cycles@)[m], t.vs@[path@.last() as int]@));
            assert(class_has_cycle(*t, es, cycles@, path@.last() as int));
            lemma_walk_reaches(es, cv, 0, last);
            assert(cv[0] == t.vs@[next as int]@);
        }
        return Ghost(cv1);
    }
    Ghost(cyc_v)
}

#[verifier::rlimit(80)]
#[verifier::spinoff_prover]
fn dfs(
    t: &VertexTable,
    adj: &Vec<Vec<usize>>,
    u: usize,
    visited: &mut Vec<bool>,
    on_stack: &mut Vec<bool>,
    path: &mut Vec<usize>,
    cycles: &mut Vec<Vec<String>>,
    Ghost(ns): Ghost<Seq<NodeView>>,
    Ghost(es): Ghost<Seq<(Seq<char>, Seq<char>)>>,
    Ghost(ft0): Ghost<Seq<int>>,
    Ghost(clock0): Ghost<int>,
    Ghost(d): Ghost<bool>,
    Ghost(cv0): Ghost<Seq<Seq<int>>>,
    Ghost(tree0): Ghost<Set<(int, int)>>,
    Ghost(ex0): Ghost<Set<(int, int)>>,
) -> (ret: Ghost<(Seq<int>, int, Seq<Seq<int>>, Set<(int, int)>, Set<(int, int)>)>)
    requires
        table_ok(*t, ns, es),
        adj@.len() == t.vs@.len(),
        forall|a: int, j: int| 0 <= a < adj@.len() && 0 <= j < adj@[a]@.len() ==> (#[trigger] adj@[a]@[j]) < t.vs@.len() && edge_ix(*t, a, adj@[a]@[j] as int),
        forall|k: int| 0 <= k < t.ends@.len() ==> adj@[(#[trigger] t.ends@[k]).0 as int]@.contains(t.ends@[k].1),
        dfs_ok(*t, es, old(visited)@, old(on_stack)@, old(path)@, old(cycles)@),
        u < t.vs@.len(),
        !old(visited)@[u as int],
        old(path)@.len() > 0 ==> edge_ix(*t, old(path)@.last() as int, u as int),
        ft0.len() == t.vs@.len(),
        finish_order_ok(*t, es, old(cycles)@, old(visited)@, old(on_stack)@, ft0, clock0),
        d ==> rows_distinct(adj@),
        d ==> history_ok(*t, old(cycles)@, cv0, tree0, ex0, old(visited)@, old(path)@),
        d ==> (old(path)@.len() > 0 ==> tree0.contains((old(path)@.last() as int, u as int))),
    ensures
        dfs_ok(*t, es, final(visited)@, final(on_stack)@, final(path)@, final(cycles)@),
        final(path)@ == old(path)@,
        final(on_stack)@ == old(on_stack)@,
        final(visited)@[u as int],
        forall|i: int| 0 <= i < old(visited)@.len() && #[trigger] old(visited)@[i] ==> final(visited)@[i],
        count_false(final(visited)@) < count_false(old(visited)@),
        old(cycles)@.len() <= final(cycles)@.len(),
        ret@.0.len() == t.vs@.len(),
        ret@.1 >= clock0,
        ret@.0[u as int] < ret@.1,
        forall|x: int| 0 <= x < t.vs@.len() && #[trigger] finished(old(visited)@, old(on_stack)@, x) ==> ret@.0[x] == ft0[x],
        finish_order_ok(*t, es, final(cycles)@, final(visited)@, final(on_stack)@, ret@.0, ret@.1),
        cycles_kept(old(cycles)@, final(cycles)@),
        d ==> history_ok(*t, final(cycles)@, ret@.2, ret@.3, ret@.4, final(visited)@, final(path)@),
        forall|p: (int, int)| #[trigger] ret@.4.contains(p) && !ex0.contains(p) ==> 0 <= p.0 < old(visited)@.len() && !old(visited)@[p.0],
        ex0.subset_of(ret@.4),
    decreases count_false(old(visited)@),
{
    let n = t.vs.len();
    let ghost v0 = visited@;
    let ghost s0 = on_stack@;
    let ghost p0 = path@;
    let ghost c0 = cycles@;
    let ghost mut ft = ft0;
    let ghost mut clock = clock0;
    let ghost mut cv = cv0;
    let ghost mut tree = tree0;
    let ghost mut ex = ex0;
    proof {
        lemma_count_mark(visited@, u as int);
        assert(!s0[u as int]);
    }
    visited.set(u, true);
    on_stack.set(u, true);
    path.push(u);
    proof {
        assert forall|a: int, b: int| 0 <= a < b < path@.len() implies path@[a] != path@[b] by {
            if b == p0.len() {
                assert(path@[a] == p0[a]);
            } else {
                assert(path@[a] == p0[a] && path@[b] == p0[b]);
            }
        }
        assert forall|i: int| 0 <= i < path@.len() implies (#[trigger] path@[i]) < n && on_stack@[path@[i] as int] && visited@[path@[i] as int] by {
            if i < p0.len() {
                assert(path@[i] == p0[i]);
            }
        }
        assert forall|x: int| 0 <= x < n && #[trigger] on_stack@[x] implies path@.contains(x as usize) by {
            if x == u {
                assert(path@[p0.len() as int] == u);
            } else {
                assert(s0[x]);
                let i = choose|i: int| 0 <= i < p0.len() && p0[i] == x as usize;
                assert(path@[i] == p0[i]);
            }
        }
        assert forall|i: int| 0 <= i < path@.len() - 1 implies edge_ix(*t, #[trigger] path@[i] as int, path@[i + 1] as int) by {
            assert(path@[i] == p0[i]);
            if i + 1 < p0.len() {
                assert(path@[i + 1] == p0[i + 1]);
            } else {
                assert(path@[i + 1] == u);
                assert(p0.last() == p0[i]);
            }
        }
        assert forall|x: int| 0 <= x < n implies #[trigger] finished(visited@, on_stack@, x) == finished(v0, s0, x) by {
            if x == u {
                assert(!v0[x]);
            }
        }
        if d {
            lemma_hist_push(*t, cycles@, cv, tree, ex, v0, visited@, p0, u);
        }
        if d {
            assert forall|x: int| #[trigger] ex.contains((u as int, x)) implies exists|jj: int| 0 <= jj < 0 && adj@[u as int]@[jj] == x by {
                assert(ex0.contains((u as int, x)));
                reveal(history_ok);
                assert(v0[u as int]);
            }
        }
    }
    let mut j: usize = 0;
    while j < adj[u].len()
        invariant
            n == t.vs@.len(),
            table_ok(*t, ns, es),
            adj@.len() == n,
            forall|a: int, jj: int| 0 <= a < adj@.len() && 0 <= jj < adj@[a]@.len() ==> (#[trigger] adj@[a]@[jj]) < n && edge_ix(*t, a, adj@[a]@[jj] as int),
            u < n,
            j <= adj@[u as int]@.len(),
            dfs_ok(*t, es, visited@, on_stack@, path@, cycles@),
            path@ == p0.push(u),
            on_stack@ == s0.update(u as int, true),
            visited@[u as int],
            v0.len() == n,
            s0.len() == n,
            v0 == old(visited)@,
            s0 == old(on_stack)@,
            forall|k: int| 0 <= k < t.ends@.len() ==> adj@[(#[trigger] t.ends@[k]).0 as int]@.contains(t.ends@[k].1),
            !v0[u as int],
            forall|i: int| 0 <= i < n && #[trigger] v0[i] ==> visited@[i],
            count_false(visited@) < count_false(v0),
            cycles_kept(c0, cycles@),
            ft.len() == n,
            clock >= clock0,
            finish_order_ok(*t, es, cycles@, visited@, on_stack@, ft, clock),
            forall|x: int| 0 <= x < n && #[trigger] finished(v0, s0, x) ==> ft[x] == ft0[x],
            d ==> rows_distinct(adj@),
            d ==> history_ok(*t, cycles@, cv, tree, ex, visited@, path@),
            d ==> forall|x: int| #[trigger] ex.contains((u as int, x)) ==> exists|jj: int| 0 <= jj < j && adj@[u as int]@[jj] == x,
            forall|p: (int, int)| #[trigger] ex.contains(p) && !ex0.contains(p) ==> 0 <= p.0 < n && !v0[p.0],
            ex0.subset_of(ex),
            forall|jj: int| 0 <= jj < j && (#[trigger] adj@[u as int]@[jj]) != u
                ==> (finished(visited@, on_stack@, adj@[u as int]@[jj] as int) && ft[adj@[u as int]@[jj] as int] < clock) || (
                class_has_cycle(*t, es, cycles@, u as int) && reaches_from(es, t.vs@[adj@[u as int]@[jj] as int]@, t.vs@[u as int]@)),
        decreases adj@[u as int]@.len() - j,
    {
        let next = adj[u][j];
        assert(edge_ix(*t, u as int, next as int));
        assert(path@.last() == u);
        let ghost vb = visited@;
        let ghost sb = on_stack@;
        let ghost cb = cycles@;
        let ghost ftb = ft;
        let ghost clockb = clock;
        let ghost exb = ex;
        let ghost pair = (u as int, next as int);
        proof {
            if d && exb.contains(pair) {
                let jj = choose|jj: int| 0 <= jj < j && adj@[u as int]@[jj] == next as int;
                assert(adj@[u as int]@[jj] != adj@[u as int]@[j as int]);
            }
            if d {
                lemma_hist_explore(*t, cycles@, cv, tree, exb, visited@, path@, pair);
            }
            ex = exb.insert(pair);
        }
        if !visited[next] {
            proof {
                if on_stack@[next as int] {
                    assert(path@.contains(next));
                    let q = choose|q: int| 0 <= q < path@.len() && path@[q] == next;
                    assert(visited@[path@[q] as int]);
                }
            }
            proof {
                if d {
                    lemma_hist_tree(*t, cycles@, cv, tree, ex, visited@, path@, pair);
                    assert(path@.last() == u);
                }
                tree = tree.insert(pair);
            }
            let ghost exm = ex;
            let r = dfs(
                t,
                adj,
                next,
                visited,
                on_stack,
                path,
                cycles,
                Ghost(ns),
                Ghost(es),
                Ghost(ft),
                Ghost(clock),
                Ghost(d),
                Ghost(cv),
                Ghost(tree),
                Ghost(ex),
            );
            proof {
                ft = r@.0;
                clock = r@.1;
                cv = r@.2;
                tree = r@.3;
                ex = r@.4;
                assert forall|x: int| d && #[trigger] ex.contains((u as int, x)) implies exists|jj: int| 0 <= jj < j + 1 && adj@[u as int]@[jj] == x by {
                    if !exm.contains((u as int, x)) {
                        assert(!vb[u as int]);
                    }
                    if x != next as int {
                        assert(exb.contains((u as int, x)));
                        let jj = choose|jj: int| 0 <= jj < j && adj@[u as int]@[jj] == x;
                        assert(0 <= jj < j + 1 && adj@[u as int]@[jj] == x);
                    } else {
                        assert(adj@[u as int]@[j as int] == x);
                    }
                }
                assert forall|p: (int, int)| #[trigger] ex.contains(p) && !ex0.contains(p) implies 0 <= p.0 < n && !v0[p.0] by {
                    if exm.contains(p) {
                        if p != pair {
                            assert(exb.contains(p));
                        }
                    } else {
                        if v0[p.0] {
                            assert(vb[p.0]);
                        }
                    }
                }
                assert(ex0.subset_of(ex));
                assert forall|i: int| 0 <= i < n && #[trigger] v0[i] implies visited@[i] by {
                    assert(vb[i]);
                }
                assert forall|x: int| 0 <= x < n && #[trigger] finished(vb, sb, x) implies finished(visited@, on_stack@, x) by {
                    assert(vb[x]);
                }
                assert forall|x: int| 0 <= x < n && #[trigger] finished(v0, s0, x) implies ft[x] == ft0[x] by {
                    if x == u {
                    } else {
                        assert(vb[x]);
                        assert(sb[x] == s0[x]);
                        assert(finished(vb, sb, x));
                    }
                }
                assert forall|k: int| 0 <= k < c0.len() implies #[trigger] cycles@[k] == c0[k] by {
                    assert(cb[k] == c0[k]);
                }
                assert forall|jj: int| 0 <= jj < j + 1 && (#[trigger] adj@[u as int]@[jj]) != u
                    implies (finished(visited@, on_stack@, adj@[u as int]@[jj] as int) && ft[adj@[u as int]@[jj] as int] < clock) || (
                    class_has_cycle(*t, es, cycles@, u as int) && reaches_from(es, t.vs@[adj@[u as int]@[jj] as int]@, t.vs@[u as int]@)) by {
                    let w = adj@[u as int]@[jj] as int;
                    if jj < j {
                        if finished(vb, sb, w) && ftb[w] < clockb {
                            assert(vb[w]);
                        } else {
                            lemma_class_cycle_kept(*t, es, cb, cycles@, u as int);
                        }
                    } else {
                        assert(w == next);
                        assert(!sb[w]);
                    }
                }
            }
        } else if on_stack[next] {
            proof {
                if d {
                    assert(path@.last() == u);
                    assert(!tree.contains(pair));
                }
            }
            let rc = record_cycle(
                t,
                path,
                next,
                cycles,
                Ghost(ns),
                Ghost(es),
                Ghost(visited@),
                Ghost(on_stack@),
                Ghost(d),
                Ghost(cv),
                Ghost(tree),
                Ghost(ex),
            );
            proof {
                cv = rc@;
                lemma_closed_kept(*t, es, cb, cycles@, visited@, on_stack@, ft, clock);
                assert forall|k: int| 0 <= k < c0.len() implies #[trigger] cycles@[k] == c0[k] by {
                    assert(cb[k] == c0[k]);
                }
                assert forall|jj: int| 0 <= jj < j + 1 && (#[trigger] adj@[u as int]@[jj]) != u
                    implies (finished(visited@, on_stack@, adj@[u as int]@[jj] as int) && ft[adj@[u as int]@[jj] as int] < clock) || (
                    class_has_cycle(*t, es, cycles@, u as int) && reaches_from(es, t.vs@[adj@[u as int]@[jj] as int]@, t.vs@[u as int]@)) by {
                    let w = adj@[u as int]@[jj] as int;
                    if jj < j {
                        if !(finished(visited@, on_stack@, w) && ft[w] < clock) {
                            lemma_class_cycle_kept(*t, es, cb, cycles@, u as int);
                        }
                    } else {
                        assert(w == next);
                    }
                }
            }
        } else {
            proof {
                assert(finished(visited@, on_stack@, next as int));
            }
        }
        j += 1;
    }
    let ghost vl = visited@;
    let ghost sl = on_stack@;
    let ghost pl = path@;
    let ghost ftl = ft;
    let ghost clockl = clock;
    path.pop();
    on_stack.set(u, false);
    proof {
        ft = ftl.update(u as int, clockl);
        clock = clockl + 1;
        assert(path@ =~= p0);
        assert(on_stack@ =~= s0);
        assert forall|i: int| 0 <= i < old(visited)@.len() && #[trigger] old(visited)@[i] implies visited@[i] by {
            assert(v0[i]);
        }
        assert forall|x: int| 0 <= x < n && x != u implies #[trigger] finished(visited@, on_stack@, x) == finished(vl, sl, x) by {
        }
        assert forall|x: int| 0 <= x < n && #[trigger] finished(v0, s0, x) implies ft[x] == ft0[x] by {
            assert(x != u);
        }
        assert(closed(*t, es, cycles@, vl, sl, ftl, clockl));
        assert forall|x: int| 0 <= x < n && #[trigger] finished(visited@, on_stack@, x) implies ft[x] < clock by {
            if x != u {
                assert(finished(vl, sl, x));
            }
        }
        assert forall|a: int, b: int|
            0 <= a < n && 0 <= b < n && a != b && finished(visited@, on_stack@, a) && #[trigger] edge_ix(*t, a, b)
            implies (finished(visited@, on_stack@, b) && ft[b] < ft[a]) || (class_has_cycle(*t, es, cycles@, a)
            && reaches_from(es, t.vs@[b]@, t.vs@[a]@)) by {
            if a == u {
                let k = choose|k: int| 0 <= k < t.ends@.len() && (#[trigger] t.ends@[k]).0 == a && t.ends@[k].1 == b;
                assert(adj@[u as int]@.contains(b as usize));
                let q = choose|q: int| 0 <= q < adj@[u as int]@.len() && adj@[u as int]@[q] == b as usize;
                assert(adj@[u as int]@[q] != u);
                if finished(vl, sl, b) {
                    assert(b != u);
                }
            } else {
                assert(finished(vl, sl, a));
                if finished(vl, sl, b) {
                    assert(b != u);
                }
            }
        }
        assert(closed(*t, es, cycles@, visited@, on_stack@, ft, clock));
    }
    proof {
        if d {
            lemma_hist_pop(*t, cycles@, cv, tree, ex, visited@, pl);
            assert(path@ =~= pl.drop_last());
        }
    }
    Ghost((ft, clock, cv, tree, ex))
}

/// Detect circular dependencies using DFS from each package in turn: each
/// reported chain is a cycle of the graph; for every cycle through a package,
/// some reported chain lies among the names that package can reach and be
/// reached from (so every group of packages that depend on each other in a
/// circle is reported); and (when no edge is listed twice) no cycle is
/// reported twice, from the same or another member.
pub fn find_cycles(g: &DepGraph) -> (r: Vec<Vec<String>>)
    ensures
        forall|c: int| 0 <= c < r@.len() ==> is_cycle(edges_view(g.edges@), #[trigger] names_view(r@[c]@)),
        forall|c: Seq<Seq<char>>| #[trigger] is_cycle(edges_view(g.edges@), c) && node_names(nodes_view(g.nodes@)).contains(c[0])
            ==> r@.len() > 0,
        forall|c: Seq<Seq<char>>| #[trigger] is_cycle(edges_view(g.edges@), c) && node_names(nodes_view(g.nodes@)).contains(c[0])
            ==> some_cycle_within(edges_view(g.edges@), cycles_view(r@), c[0]),
        edges_view(g.edges@).no_duplicates() ==> forall|c1: int, c2: int| 0 <= c1 < c2 < r@.len() ==> !is_rotation(
            #[trigger] names_view(r@[c1]@),
            #[trigger] names_view(r@[c2]@),
        ),
{
    let ghost ns = nodes_view(g.nodes@);
    let ghost es = edges_view(g.edges@);
    let t = build_table(g);
    let adj = build_adjacency(&t, Ghost(ns), Ghost(es));
    let n = t.vs.len();
    let mut visited: Vec<bool> = Vec::new();
    let mut on_stack: Vec<bool> = Vec::new();
    let mut i: usize = 0;
    while i < n
        invariant
            i <= n,
            visited@.len() == i,
            on_stack@.len() == i,
            forall|j: int| 0 <= j < i ==> !(#[trigger] on_stack@[j]),
            forall|j: int| 0 <= j < i ==> !(#[trigger] visited@[j]),
        decreases n - i,
    {
        visited.push(false);
        on_stack.push(false);
        i += 1;
    }
    let mut path: Vec<usize> = Vec::new();
    let mut cycles: Vec<Vec<String>> = Vec::new();
    let ghost mut ft: Seq<int> = Seq::new(n as nat, |x: int| 0int);
    let ghost mut clock: int = 0;
    let ghost d = es.no_duplicates();
    let ghost mut cv: Seq<Seq<int>> = Seq::empty();
    let ghost mut tree: Set<(int, int)> = Set::empty();
    let ghost mut ex: Set<(int, int)> = Set::empty();
    proof {
        if d {
            assert forall|k1: int, k2: int| 0 <= k1 < k2 < t.ends@.len() implies t.ends@[k1] != t.ends@[k2] by {
                if t.ends@[k1] == t.ends@[k2] {
                    assert(es[k1] == es[k2]);
                }
            }
            assert(rows_distinct(adj@));
            reveal(history_ok);
            assert(history_ok(t, cycles@, cv, tree, ex, visited@, path@));
        }
    }
    proof {
        assert forall|x: int| 0 <= x < n implies !#[trigger] finished(visited@, on_stack@, x) by {
            assert(!visited@[x]);
        }
    }
    let mut k: usize = 0;
    while k < t.node_ix.len()
        invariant
            k <= t.node_ix@.len(),
            n == t.vs@.len(),
            table_ok(t, ns, es),
            ns == nodes_view(g.nodes@),
            es == edges_view(g.edges@),
            adj@.len() == n,
            forall|a: int, j: int| 0 <= a < adj@.len() && 0 <= j < adj@[a]@.len() ==> (#[trigger] adj@[a]@[j]) < n && edge_ix(t, a, adj@[a]@[j] as int),
            forall|kk: int| 0 <= kk < t.ends@.len() ==> adj@[(#[trigger] t.ends@[kk]).0 as int]@.contains(t.ends@[kk].1),
            dfs_ok(t, es, visited@, on_stack@, path@, cycles@),
            path@.len() == 0,
            ft.len() == n,
            finish_order_ok(t, es, cycles@, visited@, on_stack@, ft, clock),
            forall|kk: int| 0 <= kk < k ==> visited@[#[trigger] t.node_ix@[kk] as int],
            d == es.no_duplicates(),
            d ==> rows_distinct(adj@),
            d ==> history_ok(t, cycles@, cv, tree, ex, visited@, path@),
        decreases t.node_ix@.len() - k,
    {
        let v = t.node_ix[k];
        if !visited[v] {
            let ghost vb = visited@;
            let r = dfs(
                &t,
                &adj,
                v,
                &mut visited,
                &mut on_stack,
                &mut path,
                &mut cycles,
                Ghost(ns),
                Ghost(es),
                Ghost(ft),
                Ghost(clock),
                Ghost(d),
                Ghost(cv),
                Ghost(tree),
                Ghost(ex),
            );
            proof {
                ft = r@.0;
                clock = r@.1;
                cv = r@.2;
                tree = r@.3;
                ex = r@.4;
                assert forall|kk: int| 0 <= kk < k + 1 implies visited@[#[trigger] t.node_ix@[kk] as int] by {
                    if kk < k {
                        assert(vb[t.node_ix@[kk] as int]);
                    }
                }
            }
        }
        k += 1;
    }
    proof {
        assert forall|c: Seq<Seq<char>>| #[trigger] is_cycle(es, c) && node_names(ns).contains(c[0]) implies some_cycle_within(
            es,
            cycles_view(cycles@),
            c[0],
        ) by {
            {
                let i = choose|i: int| 0 <= i < node_names(ns).len() && node_names(ns)[i] == c[0];
                let v = t.node_ix@[i] as int;
                assert(t.vs@[v]@ == ns[i].0);
                assert(exists|w: int| 0 <= w < t.vs@.len() && t.vs@[w]@ == c[0]);
                let w = vertex_named(t, c[0]);
                lemma_vertex_unique(t.vs@, v, w);
                assert(visited@[v]);
                if on_stack@[v] {
                    assert(path@.contains(v as usize));
                }
                lemma_closed_no_cycle(t, ns, es, cycles@, visited@, on_stack@, ft, clock, c);
            }
        }
        assert forall|c: Seq<Seq<char>>| #[trigger] is_cycle(es, c) && node_names(ns).contains(c[0]) implies cycles@.len() > 0 by {
            assert(some_cycle_within(es, cycles_view(cycles@), c[0]));
        }
        if d {
            assert forall|c1: int, c2: int| 0 <= c1 < c2 < cycles@.len() implies !is_rotation(
                #[trigger] names_view(cycles@[c1]@),
                #[trigger] names_view(cycles@[c2]@),
            ) by {
                lemma_no_rotation(t, ns, es, cycles@, cv, tree, ex, visited@, path@, c1, c2);
            }
        }
    }
    cycles
}


/// Inserts each name in turn.
pub open spec fn insert_names(s: Seq<Seq<char>>, xs: Seq<Seq<char>>) -> Seq<Seq<char>>
    decreases xs.len(),
{
    if xs.len() == 0 {
        s
    } else {
        insert_name(insert_names(s, xs.drop_last()), xs.last())
    }
}

fn insert_names_exec(names: &mut Vec<String>, xs: Option<Vec<String>>)
    requires
        names_view(old(names)@).no_duplicates(),
    ensures
        names_view(final(names)@).no_duplicates(),
        names_view(final(names)@) == insert_names(
            names_view(old(names)@),
            keys_or_empty(
                match xs {
                    Some(v) => Some(names_view(v@)),
                    None => None,
                },
            ),
        ),
{
    match xs {
        Some(v) => {
            let ghost s0 = names_view(names@);
            let ghost xv = names_view(v@);
            let mut i: usize = 0;
            proof {
                assert(xv.take(0) =~= Seq::<Seq<char>>::empty());
            }
            while i < v.len()
                invariant
                    i <= v@.len(),
                    xv == names_view(v@),
                    names_view(names@).no_duplicates(),
                    names_view(names@) == insert_names(s0, xv.take(i as int)),
                decreases v@.len() - i,
            {
                proof {
                    assert(xv.take(i + 1).drop_last() =~= xv.take(i as int));
                    assert(xv.take(i + 1).last() == v@[i as int]@);
                }
                let c = chars_of(v[i].as_str());
                let ghost before = names_view(names@);
                insert_name_exec(names, &c);
                proof {
                    lemma_insert_name_unique(before, c@);
                }
                i += 1;
            }
            proof {
                assert(xv.take(v@.len() as int) =~= xv);
            }
        },
        None => {},
    }
}

/// The direct dependencies a parsed Cargo.toml declares.
pub open spec fn cargo_direct(doc: Option<DocValue>) -> Seq<Seq<char>> {
    match doc {
        Some(v) => insert_names(
            insert_names(
                insert_names(Seq::empty(), keys_or_empty(get_keys(v, "dependencies"@))),
                keys_or_empty(get_keys(v, "dev-dependencies"@)),
            ),
            keys_or_empty(get_keys(v, "build-dependencies"@)),
        ),
        None => Seq::empty(),
    }
}

/// The package name in a Cargo.lock dependency line ("name version (source)").
pub open spec fn dep_line_name(d: Seq<char>) -> Seq<char> {
    if split_ws(d).len() > 0 {
        split_ws(d)[0]
    } else {
        d
    }
}

/// A Cargo.lock reader's state: name, version and dependency lines of the
/// current package, and whether it is inside a `dependencies = [` list.
pub type CargoGraphState = (Option<Seq<char>>, Option<Seq<char>>, Seq<Seq<char>>, bool);

/// Packages and edges so far.
pub type GraphAcc = (Seq<NodeView>, Seq<(Seq<char>, Seq<char>)>);

/// Closing the current package: it becomes a package of the graph with an
/// edge to each of its dependencies, when it has a name and a version.
pub open spec fn cargo_flush(st: CargoGraphState, acc: GraphAcc) -> GraphAcc {
    match (st.0, st.1) {
        (Some(n), Some(v)) => (
            insert_node(acc.0, (n, v, "Cargo.lock"@)),
            acc.1 + Seq::new(st.2.len(), |i: int| (n, dep_line_name(st.2[i]))),
        ),
        _ => acc,
    }
}

/// One line of a Cargo.lock.
pub open spec fn cargo_graph_step(line: Seq<char>, st: CargoGraphState, acc: GraphAcc) -> (CargoGraphState, GraphAcc) {
    let t = trim(line);
    if t == "[[package]]"@ {
        ((None, None, Seq::empty(), false), cargo_flush(st, acc))
    } else if strip_prefix(t, "name = "@) is Some {
        ((Some(trim_char(strip_prefix(t, "name = "@)->0, '"')), st.1, st.2, false), acc)
    } else if strip_prefix(t, "version = "@) is Some {
        ((st.0, Some(trim_char(strip_prefix(t, "version = "@)->0, '"')), st.2, false), acc)
    } else if t == "dependencies = ["@ {
        ((st.0, st.1, st.2, true), acc)
    } else if st.3 {
        if t == "]"@ {
            ((st.0, st.1, st.2, false), acc)
        } else if trim_qc(t).len() > 0 {
            ((st.0, st.1, st.2.push(trim_qc(t)), true), acc)
        } else {
            (st, acc)
        }
    } else {
        (st, acc)
    }
}

/// The reader's state and graph after the given lines.
pub open spec fn cargo_graph_scan(ls: Seq<Seq<char>>) -> (CargoGraphState, GraphAcc)
    decreases ls.len(),
{
    if ls.len() == 0 {
        ((None, None, Seq::empty(), false), (Seq::empty(), Seq::empty()))
    } else {
        let prev = cargo_graph_scan(ls.drop_last());
        cargo_graph_step(ls.last(), prev.0, prev.1)
    }
}

/// The packages and edges of a Cargo.lock.
pub open spec fn cargo_lock_graph(lock: Seq<char>) -> GraphAcc {
    let r = cargo_graph_scan(lines(lock));
    cargo_flush(r.0, r.1)
}

fn cargo_flush_exec(
    name: &Option<String>,
    version: &Option<String>,
    deps: &Vec<Vec<char>>,
    nodes: &mut Vec<DepNode>,
    edges: &mut Vec<DepEdge>,
)
    requires
        node_names(nodes_view(old(nodes)@)).no_duplicates(),
    ensures
        node_names(nodes_view(final(nodes)@)).no_duplicates(),
        (nodes_view(final(nodes)@), edges_view(final(edges)@)) == cargo_flush(
            (crate::autofix::opt_str(*name), crate::autofix::opt_str(*version), views(deps@), false),
            (nodes_view(old(nodes)@), edges_view(old(edges)@)),
        ),
{
    match (name, version) {
        (Some(n), Some(v)) => {
            let ghost before = nodes_view(nodes@);
            insert_node_exec(nodes, DepNode { name: n.clone(), version: v.clone(), source: "Cargo.lock".to_string() });
            proof {
                lemma_insert_node_unique(before, (n@, v@, "Cargo.lock"@));
            }
            let ghost e0 = edges_view(edges@);
            let ghost dv = views(deps@);
            let mut i: usize = 0;
            while i < deps.len()
                invariant
                    i <= deps@.len(),
                    dv == views(deps@),
                    edges_view(edges@) == e0 + Seq::new(i as nat, |k: int| (n@, dep_line_name(dv[k]))),
                decreases deps@.len() - i,
            {
                let w = split_ws_exec(&deps[i]);
                let dn: Vec<char> = if w.len() > 0 {
                    proof {
                        assert(views(w@)[0] == w@[0]@);
                    }
                    slice(&w[0], 0, w[0].len())
                } else {
                    slice(&deps[i], 0, deps[i].len())
                };
                proof {
                    assert(w@.len() > 0 ==> w@[0]@.subrange(0, w@[0]@.len() as int) =~= w@[0]@);
                    assert(deps@[i as int]@.subrange(0, deps@[i as int]@.len() as int) =~= deps@[i as int]@);
                    assert(dv[i as int] == deps@[i as int]@);
                    assert(dn@ == dep_line_name(dv[i as int]));
                }
                let ghost eb = edges_view(edges@);
                edges.push(DepEdge { from: n.clone(), to: string_of(&dn) });
                proof {
                    assert(edges_view(edges@) =~= eb.push((n@, dn@)));
                    assert(edges_view(edges@) =~= e0 + Seq::new((i + 1) as nat, |k: int| (n@, dep_line_name(dv[k]))));
                }
                i += 1;
            }
        },
        _ => {
            proof {
                assert(nodes_view(nodes@) == nodes_view(old(nodes)@));
            }
        },
    }
}

/// Build graph from Cargo.lock + Cargo.toml.
pub fn build_cargo_graph(lock_content: &str, manifest_content: Option<&str>) -> (g: DepGraph)
    ensures
        graph_wf(g),
        (nodes_view(g.nodes@), edges_view(g.edges@)) == cargo_lock_graph(lock_content@),
        names_view(g.direct_deps@) == cargo_direct(
            match manifest_content {
                Some(m) => toml_parse(m@),
                None => None,
            },
        ),
{
    let mut direct: Vec<String> = Vec::new();
    proof {
        assert(names_view(direct@) =~= Seq::<Seq<char>>::empty());
    }
    match manifest_content {
        Some(m) => {
            let doc = parse_toml(m);
            match &doc {
                Some(v) => {
                    insert_names_exec(&mut direct, get_keys_exec(v, "dependencies"));
                    insert_names_exec(&mut direct, get_keys_exec(v, "dev-dependencies"));
                    insert_names_exec(&mut direct, get_keys_exec(v, "build-dependencies"));
                },
                None => {},
            }
        },
        None => {},
    }
    let ls = lines_of(lock_content);
    let ghost lv = lines(lock_content@);
    let mut name: Option<String> = None;
    let mut version: Option<String> = None;
    let mut deps: Vec<Vec<char>> = Vec::new();
    let mut in_deps = false;
    let mut nodes: Vec<DepNode> = Vec::new();
    let mut edges: Vec<DepEdge> = Vec::new();
    let mut i: usize = 0;
    proof {
        assert(lv.take(0) =~= Seq::<Seq<char>>::empty());
        assert(nodes_view(nodes@) =~= Seq::<NodeView>::empty());
        assert(edges_view(edges@) =~= Seq::<(Seq<char>, Seq<char>)>::empty());
        assert(views(deps@) =~= Seq::<Seq<char>>::empty());
        assert(node_names(nodes_view(nodes@)) =~= Seq::<Seq<char>>::empty());
    }
    while i < ls.len()
        invariant
            i <= ls@.len(),
            views(ls@) == lv,
            lv == lines(lock_content@),
            node_names(nodes_view(nodes@)).no_duplicates(),
            cargo_graph_scan(lv.take(i as int)) == (
                (crate::autofix::opt_str(name), crate::autofix::opt_str(version), views(deps@), in_deps),
                (nodes_view(nodes@), edges_view(edges@)),
            ),
        decreases ls@.len() - i,
    {
        proof {
            assert(lv.take(i + 1).drop_last() =~= lv.take(i as int));
            assert(lv.take(i + 1).last() == ls@[i as int]@);
        }
        let t = trim_exec(&ls[i]);
        if eq_str(&t, "[[package]]") {
            cargo_flush_exec(&name, &version, &deps, &mut nodes, &mut edges);
            name = None;
            version = None;
            deps = Vec::new();
            in_deps = false;
            proof {
                assert(views(deps@) =~= Seq::<Seq<char>>::empty());
            }
        } else {
            match strip_prefix_str(&t, "name = ") {
                Some(rest) => {
                    let x = trim_char_exec(&rest, '"');
                    name = Some(string_of(&x));
                    in_deps = false;
                },
                None => match strip_prefix_str(&t, "version = ") {
                    Some(rest) => {
                        let x = trim_char_exec(&rest, '"');
                        version = Some(string_of(&x));
                        in_deps = false;
                    },
                    None => {
                        if eq_str(&t, "dependencies = [") {
                            in_deps = true;
                        } else if in_deps {
                            if eq_str(&t, "]") {
                                in_deps = false;
                            } else {
                                let d = trim_qc_exec(&t);
                                if d.len() > 0 {
                                    let ghost d0 = views(deps@);
                                    deps.push(d);
                                    proof {
                                        assert(views(deps@) =~= d0.push(trim_qc(t@)));
                                    }
                                }
                            }
                        }
                    },
                },
            }
        }
        i += 1;
    }
    proof {
        assert(lv.take(ls@.len() as int) =~= lv);
    }
    cargo_flush_exec(&name, &version, &deps, &mut nodes, &mut edges);
    DepGraph { nodes, edges, direct_deps: direct }
}

/// The edges from `name` to each key of the given dependency section of a package entry.
pub open spec fn section_edges(name: Seq<char>, info: DocValue, section: Seq<char>) -> Seq<(Seq<char>, Seq<char>)> {
    let ks = keys_or_empty(get_keys(info, section));
    Seq::new(ks.len(), |i: int| (name, ks[i]))
}

/// The graph after one entry of a package-lock `packages` object.
pub open spec fn npm_graph_entry(acc: GraphAcc, path: Seq<char>, info: DocValue) -> GraphAcc {
    if path.len() == 0 {
        acc
    } else {
        let name = npm_package_name(path);
        let version = match get_str(info, "version"@) {
            Some(v) => v,
            None => "unknown"@,
        };
        (
            insert_node(acc.0, (name, version, "package-lock.json"@)),
            acc.1 + section_edges(name, info, "dependencies"@) + section_edges(
                name,
                info,
                "devDependencies"@,
            ) + section_edges(name, info, "peerDependencies"@),
        )
    }
}

/// The graph of the entries of a package-lock `packages` object.
pub open spec fn npm_graph_entries(es: Seq<(String, DocValue)>) -> GraphAcc
    decreases es.len(),
{
    if es.len() == 0 {
        (Seq::empty(), Seq::empty())
    } else {
        npm_graph_entry(npm_graph_entries(es.drop_last()), es.last().0@, es.last().1)
    }
}

/// The packages and edges of a parsed package-lock.json.
pub open spec fn npm_lock_graph(doc: Option<DocValue>) -> GraphAcc {
    match doc {
        Some(v) => match get(v, "packages"@) {
            Some(DocValue::Object(es)) => npm_graph_entries(es@),
            _ => (Seq::empty(), Seq::empty()),
        },
        None => (Seq::empty(), Seq::empty()),
    }
}

/// The direct dependencies a parsed package.json declares.
pub open spec fn npm_direct(doc: Option<DocValue>) -> Seq<Seq<char>> {
    match doc {
        Some(v) => insert_names(
            insert_names(
                insert_names(Seq::empty(), keys_or_empty(get_keys(v, "dependencies"@))),
                keys_or_empty(get_keys(v, "devDependencies"@)),
            ),
            keys_or_empty(get_keys(v, "peerDependencies"@)),
        ),
        None => Seq::empty(),
    }
}

/// Inserting names keeps the ones there and adds each new one.
proof fn lemma_insert_names_contains(s: Seq<Seq<char>>, xs: Seq<Seq<char>>, x: Seq<char>)
    ensures
        insert_names(s, xs).contains(x) <==> (s.contains(x) || xs.contains(x)),
    decreases xs.len(),
{
    if xs.len() > 0 {
        lemma_insert_names_contains(s, xs.drop_last(), x);
        let p = insert_names(s, xs.drop_last());
        if xs.last() == x {
            assert(xs[xs.len() - 1] == x);
            if !p.contains(x) {
                assert(p.push(x)[p.len() as int] == x);
            }
        } else {
            if p.contains(x) {
                let i = choose|i: int| 0 <= i < p.len() && p[i] == x;
                if !p.contains(xs.last()) {
                    assert(p.push(xs.last())[i] == x);
                }
            }
            if insert_names(s, xs).contains(x) {
                let i = choose|i: int| 0 <= i < insert_names(s, xs).len() && insert_names(s, xs)[i] == x;
                if !p.contains(xs.last()) {
                    assert(i < p.len());
                    assert(p[i] == x);
                }
            }
            if xs.drop_last().contains(x) {
                let i = choose|i: int| 0 <= i < xs.drop_last().len() && xs.drop_last()[i] == x;
                assert(xs[i] == x);
            }
            if xs.contains(x) {
                let i = choose|i: int| 0 <= i < xs.len() && xs[i] == x;
                assert(i < xs.len() - 1);
                assert(xs.drop_last()[i] == x);
            }
        }
    }
}

/// The direct dependencies of a Cargo project are exactly the names listed
/// under `[dependencies]`, `[dev-dependencies]` or `[build-dependencies]` of
/// its Cargo.toml.
pub proof fn lemma_cargo_direct_sections(v: DocValue, x: Seq<char>)
    ensures
        cargo_direct(Some(v)).contains(x) <==> (listed_in(v, "dependencies"@, x) || listed_in(v, "dev-dependencies"@, x)
            || listed_in(v, "build-dependencies"@, x)),
{
    let a = insert_names(Seq::empty(), keys_or_empty(get_keys(v, "dependencies"@)));
    let b = insert_names(a, keys_or_empty(get_keys(v, "dev-dependencies"@)));
    lemma_insert_names_contains(Seq::empty(), keys_or_empty(get_keys(v, "dependencies"@)), x);
    lemma_insert_names_contains(a, keys_or_empty(get_keys(v, "dev-dependencies"@)), x);
    lemma_insert_names_contains(b, keys_or_empty(get_keys(v, "build-dependencies"@)), x);
    assert(!Seq::<Seq<char>>::empty().contains(x));
    assert(!keys_or_empty(None).contains(x));
}

/// A name listed in a section of a parsed manifest.
pub open spec fn listed_in(v: DocValue, section: Seq<char>, x: Seq<char>) -> bool {
    match get_keys(v, section) {
        Some(ks) => ks.contains(x),
        None => false,
    }
}

/// The direct dependencies of an npm project are exactly the names listed
/// under `dependencies`, `devDependencies` or `peerDependencies` of its
/// package.json.
pub proof fn lemma_npm_direct_sections(v: DocValue, x: Seq<char>)
    ensures
        npm_direct(Some(v)).contains(x) <==> (listed_in(v, "dependencies"@, x) || listed_in(v, "devDependencies"@, x)
            || listed_in(v, "peerDependencies"@, x)),
{
    let a = insert_names(Seq::empty(), keys_or_empty(get_keys(v, "dependencies"@)));
    let b = insert_names(a, keys_or_empty(get_keys(v, "devDependencies"@)));
    lemma_insert_names_contains(Seq::empty(), keys_or_empty(get_keys(v, "dependencies"@)), x);
    lemma_insert_names_contains(a, keys_or_empty(get_keys(v, "devDependencies"@)), x);
    lemma_insert_names_contains(b, keys_or_empty(get_keys(v, "peerDependencies"@)), x);
    assert(!Seq::<Seq<char>>::empty().contains(x));
    assert(!keys_or_empty(None).contains(x));
}

fn push_section_edges(edges: &mut Vec<DepEdge>, name: &String, info: &DocValue, section: &str)
    ensures
        edges_view(final(edges)@) == edges_view(old(edges)@) + section_edges(name@, *info, section@),
{
    let ghost e0 = edges_view(edges@);
    match get_keys_exec(info, section) {
        Some(ks) => {
            let ghost kv = names_view(ks@);
            assert(keys_or_empty(get_keys(*info, section@)) == kv);
            let mut i: usize = 0;
            while i < ks.len()
                invariant
                    i <= ks@.len(),
                    kv == names_view(ks@),
                    edges_view(edges@) == e0 + Seq::new(i as nat, |k: int| (name@, kv[k])),
                decreases ks@.len() - i,
            {
                let ghost eb = edges_view(edges@);
                edges.push(DepEdge { from: name.clone(), to: ks[i].clone() });
                proof {
                    assert(edges_view(edges@) =~= eb.push((name@, kv[i as int])));
                    assert(edges_view(edges@) =~= e0 + Seq::new((i + 1) as nat, |k: int| (name@, kv[k])));
                }
                i += 1;
            }
            proof {
                assert(section_edges(name@, *info, section@) =~= Seq::new(ks@.len(), |k: int| (name@, kv[k])));
            }
        },
        None => {
            proof {
                assert(section_edges(name@, *info, section@) =~= Seq::<(Seq<char>, Seq<char>)>::empty());
                assert(edges_view(edges@) =~= e0 + section_edges(name@, *info, section@));
            }
        },
    }
}

/// Build graph from package-lock.json + package.json.
pub fn build_npm_graph(lock_content: &str, manifest_content: Option<&str>) -> (g: DepGraph)
    ensures
        graph_wf(g),
        (nodes_view(g.nodes@), edges_view(g.edges@)) == npm_lock_graph(json_parse(lock_content@)),
        names_view(g.direct_deps@) == npm_direct(
            match manifest_content {
                Some(m) => json_parse(m@),
                None => None,
            },
        ),
{
    let mut direct: Vec<String> = Vec::new();
    proof {
        assert(names_view(direct@) =~= Seq::<Seq<char>>::empty());
    }
    match manifest_content {
        Some(m) => {
            let doc = parse_json(m);
            match &doc {
                Some(v) => {
                    insert_names_exec(&mut direct, get_keys_exec(v, "dependencies"));
                    insert_names_exec(&mut direct, get_keys_exec(v, "devDependencies"));
                    insert_names_exec(&mut direct, get_keys_exec(v, "peerDependencies"));
                },
                None => {},
            }
        },
        None => {},
    }
    let mut nodes: Vec<DepNode> = Vec::new();
    let mut edges: Vec<DepEdge> = Vec::new();
    proof {
        assert(nodes_view(nodes@) =~= Seq::<NodeView>::empty());
        assert(edges_view(edges@) =~= Seq::<(Seq<char>, Seq<char>)>::empty());
        assert(node_names(nodes_view(nodes@)) =~= Seq::<Seq<char>>::empty());
    }
    let doc = parse_json(lock_content);
    match &doc {
        Some(v) => match get_field(v, "packages") {
            Some(DocValue::Object(es)) => {
                let mut i: usize = 0;
                proof {
                    assert(es@.take(0) =~= Seq::<(String, DocValue)>::empty());
                }
                while i < es.len()
                    invariant
                        i <= es@.len(),
                        node_names(nodes_view(nodes@)).no_duplicates(),
                        (nodes_view(nodes@), edges_view(edges@)) == npm_graph_entries(es@.take(i as int)),
                    decreases es@.len() - i,
                {
                    proof {
                        assert(es@.take(i + 1).drop_last() =~= es@.take(i as int));
                        assert(es@.take(i + 1).last() == es@[i as int]);
                    }
                    let path = chars_of(es[i].0.as_str());
                    if path.len() > 0 {
                        proof {
                            reveal_strlit("node_modules/");
                        }
                        let pieces = split_str_exec(&path, "node_modules/");
                        proof {
                            crate::text::lemma_split_str_nonempty(path@, "node_modules/"@);
                            assert(views(pieces@).last() == pieces@[pieces@.len() - 1]@);
                        }
                        let name = string_of(&pieces[pieces.len() - 1]);
                        let version: String = match get_str_exec(&es[i].1, "version") {
                            Some(x) => x,
                            None => "unknown".to_string(),
                        };
                        let ghost before = nodes_view(nodes@);
                        let ghost nv = (name@, version@, "package-lock.json"@);
                        insert_node_exec(&mut nodes, DepNode { name: name.clone(), version, source: "package-lock.json".to_string() });
                        proof {
                            lemma_insert_node_unique(before, nv);
                        }
                        push_section_edges(&mut edges, &name, &es[i].1, "dependencies");
                        push_section_edges(&mut edges, &name, &es[i].1, "devDependencies");
                        push_section_edges(&mut edges, &name, &es[i].1, "peerDependencies");
                    }
                    i += 1;
                }
                proof {
                    assert(es@.take(es@.len() as int) =~= es@);
                }
            },
            _ => {},
        },
        None => {},
    }
    DepGraph { nodes, edges, direct_deps: direct }
}


/// The edge from `a` to `b` closes or continues one of the cycles.
pub open spec fn is_cycle_edge(cycles: Seq<Seq<Seq<char>>>, a: Seq<char>, b: Seq<char>) -> bool {
    exists|c: int, i: int|
        0 <= c < cycles.len() && 0 <= i < cycles[c].len() && #[trigger] cycles[c][i] == a
            && cycles[c][(i + 1) % (cycles[c].len() as int)] == b
}

/// The DOT line of a package.
pub open spec fn dot_node_line(n: NodeView, direct: Seq<Seq<char>>) -> Seq<char> {
    let color = if direct.contains(n.0) {
        "#4FC3F7"@
    } else {
        "#E0E0E0"@
    };
    "  \""@ + n.0 + "\" [label=\""@ + n.0 + "\\n"@ + n.1 + "\", fillcolor=\""@ + color + "\"];"@
}

/// The DOT line of an edge.
pub open spec fn dot_edge_line(e: (Seq<char>, Seq<char>), cycles: Seq<Seq<Seq<char>>>) -> Seq<char> {
    if is_cycle_edge(cycles, e.0, e.1) {
        "  \""@ + e.0 + "\" -> \""@ + e.1 + "\" [color=\"#FF5252\", penwidth=2.0, label=\"cycle\"];"@
    } else {
        "  \""@ + e.0 + "\" -> \""@ + e.1 + "\";"@
    }
}

/// The lines of the DOT text of a graph.
pub open spec fn dot_lines(
    ns: Seq<NodeView>,
    es: Seq<(Seq<char>, Seq<char>)>,
    direct: Seq<Seq<char>>,
    cycles: Seq<Seq<Seq<char>>>,
) -> Seq<Seq<char>> {
    seq![
        "digraph dependencies {"@,
        "  rankdir=LR;"@,
        "  node [shape=box, style=\"rounded,filled\", fontname=\"Helvetica\", fontsize=10];"@,
        "  edge [color=\"#666666\", arrowsize=0.7];"@,
        ""@,
    ] + Seq::new(ns.len(), |i: int| dot_node_line(ns[i], direct)) + seq![""@] + Seq::new(
        es.len(),
        |k: int| dot_edge_line(es[k], cycles),
    ) + seq!["}"@]
}

fn contains_string(v: &Vec<String>, x: &[char]) -> (r: bool)
    ensures
        r == names_view(v@).contains(x@),
{
    let mut i: usize = 0;
    while i < v.len()
        invariant
            i <= v@.len(),
            forall|j: int| 0 <= j < i ==> #[trigger] names_view(v@)[j] != x@,
        decreases v@.len() - i,
    {
        let c = chars_of(v[i].as_str());
        if seq_eq(&c, x) {
            assert(names_view(v@)[i as int] == x@);
            return true;
        }
        i += 1;
    }
    false
}

fn is_cycle_edge_exec(cycles: &Vec<Vec<String>>, a: &[char], b: &[char]) -> (r: bool)
    ensures
        r == is_cycle_edge(cycles_view(cycles@), a@, b@),
{
    let ghost cv = cycles_view(cycles@);
    let mut c: usize = 0;
    while c < cycles.len()
        invariant
            c <= cycles@.len(),
            cv == cycles_view(cycles@),
            forall|cc: int, i: int| 0 <= cc < c && 0 <= i < cv[cc].len() && #[trigger] cv[cc][i] == a@ ==> cv[cc][(i + 1) % (cv[cc].len() as int)] != b@,
        decreases cycles@.len() - c,
    {
        let cyc = &cycles[c];
        let len = cyc.len();
        let mut i: usize = 0;
        while i < len
            invariant
                c < cycles@.len(),
                cv == cycles_view(cycles@),
                len == cycles@[c as int]@.len(),
                i <= len,
                forall|cc: int, ii: int| 0 <= cc < c && 0 <= ii < cv[cc].len() && #[trigger] cv[cc][ii] == a@ ==> cv[cc][(ii + 1) % (cv[cc].len() as int)] != b@,
                forall|ii: int| 0 <= ii < i && #[trigger] cv[c as int][ii] == a@ ==> cv[c as int][(ii + 1) % (len as int)] != b@,
            decreases len - i,
        {
            let x = chars_of(cycles[c][i].as_str());
            let nx = if i + 1 < len { i + 1 } else { 0 };
            proof {
                let ii = i as int;
                let ll = len as int;
                if ii + 1 < ll {
                    assert((ii + 1) % ll == ii + 1) by (nonlinear_arith)
                        requires 0 <= ii + 1 < ll;
                } else {
                    assert((ii + 1) % ll == 0) by (nonlinear_arith)
                        requires ii + 1 == ll, ll > 0;
                }
            }
            assert(nx as int == (i + 1) % (len as int));
            let y = chars_of(cycles[c][nx].as_str());
            assert(cv[c as int][i as int] == x@);
            assert(cv[c as int][nx as int] == y@);
            if seq_eq(&x, a) && seq_eq(&y, b) {
                return true;
            }
            i += 1;
        }
        c += 1;
    }
    false
}

/// Generate DOT graph representation.
pub fn generate_dot(g: &DepGraph, cycles: &Vec<Vec<String>>) -> (r: String)
    ensures
        r@ == crate::display::buffered_text(
            dot_lines(nodes_view(g.nodes@), edges_view(g.edges@), names_view(g.direct_deps@), cycles_view(cycles@)),
        ),
{
    let ghost ns = nodes_view(g.nodes@);
    let ghost es = edges_view(g.edges@);
    let ghost ds = names_view(g.direct_deps@);
    let ghost cv = cycles_view(cycles@);
    let mut ls: Vec<Vec<char>> = Vec::new();
    ls.push(chars_of("digraph dependencies {"));
    ls.push(chars_of("  rankdir=LR;"));
    ls.push(chars_of("  node [shape=box, style=\"rounded,filled\", fontname=\"Helvetica\", fontsize=10];"));
    ls.push(chars_of("  edge [color=\"#666666\", arrowsize=0.7];"));
    ls.push(chars_of(""));
    let ghost head = seq![
        "digraph dependencies {"@,
        "  rankdir=LR;"@,
        "  node [shape=box, style=\"rounded,filled\", fontname=\"Helvetica\", fontsize=10];"@,
        "  edge [color=\"#666666\", arrowsize=0.7];"@,
        ""@,
    ];
    proof {
        assert(views(ls@) =~= head);
    }
    let mut i: usize = 0;
    while i < g.nodes.len()
        invariant
            i <= g.nodes@.len(),
            ns == nodes_view(g.nodes@),
            ds == names_view(g.direct_deps@),
            views(ls@) == head + Seq::new(i as nat, |k: int| dot_node_line(ns[k], ds)),
        decreases g.nodes@.len() - i,
    {
        let node = &g.nodes[i];
        let nm = chars_of(node.name.as_str());
        let direct = contains_string(&g.direct_deps, &nm);
        let mut l: Vec<char> = Vec::new();
        extend_str(&mut l, "  \"");
        extend(&mut l, &nm);
        extend_str(&mut l, "\" [label=\"");
        extend(&mut l, &nm);
        extend_str(&mut l, "\\n");
        extend_str(&mut l, node.version.as_str());
        extend_str(&mut l, "\", fillcolor=\"");
        if direct {
            extend_str(&mut l, "#4FC3F7");
        } else {
            extend_str(&mut l, "#E0E0E0");
        }
        extend_str(&mut l, "\"];");
        proof {
            assert(ns[i as int] == (node.name@, node.version@, node.source@));
            assert(l@ =~= dot_node_line(ns[i as int], ds));
        }
        let ghost before = views(ls@);
        ls.push(l);
        proof {
            assert(views(ls@) =~= before.push(dot_node_line(ns[i as int], ds)));
            assert(views(ls@) =~= head + Seq::new((i + 1) as nat, |k: int| dot_node_line(ns[k], ds)));
        }
        i += 1;
    }
    ls.push(chars_of(""));
    let ghost mid = head + Seq::new(ns.len(), |k: int| dot_node_line(ns[k], ds)) + seq![""@];
    proof {
        assert(views(ls@) =~= mid);
    }
    let mut k: usize = 0;
    while k < g.edges.len()
        invariant
            k <= g.edges@.len(),
            es == edges_view(g.edges@),
            cv == cycles_view(cycles@),
            views(ls@) == mid + Seq::new(k as nat, |j: int| dot_edge_line(es[j], cv)),
        decreases g.edges@.len() - k,
    {
        let e = &g.edges[k];
        let a = chars_of(e.from.as_str());
        let b = chars_of(e.to.as_str());
        let cyc = is_cycle_edge_exec(cycles, &a, &b);
        let mut l: Vec<char> = Vec::new();
        extend_str(&mut l, "  \"");
        extend(&mut l, &a);
        extend_str(&mut l, "\" -> \"");
        extend(&mut l, &b);
        if cyc {
            extend_str(&mut l, "\" [color=\"#FF5252\", penwidth=2.0, label=\"cycle\"];");
        } else {
            extend_str(&mut l, "\";");
        }
        proof {
            assert(es[k as int] == (e.from@, e.to@));
            assert(l@ =~= dot_edge_line(es[k as int], cv));
        }
        let ghost before = views(ls@);
        ls.push(l);
        proof {
            assert(views(ls@) =~= before.push(dot_edge_line(es[k as int], cv)));
            assert(views(ls@) =~= mid + Seq::new((k + 1) as nat, |j: int| dot_edge_line(es[j], cv)));
        }
        k += 1;
    }
    ls.push(chars_of("}"));
    proof {
        assert(views(ls@) =~= dot_lines(ns, es, ds, cv));
    }
    let text = crate::display::text_of_lines(&ls);
    string_of(&text)
}


/// The text between the first `d` and the next `d` after it, if both occur.
pub open spec fn quoted(t: Seq<char>, d: char) -> Option<Seq<char>> {
    match find(t, seq![d]) {
        Some(start) => {
            let rest = t.skip(start + 1);
            match find(rest, seq![d]) {
                Some(end) => Some(rest.take(end)),
                None => None,
            }
        },
        None => None,
    }
}

/// The package a JS/TS import path names: `@scope/name` for scoped
/// packages, otherwise its first segment.
pub open spec fn js_package(pkg: Seq<char>) -> Seq<char> {
    let parts = split_str(pkg, "/"@);
    if starts_with(pkg, "@"@) && parts.len() >= 2 {
        parts[0] + "/"@ + parts[1]
    } else {
        parts[0]
    }
}

/// The crate a Rust `use` / `extern crate` line names (dashes as underscores).
pub open spec fn rust_import(t: Seq<char>) -> Option<Seq<char>> {
    if starts_with(t, "use "@) || starts_with(t, "extern crate "@) {
        let a = trim_start_matches(trim_start_matches(t, "extern crate "@), "use "@);
        let tok = replace_char(trim_end_matches(split_str(a, "::"@)[0], ";"@), '-', '_');
        if tok.len() > 0 {
            Some(tok)
        } else {
            None
        }
    } else {
        None
    }
}

/// The package a JS/TS `from` / `require(` line names: the first quoted
/// path (single quotes tried before double) that is not relative.
pub open spec fn js_import(t: Seq<char>) -> Option<Seq<char>> {
    if contains(t, "from "@) || contains(t, "require("@) {
        match quoted(t, '\'') {
            Some(pkg) if !starts_with(pkg, "."@) => Some(js_package(pkg)),
            _ => match quoted(t, '"') {
                Some(pkg) if !starts_with(pkg, "."@) => Some(js_package(pkg)),
                _ => None,
            },
        }
    } else {
        None
    }
}

/// The module a Python `import` / `from` line names (its first dotted part).
pub open spec fn python_import(t: Seq<char>) -> Option<Seq<char>> {
    if starts_with(t, "import "@) || starts_with(t, "from "@) {
        let parts = split_ws(t);
        if parts.len() >= 2 {
            Some(split_str(parts[1], "."@)[0])
        } else {
            None
        }
    } else {
        None
    }
}

/// The names a Go import line gives: the last path segment and the whole path.
pub open spec fn go_imports(t: Seq<char>) -> Seq<Seq<char>> {
    if t.contains('"') && (starts_with(t, "import"@) || starts_with(t, "\""@)) {
        match quoted(t, '"') {
            Some(pkg) => seq![split_str(pkg, "/"@).last(), pkg],
            None => Seq::empty(),
        }
    } else {
        Seq::empty()
    }
}

pub open spec fn opt_seq(o: Option<Seq<char>>) -> Seq<Seq<char>> {
    match o {
        Some(x) => seq![x],
        None => Seq::empty(),
    }
}

/// The names a source line imports, by the Rust, JS/TS, Python and Go rules.
pub open spec fn line_imports(line: Seq<char>) -> Seq<Seq<char>> {
    let t = trim(line);
    opt_seq(rust_import(t)) + opt_seq(js_import(t)) + opt_seq(python_import(t)) + go_imports(t)
}

/// The names imported by the given lines.
pub open spec fn lines_imports(ls: Seq<Seq<char>>) -> Seq<Seq<char>>
    decreases ls.len(),
{
    if ls.len() == 0 {
        Seq::empty()
    } else {
        lines_imports(ls.drop_last()) + line_imports(ls.last())
    }
}

/// The file extensions of source files.
pub open spec fn source_exts() -> Seq<Seq<char>> {
    seq![".rs"@, ".go"@, ".py"@, ".ts"@, ".tsx"@, ".js"@, ".jsx"@, ".java"@, ".rb"@, ".php"@]
}

/// The names imported by a file of the tree, if it is a readable source file
/// outside the skipped directories.
pub open spec fn entry_imports(e: TreeEntry, ignore: Seq<Seq<char>>) -> Seq<Seq<char>> {
    let p = entry_path(e);
    if skipped(p, crate::autofix::fix_skip_dirs(), ignore) {
        Seq::empty()
    } else if !(exists|i: int| 0 <= i < source_exts().len() && ends_with(p, #[trigger] source_exts()[i])) {
        Seq::empty()
    } else {
        match e.content {
            BlobContent::Text(c) => lines_imports(lines(c@)),
            _ => Seq::empty(),
        }
    }
}

/// The names imported anywhere in the tree.
pub open spec fn tree_imports(entries: Seq<TreeEntry>, ignore: Seq<Seq<char>>) -> Seq<Seq<char>>
    decreases entries.len(),
{
    if entries.len() == 0 {
        Seq::empty()
    } else {
        tree_imports(entries.drop_last(), ignore) + entry_imports(entries.last(), ignore)
    }
}

/// An imported name accounts for a dependency: equal case-insensitively
/// (also with dashes as underscores), or one contains the other. An empty
/// name (a relative `from . import x`) names no package and accounts for none.
pub open spec fn import_matches(dep: Seq<char>, imp: Seq<char>) -> bool {
    let dl = lowercase(dep);
    let nl = lowercase(replace_char(dep, '-', '_'));
    let il = lowercase(imp);
    let inl = lowercase(replace_char(imp, '-', '_'));
    imp.len() > 0 && (il == dl || inl == nl || contains(il, dl) || contains(dl, il))
}

/// The direct dependencies no imported name accounts for, in order.
pub open spec fn unused_deps(direct: Seq<Seq<char>>, imports: Seq<Seq<char>>) -> Seq<Seq<char>>
    decreases direct.len(),
{
    if direct.len() == 0 {
        Seq::empty()
    } else {
        let prev = unused_deps(direct.drop_last(), imports);
        if exists|i: int| 0 <= i < imports.len() && import_matches(direct.last(), #[trigger] imports[i]) {
            prev
        } else {
            prev.push(direct.last())
        }
    }
}

/// `a` comes before `b` in lexicographic (code point) order.
pub open spec fn str_lt(a: Seq<char>, b: Seq<char>) -> bool
    decreases a.len(),
{
    if a.len() == 0 {
        b.len() > 0
    } else if b.len() == 0 {
        false
    } else if a[0] < b[0] {
        true
    } else if a[0] > b[0] {
        false
    } else {
        str_lt(a.drop_first(), b.drop_first())
    }
}

/// The names are in ascending order.
pub open spec fn sorted_names(s: Seq<Seq<char>>) -> bool {
    forall|i: int, j: int| 0 <= i < j < s.len() ==> !str_lt(#[trigger] s[j], #[trigger] s[i])
}

proof fn lemma_str_lt_irreflexive(a: Seq<char>)
    ensures
        !str_lt(a, a),
    decreases a.len(),
{
    if a.len() > 0 {
        lemma_str_lt_irreflexive(a.drop_first());
    }
}

proof fn lemma_str_lt_transitive(a: Seq<char>, b: Seq<char>, c: Seq<char>)
    requires
        str_lt(a, b),
        str_lt(b, c),
    ensures
        str_lt(a, c),
    decreases a.len(),
{
    if a.len() > 0 && b.len() > 0 && c.len() > 0 && a[0] == b[0] && b[0] == c[0] {
        lemma_str_lt_transitive(a.drop_first(), b.drop_first(), c.drop_first());
    }
}

fn str_lt_exec(a: &[char], b: &[char]) -> (r: bool)
    ensures
        r == str_lt(a@, b@),
{
    let mut i: usize = 0;
    proof {
        assert(a@.skip(0) =~= a@);
        assert(b@.skip(0) =~= b@);
    }
    loop
        invariant
            i <= a@.len(),
            i <= b@.len(),
            str_lt(a@, b@) == str_lt(a@.skip(i as int), b@.skip(i as int)),
        decreases a@.len() - i,
    {
        if i == a.len() {
            return i < b.len();
        }
        if i == b.len() {
            return false;
        }
        proof {
            assert(a@.skip(i as int)[0] == a@[i as int]);
            assert(b@.skip(i as int)[0] == b@[i as int]);
            assert(a@.skip(i as int).drop_first() =~= a@.skip(i + 1));
            assert(b@.skip(i as int).drop_first() =~= b@.skip(i + 1));
        }
        if a[i] < b[i] {
            return true;
        }
        if a[i] > b[i] {
            return false;
        }
        i += 1;
    }
}

fn name_lt(x: &Vec<char>, s: &String) -> (r: bool)
    ensures
        r == str_lt(x@, s@),
{
    let c = chars_of(s.as_str());
    str_lt_exec(x, &c)
}

/// Sorts names in ascending order.
pub fn sort_names(v: Vec<String>) -> (r: Vec<String>)
    ensures
        sorted_names(names_view(r@)),
        names_view(r@).to_multiset() == names_view(v@).to_multiset(),
{
    broadcast use vstd::seq_lib::group_to_multiset_ensures;
    let mut r: Vec<String> = Vec::new();
    let mut i: usize = 0;
    proof {
        assert(names_view(r@) =~= Seq::<Seq<char>>::empty());
        assert(names_view(v@).take(0) =~= Seq::<Seq<char>>::empty());
    }
    while i < v.len()
        invariant
            i <= v@.len(),
            sorted_names(names_view(r@)),
            names_view(r@).to_multiset() == names_view(v@).take(i as int).to_multiset(),
        decreases v@.len() - i,
    {
        let x = chars_of(v[i].as_str());
        let mut p: usize = 0;
        while p < r.len() && !name_lt(&x, &r[p])
            invariant
                p <= r@.len(),
                forall|q: int| 0 <= q < p ==> !str_lt(x@, #[trigger] names_view(r@)[q]),
            decreases r@.len() - p,
        {
            p += 1;
        }
        let ghost rv = names_view(r@);
        proof {
            if p < r@.len() {
                assert(str_lt(x@, rv[p as int]));
            }
        }
        r.insert(p, v[i].clone());
        proof {
            assert(names_view(r@) =~= rv.insert(p as int, x@));
            rv.insert_ensures(p as int, x@);
            let nv = names_view(r@);
            assert forall|a: int, b: int| 0 <= a < b < nv.len() implies !str_lt(#[trigger] nv[b], #[trigger] nv[a]) by {
                if b < p {
                    assert(nv[a] == rv[a] && nv[b] == rv[b]);
                } else if b == p {
                    assert(nv[a] == rv[a]);
                    assert(nv[b] == x@);
                } else if a < p {
                    assert(nv[a] == rv[a] && nv[b] == rv[b - 1]);
                } else if a == p {
                    assert(nv[b] == rv[b - 1]);
                    assert(nv[a] == x@);
                    if str_lt(rv[b - 1], x@) {
                        lemma_str_lt_transitive(rv[b - 1], x@, rv[p as int]);
                        if b - 1 == p {
                            lemma_str_lt_irreflexive(rv[p as int]);
                        } else {
                            assert(!str_lt(rv[b - 1], rv[p as int]));
                        }
                    }
                } else {
                    assert(nv[a] == rv[a - 1] && nv[b] == rv[b - 1]);
                }
            }
            assert(names_view(v@).take(i + 1) =~= names_view(v@).take(i as int).push(x@));
            vstd::seq_lib::to_multiset_insert(rv, p as int, x@);
            vstd::seq_lib::to_multiset_build(names_view(v@).take(i as int), x@);
        }
        i += 1;
    }
    proof {
        assert(names_view(v@).take(v@.len() as int) =~= names_view(v@));
    }
    r
}


fn one_char(c: char) -> (r: Vec<char>)
    ensures
        r@ == seq![c],
{
    let mut r: Vec<char> = Vec::new();
    r.push(c);
    proof {
        assert(r@ =~= seq![c]);
    }
    r
}

fn quoted_exec(t: &[char], d: char) -> (r: Option<Vec<char>>)
    ensures
        r matches Some(x) ==> quoted(t@, d) == Some(x@),
        r is None ==> quoted(t@, d) is None,
{
    let dc = one_char(d);
    match find_exec(t, &dc) {
        Some(start) => {
            proof {
                crate::text::lemma_find(t@, dc@);
            }
            let tl = t.len();
            let rest = slice(t, start + 1, tl);
            assert(rest@ == t@.skip(start + 1));
            match find_exec(&rest, &dc) {
                Some(end) => {
                    proof {
                        crate::text::lemma_find(rest@, dc@);
                    }
                    let x = slice(&rest, 0, end);
                    assert(x@ == rest@.take(end as int));
                    Some(x)
                },
                None => None,
            }
        },
        None => None,
    }
}

fn first_piece(s: &[char], p: &str) -> (r: Vec<char>)
    requires
        p@.len() > 0,
    ensures
        r@ == split_str(s@, p@)[0],
{
    let parts = split_str_exec(s, p);
    proof {
        crate::text::lemma_split_str_nonempty(s@, p@);
        assert(views(parts@)[0] == parts@[0]@);
    }
    slice(&parts[0], 0, parts[0].len())
}

fn js_package_exec(pkg: &[char]) -> (r: Vec<char>)
    ensures
        r@ == js_package(pkg@),
{
    proof {
        reveal_strlit("/");
    }
    let parts = split_str_exec(pkg, "/");
    proof {
        crate::text::lemma_split_str_nonempty(pkg@, "/"@);
        assert(views(parts@)[0] == parts@[0]@);
    }
    if starts_with_str(pkg, "@") && parts.len() >= 2 {
        let mut r = slice(&parts[0], 0, parts[0].len());
        extend_str(&mut r, "/");
        extend(&mut r, &parts[1]);
        proof {
            assert(views(parts@)[1] == parts@[1]@);
        }
        r
    } else {
        slice(&parts[0], 0, parts[0].len())
    }
}

fn rust_import_exec(t: &[char]) -> (r: Option<Vec<char>>)
    ensures
        r matches Some(x) ==> rust_import(t@) == Some(x@),
        r is None ==> rust_import(t@) is None,
{
    if starts_with_str(t, "use ") || starts_with_str(t, "extern crate ") {
        let a0 = trim_start_matches_str(t, "extern crate ");
        let a = trim_start_matches_str(&a0, "use ");
        proof {
            reveal_strlit("::");
        }
        let first = first_piece(&a, "::");
        let tr = trim_end_matches_str(&first, ";");
        let tok = replace_char_exec(&tr, '-', '_');
        if tok.len() > 0 {
            Some(tok)
        } else {
            None
        }
    } else {
        None
    }
}

fn js_import_exec(t: &[char]) -> (r: Option<Vec<char>>)
    ensures
        r matches Some(x) ==> js_import(t@) == Some(x@),
        r is None ==> js_import(t@) is None,
{
    if contains_str(t, "from ") || contains_str(t, "require(") {
        match quoted_exec(t, '\'') {
            Some(pkg) => {
                if !starts_with_str(&pkg, ".") {
                    return Some(js_package_exec(&pkg));
                }
            },
            None => {},
        }
        match quoted_exec(t, '"') {
            Some(pkg) => {
                if !starts_with_str(&pkg, ".") {
                    return Some(js_package_exec(&pkg));
                }
            },
            None => {},
        }
        None
    } else {
        None
    }
}

fn python_import_exec(t: &[char]) -> (r: Option<Vec<char>>)
    ensures
        r matches Some(x) ==> python_import(t@) == Some(x@),
        r is None ==> python_import(t@) is None,
{
    if starts_with_str(t, "import ") || starts_with_str(t, "from ") {
        let parts = split_ws_exec(t);
        if parts.len() >= 2 {
            proof {
                reveal_strlit(".");
                assert(views(parts@)[1] == parts@[1]@);
            }
            Some(first_piece(&parts[1], "."))
        } else {
            None
        }
    } else {
        None
    }
}

fn go_imports_exec(t: &[char]) -> (r: Vec<Vec<char>>)
    ensures
        views(r@) == go_imports(t@),
{
    let mut r: Vec<Vec<char>> = Vec::new();
    if crate::text::has_char(t, '"') && (starts_with_str(t, "import") || starts_with_str(t, "\"")) {
        match quoted_exec(t, '"') {
            Some(pkg) => {
                proof {
                    reveal_strlit("/");
                }
                let parts = split_str_exec(&pkg, "/");
                proof {
                    crate::text::lemma_split_str_nonempty(pkg@, "/"@);
                    assert(views(parts@).last() == parts@[parts@.len() - 1]@);
                }
                let last = slice(&parts[parts.len() - 1], 0, parts[parts.len() - 1].len());
                let ghost lv = last@;
                let ghost pv = pkg@;
                proof {
                    assert(parts@[parts@.len() - 1]@.subrange(0, parts@[parts@.len() - 1]@.len() as int) =~= parts@[parts@.len() - 1]@);
                    assert(lv == split_str(pv, "/"@).last());
                    assert(quoted(t@, '"') == Some(pv));
                }
                r.push(last);
                r.push(pkg);
                proof {
                    assert(views(r@) =~= seq![lv, pv]);
                    assert(views(r@) =~= go_imports(t@));
                }
            },
            None => {
                proof {
                    assert(quoted(t@, '"') is None);
                    assert(go_imports(t@) =~= Seq::<Seq<char>>::empty());
                    assert(views(r@) =~= Seq::<Seq<char>>::empty());
                }
            },
        }
    } else {
        proof {
            assert(views(r@) =~= go_imports(t@));
        }
    }
    r
}

fn push_opt(r: &mut Vec<Vec<char>>, o: Option<Vec<char>>)
    ensures
        views(final(r)@) == views(old(r)@) + opt_seq(
            match o {
                Some(x) => Some(x@),
                None => None,
            },
        ),
{
    match o {
        Some(x) => {
            let ghost xv = x@;
            r.push(x);
            proof {
                assert(views(r@) =~= views(old(r)@) + seq![xv]);
            }
        },
        None => {
            proof {
                assert(views(r@) =~= views(old(r)@) + Seq::<Seq<char>>::empty());
            }
        },
    }
}

fn append_views(r: &mut Vec<Vec<char>>, xs: Vec<Vec<char>>)
    ensures
        views(final(r)@) == views(old(r)@) + views(xs@),
{
    let ghost r0 = views(r@);
    let mut i: usize = 0;
    while i < xs.len()
        invariant
            i <= xs@.len(),
            views(r@) == r0 + views(xs@).take(i as int),
        decreases xs@.len() - i,
    {
        let ghost before = views(r@);
        r.push(slice(&xs[i], 0, xs[i].len()));
        proof {
            assert(xs@[i as int]@.subrange(0, xs@[i as int]@.len() as int) =~= xs@[i as int]@);
            assert(views(r@) =~= before.push(xs@[i as int]@));
            assert(views(xs@).take(i + 1) =~= views(xs@).take(i as int).push(xs@[i as int]@));
        }
        i += 1;
    }
    proof {
        assert(views(xs@).take(xs@.len() as int) =~= views(xs@));
    }
}

fn line_imports_exec(line: &[char], acc: &mut Vec<Vec<char>>)
    ensures
        views(final(acc)@) == views(old(acc)@) + line_imports(line@),
{
    let t = trim_exec(line);
    let ghost a0 = views(acc@);
    push_opt(acc, rust_import_exec(&t));
    push_opt(acc, js_import_exec(&t));
    push_opt(acc, python_import_exec(&t));
    append_views(acc, go_imports_exec(&t));
    proof {
        assert(views(acc@) =~= a0 + line_imports(line@));
    }
}

fn has_source_ext(p: &[char]) -> (r: bool)
    ensures
        r == exists|i: int| 0 <= i < source_exts().len() && ends_with(p@, #[trigger] source_exts()[i]),
{
    let exts: Vec<&str> = vec![".rs", ".go", ".py", ".ts", ".tsx", ".js", ".jsx", ".java", ".rb", ".php"];
    proof {
        assert(strs_view(exts@) =~= source_exts());
    }
    let mut i: usize = 0;
    while i < exts.len()
        invariant
            i <= exts@.len(),
            strs_view(exts@) == source_exts(),
            forall|j: int| 0 <= j < i ==> !ends_with(p@, #[trigger] source_exts()[j]),
        decreases exts@.len() - i,
    {
        if ends_with_str(p, exts[i]) {
            assert(source_exts()[i as int] == exts@[i as int]@);
            return true;
        }
        assert(source_exts()[i as int] == exts@[i as int]@);
        i += 1;
    }
    false
}

/// The names imported anywhere in the tree.
fn tree_imports_exec(entries: &Vec<TreeEntry>, ignore_dirs: &Vec<String>) -> (r: Vec<Vec<char>>)
    ensures
        views(r@) == tree_imports(entries@, strings_view(ignore_dirs@)),
{
    let ghost iv = strings_view(ignore_dirs@);
    let defaults: Vec<&str> = vec!["vendor/", "node_modules/", ".git/", "target/", "dist/", "build/"];
    proof {
        assert(strs_view(defaults@) =~= crate::autofix::fix_skip_dirs());
    }
    let mut r: Vec<Vec<char>> = Vec::new();
    let mut i: usize = 0;
    proof {
        assert(entries@.take(0) =~= Seq::<TreeEntry>::empty());
        assert(views(r@) =~= Seq::<Seq<char>>::empty());
    }
    while i < entries.len()
        invariant
            i <= entries@.len(),
            iv == strings_view(ignore_dirs@),
            strs_view(defaults@) == crate::autofix::fix_skip_dirs(),
            views(r@) == tree_imports(entries@.take(i as int), iv),
        decreases entries@.len() - i,
    {
        let e = &entries[i];
        proof {
            assert(entries@.take(i + 1).drop_last() =~= entries@.take(i as int));
            assert(entries@.take(i + 1).last() == *e);
        }
        let ghost before = views(r@);
        let mut path = chars_of(e.dir.as_str());
        extend_str(&mut path, e.name.as_str());
        assert(path@ == entry_path(*e));
        if !is_skipped(&path, defaults.as_slice(), ignore_dirs.as_slice()) && has_source_ext(&path) {
            match &e.content {
                BlobContent::Text(c) => {
                    let ls = lines_of(c.as_str());
                    let ghost lv = lines(c@);
                    let mut k: usize = 0;
                    proof {
                        assert(lv.take(0) =~= Seq::<Seq<char>>::empty());
                        assert(views(r@) =~= before + lines_imports(lv.take(0)));
                    }
                    while k < ls.len()
                        invariant
                            k <= ls@.len(),
                            views(ls@) == lv,
                            views(r@) == before + lines_imports(lv.take(k as int)),
                        decreases ls@.len() - k,
                    {
                        proof {
                            assert(lv.take(k + 1).drop_last() =~= lv.take(k as int));
                            assert(lv.take(k + 1).last() == ls@[k as int]@);
                        }
                        line_imports_exec(&ls[k], &mut r);
                        proof {
                            assert(views(r@) =~= before + lines_imports(lv.take(k + 1)));
                        }
                        k += 1;
                    }
                    proof {
                        assert(lv.take(ls@.len() as int) =~= lv);
                    }
                },
                _ => {
                    proof {
                        assert(views(r@) =~= before + entry_imports(*e, iv));
                    }
                },
            }
        } else {
            proof {
                assert(views(r@) =~= before + entry_imports(*e, iv));
            }
        }
        i += 1;
    }
    proof {
        assert(entries@.take(entries@.len() as int) =~= entries@);
    }
    r
}

fn import_matches_exec(dep: &[char], imp: &[char]) -> (r: bool)
    ensures
        r == import_matches(dep@, imp@),
{
    if imp.len() == 0 {
        return false;
    }
    let ds = string_of(dep);
    let dl = chars_of(to_lower(ds.as_str()).as_str());
    let dn = replace_char_exec(dep, '-', '_');
    let nl = chars_of(to_lower(string_of(&dn).as_str()).as_str());
    let is = string_of(imp);
    let il = chars_of(to_lower(is.as_str()).as_str());
    let inr = replace_char_exec(imp, '-', '_');
    let inl = chars_of(to_lower(string_of(&inr).as_str()).as_str());
    seq_eq(&il, &dl) || seq_eq(&inl, &nl) || crate::text::contains_exec(&il, &dl)
        || crate::text::contains_exec(&dl, &il)
}

/// Detect phantom (unused) dependencies: declared in the manifest but never
/// imported in a source file of the tree; sorted.
pub fn find_phantom_deps(g: &DepGraph, entries: &Vec<TreeEntry>, ignore_dirs: &Vec<String>) -> (r: Vec<String>)
    ensures
        sorted_names(names_view(r@)),
        names_view(r@).to_multiset() == unused_deps(
            names_view(g.direct_deps@),
            tree_imports(entries@, strings_view(ignore_dirs@)),
        ).to_multiset(),
{
    let imports = tree_imports_exec(entries, ignore_dirs);
    let ghost iv = views(imports@);
    let ghost dv = names_view(g.direct_deps@);
    let mut phantom: Vec<String> = Vec::new();
    let mut i: usize = 0;
    proof {
        assert(dv.take(0) =~= Seq::<Seq<char>>::empty());
        assert(names_view(phantom@) =~= Seq::<Seq<char>>::empty());
    }
    while i < g.direct_deps.len()
        invariant
            i <= g.direct_deps@.len(),
            dv == names_view(g.direct_deps@),
            iv == views(imports@),
            names_view(phantom@) == unused_deps(dv.take(i as int), iv),
        decreases g.direct_deps@.len() - i,
    {
        proof {
            assert(dv.take(i + 1).drop_last() =~= dv.take(i as int));
            assert(dv.take(i + 1).last() == g.direct_deps@[i as int]@);
        }
        let d = chars_of(g.direct_deps[i].as_str());
        let mut found = false;
        let mut k: usize = 0;
        while k < imports.len() && !found
            invariant
                k <= imports@.len(),
                iv == views(imports@),
                found ==> exists|j: int| 0 <= j < iv.len() && import_matches(d@, #[trigger] iv[j]),
                !found ==> forall|j: int| 0 <= j < k ==> !import_matches(d@, #[trigger] iv[j]),
            decreases imports@.len() - k,
        {
            if import_matches_exec(&d, &imports[k]) {
                assert(iv[k as int] == imports@[k as int]@);
                found = true;
            }
            assert(iv[k as int] == imports@[k as int]@);
            k += 1;
        }
        let ghost before = names_view(phantom@);
        if !found {
            phantom.push(g.direct_deps[i].clone());
            proof {
                assert(names_view(phantom@) =~= before.push(d@));
            }
        }
        i += 1;
    }
    proof {
        assert(dv.take(g.direct_deps@.len() as int) =~= dv);
    }
    sort_names(phantom)
}


/// The first package named `name` is at index `i`.
pub proof fn lemma_find_node_first(ns: Seq<NodeView>, name: Seq<char>, i: int)
    requires
        0 <= i < ns.len(),
        ns[i].0 == name,
        forall|j: int| 0 <= j < i ==> (#[trigger] ns[j]).0 != name,
    ensures
        find_node(ns, name) == i,
{
    lemma_find_node(ns, name);
    if find_node(ns, name) < 0 {
        assert(node_names(ns)[i] == name);
    } else if find_node(ns, name) > i {
    } else if find_node(ns, name) < i {
        assert(ns[find_node(ns, name)].0 == name);
    }
}

/// No package is named `name`.
pub proof fn lemma_find_node_absent(ns: Seq<NodeView>, name: Seq<char>)
    requires
        forall|j: int| 0 <= j < ns.len() ==> (#[trigger] ns[j]).0 != name,
    ensures
        find_node(ns, name) == -1,
{
    lemma_find_node(ns, name);
    if find_node(ns, name) >= 0 {
        assert(ns[find_node(ns, name)].0 == name);
    }
}

} // verus!
