//! Software composition analysis: the dependencies pinned by each lockfile of
//! the tree, and the report on how loosely or unstably they are pinned.
use vstd::prelude::*;
use crate::autofix::{
    cargo_lock_packages, deps_view, go_sum_entries, npm_lock_entries, parse_cargo_lock_deps,
    parse_go_sum_deps, with_source, DepInfo,
};
use crate::text::{
    contains_str, contains, decimal, decimal_exec, chars_of, extend, extend_str, find, find_exec, lines, lines_of, slice, split_str,
    split_str_exec, starts_with, starts_with_str, string_of, trim, trim_exec, views,
};
use crate::display::{
    cells_cuttable_v, headers_view, info_line, info_line_exec, ok_line, ok_line_exec, out_all,
    push_line, push_lines, str_line, warning_line_exec, rows_view, sub_header_lines,
    summary_stat_line, table_lines_exec, table_lines_v, table_printable, warning_line, write_lines,
    Output,
};
use crate::tree::{entry_path, is_skipped, skipped, strings_view, strs_view, BlobContent, TreeEntry};
use crate::value::{get, get_field, get_str, get_str_exec, json_parse, lookup, parse_json, DocValue};

verus! {

/// A value found by a lookup lies inside the entries searched.
pub proof fn lemma_lookup_inside(es: Seq<(String, DocValue)>, key: Seq<char>)
    ensures
        lookup(es, key) matches Some(x) ==> decreases_to!(es => x),
    decreases es.len(),
{
    if es.len() > 0 {
        if es[0].0@ == key {
            assert(decreases_to!(es => es[0]));
            assert(decreases_to!(es[0] => es[0].1));
        } else {
            lemma_lookup_inside(es.drop_first(), key);
            assert(es.drop_first() == es.subrange(1, es.len() as int));
            assert(decreases_to!(es => es.drop_first()));
        }
    }
}

/// The packages of a version-1 package-lock `dependencies` object, depth
/// first: each entry's name and version ("unknown" without a version string),
/// followed by the packages of its own `dependencies` object.
pub open spec fn lock_v1_entries(es: Seq<(String, DocValue)>) -> Seq<(Seq<char>, Seq<char>)>
    decreases es,
{
    if es.len() == 0 {
        Seq::empty()
    } else {
        proof {
            assert(es.drop_last() == es.subrange(0, es.len() - 1));
        }
        let prev = lock_v1_entries(es.drop_last());
        let e = es.last();
        let own = (
            e.0@,
            match get_str(e.1, "version"@) {
                Some(v) => v,
                None => "unknown"@,
            },
        );
        match get(e.1, "dependencies"@) {
            Some(DocValue::Object(n)) => {
                proof {
                    match e.1 {
                        DocValue::Object(fields) => {
                            lemma_lookup_inside(fields@, "dependencies"@);
                        },
                        _ => {},
                    }
                    assert(decreases_to!(es => e));
                }
                prev.push(own) + lock_v1_entries(n@)
            },
            _ => prev.push(own),
        }
    }
}


/// The packages of a parsed package-lock.json (`None`: it did not parse):
/// those of its `packages` object (version 2 and 3), or else those of its
/// `dependencies` object (version 1).
pub open spec fn package_lock_packages(doc: Option<DocValue>) -> Seq<(Seq<char>, Seq<char>)> {
    match doc {
        Some(v) => match get(v, "packages"@) {
            Some(DocValue::Object(es)) => npm_lock_entries(es@),
            _ => match get(v, "dependencies"@) {
                Some(DocValue::Object(es)) => lock_v1_entries(es@),
                _ => Seq::empty(),
            },
        },
        None => Seq::empty(),
    }
}

/// Adds the packages of a version-1 `dependencies` object, nested ones included.
fn extract_deps(es: &Vec<(String, DocValue)>, result: &mut Vec<DepInfo>)
    ensures
        deps_view(final(result)@) == deps_view(old(result)@) + with_source(
            lock_v1_entries(es@),
            "package-lock.json"@,
        ),
    decreases es@,
{
    let ghost d0 = deps_view(result@);
    let mut i: usize = 0;
    proof {
        assert(es@.take(0) =~= Seq::<(String, DocValue)>::empty());
        assert(deps_view(result@) =~= d0 + with_source(Seq::empty(), "package-lock.json"@));
    }
    while i < es.len()
        invariant
            i <= es@.len(),
            d0 == deps_view(old(result)@),
            deps_view(result@) == d0 + with_source(
                lock_v1_entries(es@.take(i as int)),
                "package-lock.json"@,
            ),
        decreases es@.len() - i,
    {
        proof {
            assert(es@.take(i + 1).drop_last() =~= es@.take(i as int));
            assert(es@.take(i + 1).last() == es@[i as int]);
        }
        let ghost prev = lock_v1_entries(es@.take(i as int));
        let version: String = match get_str_exec(&es[i].1, "version") {
            Some(x) => x,
            None => "unknown".to_string(),
        };
        let name = es[i].0.clone();
        let ghost own = (name@, version@);
        crate::autofix::push_dep(result, name, version, "package-lock.json");
        let ghost d1 = deps_view(result@);
        proof {
            assert(d1 =~= d0 + with_source(prev.push(own), "package-lock.json"@));
        }
        match get_field(&es[i].1, "dependencies") {
            Some(DocValue::Object(n)) => {
                proof {
                    match es@[i as int].1 {
                        DocValue::Object(fields) => {
                            lemma_lookup_inside(fields@, "dependencies"@);
                        },
                        _ => {},
                    }
                    assert(decreases_to!(es@ => es@[i as int]));
                }
                extract_deps(n, result);
                proof {
                    assert(with_source(prev.push(own) + lock_v1_entries(n@), "package-lock.json"@)
                        =~= with_source(prev.push(own), "package-lock.json"@) + with_source(
                        lock_v1_entries(n@),
                        "package-lock.json"@,
                    ));
                    assert(deps_view(result@) =~= d0 + with_source(
                        prev.push(own) + lock_v1_entries(n@),
                        "package-lock.json"@,
                    ));
                }
            },
            _ => {},
        }
        i += 1;
    }
    proof {
        assert(es@.take(es@.len() as int) =~= es@);
    }
}

/// The dependencies of a Cargo.lock: each `[[package]]` section's name and version.
pub fn parse_cargo_lock(content: &str) -> (r: Vec<DepInfo>)
    ensures
        deps_view(r@) == with_source(cargo_lock_packages(content@), "Cargo.lock"@),
{
    let mut r: Vec<DepInfo> = Vec::new();
    parse_cargo_lock_deps(content, &mut r);
    proof {
        assert(deps_view(Seq::<DepInfo>::empty()) + with_source(cargo_lock_packages(content@), "Cargo.lock"@)
            =~= with_source(cargo_lock_packages(content@), "Cargo.lock"@));
    }
    r
}

/// The dependencies of a package-lock.json (none when it does not parse).
pub fn parse_package_lock(content: &str) -> (r: Vec<DepInfo>)
    ensures
        deps_view(r@) == with_source(package_lock_packages(json_parse(content@)), "package-lock.json"@),
{
    let doc = parse_json(content);
    let mut r: Vec<DepInfo> = Vec::new();
    match &doc {
        Some(v) => match get_field(v, "packages") {
            Some(DocValue::Object(_)) => {
                crate::autofix::npm_lock_deps_from(&doc, &mut r);
            },
            _ => match get_field(v, "dependencies") {
                Some(DocValue::Object(es)) => {
                    extract_deps(es, &mut r);
                },
                _ => {},
            },
        },
        None => {},
    }
    proof {
        assert(deps_view(r@) =~= with_source(package_lock_packages(json_parse(content@)), "package-lock.json"@));
    }
    r
}


/// The modules of a go.sum: each module once, with the version of its first
/// line (a trailing "/go.mod" dropped).
pub fn parse_go_sum(content: &str) -> (r: Vec<DepInfo>)
    ensures
        deps_view(r@) == with_source(go_sum_entries(lines(content@)), "go.sum"@),
        crate::autofix::names_of(go_sum_entries(lines(content@))).no_duplicates(),
{
    let mut r: Vec<DepInfo> = Vec::new();
    parse_go_sum_deps(content, &mut r);
    proof {
        crate::autofix::lemma_go_sum_names_unique(lines(content@));
        assert(deps_view(Seq::<DepInfo>::empty()) + with_source(go_sum_entries(lines(content@)), "go.sum"@)
            =~= with_source(go_sum_entries(lines(content@)), "go.sum"@));
    }
    r
}

/// The name before and the constraint after an operator found at `p`: the
/// constraint keeps the operator `kept`.
pub open spec fn split_requirement(t: Seq<char>, p: int, kept: Seq<char>) -> (Seq<char>, Seq<char>) {
    (trim(t.take(p)), kept + trim(t.skip(p + 2)))
}

/// The name and version constraint of a trimmed requirement line: `==` pins
/// the bare version; `>=`, `~=`, `<=` and `!=` (tried in that order) keep their
/// operator; without one the version is "unpinned".
pub open spec fn name_and_constraint(t: Seq<char>) -> (Seq<char>, Seq<char>) {
    match find(t, "=="@) {
        Some(p) => split_requirement(t, p, Seq::empty()),
        None => match find(t, ">="@) {
            Some(p) => split_requirement(t, p, ">="@),
            None => match find(t, "~="@) {
                Some(p) => split_requirement(t, p, "~="@),
                None => match find(t, "<="@) {
                    Some(p) => split_requirement(t, p, "<="@),
                    None => match find(t, "!="@) {
                        Some(p) => split_requirement(t, p, "!="@),
                        None => (t, "unpinned"@),
                    },
                },
            },
        },
    }
}

/// The requirement a line of requirements.txt states: none for blank lines,
/// comments and options; extras in brackets are dropped from the name.
pub open spec fn constraint_of(line: Seq<char>) -> Option<(Seq<char>, Seq<char>)> {
    let t = trim(line);
    if t.len() == 0 || starts_with(t, "#"@) || starts_with(t, "-"@) {
        None
    } else {
        let nv = name_and_constraint(t);
        Some(
            (
                match find(nv.0, "["@) {
                    Some(q) => nv.0.take(q),
                    None => nv.0,
                },
                nv.1,
            ),
        )
    }
}

/// The requirements of a requirements.txt, in order.
pub open spec fn constraint_entries(ls: Seq<Seq<char>>) -> Seq<(Seq<char>, Seq<char>)>
    decreases ls.len(),
{
    if ls.len() == 0 {
        Seq::empty()
    } else {
        let prev = constraint_entries(ls.drop_last());
        match constraint_of(ls.last()) {
            Some(e) => prev.push(e),
            None => prev,
        }
    }
}

fn split_requirement_exec(t: &Vec<char>, p: usize, kept: &str) -> (r: (Vec<char>, Vec<char>))
    requires
        p + 2 <= t@.len(),
    ensures
        (r.0@, r.1@) == split_requirement(t@, p as int, kept@),
{
    let tl = t.len();
    let a = slice(t, 0, p);
    let b = slice(t, p + 2, tl);
    let mut v: Vec<char> = Vec::new();
    extend_str(&mut v, kept);
    let bt = trim_exec(&b);
    extend(&mut v, &bt);
    proof {
        assert(a@ =~= t@.take(p as int));
        assert(b@ =~= t@.skip(p + 2));
    }
    (trim_exec(&a), v)
}

/// Tries the operator `op` on `t`: the split at its first occurrence, if any.
fn try_operator(t: &Vec<char>, op: &str, kept: &str) -> (r: Option<(Vec<char>, Vec<char>)>)
    requires
        op@.len() == 2,
    ensures
        r matches Some(x) ==> find(t@, op@) matches Some(p) && (x.0@, x.1@) == split_requirement(
            t@,
            p,
            kept@,
        ),
        r is None ==> find(t@, op@) is None,
{
    let oc = chars_of(op);
    proof {
        crate::text::lemma_find(t@, op@);
    }
    match find_exec(t, &oc) {
        Some(p) => Some(split_requirement_exec(t, p, kept)),
        None => None,
    }
}

fn name_and_constraint_exec(t: &Vec<char>) -> (r: (Vec<char>, Vec<char>))
    ensures
        (r.0@, r.1@) == name_and_constraint(t@),
{
    proof {
        reveal_strlit("==");
        reveal_strlit(">=");
        reveal_strlit("~=");
        reveal_strlit("<=");
        reveal_strlit("!=");
        reveal_strlit("");
        assert(""@ =~= Seq::<char>::empty());
    }
    if let Some(x) = try_operator(t, "==", "") {
        return x;
    }
    if let Some(x) = try_operator(t, ">=", ">=") {
        return x;
    }
    if let Some(x) = try_operator(t, "~=", "~=") {
        return x;
    }
    if let Some(x) = try_operator(t, "<=", "<=") {
        return x;
    }
    if let Some(x) = try_operator(t, "!=", "!=") {
        return x;
    }
    let mut v: Vec<char> = Vec::new();
    extend_str(&mut v, "unpinned");
    proof {
        assert(t@.subrange(0, t@.len() as int) =~= t@);
    }
    (slice(t, 0, t.len()), v)
}

fn constraint_of_exec(line: &[char]) -> (r: Option<(Vec<char>, Vec<char>)>)
    ensures
        r matches Some(e) ==> constraint_of(line@) == Some((e.0@, e.1@)),
        r is None ==> constraint_of(line@) is None,
{
    let t = trim_exec(line);
    if t.len() == 0 || starts_with_str(&t, "#") || starts_with_str(&t, "-") {
        return None;
    }
    let (name, version) = name_and_constraint_exec(&t);
    let br = chars_of("[");
    let clean = match find_exec(&name, &br) {
        Some(q) => {
            proof {
                crate::text::lemma_find(name@, br@);
            }
            slice(&name, 0, q)
        },
        None => name,
    };
    Some((clean, version))
}

/// Whatever a requirement line gives, its package name holds no `[`: extras
/// such as `pkg[extra]` are dropped from the name, whatever the version
/// operator.
pub proof fn lemma_requirement_name_without_extras(line: Seq<char>)
    ensures
        constraint_of(line) matches Some(e) ==> !e.0.contains('['),
{
    reveal_strlit("[");
    let t = trim(line);
    if constraint_of(line) is Some {
        let n0 = name_and_constraint(t).0;
        crate::text::lemma_find(n0, "["@);
        match find(n0, "["@) {
            Some(q) => {
                let n = n0.take(q);
                assert forall|i: int| 0 <= i < n.len() implies n[i] != '[' by {
                    assert(!crate::text::matches_at(n0, "["@, i));
                    if n[i] == '[' {
                        assert(n0.subrange(i, i + 1) =~= "["@);
                    }
                }
            },
            None => {
                assert forall|i: int| 0 <= i < n0.len() implies n0[i] != '[' by {
                    if n0[i] == '[' {
                        assert(n0.subrange(i, i + 1) =~= "["@);
                        assert(crate::text::matches_at(n0, "["@, i));
                    }
                }
            },
        }
    }
}

/// No dependency read from a requirements.txt keeps extras in its name.
pub proof fn lemma_requirements_names_without_extras(ls: Seq<Seq<char>>)
    ensures
        forall|k: int| 0 <= k < constraint_entries(ls).len() ==> !(#[trigger] constraint_entries(ls)[k]).0.contains('['),
    decreases ls.len(),
{
    if ls.len() > 0 {
        lemma_requirements_names_without_extras(ls.drop_last());
        lemma_requirement_name_without_extras(ls.last());
        let prev = constraint_entries(ls.drop_last());
        assert forall|k: int| 0 <= k < constraint_entries(ls).len() implies !(#[trigger] constraint_entries(ls)[k]).0.contains('[') by {
            if k < prev.len() {
                assert(constraint_entries(ls)[k] == prev[k]);
            }
        }
    }
}

/// The requirements of a requirements.txt, in order of their lines.
pub fn parse_requirements_txt(content: &str) -> (r: Vec<DepInfo>)
    ensures
        deps_view(r@) == with_source(constraint_entries(lines(content@)), "requirements.txt"@),
{
    let ls = lines_of(content);
    let ghost lv = lines(content@);
    let mut r: Vec<DepInfo> = Vec::new();
    let mut i: usize = 0;
    proof {
        assert(lv.take(0) =~= Seq::<Seq<char>>::empty());
        assert(deps_view(r@) =~= with_source(Seq::empty(), "requirements.txt"@));
    }
    while i < ls.len()
        invariant
            i <= ls@.len(),
            lv == lines(content@),
            views(ls@) == lv,
            deps_view(r@) == with_source(constraint_entries(lv.take(i as int)), "requirements.txt"@),
        decreases ls@.len() - i,
    {
        proof {
            assert(lv.take(i + 1).drop_last() =~= lv.take(i as int));
            assert(lv.take(i + 1).last() == ls@[i as int]@);
        }
        let ghost prev = constraint_entries(lv.take(i as int));
        match constraint_of_exec(&ls[i]) {
            Some((n, v)) => {
                let ghost e = (n@, v@);
                crate::autofix::push_dep(&mut r, string_of(&n), string_of(&v), "requirements.txt");
                proof {
                    assert(deps_view(r@) =~= with_source(prev.push(e), "requirements.txt"@));
                }
            },
            None => {},
        }
        i += 1;
    }
    proof {
        assert(lv.take(ls@.len() as int) =~= lv);
    }
    r
}


/// A dependency as the report sees it: name, version, and the lockfile it came from.
pub type DepView = (Seq<char>, Seq<char>, Seq<char>);

/// Directories the composition analysis never looks into.
pub open spec fn sca_skip_dirs() -> Seq<Seq<char>> {
    seq!["vendor/"@, "node_modules/"@, ".git/"@, "target/"@, "dist/"@, "build/"@]
}

/// The lockfile names the analysis reads.
pub open spec fn is_lockfile_name(n: Seq<char>) -> bool {
    n == "Cargo.lock"@ || n == "package-lock.json"@ || n == "go.sum"@ || n == "requirements.txt"@
}

/// The lockfiles of the tree outside skipped directories, in walk order.
pub open spec fn sca_lockfiles(entries: Seq<TreeEntry>, ignore: Seq<Seq<char>>) -> Seq<TreeEntry>
    decreases entries.len(),
{
    if entries.len() == 0 {
        Seq::empty()
    } else {
        let prev = sca_lockfiles(entries.drop_last(), ignore);
        let e = entries.last();
        if !skipped(entry_path(e), sca_skip_dirs(), ignore) && is_lockfile_name(e.name@) {
            prev.push(e)
        } else {
            prev
        }
    }
}

/// The (name, version) pairs a lockfile of the given name and text lists.
pub open spec fn lockfile_packages(name: Seq<char>, c: Seq<char>) -> Seq<(Seq<char>, Seq<char>)> {
    if name == "Cargo.lock"@ {
        cargo_lock_packages(c)
    } else if name == "package-lock.json"@ {
        package_lock_packages(json_parse(c))
    } else if name == "go.sum"@ {
        go_sum_entries(lines(c))
    } else if name == "requirements.txt"@ {
        constraint_entries(lines(c))
    } else {
        Seq::empty()
    }
}

/// The dependencies of a lockfile of the tree, attributed to its path; none
/// when it cannot be read as text.
pub open spec fn lockfile_dependencies(e: TreeEntry) -> Seq<DepView> {
    match e.content {
        BlobContent::Text(c) => with_source(lockfile_packages(e.name@, c@), entry_path(e)),
        _ => Seq::empty(),
    }
}

/// The dependencies of all the lockfiles, in order.
pub open spec fn all_dependencies(lfs: Seq<TreeEntry>) -> Seq<DepView>
    decreases lfs.len(),
{
    if lfs.len() == 0 {
        Seq::empty()
    } else {
        all_dependencies(lfs.drop_last()) + lockfile_dependencies(lfs.last())
    }
}

/// The same dependencies, all attributed to `src`.
fn retag(ds: &Vec<DepInfo>, src: &Vec<char>) -> (r: Vec<DepInfo>)
    ensures
        deps_view(r@) == Seq::new(ds@.len(), |i: int| (deps_view(ds@)[i].0, deps_view(ds@)[i].1, src@)),
{
    let mut r: Vec<DepInfo> = Vec::new();
    let mut i: usize = 0;
    while i < ds.len()
        invariant
            i <= ds@.len(),
            r@.len() == i,
            forall|k: int| 0 <= k < i ==> #[trigger] deps_view(r@)[k] == (
                deps_view(ds@)[k].0,
                deps_view(ds@)[k].1,
                src@,
            ),
        decreases ds@.len() - i,
    {
        let d = DepInfo {
            name: ds[i].name.clone(),
            version: ds[i].version.clone(),
            source: string_of(src),
        };
        let ghost before = r@;
        r.push(d);
        proof {
            assert forall|k: int| 0 <= k < i + 1 implies #[trigger] deps_view(r@)[k] == (
                deps_view(ds@)[k].0,
                deps_view(ds@)[k].1,
                src@,
            ) by {
                if k < i {
                    assert(r@[k] == before[k]);
                    assert(deps_view(before)[k] == deps_view(r@)[k]);
                }
            }
        }
        i += 1;
    }
    proof {
        assert(deps_view(r@) =~= Seq::new(ds@.len(), |i: int| (deps_view(ds@)[i].0, deps_view(ds@)[i].1, src@)));
    }
    r
}

/// The dependencies a lockfile entry contributes.
fn lockfile_dependencies_exec(e: &TreeEntry) -> (r: Vec<DepInfo>)
    ensures
        deps_view(r@) == lockfile_dependencies(*e),
{
    match &e.content {
        BlobContent::Text(c) => {
            let name = chars_of(e.name.as_str());
            let ghost cv = c@;
            let (ds, Ghost(src)): (Vec<DepInfo>, Ghost<Seq<char>>) = if crate::text::eq_str(&name, "Cargo.lock") {
                (parse_cargo_lock(c.as_str()), Ghost("Cargo.lock"@))
            } else if crate::text::eq_str(&name, "package-lock.json") {
                (parse_package_lock(c.as_str()), Ghost("package-lock.json"@))
            } else if crate::text::eq_str(&name, "go.sum") {
                (parse_go_sum(c.as_str()), Ghost("go.sum"@))
            } else if crate::text::eq_str(&name, "requirements.txt") {
                (parse_requirements_txt(c.as_str()), Ghost("requirements.txt"@))
            } else {
                (Vec::new(), Ghost(Seq::<char>::empty()))
            };
            proof {
                assert(deps_view(ds@) =~= with_source(lockfile_packages(e.name@, cv), src));
            }
            let mut path = chars_of(e.dir.as_str());
            extend_str(&mut path, e.name.as_str());
            let r = retag(&ds, &path);
            proof {
                assert(deps_view(r@) =~= with_source(lockfile_packages(e.name@, cv), entry_path(*e)));
            }
            r
        },
        _ => {
            let r: Vec<DepInfo> = Vec::new();
            proof {
                assert(deps_view(r@) =~= Seq::<DepView>::empty());
            }
            r
        },
    }
}

/// The number of lockfiles of the tree and their dependencies.
fn collect_sca_inputs(entries: &Vec<TreeEntry>, ignore_dirs: &Vec<String>) -> (r: (usize, Vec<DepInfo>))
    ensures
        r.0 == sca_lockfiles(entries@, strings_view(ignore_dirs@)).len(),
        deps_view(r.1@) == all_dependencies(sca_lockfiles(entries@, strings_view(ignore_dirs@))),
{
    let ghost iv = strings_view(ignore_dirs@);
    let defaults: Vec<&str> = vec!["vendor/", "node_modules/", ".git/", "target/", "dist/", "build/"];
    proof {
        assert(strs_view(defaults@) =~= sca_skip_dirs());
    }
    let mut count: usize = 0;
    let mut deps: Vec<DepInfo> = Vec::new();
    let mut i: usize = 0;
    proof {
        assert(entries@.take(0) =~= Seq::<TreeEntry>::empty());
        assert(deps_view(deps@) =~= Seq::<DepView>::empty());
    }
    while i < entries.len()
        invariant
            i <= entries@.len(),
            iv == strings_view(ignore_dirs@),
            strs_view(defaults@) == sca_skip_dirs(),
            count == sca_lockfiles(entries@.take(i as int), iv).len(),
            count <= i,
            deps_view(deps@) == all_dependencies(sca_lockfiles(entries@.take(i as int), iv)),
        decreases entries@.len() - i,
    {
        let e = &entries[i];
        proof {
            assert(entries@.take(i + 1).drop_last() =~= entries@.take(i as int));
            assert(entries@.take(i + 1).last() == *e);
        }
        let ghost lfs = sca_lockfiles(entries@.take(i as int), iv);
        let mut path = chars_of(e.dir.as_str());
        extend_str(&mut path, e.name.as_str());
        assert(path@ == entry_path(*e));
        let name = chars_of(e.name.as_str());
        let is_lock = crate::text::eq_str(&name, "Cargo.lock") || crate::text::eq_str(&name, "package-lock.json")
            || crate::text::eq_str(&name, "go.sum") || crate::text::eq_str(&name, "requirements.txt");
        if !is_skipped(&path, defaults.as_slice(), ignore_dirs.as_slice()) && is_lock {
            let more = lockfile_dependencies_exec(e);
            let ghost before = deps_view(deps@);
            let mut more = more;
            deps.append(&mut more);
            proof {
                assert(lfs.push(*e).drop_last() =~= lfs);
                assert(deps_view(deps@) =~= before + lockfile_dependencies(*e));
            }
            count += 1;
        }
        i += 1;
    }
    proof {
        assert(entries@.take(entries@.len() as int) =~= entries@);
    }
    (count, deps)
}


/// The lockfiles the dependencies came from, each once, in order of first appearance.
pub open spec fn sources_in_order(deps: Seq<DepView>) -> Seq<Seq<char>>
    decreases deps.len(),
{
    if deps.len() == 0 {
        Seq::empty()
    } else {
        let prev = sources_in_order(deps.drop_last());
        if prev.contains(deps.last().2) {
            prev
        } else {
            prev.push(deps.last().2)
        }
    }
}

/// The dependencies that came from `src`, in order.
pub open spec fn from_source(deps: Seq<DepView>, src: Seq<char>) -> Seq<DepView>
    decreases deps.len(),
{
    if deps.len() == 0 {
        Seq::empty()
    } else {
        let prev = from_source(deps.drop_last(), src);
        if deps.last().2 == src {
            prev.push(deps.last())
        } else {
            prev
        }
    }
}

/// At most the first `n` items.
pub open spec fn first_n(ds: Seq<DepView>, n: nat) -> Seq<DepView> {
    if ds.len() <= n {
        ds
    } else {
        ds.take(n as int)
    }
}

/// Table rows of package and version.
pub open spec fn package_rows(ds: Seq<DepView>) -> Seq<Seq<Seq<char>>> {
    Seq::new(ds.len(), |i: int| seq![ds[i].0, ds[i].1])
}

/// Table rows of package, version and lockfile.
pub open spec fn risk_rows(ds: Seq<DepView>) -> Seq<Seq<Seq<char>>> {
    Seq::new(ds.len(), |i: int| seq![ds[i].0, ds[i].1, ds[i].2])
}

/// The headers of the package tables.
pub open spec fn package_headers() -> Seq<Seq<char>> {
    seq!["Package"@, "Version"@]
}

/// The headers of the risk tables.
pub open spec fn risk_headers() -> Seq<Seq<char>> {
    seq!["Package"@, "Version"@, "Source"@]
}

/// The title line of a lockfile's dependency list.
pub open spec fn group_title(src: Seq<char>, n: nat) -> Seq<char> {
    "    \x1b[1m"@ + src + "\x1b[0m ("@ + decimal(n) + " dependencies)"@
}

/// The line that counts the dependencies a list leaves out beyond `shown`.
pub open spec fn more_line(n: nat, shown: nat) -> Seq<Seq<char>> {
    if n > shown {
        seq![info_line("... and "@ + decimal((n - shown) as nat) + " more"@)]
    } else {
        Seq::empty()
    }
}

/// The lines of one lockfile's dependency list: its first 30 dependencies.
pub open spec fn group_lines(src: Seq<char>, ds: Seq<DepView>) -> Seq<Seq<char>> {
    seq![""@, group_title(src, ds.len())] + table_lines_v(package_headers(), package_rows(first_n(ds, 30)))
        + more_line(ds.len(), 30)
}

/// The dependency lists of the given lockfiles, in order.
pub open spec fn groups_lines(deps: Seq<DepView>, srcs: Seq<Seq<char>>) -> Seq<Seq<char>>
    decreases srcs.len(),
{
    if srcs.len() == 0 {
        Seq::empty()
    } else {
        groups_lines(deps, srcs.drop_last()) + group_lines(srcs.last(), from_source(deps, srcs.last()))
    }
}

/// A version that is not pinned, or pinned only from below.
pub open spec fn is_loose(v: Seq<char>) -> bool {
    v == "unpinned"@ || starts_with(v, ">="@) || starts_with(v, "~="@)
}

/// A 0.x or pre-release version.
pub open spec fn is_prerelease(v: Seq<char>) -> bool {
    ||| starts_with(v, "0."@)
    ||| contains(v, "-alpha"@)
    ||| contains(v, "-beta"@)
    ||| contains(v, "-rc"@)
    ||| contains(v, "-dev"@)
}

/// The dependencies with a loose version, in order.
pub open spec fn loose_deps(deps: Seq<DepView>) -> Seq<DepView>
    decreases deps.len(),
{
    if deps.len() == 0 {
        Seq::empty()
    } else {
        let prev = loose_deps(deps.drop_last());
        if is_loose(deps.last().1) {
            prev.push(deps.last())
        } else {
            prev
        }
    }
}

/// The dependencies with a 0.x or pre-release version, in order.
pub open spec fn prerelease_deps(deps: Seq<DepView>) -> Seq<DepView>
    decreases deps.len(),
{
    if deps.len() == 0 {
        Seq::empty()
    } else {
        let prev = prerelease_deps(deps.drop_last());
        if is_prerelease(deps.last().1) {
            prev.push(deps.last())
        } else {
            prev
        }
    }
}

/// The loose-version part of the risk analysis: a warning and the first 15,
/// or that all versions are pinned.
pub open spec fn loose_section(deps: Seq<DepView>) -> Seq<Seq<char>> {
    let u = loose_deps(deps);
    if u.len() > 0 {
        seq![warning_line(decimal(u.len()) + " dependencies with unpinned or loose versions:"@)]
            + table_lines_v(risk_headers(), risk_rows(first_n(u, 15)))
    } else {
        seq![ok_line("All dependencies have pinned versions"@)]
    }
}

/// The pre-release part of the risk analysis: the first 15, if there are any.
pub open spec fn prerelease_section(deps: Seq<DepView>) -> Seq<Seq<char>> {
    let p = prerelease_deps(deps);
    if p.len() > 0 {
        seq![""@, info_line(decimal(p.len()) + " dependencies are pre-release or 0.x (potentially unstable):"@)]
            + table_lines_v(risk_headers(), risk_rows(first_n(p, 15)))
    } else {
        Seq::empty()
    }
}

/// The closing notes on vulnerability databases.
pub open spec fn sca_notes() -> Seq<Seq<char>> {
    seq![
        ""@,
        info_line("Note: CVE database lookup requires network access."@),
        info_line("Run `cargo audit` (Rust), `npm audit` (Node.js), or `pip-audit` (Python) for vulnerability scanning."@),
    ]
}

/// The composition analysis report on `n` lockfiles and their dependencies.
pub open spec fn sca_report_lines(n: nat, deps: Seq<DepView>) -> Seq<Seq<char>> {
    sub_header_lines("Software Composition Analysis (SCA)"@) + if n == 0 {
        seq![info_line("No lockfiles found (Cargo.lock, package-lock.json, go.sum, requirements.txt)"@)]
    } else {
        seq![
            summary_stat_line("Lockfiles found"@, decimal(n)),
            summary_stat_line("Total dependencies"@, decimal(deps.len())),
        ] + groups_lines(deps, sources_in_order(deps)) + seq![""@, "    \x1b[1mRisk Analysis:\x1b[0m"@]
            + loose_section(deps) + prerelease_section(deps) + sca_notes()
    }
}

/// Every table of the report can be printed.
pub open spec fn sca_printable(deps: Seq<DepView>) -> bool {
    &&& forall|i: int|
        0 <= i < sources_in_order(deps).len() ==> cells_cuttable_v(
            package_rows(first_n(from_source(deps, #[trigger] sources_in_order(deps)[i]), 30)),
        )
    &&& cells_cuttable_v(risk_rows(first_n(loose_deps(deps), 15)))
    &&& cells_cuttable_v(risk_rows(first_n(prerelease_deps(deps), 15)))
}


fn clone_dep(d: &DepInfo) -> (r: DepInfo)
    ensures
        r.name@ == d.name@,
        r.version@ == d.version@,
        r.source@ == d.source@,
{
    DepInfo { name: d.name.clone(), version: d.version.clone(), source: d.source.clone() }
}

fn push_clone(v: &mut Vec<DepInfo>, d: &DepInfo)
    ensures
        deps_view(final(v)@) == deps_view(old(v)@).push((d.name@, d.version@, d.source@)),
{
    v.push(clone_dep(d));
    proof {
        assert(deps_view(v@) =~= deps_view(old(v)@).push((d.name@, d.version@, d.source@)));
    }
}

fn contains_string(v: &Vec<String>, s: &str) -> (r: bool)
    ensures
        r == crate::text::string_views(v@).contains(s@),
{
    let sc = chars_of(s);
    let mut i: usize = 0;
    while i < v.len()
        invariant
            i <= v@.len(),
            sc@ == s@,
            forall|k: int| 0 <= k < i ==> #[trigger] crate::text::string_views(v@)[k] != s@,
        decreases v@.len() - i,
    {
        let x = chars_of(v[i].as_str());
        if crate::text::seq_eq(&x, &sc) {
            assert(crate::text::string_views(v@)[i as int] == s@);
            return true;
        }
        i += 1;
    }
    false
}

/// [`sources_in_order`].
fn sources_exec(deps: &Vec<DepInfo>) -> (r: Vec<String>)
    ensures
        crate::text::string_views(r@) == sources_in_order(deps_view(deps@)),
{
    let ghost dv = deps_view(deps@);
    let mut r: Vec<String> = Vec::new();
    let mut i: usize = 0;
    proof {
        assert(dv.take(0) =~= Seq::<DepView>::empty());
        assert(crate::text::string_views(r@) =~= Seq::<Seq<char>>::empty());
    }
    while i < deps.len()
        invariant
            i <= deps@.len(),
            dv == deps_view(deps@),
            crate::text::string_views(r@) == sources_in_order(dv.take(i as int)),
        decreases deps@.len() - i,
    {
        proof {
            assert(dv.take(i + 1).drop_last() =~= dv.take(i as int));
            assert(dv.take(i + 1).last() == dv[i as int]);
        }
        if !contains_string(&r, deps[i].source.as_str()) {
            let ghost before = crate::text::string_views(r@);
            r.push(deps[i].source.clone());
            proof {
                assert(crate::text::string_views(r@) =~= before.push(dv[i as int].2));
            }
        }
        i += 1;
    }
    proof {
        assert(dv.take(deps@.len() as int) =~= dv);
    }
    r
}

/// [`from_source`].
fn from_source_exec(deps: &Vec<DepInfo>, src: &str) -> (r: Vec<DepInfo>)
    ensures
        deps_view(r@) == from_source(deps_view(deps@), src@),
{
    let ghost dv = deps_view(deps@);
    let sc = chars_of(src);
    let mut r: Vec<DepInfo> = Vec::new();
    let mut i: usize = 0;
    proof {
        assert(dv.take(0) =~= Seq::<DepView>::empty());
        assert(deps_view(r@) =~= Seq::<DepView>::empty());
    }
    while i < deps.len()
        invariant
            i <= deps@.len(),
            dv == deps_view(deps@),
            sc@ == src@,
            deps_view(r@) == from_source(dv.take(i as int), src@),
        decreases deps@.len() - i,
    {
        proof {
            assert(dv.take(i + 1).drop_last() =~= dv.take(i as int));
            assert(dv.take(i + 1).last() == dv[i as int]);
        }
        let x = chars_of(deps[i].source.as_str());
        if crate::text::seq_eq(&x, &sc) {
            push_clone(&mut r, &deps[i]);
        }
        i += 1;
    }
    proof {
        assert(dv.take(deps@.len() as int) =~= dv);
    }
    r
}

fn is_loose_exec(v: &str) -> (r: bool)
    ensures
        r == is_loose(v@),
{
    let c = chars_of(v);
    crate::text::eq_str(&c, "unpinned") || starts_with_str(&c, ">=") || starts_with_str(&c, "~=")
}

fn is_prerelease_exec(v: &str) -> (r: bool)
    ensures
        r == is_prerelease(v@),
{
    let c = chars_of(v);
    starts_with_str(&c, "0.") || crate::text::contains_str(&c, "-alpha") || crate::text::contains_str(
        &c,
        "-beta",
    ) || crate::text::contains_str(&c, "-rc") || crate::text::contains_str(&c, "-dev")
}

/// [`loose_deps`].
fn loose_exec(deps: &Vec<DepInfo>) -> (r: Vec<DepInfo>)
    ensures
        deps_view(r@) == loose_deps(deps_view(deps@)),
{
    let ghost dv = deps_view(deps@);
    let mut r: Vec<DepInfo> = Vec::new();
    let mut i: usize = 0;
    proof {
        assert(dv.take(0) =~= Seq::<DepView>::empty());
        assert(deps_view(r@) =~= Seq::<DepView>::empty());
    }
    while i < deps.len()
        invariant
            i <= deps@.len(),
            dv == deps_view(deps@),
            deps_view(r@) == loose_deps(dv.take(i as int)),
        decreases deps@.len() - i,
    {
        proof {
            assert(dv.take(i + 1).drop_last() =~= dv.take(i as int));
            assert(dv.take(i + 1).last() == dv[i as int]);
        }
        if is_loose_exec(deps[i].version.as_str()) {
            push_clone(&mut r, &deps[i]);
        }
        i += 1;
    }
    proof {
        assert(dv.take(deps@.len() as int) =~= dv);
    }
    r
}

/// [`prerelease_deps`].
fn prerelease_exec(deps: &Vec<DepInfo>) -> (r: Vec<DepInfo>)
    ensures
        deps_view(r@) == prerelease_deps(deps_view(deps@)),
{
    let ghost dv = deps_view(deps@);
    let mut r: Vec<DepInfo> = Vec::new();
    let mut i: usize = 0;
    proof {
        assert(dv.take(0) =~= Seq::<DepView>::empty());
        assert(deps_view(r@) =~= Seq::<DepView>::empty());
    }
    while i < deps.len()
        invariant
            i <= deps@.len(),
            dv == deps_view(deps@),
            deps_view(r@) == prerelease_deps(dv.take(i as int)),
        decreases deps@.len() - i,
    {
        proof {
            assert(dv.take(i + 1).drop_last() =~= dv.take(i as int));
            assert(dv.take(i + 1).last() == dv[i as int]);
        }
        if is_prerelease_exec(deps[i].version.as_str()) {
            push_clone(&mut r, &deps[i]);
        }
        i += 1;
    }
    proof {
        assert(dv.take(deps@.len() as int) =~= dv);
    }
    r
}

/// The rows of the first `n` dependencies: package and version, with the
/// lockfile too when `with_source` is set.
fn dep_rows_exec(ds: &Vec<DepInfo>, n: usize, with_src: bool) -> (r: Vec<Vec<String>>)
    ensures
        with_src ==> rows_view(r@) == risk_rows(first_n(deps_view(ds@), n as nat)),
        !with_src ==> rows_view(r@) == package_rows(first_n(deps_view(ds@), n as nat)),
{
    let ghost dv = deps_view(ds@);
    let ghost shown = first_n(dv, n as nat);
    let m = if ds.len() <= n { ds.len() } else { n };
    assert(shown.len() == m);
    let mut r: Vec<Vec<String>> = Vec::new();
    let mut i: usize = 0;
    while i < m
        invariant
            i <= m,
            m <= ds@.len(),
            dv == deps_view(ds@),
            shown == first_n(dv, n as nat),
            shown.len() == m,
            r@.len() == i,
            forall|k: int| 0 <= k < i ==> #[trigger] rows_view(r@)[k] == (if with_src {
                risk_rows(shown)[k]
            } else {
                package_rows(shown)[k]
            }),
        decreases m - i,
    {
        assert(shown[i as int] == dv[i as int]);
        let mut row: Vec<String> = Vec::new();
        row.push(ds[i].name.clone());
        row.push(ds[i].version.clone());
        if with_src {
            row.push(ds[i].source.clone());
        }
        let ghost before = r@;
        r.push(row);
        proof {
            assert forall|k: int| 0 <= k < i + 1 implies #[trigger] rows_view(r@)[k] == (if with_src {
                risk_rows(shown)[k]
            } else {
                package_rows(shown)[k]
            }) by {
                if k < i {
                    assert(r@[k] == before[k]);
                    assert(rows_view(r@)[k] == rows_view(before)[k]);
                } else {
                    if with_src {
                        assert(rows_view(r@)[k] =~= risk_rows(shown)[k]);
                    } else {
                        assert(rows_view(r@)[k] =~= package_rows(shown)[k]);
                    }
                }
            }
        }
        i += 1;
    }
    proof {
        if with_src {
            assert(rows_view(r@) =~= risk_rows(shown));
        } else {
            assert(rows_view(r@) =~= package_rows(shown));
        }
    }
    r
}


/// [`group_lines`], given the group's rows.
fn group_lines_exec(src: &String, ds: &Vec<DepInfo>, rows: &Vec<Vec<String>>) -> (r: Vec<Vec<char>>)
    requires
        rows_view(rows@) == package_rows(first_n(deps_view(ds@), 30)),
        cells_cuttable_v(package_rows(first_n(deps_view(ds@), 30))),
    ensures
        views(r@) == group_lines(src@, deps_view(ds@)),
{
    let ghost dv = deps_view(ds@);
    let mut r: Vec<Vec<char>> = Vec::new();
    push_line(&mut r, str_line(""));
    let mut title: Vec<char> = Vec::new();
    extend_str(&mut title, "    \x1b[1m");
    extend_str(&mut title, src.as_str());
    extend_str(&mut title, "\x1b[0m (");
    let n = decimal_exec(ds.len());
    extend(&mut title, &n);
    extend_str(&mut title, " dependencies)");
    proof {
        assert(title@ =~= group_title(src@, dv.len()));
    }
    push_line(&mut r, title);
    let h: Vec<&str> = vec!["Package", "Version"];
    proof {
        assert(headers_view(h@) =~= package_headers());
    }
    let t = table_lines_exec(h.as_slice(), rows.as_slice());
    push_lines(&mut r, t);
    let ghost base = seq![""@, group_title(src@, dv.len())] + table_lines_v(
        package_headers(),
        package_rows(first_n(dv, 30)),
    );
    proof {
        assert(views(r@) =~= base);
    }
    if ds.len() > 30 {
        let mut l: Vec<char> = Vec::new();
        extend_str(&mut l, "... and ");
        let k = decimal_exec(ds.len() - 30);
        extend(&mut l, &k);
        extend_str(&mut l, " more");
        let li = info_line_exec(&l);
        push_line(&mut r, li);
        proof {
            assert(views(r@) =~= base + more_line(dv.len(), 30));
        }
    } else {
        proof {
            assert(views(r@) =~= base + more_line(dv.len(), 30));
        }
    }
    r
}

/// The dependency lists of the given lockfiles; `None` when one of their
/// tables cannot be printed.
fn groups_lines_exec(deps: &Vec<DepInfo>, srcs: &Vec<String>) -> (r: Option<Vec<Vec<char>>>)
    ensures
        r is Some <==> forall|i: int|
            0 <= i < srcs@.len() ==> cells_cuttable_v(
                package_rows(first_n(from_source(deps_view(deps@), #[trigger] srcs@[i]@), 30)),
            ),
        r matches Some(ls) ==> views(ls@) == groups_lines(
            deps_view(deps@),
            crate::text::string_views(srcs@),
        ),
{
    let ghost dv = deps_view(deps@);
    let ghost sv = crate::text::string_views(srcs@);
    let mut r: Vec<Vec<char>> = Vec::new();
    let mut i: usize = 0;
    proof {
        assert(sv.take(0) =~= Seq::<Seq<char>>::empty());
        assert(views(r@) =~= Seq::<Seq<char>>::empty());
    }
    while i < srcs.len()
        invariant
            i <= srcs@.len(),
            dv == deps_view(deps@),
            sv == crate::text::string_views(srcs@),
            views(r@) == groups_lines(dv, sv.take(i as int)),
            forall|k: int|
                0 <= k < i ==> cells_cuttable_v(
                    package_rows(first_n(from_source(dv, #[trigger] srcs@[k]@), 30)),
                ),
        decreases srcs@.len() - i,
    {
        proof {
            assert(sv.take(i + 1).drop_last() =~= sv.take(i as int));
            assert(sv.take(i + 1).last() == srcs@[i as int]@);
        }
        let group = from_source_exec(deps, srcs[i].as_str());
        let rows = dep_rows_exec(&group, 30, false);
        let ok = table_printable(rows.as_slice());
        proof {
            crate::display::lemma_table_view(Seq::<&str>::empty(), rows@);
        }
        if !ok {
            return None;
        }
        let more = group_lines_exec(&srcs[i], &group, &rows);
        let ghost before = views(r@);
        push_lines(&mut r, more);
        proof {
            assert(views(r@) == groups_lines(dv, sv.take(i + 1)));
        }
        i += 1;
    }
    proof {
        assert(sv.take(srcs@.len() as int) =~= sv);
    }
    Some(r)
}

/// A warning or notice followed by a risk table of the first 15; `None` when
/// the table cannot be printed.
fn risk_table_exec(ds: &Vec<DepInfo>) -> (r: Option<Vec<Vec<char>>>)
    ensures
        r is Some <==> cells_cuttable_v(risk_rows(first_n(deps_view(ds@), 15))),
        r matches Some(ls) ==> views(ls@) == table_lines_v(risk_headers(), risk_rows(first_n(deps_view(ds@), 15))),
{
    let rows = dep_rows_exec(ds, 15, true);
    let ok = table_printable(rows.as_slice());
    proof {
        crate::display::lemma_table_view(Seq::<&str>::empty(), rows@);
    }
    if !ok {
        return None;
    }
    let h: Vec<&str> = vec!["Package", "Version", "Source"];
    proof {
        assert(headers_view(h@) =~= risk_headers());
    }
    Some(table_lines_exec(h.as_slice(), rows.as_slice()))
}

/// [`loose_section`]; `None` when its table cannot be printed.
fn loose_section_exec(deps: &Vec<DepInfo>) -> (r: Option<Vec<Vec<char>>>)
    ensures
        r is Some <==> cells_cuttable_v(risk_rows(first_n(loose_deps(deps_view(deps@)), 15))),
        r matches Some(ls) ==> views(ls@) == loose_section(deps_view(deps@)),
{
    let u = loose_exec(deps);
    let t = risk_table_exec(&u);
    if u.len() > 0 {
        match t {
            Some(t) => {
                let mut msg = decimal_exec(u.len());
                extend_str(&mut msg, " dependencies with unpinned or loose versions:");
                let mut r: Vec<Vec<char>> = Vec::new();
                push_line(&mut r, warning_line_exec(&msg));
                push_lines(&mut r, t);
                proof {
                    assert(views(r@) =~= loose_section(deps_view(deps@)));
                }
                Some(r)
            },
            None => None,
        }
    } else {
        let mut r: Vec<Vec<char>> = Vec::new();
        push_line(&mut r, ok_line_exec("All dependencies have pinned versions"));
        proof {
            assert(views(r@) =~= loose_section(deps_view(deps@)));
            assert(risk_rows(first_n(loose_deps(deps_view(deps@)), 15)) =~= Seq::<Seq<Seq<char>>>::empty());
        }
        Some(r)
    }
}

/// [`prerelease_section`]; `None` when its table cannot be printed.
fn prerelease_section_exec(deps: &Vec<DepInfo>) -> (r: Option<Vec<Vec<char>>>)
    ensures
        r is Some <==> cells_cuttable_v(risk_rows(first_n(prerelease_deps(deps_view(deps@)), 15))),
        r matches Some(ls) ==> views(ls@) == prerelease_section(deps_view(deps@)),
{
    let p = prerelease_exec(deps);
    let t = risk_table_exec(&p);
    if p.len() > 0 {
        match t {
            Some(t) => {
                let mut msg = decimal_exec(p.len());
                extend_str(&mut msg, " dependencies are pre-release or 0.x (potentially unstable):");
                let mut r: Vec<Vec<char>> = Vec::new();
                push_line(&mut r, str_line(""));
                push_line(&mut r, info_line_exec(&msg));
                push_lines(&mut r, t);
                proof {
                    assert(views(r@) =~= prerelease_section(deps_view(deps@)));
                }
                Some(r)
            },
            None => None,
        }
    } else {
        let r: Vec<Vec<char>> = Vec::new();
        proof {
            assert(views(r@) =~= prerelease_section(deps_view(deps@)));
            assert(risk_rows(first_n(prerelease_deps(deps_view(deps@)), 15)) =~= Seq::<Seq<Seq<char>>>::empty());
        }
        Some(r)
    }
}


/// The software composition analysis of the repository tree (its files as the
/// walk hands them over, in walk order), skipping `ignore_dirs`: the report on
/// the dependencies pinned by each Cargo.lock, package-lock.json, go.sum and
/// requirements.txt, lockfile by lockfile in order of first appearance.
///
/// Returns `false`, writing nothing, when a table cell longer than 50 bytes
/// cannot be cut at byte 49 (where the report could not be printed).
pub fn sca_scan(o: &mut Output, entries: &Vec<TreeEntry>, ignore_dirs: &Vec<String>) -> (ok: bool)
    ensures
        ({
            let lfs = sca_lockfiles(entries@, strings_view(ignore_dirs@));
            let deps = all_dependencies(lfs);
            &&& ok == sca_printable(deps)
            &&& ok ==> final(o)@ == write_lines(old(o)@, sca_report_lines(lfs.len(), deps))
            &&& !ok ==> final(o)@ == old(o)@
        }),
{
    let ghost o0 = o@;
    let (n, deps) = collect_sca_inputs(entries, ignore_dirs);
    let ghost dv = deps_view(deps@);
    let ghost title = "Software Composition Analysis (SCA)"@;
    if n == 0 {
        proof {
            assert(dv =~= Seq::<DepView>::empty());
            assert(sources_in_order(dv) =~= Seq::<Seq<char>>::empty());
            assert(loose_deps(dv) =~= Seq::<DepView>::empty());
            assert(prerelease_deps(dv) =~= Seq::<DepView>::empty());
            assert(risk_rows(first_n(loose_deps(dv), 15)) =~= Seq::<Seq<Seq<char>>>::empty());
            assert(risk_rows(first_n(prerelease_deps(dv), 15)) =~= Seq::<Seq<Seq<char>>>::empty());
        }
        crate::display::print_sub_header(o, "Software Composition Analysis (SCA)");
        crate::display::print_info(o, "No lockfiles found (Cargo.lock, package-lock.json, go.sum, requirements.txt)");
        proof {
            crate::display::lemma_write_lines_push(
                o0,
                sub_header_lines(title),
                info_line("No lockfiles found (Cargo.lock, package-lock.json, go.sum, requirements.txt)"@),
            );
            assert(sca_report_lines(0, dv) =~= sub_header_lines(title).push(
                info_line("No lockfiles found (Cargo.lock, package-lock.json, go.sum, requirements.txt)"@),
            ));
        }
        return true;
    }
    let srcs = sources_exec(&deps);
    let g = groups_lines_exec(&deps, &srcs);
    let l = loose_section_exec(&deps);
    let p = prerelease_section_exec(&deps);
    let (g, l, p) = match (g, l, p) {
        (Some(g), Some(l), Some(p)) => (g, l, p),
        _ => {
            proof {
                assert(!sca_printable(dv)) by {
                    if sca_printable(dv) {
                        assert forall|i: int| 0 <= i < srcs@.len() implies cells_cuttable_v(
                            package_rows(first_n(from_source(dv, #[trigger] srcs@[i]@), 30)),
                        ) by {
                            assert(crate::text::string_views(srcs@)[i] == srcs@[i]@);
                        }
                    }
                }
            }
            return false;
        },
    };
    proof {
        assert forall|i: int| 0 <= i < sources_in_order(dv).len() implies cells_cuttable_v(
            package_rows(first_n(from_source(dv, #[trigger] sources_in_order(dv)[i]), 30)),
        ) by {
            assert(crate::text::string_views(srcs@)[i] == srcs@[i]@);
        }
    }
    let mut r: Vec<Vec<char>> = Vec::new();
    let c = decimal_exec(n);
    push_line(&mut r, crate::display::summary_line_exec("Lockfiles found", &c));
    let t = decimal_exec(deps.len());
    push_line(&mut r, crate::display::summary_line_exec("Total dependencies", &t));
    push_lines(&mut r, g);
    push_line(&mut r, str_line(""));
    push_line(&mut r, str_line("    \x1b[1mRisk Analysis:\x1b[0m"));
    push_lines(&mut r, l);
    push_lines(&mut r, p);
    push_line(&mut r, str_line(""));
    push_line(&mut r, info_line_exec(&chars_of("Note: CVE database lookup requires network access.")));
    push_line(
        &mut r,
        info_line_exec(
            &chars_of("Run `cargo audit` (Rust), `npm audit` (Node.js), or `pip-audit` (Python) for vulnerability scanning."),
        ),
    );
    let ghost body = views(r@);
    proof {
        assert(body =~= seq![
            summary_stat_line("Lockfiles found"@, decimal(n as nat)),
            summary_stat_line("Total dependencies"@, decimal(dv.len())),
        ] + groups_lines(dv, sources_in_order(dv)) + seq![""@, "    \x1b[1mRisk Analysis:\x1b[0m"@]
            + loose_section(dv) + prerelease_section(dv) + sca_notes());
    }
    crate::display::print_sub_header(o, "Software Composition Analysis (SCA)");
    out_all(o, &r);
    proof {
        crate::display::lemma_write_lines_append(o0, sub_header_lines(title), body);
        assert(sca_report_lines(n as nat, dv) =~= sub_header_lines(title) + body);
    }
    true
}

} // verus!
