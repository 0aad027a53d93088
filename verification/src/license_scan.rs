//! The license compliance report: which files of the tree are manifests and
//! license files, and what the report says of them.
use vstd::prelude::*;
use crate::display::{
    sub_header_lines, cells_cuttable_v, headers_view, info_line, lemma_table_view, lemma_write_lines_append,
    ok_line, out_all, print_table, rows_view, summary_stat_line, table_lines_v, table_printable,
    warning_line, write_lines, Output,
};
use crate::license::{
    cargo_dep_names, cargo_license, dep_names, detect_license_from_content, detect_license_spec,
    go_mod_scan, is_copyleft, is_copyleft_spec, is_permissive, is_permissive_spec,
    license_category, license_category_spec, normalize_license, normalize_license_spec,
    npm_dep_names, npm_license, parse_cargo_toml, parse_go_mod, parse_package_json, ManifestInfo,
};
use crate::text::{
    chars_of, decimal, decimal_exec, ends_with, ends_with_str, eq_str, extend, extend_str, lines,
    opt_view, split_str, split_str_exec, starts_with, starts_with_str, string_of, to_upper,
    trim, trim_exec, uppercase, views,
};
use crate::tree::{entry_path, is_skipped, skipped, strings_view, BlobContent, TreeEntry};
use crate::value::{json_parse, toml_parse};

verus! {

/// The path, declared license and dependency names of a manifest.
pub type ManifestView = (Seq<char>, Option<Seq<char>>, Seq<Seq<char>>);

/// Directories the license scan never looks into.
pub open spec fn license_skip_dirs() -> Seq<Seq<char>> {
    seq!["vendor/"@, "node_modules/"@, ".git/"@, "target/"@, "dist/"@, "build/"@]
}

/// The view of a manifest.
pub open spec fn manifest_view(m: ManifestInfo) -> ManifestView {
    (m.path@, opt_view(m.project_license), dep_names(m.dependencies@))
}

/// The views of manifests.
pub open spec fn manifests_view(v: Seq<ManifestInfo>) -> Seq<ManifestView> {
    Seq::new(v.len(), |i: int| manifest_view(v[i]))
}

/// The manifest an entry is, if it is a readable Cargo.toml, package.json or go.mod.
pub open spec fn manifest_of_entry(e: TreeEntry) -> Option<ManifestView> {
    match e.content {
        BlobContent::Text(c) => if e.name@ == "Cargo.toml"@ {
            Some((entry_path(e), cargo_license(toml_parse(c@)), cargo_dep_names(toml_parse(c@))))
        } else if e.name@ == "package.json"@ {
            Some((entry_path(e), npm_license(json_parse(c@)), npm_dep_names(json_parse(c@))))
        } else if e.name@ == "go.mod"@ {
            Some((entry_path(e), None, go_mod_scan(lines(c@)).1))
        } else {
            None
        },
        _ => None,
    }
}

/// A file name that marks a license file: LICENSE*, LICENCE* or COPYING, in any case.
pub open spec fn is_license_file_name(name: Seq<char>) -> bool {
    let u = uppercase(name);
    starts_with(u, "LICENSE"@) || starts_with(u, "LICENCE"@) || u == "COPYING"@
}

/// The manifests among the scanned entries, in walk order.
pub open spec fn scanned_manifests(entries: Seq<TreeEntry>, ignore: Seq<Seq<char>>) -> Seq<
    ManifestView,
>
    decreases entries.len(),
{
    if entries.len() == 0 {
        Seq::empty()
    } else {
        let prev = scanned_manifests(entries.drop_last(), ignore);
        let e = entries.last();
        if !skipped(entry_path(e), license_skip_dirs(), ignore) && manifest_of_entry(e) is Some {
            prev.push(manifest_of_entry(e)->0)
        } else {
            prev
        }
    }
}

/// The indices of the license files among the scanned entries, in walk order.
pub open spec fn license_file_indices(entries: Seq<TreeEntry>, ignore: Seq<Seq<char>>) -> Seq<int>
    decreases entries.len(),
{
    if entries.len() == 0 {
        Seq::empty()
    } else {
        let prev = license_file_indices(entries.drop_last(), ignore);
        let e = entries.last();
        if !skipped(entry_path(e), license_skip_dirs(), ignore) && is_license_file_name(e.name@) {
            prev.push(entries.len() - 1)
        } else {
            prev
        }
    }
}

/// The license files among the scanned entries, in walk order.
pub open spec fn scanned_license_files(entries: Seq<TreeEntry>, ignore: Seq<Seq<char>>) -> Seq<
    TreeEntry,
> {
    let idx = license_file_indices(entries, ignore);
    Seq::new(idx.len(), |k: int| entries[idx[k]])
}

/// The concatenation of the pieces of each part split at `p`.
pub open spec fn split_each(parts: Seq<Seq<char>>, p: Seq<char>) -> Seq<Seq<char>>
    decreases parts.len(),
{
    if parts.len() == 0 {
        Seq::empty()
    } else {
        split_each(parts.drop_last(), p) + split_str(parts.last(), p)
    }
}

/// The parts of a compound license checked for copyleft: split at " OR ",
/// then at '/', then at " AND ".
pub open spec fn license_terms(lic: Seq<char>) -> Seq<Seq<char>> {
    split_each(split_each(split_str(lic, " OR "@), "/"@), " AND "@)
}

/// The alternatives of a compound license: split at " OR ", then at '/'.
pub open spec fn license_alternatives(lic: Seq<char>) -> Seq<Seq<char>> {
    split_each(split_str(lic, " OR "@), "/"@)
}

/// A license part, trimmed and normalized.
pub open spec fn norm(p: Seq<char>) -> Seq<char> {
    normalize_license_spec(trim(p))
}

/// The copyleft terms among `parts`, each paired with the manifest path.
pub open spec fn copyleft_of(path: Seq<char>, parts: Seq<Seq<char>>) -> Seq<(Seq<char>, Seq<char>)>
    decreases parts.len(),
{
    if parts.len() == 0 {
        Seq::empty()
    } else {
        let prev = copyleft_of(path, parts.drop_last());
        if is_copyleft_spec(norm(parts.last())) {
            prev.push((path, norm(parts.last())))
        } else {
            prev
        }
    }
}

/// Every copyleft term of every declared manifest license.
pub open spec fn copyleft_warnings(ms: Seq<ManifestView>) -> Seq<(Seq<char>, Seq<char>)>
    decreases ms.len(),
{
    if ms.len() == 0 {
        Seq::empty()
    } else {
        let prev = copyleft_warnings(ms.drop_last());
        match ms.last().1 {
            Some(l) => prev + copyleft_of(ms.last().0, license_terms(l)),
            None => prev,
        }
    }
}

/// The Cargo.toml and package.json manifests that declare no license.
pub open spec fn missing_license(ms: Seq<ManifestView>) -> Seq<Seq<char>>
    decreases ms.len(),
{
    if ms.len() == 0 {
        Seq::empty()
    } else {
        let prev = missing_license(ms.drop_last());
        let m = ms.last();
        if m.1 is None && (ends_with(m.0, "Cargo.toml"@) || ends_with(m.0, "package.json"@)) {
            prev.push(m.0)
        } else {
            prev
        }
    }
}

/// Rows of the project license table: path, license and category of each
/// manifest that declares a license.
pub open spec fn project_rows(ms: Seq<ManifestView>) -> Seq<Seq<Seq<char>>>
    decreases ms.len(),
{
    if ms.len() == 0 {
        Seq::empty()
    } else {
        let prev = project_rows(ms.drop_last());
        match ms.last().1 {
            Some(l) => prev.push(seq![ms.last().0, l, license_category_spec(l)]),
            None => prev,
        }
    }
}

/// Every alternative of the license is permissive.
pub open spec fn all_permissive(lic: Seq<char>) -> bool {
    let parts = license_alternatives(lic);
    forall|i: int| 0 <= i < parts.len() ==> is_permissive_spec(norm(#[trigger] parts[i]))
}

/// Some manifest declares a license all of whose alternatives are permissive.
pub open spec fn project_is_permissive(ms: Seq<ManifestView>) -> bool {
    exists|i: int|
        0 <= i < ms.len() && (#[trigger] ms[i]).1 is Some && all_permissive(ms[i].1->0)
}

/// The number of dependencies over all manifests, saturated at `usize::MAX`.
pub open spec fn total_deps(ms: Seq<ManifestView>) -> nat
    decreases ms.len(),
{
    if ms.len() == 0 {
        0
    } else {
        let t = total_deps(ms.drop_last()) + ms.last().2.len();
        if t <= usize::MAX {
            t
        } else {
            usize::MAX as nat
        }
    }
}

/// What the license detection says of a license file's content.
pub open spec fn detected_license(c: BlobContent) -> (Seq<char>, Seq<char>) {
    match c {
        BlobContent::Text(t) => detect_license_spec(t@),
        BlobContent::Binary => ("Binary file"@, "low"@),
        BlobContent::Unreadable => ("Unreadable"@, "low"@),
    }
}

/// The index of the last '/' in `s`, or -1.
pub open spec fn last_slash(s: Seq<char>) -> int
    decreases s.len(),
{
    if s.len() == 0 {
        -1
    } else if s.last() == '/' {
        s.len() - 1
    } else {
        last_slash(s.drop_last())
    }
}

/// The file name of a path: what follows its last '/'.
pub open spec fn file_name_part(path: Seq<char>) -> Seq<char> {
    if last_slash(path) >= 0 {
        path.skip(last_slash(path) + 1)
    } else {
        path
    }
}

/// The directory of a path: what precedes its last '/', or "(root)".
pub open spec fn dir_part(path: Seq<char>) -> Seq<char> {
    if last_slash(path) >= 0 {
        path.take(last_slash(path))
    } else {
        "(root)"@
    }
}

/// A row of the license file table.
pub open spec fn license_file_row(e: TreeEntry) -> Seq<Seq<char>> {
    let p = entry_path(e);
    let d = detected_license(e.content);
    seq![file_name_part(p), dir_part(p), d.0, license_category_spec(d.0), d.1]
}

/// The rows of the license file table.
pub open spec fn license_file_rows(lfs: Seq<TreeEntry>) -> Seq<Seq<Seq<char>>> {
    Seq::new(lfs.len(), |i: int| license_file_row(lfs[i]))
}

/// A warning for each license file row whose category is copyleft.
pub open spec fn license_file_warnings(rows: Seq<Seq<Seq<char>>>) -> Seq<Seq<char>>
    decreases rows.len(),
{
    if rows.len() == 0 {
        Seq::empty()
    } else {
        let prev = license_file_warnings(rows.drop_last());
        let r = rows.last();
        if starts_with(r[3], "copyleft"@) {
            prev.push(
                warning_line(r[1] + "/"@ + r[0] + " is "@ + r[2] + " ("@ + r[3] + ")"@),
            )
        } else {
            prev
        }
    }
}

/// The rows of the dependency summary table.
pub open spec fn dependency_rows(ms: Seq<ManifestView>) -> Seq<Seq<Seq<char>>> {
    Seq::new(
        ms.len(),
        |i: int|
            seq![
                ms[i].0,
                decimal(ms[i].2.len()),
                match ms[i].1 {
                    Some(l) => l,
                    None => "not declared"@,
                },
            ],
    )
}

pub open spec fn project_headers() -> Seq<Seq<char>> {
    seq!["Manifest"@, "SPDX License"@, "Category"@]
}

pub open spec fn license_file_headers() -> Seq<Seq<char>> {
    seq!["File"@, "Location"@, "Detected License"@, "Category"@, "Confidence"@]
}

pub open spec fn dependency_headers() -> Seq<Seq<char>> {
    seq!["Manifest"@, "Dependencies"@, "License"@]
}

/// The report's lines about manifests, before the license files.
pub open spec fn manifest_section(ms: Seq<ManifestView>, n_files: nat) -> Seq<Seq<char>> {
    let stats = seq![
        summary_stat_line("Manifests found"@, decimal(ms.len())),
        summary_stat_line("Total dependencies"@, decimal(total_deps(ms))),
        summary_stat_line("License files in repo"@, decimal(n_files)),
    ];
    let rows = project_rows(ms);
    let project: Seq<Seq<char>> = if rows.len() == 0 {
        Seq::empty()
    } else {
        seq![""@, "    \x1b[1mProject Licenses (SPDX):\x1b[0m"@] + table_lines_v(
            project_headers(),
            rows,
        )
    };
    let w = copyleft_warnings(ms);
    let copyleft: Seq<Seq<char>> = if w.len() > 0 {
        seq![""@, warning_line("Copyleft licenses detected:"@)] + Seq::new(
            w.len(),
            |i: int| "      \x1b[31m•\x1b[0m "@ + w[i].0 + ": "@ + w[i].1,
        )
    } else if project_is_permissive(ms) {
        seq![ok_line("No copyleft license conflicts — project uses permissive licensing"@)]
    } else {
        Seq::empty()
    };
    let m = missing_license(ms);
    let missing: Seq<Seq<char>> = if m.len() > 0 {
        seq![""@, warning_line("Missing license declaration in:"@)] + Seq::new(
            m.len(),
            |i: int| "      \x1b[33m•\x1b[0m "@ + m[i],
        )
    } else {
        Seq::empty()
    };
    stats + project + copyleft + missing
}

/// The report's lines about license files.
pub open spec fn license_file_section(lfs: Seq<TreeEntry>) -> Seq<Seq<char>> {
    if lfs.len() == 0 {
        seq![""@, warning_line("No LICENSE/COPYING file found in repository root"@)]
    } else {
        let rows = license_file_rows(lfs);
        seq![""@, "    \x1b[1mLicense Files Detected:\x1b[0m"@] + table_lines_v(
            license_file_headers(),
            rows,
        ) + license_file_warnings(rows)
    }
}

/// The report's closing dependency summary.
pub open spec fn dependency_section(ms: Seq<ManifestView>) -> Seq<Seq<char>> {
    seq![""@, "    \x1b[1mDependency Summary:\x1b[0m"@] + table_lines_v(
        dependency_headers(),
        dependency_rows(ms),
    )
}

/// The lines of the license report.
pub open spec fn license_report_lines(ms: Seq<ManifestView>, lfs: Seq<TreeEntry>) -> Seq<Seq<char>> {
    if ms.len() == 0 {
        seq![info_line("No dependency manifests found (Cargo.toml, package.json, go.mod)"@)]
    } else {
        manifest_section(ms, lfs.len()) + license_file_section(lfs) + dependency_section(ms)
    }
}

/// Every table of the report can be printed.
pub open spec fn license_report_printable(ms: Seq<ManifestView>, lfs: Seq<TreeEntry>) -> bool {
    ms.len() == 0 || (cells_cuttable_v(project_rows(ms)) && cells_cuttable_v(license_file_rows(lfs))
        && cells_cuttable_v(dependency_rows(ms)))
}


fn push_vec(v: &mut Vec<Vec<char>>, x: Vec<char>)
    ensures
        views(final(v)@) == views(old(v)@).push(x@),
{
    v.push(x);
    proof {
        assert(views(v@) =~= views(old(v)@).push(x@));
    }
}

/// The manifests and the license file indices among the scanned entries.
fn collect_license_inputs(entries: &Vec<TreeEntry>, ignore_dirs: &Vec<String>) -> (r: (
    Vec<ManifestInfo>,
    Vec<usize>,
))
    ensures
        manifests_view(r.0@) == scanned_manifests(entries@, strings_view(ignore_dirs@)),
        r.1@.len() == license_file_indices(entries@, strings_view(ignore_dirs@)).len(),
        forall|k: int|
            0 <= k < r.1@.len() ==> r.1@[k] as int == #[trigger] license_file_indices(
                entries@,
                strings_view(ignore_dirs@),
            )[k],
        forall|k: int| 0 <= k < r.1@.len() ==> #[trigger] r.1@[k] < entries@.len(),
{
    let ghost iv = strings_view(ignore_dirs@);
    let defaults: Vec<&str> = vec!["vendor/", "node_modules/", ".git/", "target/", "dist/", "build/"];
    proof {
        assert(crate::tree::strs_view(defaults@) =~= license_skip_dirs());
    }
    let mut manifests: Vec<ManifestInfo> = Vec::new();
    let mut idx: Vec<usize> = Vec::new();
    let mut i: usize = 0;
    proof {
        assert(entries@.take(0) =~= Seq::<TreeEntry>::empty());
        assert(manifests_view(manifests@) =~= Seq::<ManifestView>::empty());
    }
    while i < entries.len()
        invariant
            i <= entries@.len(),
            iv == strings_view(ignore_dirs@),
            crate::tree::strs_view(defaults@) == license_skip_dirs(),
            manifests_view(manifests@) == scanned_manifests(entries@.take(i as int), iv),
            idx@.len() == license_file_indices(entries@.take(i as int), iv).len(),
            forall|k: int|
                0 <= k < idx@.len() ==> idx@[k] as int == #[trigger] license_file_indices(
                    entries@.take(i as int),
                    iv,
                )[k],
            forall|k: int| 0 <= k < idx@.len() ==> #[trigger] idx@[k] < i,
        decreases entries@.len() - i,
    {
        let e = &entries[i];
        let ghost pre = entries@.take(i as int);
        let ghost cur = entries@.take(i + 1);
        proof {
            assert(cur.drop_last() =~= pre);
            assert(cur.last() == *e);
        }
        let mut path = chars_of(e.dir.as_str());
        extend_str(&mut path, e.name.as_str());
        assert(path@ == entry_path(*e));
        let skip = is_skipped(&path, defaults.as_slice(), ignore_dirs.as_slice());
        let ghost m0 = manifests_view(manifests@);
        let ghost idx0 = idx@;
        if !skip {
            let us = to_upper(e.name.as_str());
            let u = chars_of(us.as_str());
            let is_lic = starts_with_str(&u, "LICENSE") || starts_with_str(&u, "LICENCE")
                || eq_str(&u, "COPYING");
            if is_lic {
                idx.push(i);
            }
            let name = chars_of(e.name.as_str());
            match &e.content {
                BlobContent::Text(c) => {
                    let found: Option<ManifestInfo> = if eq_str(&name, "Cargo.toml") {
                        Some(parse_cargo_toml(c.as_str()))
                    } else if eq_str(&name, "package.json") {
                        Some(parse_package_json(c.as_str()))
                    } else if eq_str(&name, "go.mod") {
                        Some(parse_go_mod(c.as_str()))
                    } else {
                        None
                    };
                    match found {
                        Some(mut info) => {
                            info.path = string_of(&path);
                            manifests.push(info);
                            proof {
                                assert(manifests_view(manifests@) =~= m0.push(
                                    manifest_of_entry(*e)->0,
                                ));
                            }
                        },
                        None => {},
                    }
                },
                _ => {},
            }
        }
        proof {
            assert(license_file_indices(cur, iv).drop_last() == license_file_indices(pre, iv)
                || license_file_indices(cur, iv) == license_file_indices(pre, iv));
        }
        i += 1;
    }
    proof {
        assert(entries@.take(entries@.len() as int) =~= entries@);
    }
    (manifests, idx)
}

/// `split_each` over owned pieces.
fn split_each_exec(parts: &Vec<Vec<char>>, p: &str) -> (r: Vec<Vec<char>>)
    requires
        p@.len() > 0,
    ensures
        views(r@) == split_each(views(parts@), p@),
{
    let ghost pv = views(parts@);
    let mut r: Vec<Vec<char>> = Vec::new();
    let mut i: usize = 0;
    proof {
        assert(pv.take(0) =~= Seq::<Seq<char>>::empty());
        assert(views(r@) =~= Seq::<Seq<char>>::empty());
    }
    while i < parts.len()
        invariant
            i <= parts@.len(),
            p@.len() > 0,
            pv == views(parts@),
            views(r@) == split_each(pv.take(i as int), p@),
        decreases parts@.len() - i,
    {
        let pieces = split_str_exec(&parts[i], p);
        let ghost r0 = views(r@);
        let mut k: usize = 0;
        while k < pieces.len()
            invariant
                k <= pieces@.len(),
                views(r@) == r0 + views(pieces@).take(k as int),
            decreases pieces@.len() - k,
        {
            let x = pieces[k].clone();
            proof {
                assert(x@ == pieces@[k as int]@);
            }
            let ghost before = views(r@);
            push_vec(&mut r, x);
            proof {
                assert(views(pieces@).take(k + 1) =~= views(pieces@).take(k as int).push(
                    pieces@[k as int]@,
                ));
                assert(views(r@) =~= r0 + views(pieces@).take(k + 1));
            }
            k += 1;
        }
        proof {
            assert(views(pieces@).take(pieces@.len() as int) =~= views(pieces@));
            assert(pv.take(i + 1).drop_last() =~= pv.take(i as int));
            assert(pv.take(i + 1).last() == parts@[i as int]@);
        }
        i += 1;
    }
    proof {
        assert(pv.take(parts@.len() as int) =~= pv);
    }
    r
}

/// A part trimmed and normalized.
fn norm_exec(p: &[char]) -> (r: String)
    ensures
        r@ == norm(p@),
{
    let t = trim_exec(p);
    let ts = string_of(&t);
    normalize_license(ts.as_str())
}

/// The terms of a compound license, split at " OR ", '/' and " AND ".
fn license_terms_exec(lic: &str) -> (r: Vec<Vec<char>>)
    ensures
        views(r@) == license_terms(lic@),
{
    let l = chars_of(lic);
    proof {
        reveal_strlit(" OR ");
        reveal_strlit("/");
        reveal_strlit(" AND ");
    }
    let a = split_str_exec(&l, " OR ");
    let b = split_each_exec(&a, "/");
    split_each_exec(&b, " AND ")
}

/// The alternatives of a compound license, split at " OR " and '/'.
fn license_alternatives_exec(lic: &str) -> (r: Vec<Vec<char>>)
    ensures
        views(r@) == license_alternatives(lic@),
{
    let l = chars_of(lic);
    proof {
        reveal_strlit(" OR ");
        reveal_strlit("/");
    }
    let a = split_str_exec(&l, " OR ");
    split_each_exec(&a, "/")
}

/// The view of (path, license) pairs.
pub open spec fn pairs_view(v: Seq<(String, String)>) -> Seq<(Seq<char>, Seq<char>)> {
    Seq::new(v.len(), |i: int| (v[i].0@, v[i].1@))
}

/// Appends the copyleft terms of `parts` paired with `path`.
fn push_copyleft(w: &mut Vec<(String, String)>, path: &String, parts: &Vec<Vec<char>>)
    ensures
        pairs_view(final(w)@) == pairs_view(old(w)@) + copyleft_of(path@, views(parts@)),
{
    let ghost w0 = pairs_view(w@);
    let ghost pv = views(parts@);
    let mut i: usize = 0;
    proof {
        assert(pv.take(0) =~= Seq::<Seq<char>>::empty());
        assert(pairs_view(w@) =~= w0 + copyleft_of(path@, pv.take(0)));
    }
    while i < parts.len()
        invariant
            i <= parts@.len(),
            pv == views(parts@),
            pairs_view(w@) == w0 + copyleft_of(path@, pv.take(i as int)),
        decreases parts@.len() - i,
    {
        proof {
            assert(pv.take(i + 1).drop_last() =~= pv.take(i as int));
            assert(pv.take(i + 1).last() == parts@[i as int]@);
        }
        let n = norm_exec(&parts[i]);
        let ghost before = pairs_view(w@);
        if is_copyleft(n.as_str()) {
            w.push((path.clone(), n));
            proof {
                assert(pairs_view(w@) =~= before.push((path@, norm(parts@[i as int]@))));
            }
        }
        i += 1;
    }
    proof {
        assert(pv.take(parts@.len() as int) =~= pv);
    }
}

/// Every alternative of the license is permissive.
fn all_permissive_exec(lic: &str) -> (r: bool)
    ensures
        r == all_permissive(lic@),
{
    let parts = license_alternatives_exec(lic);
    let ghost pv = views(parts@);
    let mut i: usize = 0;
    while i < parts.len()
        invariant
            i <= parts@.len(),
            pv == views(parts@),
            pv == license_alternatives(lic@),
            forall|j: int| 0 <= j < i ==> is_permissive_spec(norm(#[trigger] pv[j])),
        decreases parts@.len() - i,
    {
        let n = norm_exec(&parts[i]);
        if !is_permissive(n.as_str()) {
            assert(pv[i as int] == parts@[i as int]@);
            return false;
        }
        assert(pv[i as int] == parts@[i as int]@);
        i += 1;
    }
    true
}

/// The index of the last '/'.
fn last_slash_exec(s: &[char]) -> (r: Option<usize>)
    ensures
        r matches Some(k) ==> last_slash(s@) == k && k < s@.len(),
        r is None ==> last_slash(s@) == -1,
{
    let mut i: usize = s.len();
    proof {
        assert(s@.take(s@.len() as int) =~= s@);
    }
    while i > 0
        invariant
            i <= s@.len(),
            last_slash(s@) == last_slash(s@.take(i as int)),
        decreases i,
    {
        proof {
            assert(s@.take(i as int).last() == s@[i - 1]);
            assert(s@.take(i as int).drop_last() =~= s@.take(i - 1));
        }
        if s[i - 1] == '/' {
            return Some(i - 1);
        }
        i -= 1;
    }
    None
}

/// A row of the license file table for the entry.
fn license_file_row_exec(e: &TreeEntry) -> (r: Vec<String>)
    ensures
        Seq::new(r@.len(), |j: int| r@[j]@) == license_file_row(*e),
{
    let (spdx, conf): (String, &'static str) = match &e.content {
        BlobContent::Text(t) => detect_license_from_content(t.as_str()),
        BlobContent::Binary => ("Binary file".to_string(), "low"),
        BlobContent::Unreadable => ("Unreadable".to_string(), "low"),
    };
    let mut path = chars_of(e.dir.as_str());
    extend_str(&mut path, e.name.as_str());
    assert(path@ == entry_path(*e));
    let pl = path.len();
    let (file, dir): (Vec<char>, Vec<char>) = match last_slash_exec(&path) {
        Some(k) => (crate::text::slice(&path, k + 1, pl), crate::text::slice(&path, 0, k)),
        None => {
            let mut d: Vec<char> = Vec::new();
            extend_str(&mut d, "(root)");
            (crate::text::slice(&path, 0, path.len()), d)
        },
    };
    proof {
        assert(path@.subrange(0, path@.len() as int) =~= path@);
    }
    let cat = license_category(spdx.as_str());
    let mut r: Vec<String> = Vec::new();
    r.push(string_of(&file));
    r.push(string_of(&dir));
    r.push(spdx);
    r.push(cat.to_string());
    r.push(conf.to_string());
    proof {
        assert(Seq::new(r@.len(), |j: int| r@[j]@) =~= license_file_row(*e));
    }
    r
}


/// The rows of the project license table.
fn project_rows_exec(manifests: &Vec<ManifestInfo>) -> (r: Vec<Vec<String>>)
    ensures
        rows_view(r@) == project_rows(manifests_view(manifests@)),
{
    let ghost ms = manifests_view(manifests@);
    let mut r: Vec<Vec<String>> = Vec::new();
    let mut i: usize = 0;
    proof {
        assert(ms.take(0) =~= Seq::<ManifestView>::empty());
        assert(rows_view(r@) =~= Seq::<Seq<Seq<char>>>::empty());
    }
    while i < manifests.len()
        invariant
            i <= manifests@.len(),
            ms == manifests_view(manifests@),
            rows_view(r@) == project_rows(ms.take(i as int)),
        decreases manifests@.len() - i,
    {
        proof {
            assert(ms.take(i + 1).drop_last() =~= ms.take(i as int));
            assert(ms.take(i + 1).last() == manifest_view(manifests@[i as int]));
        }
        let m = &manifests[i];
        match &m.project_license {
            Some(l) => {
                let cat = license_category(l.as_str());
                let mut row: Vec<String> = Vec::new();
                row.push(m.path.clone());
                row.push(l.clone());
                row.push(cat.to_string());
                let ghost before = rows_view(r@);
                proof {
                    assert(Seq::new(row@.len(), |j: int| row@[j]@) =~= seq![m.path@, l@, license_category_spec(l@)]);
                }
                r.push(row);
                proof {
                    assert(rows_view(r@) =~= before.push(
                        seq![m.path@, l@, license_category_spec(l@)],
                    ));
                }
            },
            None => {},
        }
        i += 1;
    }
    proof {
        assert(ms.take(manifests@.len() as int) =~= ms);
    }
    r
}

/// The rows of the dependency summary table.
fn dependency_rows_exec(manifests: &Vec<ManifestInfo>) -> (r: Vec<Vec<String>>)
    ensures
        rows_view(r@) == dependency_rows(manifests_view(manifests@)),
{
    let ghost ms = manifests_view(manifests@);
    let mut r: Vec<Vec<String>> = Vec::new();
    let mut i: usize = 0;
    while i < manifests.len()
        invariant
            i <= manifests@.len(),
            ms == manifests_view(manifests@),
            r@.len() == i,
            forall|k: int| 0 <= k < i ==> #[trigger] rows_view(r@)[k] == dependency_rows(ms)[k],
        decreases manifests@.len() - i,
    {
        let m = &manifests[i];
        let n = decimal_exec(m.dependencies.len());
        let lic: String = match &m.project_license {
            Some(l) => l.clone(),
            None => "not declared".to_string(),
        };
        let mut row: Vec<String> = Vec::new();
        row.push(m.path.clone());
        row.push(string_of(&n));
        row.push(lic);
        let ghost before = r@;
        let ghost row_v = Seq::new(row@.len(), |j: int| row@[j]@);
        proof {
            assert(dep_names(m.dependencies@).len() == m.dependencies@.len());
            assert(Seq::new(row@.len(), |j: int| row@[j]@) =~= dependency_rows(ms)[i as int]);
        }
        r.push(row);
        proof {
            assert forall|k: int| 0 <= k < i + 1 implies #[trigger] rows_view(r@)[k]
                == dependency_rows(ms)[k] by {
                if k < i {
                    assert(r@[k] == before[k]);
                    assert(rows_view(before)[k] == dependency_rows(ms)[k]);
                    assert(rows_view(r@)[k] == rows_view(before)[k]);
                } else {
                    assert(r@[k] == row);
                    assert(rows_view(r@)[k] == Seq::new(row@.len(), |j: int| row@[j]@));
                }
            }
        }
        i += 1;
    }
    proof {
        assert(rows_view(r@) =~= dependency_rows(ms));
    }
    r
}

/// The total number of dependencies, saturated at `usize::MAX`.
fn total_deps_exec(manifests: &Vec<ManifestInfo>) -> (t: usize)
    ensures
        t == total_deps(manifests_view(manifests@)),
{
    let ghost ms = manifests_view(manifests@);
    let mut t: usize = 0;
    let mut i: usize = 0;
    proof {
        assert(ms.take(0) =~= Seq::<ManifestView>::empty());
    }
    while i < manifests.len()
        invariant
            i <= manifests@.len(),
            ms == manifests_view(manifests@),
            t == total_deps(ms.take(i as int)),
        decreases manifests@.len() - i,
    {
        proof {
            assert(ms.take(i + 1).drop_last() =~= ms.take(i as int));
            assert(ms.take(i + 1).last() == manifest_view(manifests@[i as int]));
            assert(dep_names(manifests@[i as int].dependencies@).len()
                == manifests@[i as int].dependencies@.len());
        }
        let n = manifests[i].dependencies.len();
        if t <= usize::MAX - n {
            t = t + n;
        } else {
            t = usize::MAX;
        }
        i += 1;
    }
    proof {
        assert(ms.take(manifests@.len() as int) =~= ms);
    }
    t
}

/// Every copyleft term of every declared license, with its manifest path.
fn copyleft_warnings_exec(manifests: &Vec<ManifestInfo>) -> (w: Vec<(String, String)>)
    ensures
        pairs_view(w@) == copyleft_warnings(manifests_view(manifests@)),
{
    let ghost ms = manifests_view(manifests@);
    let mut w: Vec<(String, String)> = Vec::new();
    let mut i: usize = 0;
    proof {
        assert(ms.take(0) =~= Seq::<ManifestView>::empty());
        assert(pairs_view(w@) =~= Seq::<(Seq<char>, Seq<char>)>::empty());
    }
    while i < manifests.len()
        invariant
            i <= manifests@.len(),
            ms == manifests_view(manifests@),
            pairs_view(w@) == copyleft_warnings(ms.take(i as int)),
        decreases manifests@.len() - i,
    {
        proof {
            assert(ms.take(i + 1).drop_last() =~= ms.take(i as int));
            assert(ms.take(i + 1).last() == manifest_view(manifests@[i as int]));
        }
        let m = &manifests[i];
        match &m.project_license {
            Some(l) => {
                let parts = license_terms_exec(l.as_str());
                push_copyleft(&mut w, &m.path, &parts);
            },
            None => {},
        }
        i += 1;
    }
    proof {
        assert(ms.take(manifests@.len() as int) =~= ms);
    }
    w
}

/// Some manifest's license is permissive in all its alternatives.
fn project_is_permissive_exec(manifests: &Vec<ManifestInfo>) -> (r: bool)
    ensures
        r == project_is_permissive(manifests_view(manifests@)),
{
    let ghost ms = manifests_view(manifests@);
    let mut i: usize = 0;
    while i < manifests.len()
        invariant
            i <= manifests@.len(),
            ms == manifests_view(manifests@),
            forall|k: int|
                0 <= k < i ==> !((#[trigger] ms[k]).1 is Some && all_permissive(ms[k].1->0)),
        decreases manifests@.len() - i,
    {
        match &manifests[i].project_license {
            Some(l) => {
                if all_permissive_exec(l.as_str()) {
                    assert(ms[i as int].1 is Some && all_permissive(ms[i as int].1->0));
                    return true;
                }
            },
            None => {},
        }
        assert(!(ms[i as int].1 is Some && all_permissive(ms[i as int].1->0)));
        i += 1;
    }
    false
}

/// The manifests that should declare a license and do not.
fn missing_license_exec(manifests: &Vec<ManifestInfo>) -> (r: Vec<Vec<char>>)
    ensures
        views(r@) == missing_license(manifests_view(manifests@)),
{
    let ghost ms = manifests_view(manifests@);
    let mut r: Vec<Vec<char>> = Vec::new();
    let mut i: usize = 0;
    proof {
        assert(ms.take(0) =~= Seq::<ManifestView>::empty());
        assert(views(r@) =~= Seq::<Seq<char>>::empty());
    }
    while i < manifests.len()
        invariant
            i <= manifests@.len(),
            ms == manifests_view(manifests@),
            views(r@) == missing_license(ms.take(i as int)),
        decreases manifests@.len() - i,
    {
        proof {
            assert(ms.take(i + 1).drop_last() =~= ms.take(i as int));
            assert(ms.take(i + 1).last() == manifest_view(manifests@[i as int]));
        }
        let m = &manifests[i];
        if m.project_license.is_none() {
            let p = chars_of(m.path.as_str());
            if ends_with_str(&p, "Cargo.toml") || ends_with_str(&p, "package.json") {
                push_vec(&mut r, p);
            }
        }
        i += 1;
    }
    proof {
        assert(ms.take(manifests@.len() as int) =~= ms);
    }
    r
}

pub open spec fn stats_lines(ms: Seq<ManifestView>, n_files: nat) -> Seq<Seq<char>> {
    seq![
        summary_stat_line("Manifests found"@, decimal(ms.len())),
        summary_stat_line("Total dependencies"@, decimal(total_deps(ms))),
        summary_stat_line("License files in repo"@, decimal(n_files)),
    ]
}

pub open spec fn project_lines(ms: Seq<ManifestView>) -> Seq<Seq<char>> {
    let rows = project_rows(ms);
    if rows.len() == 0 {
        Seq::empty()
    } else {
        seq![""@, "    \x1b[1mProject Licenses (SPDX):\x1b[0m"@] + table_lines_v(
            project_headers(),
            rows,
        )
    }
}

pub open spec fn copyleft_lines(ms: Seq<ManifestView>) -> Seq<Seq<char>> {
    let w = copyleft_warnings(ms);
    if w.len() > 0 {
        seq![""@, warning_line("Copyleft licenses detected:"@)] + Seq::new(
            w.len(),
            |i: int| "      \x1b[31m•\x1b[0m "@ + w[i].0 + ": "@ + w[i].1,
        )
    } else if project_is_permissive(ms) {
        seq![ok_line("No copyleft license conflicts — project uses permissive licensing"@)]
    } else {
        Seq::empty()
    }
}

pub open spec fn missing_lines(ms: Seq<ManifestView>) -> Seq<Seq<char>> {
    let m = missing_license(ms);
    if m.len() > 0 {
        seq![""@, warning_line("Missing license declaration in:"@)] + Seq::new(
            m.len(),
            |i: int| "      \x1b[33m•\x1b[0m "@ + m[i],
        )
    } else {
        Seq::empty()
    }
}

proof fn lemma_manifest_section(ms: Seq<ManifestView>, n_files: nat)
    ensures
        manifest_section(ms, n_files) == stats_lines(ms, n_files) + project_lines(ms)
            + copyleft_lines(ms) + missing_lines(ms),
{
}

fn print_two(o: &mut Output, a: &str, b: &str)
    ensures
        final(o)@ == write_lines(old(o)@, seq![a@, b@]),
{
    let ghost o0 = o@;
    crate::display::out(o, a);
    crate::display::out(o, b);
    proof {
        crate::display::lemma_write_lines_one(o0, a@);
        crate::display::lemma_write_lines_push(o0, seq![a@], b@);
        assert(seq![a@].push(b@) =~= seq![a@, b@]);
    }
}

fn print_stats(o: &mut Output, manifests: &Vec<ManifestInfo>, n_files: usize)
    ensures
        final(o)@ == write_lines(old(o)@, stats_lines(manifests_view(manifests@), n_files as nat)),
{
    let ghost o0 = o@;
    let n1 = decimal_exec(manifests.len());
    let n2 = decimal_exec(total_deps_exec(manifests));
    let n3 = decimal_exec(n_files);
    let mut ls: Vec<Vec<char>> = Vec::new();
    let mut l1: Vec<char> = Vec::new();
    extend_str(&mut l1, "    \x1b[1mManifests found:\x1b[0m ");
    extend(&mut l1, &n1);
    let mut l2: Vec<char> = Vec::new();
    extend_str(&mut l2, "    \x1b[1mTotal dependencies:\x1b[0m ");
    extend(&mut l2, &n2);
    let mut l3: Vec<char> = Vec::new();
    extend_str(&mut l3, "    \x1b[1mLicense files in repo:\x1b[0m ");
    extend(&mut l3, &n3);
    proof {
        reveal_strlit("    \x1b[1mManifests found:\x1b[0m ");
        reveal_strlit("    \x1b[1mTotal dependencies:\x1b[0m ");
        reveal_strlit("    \x1b[1mLicense files in repo:\x1b[0m ");
        reveal_strlit("    \x1b[1m");
        reveal_strlit(":\x1b[0m ");
        reveal_strlit("Manifests found");
        reveal_strlit("Total dependencies");
        reveal_strlit("License files in repo");
        assert(manifests_view(manifests@).len() == manifests@.len());
        assert(l1@ =~= summary_stat_line("Manifests found"@, decimal(manifests@.len() as nat)));
        assert(l2@ =~= summary_stat_line("Total dependencies"@, decimal(total_deps(manifests_view(manifests@)))));
        assert(l3@ =~= summary_stat_line("License files in repo"@, decimal(n_files as nat)));
    }
    push_vec(&mut ls, l1);
    push_vec(&mut ls, l2);
    push_vec(&mut ls, l3);
    out_all(o, &ls);
    proof {
        assert(views(ls@) =~= stats_lines(manifests_view(manifests@), n_files as nat));
    }
}

fn print_project(o: &mut Output, manifests: &Vec<ManifestInfo>, prows: &Vec<Vec<String>>)
    requires
        rows_view(prows@) == project_rows(manifests_view(manifests@)),
        cells_cuttable_v(project_rows(manifests_view(manifests@))),
    ensures
        final(o)@ == write_lines(old(o)@, project_lines(manifests_view(manifests@))),
{
    let ghost o0 = o@;
    let ghost ms = manifests_view(manifests@);
    if prows.len() > 0 {
        print_two(o, "", "    \x1b[1mProject Licenses (SPDX):\x1b[0m");
        let ghost o1 = o@;
        let h: Vec<&str> = vec!["Manifest", "SPDX License", "Category"];
        proof {
            assert(headers_view(h@) =~= project_headers());
        }
        print_table_rows_h(o, h.as_slice(), prows.as_slice());
        proof {
            let t = table_lines_v(project_headers(), project_rows(ms));
            lemma_write_lines_append(o0, seq![""@, "    \x1b[1mProject Licenses (SPDX):\x1b[0m"@], t);
        }
    } else {
        proof {
            assert(project_lines(ms) =~= Seq::<Seq<char>>::empty());
        }
    }
}

fn print_copyleft(o: &mut Output, manifests: &Vec<ManifestInfo>)
    ensures
        final(o)@ == write_lines(old(o)@, copyleft_lines(manifests_view(manifests@))),
{
    let ghost o0 = o@;
    let ghost ms = manifests_view(manifests@);
    let w = copyleft_warnings_exec(manifests);
    if w.len() > 0 {
        let ghost head = seq![""@, warning_line("Copyleft licenses detected:"@)];
        crate::display::out(o, "");
        crate::display::print_warning(o, "Copyleft licenses detected:");
        proof {
            crate::display::lemma_write_lines_one(o0, ""@);
            crate::display::lemma_write_lines_push(o0, seq![""@], warning_line("Copyleft licenses detected:"@));
            assert(seq![""@].push(warning_line("Copyleft licenses detected:"@)) =~= head);
        }
        let mut items: Vec<Vec<char>> = Vec::new();
        let mut k: usize = 0;
        while k < w.len()
            invariant
                k <= w@.len(),
                items@.len() == k,
                forall|j: int| 0 <= j < k ==> #[trigger] items@[j]@ == w@[j].0@ + ": "@ + w@[j].1@,
            decreases w@.len() - k,
        {
            let mut it = chars_of(w[k].0.as_str());
            extend_str(&mut it, ": ");
            extend_str(&mut it, w[k].1.as_str());
            items.push(it);
            k += 1;
        }
        crate::display::print_bullets(o, "      \x1b[31m•\x1b[0m ", &items);
        proof {
            let pv = pairs_view(w@);
            let b = Seq::new(items@.len(), |i: int| "      \x1b[31m•\x1b[0m "@ + items@[i]@);
            let c = Seq::new(pv.len(), |i: int| "      \x1b[31m•\x1b[0m "@ + pv[i].0 + ": "@ + pv[i].1);
            assert forall|i: int| 0 <= i < b.len() implies b[i] == c[i] by {
                assert(b[i] =~= c[i]);
            }
            assert(b =~= c);
            lemma_write_lines_append(o0, head, b);
        }
    } else if project_is_permissive_exec(manifests) {
        crate::display::print_ok(o, "No copyleft license conflicts — project uses permissive licensing");
        proof {
            crate::display::lemma_write_lines_one(o0, ok_line("No copyleft license conflicts — project uses permissive licensing"@));
        }
    } else {
        proof {
            assert(copyleft_lines(ms) =~= Seq::<Seq<char>>::empty());
        }
    }
}

fn print_missing(o: &mut Output, manifests: &Vec<ManifestInfo>)
    ensures
        final(o)@ == write_lines(old(o)@, missing_lines(manifests_view(manifests@))),
{
    let ghost o0 = o@;
    let ghost ms = manifests_view(manifests@);
    let m = missing_license_exec(manifests);
    if m.len() > 0 {
        let ghost head = seq![""@, warning_line("Missing license declaration in:"@)];
        crate::display::out(o, "");
        crate::display::print_warning(o, "Missing license declaration in:");
        proof {
            crate::display::lemma_write_lines_one(o0, ""@);
            crate::display::lemma_write_lines_push(o0, seq![""@], warning_line("Missing license declaration in:"@));
            assert(seq![""@].push(warning_line("Missing license declaration in:"@)) =~= head);
        }
        crate::display::print_bullets(o, "      \x1b[33m•\x1b[0m ", &m);
        proof {
            let b = Seq::new(m@.len(), |i: int| "      \x1b[33m•\x1b[0m "@ + m@[i]@);
            let mv = missing_license(ms);
            assert(b =~= Seq::new(mv.len(), |i: int| "      \x1b[33m•\x1b[0m "@ + mv[i]));
            lemma_write_lines_append(o0, head, b);
        }
    } else {
        proof {
            assert(missing_lines(ms) =~= Seq::<Seq<char>>::empty());
        }
    }
}

fn print_manifest_section(
    o: &mut Output,
    manifests: &Vec<ManifestInfo>,
    n_files: usize,
    prows: &Vec<Vec<String>>,
)
    requires
        rows_view(prows@) == project_rows(manifests_view(manifests@)),
        cells_cuttable_v(project_rows(manifests_view(manifests@))),
    ensures
        final(o)@ == write_lines(
            old(o)@,
            manifest_section(manifests_view(manifests@), n_files as nat),
        ),
{
    let ghost ms = manifests_view(manifests@);
    let ghost o0 = o@;
    print_stats(o, manifests, n_files);
    print_project(o, manifests, prows);
    proof {
        lemma_write_lines_append(o0, stats_lines(ms, n_files as nat), project_lines(ms));
    }
    print_copyleft(o, manifests);
    proof {
        lemma_write_lines_append(o0, stats_lines(ms, n_files as nat) + project_lines(ms), copyleft_lines(ms));
    }
    print_missing(o, manifests);
    proof {
        lemma_write_lines_append(o0, stats_lines(ms, n_files as nat) + project_lines(ms) + copyleft_lines(ms), missing_lines(ms));
        lemma_manifest_section(ms, n_files as nat);
    }
}

fn print_table_rows_h(o: &mut Output, headers: &[&str], rows: &[Vec<String>])
    requires
        cells_cuttable_v(rows_view(rows@)),
    ensures
        final(o)@ == write_lines(old(o)@, table_lines_v(headers_view(headers@), rows_view(rows@))),
{
    crate::display::print_table_rows(o, headers, rows);
}


/// The rows of the license file table.
fn license_rows_exec(entries: &Vec<TreeEntry>, idx: &Vec<usize>) -> (r: Vec<Vec<String>>)
    requires
        forall|k: int| 0 <= k < idx@.len() ==> #[trigger] idx@[k] < entries@.len(),
    ensures
        rows_view(r@) == license_file_rows(
            Seq::new(idx@.len(), |k: int| entries@[idx@[k] as int]),
        ),
{
    let ghost lfs = Seq::new(idx@.len(), |k: int| entries@[idx@[k] as int]);
    let mut r: Vec<Vec<String>> = Vec::new();
    let mut k: usize = 0;
    while k < idx.len()
        invariant
            k <= idx@.len(),
            forall|j: int| 0 <= j < idx@.len() ==> #[trigger] idx@[j] < entries@.len(),
            lfs == Seq::new(idx@.len(), |k: int| entries@[idx@[k] as int]),
            r@.len() == k,
            forall|j: int| 0 <= j < k ==> #[trigger] rows_view(r@)[j] == license_file_rows(lfs)[j],
        decreases idx@.len() - k,
    {
        let row = license_file_row_exec(&entries[idx[k]]);
        let ghost before = r@;
        r.push(row);
        proof {
            assert forall|j: int| 0 <= j < k + 1 implies #[trigger] rows_view(r@)[j]
                == license_file_rows(lfs)[j] by {
                if j < k {
                    assert(r@[j] == before[j]);
                    assert(rows_view(before)[j] == license_file_rows(lfs)[j]);
                    assert(rows_view(r@)[j] == rows_view(before)[j]);
                } else {
                    assert(r@[j] == row);
                }
            }
        }
        k += 1;
    }
    proof {
        assert(rows_view(r@) =~= license_file_rows(lfs));
    }
    r
}

/// Warns for each license file whose category is copyleft.
fn print_license_file_warnings(o: &mut Output, rows: &Vec<Vec<String>>)
    requires
        forall|i: int| 0 <= i < rows@.len() ==> #[trigger] rows@[i]@.len() == 5,
    ensures
        final(o)@ == write_lines(old(o)@, license_file_warnings(rows_view(rows@))),
{
    let ghost o0 = o@;
    let ghost rv = rows_view(rows@);
    let mut i: usize = 0;
    proof {
        assert(rv.take(0) =~= Seq::<Seq<Seq<char>>>::empty());
    }
    while i < rows.len()
        invariant
            i <= rows@.len(),
            rv == rows_view(rows@),
            forall|i: int| 0 <= i < rows@.len() ==> #[trigger] rows@[i]@.len() == 5,
            o@ == write_lines(o0, license_file_warnings(rv.take(i as int))),
        decreases rows@.len() - i,
    {
        proof {
            assert(rv.take(i + 1).drop_last() =~= rv.take(i as int));
            assert(rv.take(i + 1).last() == rv[i as int]);
        }
        let row = &rows[i];
        assert(row@.len() == 5);
        let cat = chars_of(row[3].as_str());
        let ghost acc = license_file_warnings(rv.take(i as int));
        if starts_with_str(&cat, "copyleft") {
            let mut msg: Vec<char> = chars_of(row[1].as_str());
            extend_str(&mut msg, "/");
            extend_str(&mut msg, row[0].as_str());
            extend_str(&mut msg, " is ");
            extend_str(&mut msg, row[2].as_str());
            extend_str(&mut msg, " (");
            extend_str(&mut msg, row[3].as_str());
            extend_str(&mut msg, ")");
            let ms = string_of(&msg);
            crate::display::print_warning(o, ms.as_str());
            proof {
                let r = rv[i as int];
                assert(msg@ =~= r[1] + "/"@ + r[0] + " is "@ + r[2] + " ("@ + r[3] + ")"@);
                crate::display::lemma_write_lines_push(o0, acc, warning_line(msg@));
            }
        }
        i += 1;
    }
    proof {
        assert(rv.take(rows@.len() as int) =~= rv);
    }
}

fn print_license_file_section(o: &mut Output, rows: &Vec<Vec<String>>, Ghost(lfs): Ghost<Seq<TreeEntry>>)
    requires
        rows_view(rows@) == license_file_rows(lfs),
        cells_cuttable_v(license_file_rows(lfs)),
    ensures
        final(o)@ == write_lines(old(o)@, license_file_section(lfs)),
{
    let ghost o0 = o@;
    if rows.len() == 0 {
        crate::display::out(o, "");
        crate::display::print_warning(o, "No LICENSE/COPYING file found in repository root");
        proof {
            crate::display::lemma_write_lines_one(o0, ""@);
            crate::display::lemma_write_lines_push(o0, seq![""@], warning_line("No LICENSE/COPYING file found in repository root"@));
            assert(seq![""@].push(warning_line("No LICENSE/COPYING file found in repository root"@)) =~= license_file_section(lfs));
        }
    } else {
        let ghost head = seq![""@, "    \x1b[1mLicense Files Detected:\x1b[0m"@];
        print_two(o, "", "    \x1b[1mLicense Files Detected:\x1b[0m");
        let h: Vec<&str> = vec!["File", "Location", "Detected License", "Category", "Confidence"];
        proof {
            assert(headers_view(h@) =~= license_file_headers());
        }
        print_table_rows_h(o, h.as_slice(), rows.as_slice());
        let ghost t = table_lines_v(license_file_headers(), license_file_rows(lfs));
        proof {
            lemma_write_lines_append(o0, head, t);
            assert forall|i: int| 0 <= i < rows@.len() implies #[trigger] rows@[i]@.len() == 5 by {
                assert(rows_view(rows@)[i].len() == rows@[i]@.len());
                assert(license_file_rows(lfs)[i] == license_file_row(lfs[i]));
            }
        }
        print_license_file_warnings(o, rows);
        proof {
            lemma_write_lines_append(o0, head + t, license_file_warnings(license_file_rows(lfs)));
        }
    }
}

fn print_dependency_section(o: &mut Output, manifests: &Vec<ManifestInfo>, drows: &Vec<Vec<String>>)
    requires
        rows_view(drows@) == dependency_rows(manifests_view(manifests@)),
        cells_cuttable_v(dependency_rows(manifests_view(manifests@))),
    ensures
        final(o)@ == write_lines(old(o)@, dependency_section(manifests_view(manifests@))),
{
    let ghost o0 = o@;
    print_two(o, "", "    \x1b[1mDependency Summary:\x1b[0m");
    let h: Vec<&str> = vec!["Manifest", "Dependencies", "License"];
    proof {
        assert(headers_view(h@) =~= dependency_headers());
    }
    print_table_rows_h(o, h.as_slice(), drows.as_slice());
    proof {
        lemma_write_lines_append(
            o0,
            seq![""@, "    \x1b[1mDependency Summary:\x1b[0m"@],
            table_lines_v(dependency_headers(), dependency_rows(manifests_view(manifests@))),
        );
    }
}

/// The license compliance findings on the files of the repository tree (as the
/// walk hands them over, in walk order), skipping `ignore_dirs`.
///
/// Returns `false`, writing nothing, when a table cell longer than 50 bytes
/// cannot be cut at byte 49 (where the report could not be printed).
pub fn license_report(o: &mut Output, entries: &Vec<TreeEntry>, ignore_dirs: &Vec<String>) -> (ok: bool)
    ensures
        ({
            let ms = scanned_manifests(entries@, strings_view(ignore_dirs@));
            let lfs = scanned_license_files(entries@, strings_view(ignore_dirs@));
            &&& ok == license_report_printable(ms, lfs)
            &&& ok ==> final(o)@ == write_lines(old(o)@, license_report_lines(ms, lfs))
            &&& !ok ==> final(o)@ == old(o)@
        }),
{
    let ghost o0 = o@;
    let ghost iv = strings_view(ignore_dirs@);
    let (manifests, idx) = collect_license_inputs(entries, ignore_dirs);
    let ghost ms = manifests_view(manifests@);
    let ghost lfs = scanned_license_files(entries@, iv);
    proof {
        assert(Seq::new(idx@.len(), |k: int| entries@[idx@[k] as int]) =~= lfs);
    }
    if manifests.len() == 0 {
        crate::display::print_info(o, "No dependency manifests found (Cargo.toml, package.json, go.mod)");
        proof {
            crate::display::lemma_write_lines_one(o0, info_line("No dependency manifests found (Cargo.toml, package.json, go.mod)"@));
        }
        return true;
    }
    let prows = project_rows_exec(&manifests);
    let lrows = license_rows_exec(entries, &idx);
    let drows = dependency_rows_exec(&manifests);
    let p1 = table_printable(prows.as_slice());
    let p2 = table_printable(lrows.as_slice());
    let p3 = table_printable(drows.as_slice());
    proof {
        crate::display::lemma_table_view(Seq::<&str>::empty(), prows@);
        crate::display::lemma_table_view(Seq::<&str>::empty(), lrows@);
        crate::display::lemma_table_view(Seq::<&str>::empty(), drows@);
    }
    if !(p1 && p2 && p3) {
        return false;
    }
    print_manifest_section(o, &manifests, idx.len(), &prows);
    let ghost a = manifest_section(ms, lfs.len());
    print_license_file_section(o, &lrows, Ghost(lfs));
    proof {
        lemma_write_lines_append(o0, a, license_file_section(lfs));
    }
    print_dependency_section(o, &manifests, &drows);
    proof {
        lemma_write_lines_append(o0, a + license_file_section(lfs), dependency_section(ms));
    }
    true
}

/// The license compliance scan: a sub-header, then the findings on the
/// tree's manifests and license files (see [`license_report`]).
pub fn license_scan(o: &mut Output, entries: &Vec<TreeEntry>, ignore_dirs: &Vec<String>) -> (ok: bool)
    ensures
        ({
            let h = write_lines(old(o)@, sub_header_lines("License Compliance"@));
            let ms = scanned_manifests(entries@, strings_view(ignore_dirs@));
            let lfs = scanned_license_files(entries@, strings_view(ignore_dirs@));
            &&& ok == license_report_printable(ms, lfs)
            &&& ok ==> final(o)@ == write_lines(h, license_report_lines(ms, lfs))
            &&& !ok ==> final(o)@ == h
        }),
{
    crate::display::print_sub_header(o, "License Compliance");
    license_report(o, entries, ignore_dirs)
}

} // verus!
