//! The security audit: secrets, dangerous code patterns, sensitive files and
//! hardcoded addresses in the tree; commits that touch sensitive files or
//! mention secrets; and whether `.gitignore` covers sensitive files.
use vstd::prelude::*;
use crate::display::{
    cells_cuttable_v, headers_view, info_line, ok_line, ok_line_exec, out_all, push_line,
    push_lines, rows_view, sub_header_lines, table_lines_exec, table_lines_v, table_printable,
    warning_line, warning_line_exec, write_lines, Output,
};
use crate::pattern::{regex_all_captures, regex_compiles, regex_is_match, Pattern};
use crate::sast::{has_extension, has_extension_exec};
use crate::text::{
    byte_prefix, byte_prefix_exec, chars_of, contains, contains_str, is_boundary, is_boundary_exec,
    starts_with, starts_with_str, trim, trim_exec, utf8_len, utf8_len_capped_exec, decimal, decimal_exec, extend, extend_str, lines, lines_of,
    lowercase, string_of, to_lower, views,
};
use crate::tree::{entry_path, is_skipped, skipped, strings_view, strs_view, BlobContent, TreeEntry};

verus! {

/// A finding at a line of a file: file, line number, what was found.
pub type Located = (Seq<char>, nat, Seq<char>);

/// A finding at a line of a file.
pub struct LocatedFinding {
    pub file: String,
    pub line: usize,
    pub label: String,
}

/// The views of findings.
pub open spec fn located_view(fs: Seq<LocatedFinding>) -> Seq<Located> {
    Seq::new(fs.len(), |i: int| (fs[i].file@, fs[i].line as nat, fs[i].label@))
}

/// At most the first `n` findings.
pub open spec fn first_located(fs: Seq<Located>, n: nat) -> Seq<Located> {
    if fs.len() <= n {
        fs
    } else {
        fs.take(n as int)
    }
}

/// Table rows of file, "L" and line number, and what was found.
pub open spec fn located_rows(fs: Seq<Located>) -> Seq<Seq<Seq<char>>> {
    Seq::new(fs.len(), |i: int| seq![fs[i].0, "L"@ + decimal(fs[i].1), fs[i].2])
}

/// The rows of the first `n` findings.
fn located_rows_exec(fs: &Vec<LocatedFinding>, n: usize) -> (r: Vec<Vec<String>>)
    ensures
        rows_view(r@) == located_rows(first_located(located_view(fs@), n as nat)),
{
    let ghost fv = located_view(fs@);
    let ghost shown = first_located(fv, n as nat);
    let m: usize = if fs.len() <= n { fs.len() } else { n };
    assert(shown.len() == m);
    let mut r: Vec<Vec<String>> = Vec::new();
    let mut i: usize = 0;
    while i < m
        invariant
            i <= m,
            m <= fs@.len(),
            fv == located_view(fs@),
            shown == first_located(fv, n as nat),
            shown.len() == m,
            r@.len() == i,
            forall|k: int| 0 <= k < i ==> #[trigger] rows_view(r@)[k] == located_rows(shown)[k],
        decreases m - i,
    {
        assert(shown[i as int] == fv[i as int]);
        let mut row: Vec<String> = Vec::new();
        row.push(fs[i].file.clone());
        let mut l: Vec<char> = Vec::new();
        l.push('L');
        extend(&mut l, &decimal_exec(fs[i].line));
        row.push(string_of(&l));
        row.push(fs[i].label.clone());
        let ghost before = r@;
        r.push(row);
        proof {
            reveal_strlit("L");
            assert(l@ =~= "L"@ + decimal(fs@[i as int].line as nat));
            assert forall|k: int| 0 <= k < i + 1 implies #[trigger] rows_view(r@)[k] == located_rows(shown)[k] by {
                if k < i {
                    assert(r@[k] == before[k]);
                    assert(rows_view(r@)[k] == rows_view(before)[k]);
                } else {
                    assert(rows_view(r@)[k] =~= located_rows(shown)[k]);
                }
            }
        }
        i += 1;
    }
    proof {
        assert(rows_view(r@) =~= located_rows(shown));
    }
    r
}

/// The lines reporting findings: a verdict, then a table of the first `n`.
pub open spec fn findings_report(
    fs: Seq<Located>,
    n: nat,
    none: Seq<char>,
    some: Seq<char>,
    headers: Seq<Seq<char>>,
) -> Seq<Seq<char>> {
    if fs.len() == 0 {
        seq![ok_line(none)]
    } else {
        seq![warning_line(some)] + table_lines_v(headers, located_rows(first_located(fs, n)))
    }
}

/// Writes a sub-header and the report on findings; `false`, writing
/// nothing, when the table cannot be printed.
fn write_findings_report(
    o: &mut Output,
    title: &str,
    fs: &Vec<LocatedFinding>,
    n: usize,
    none: &str,
    some: &Vec<char>,
    headers: &Vec<&str>,
) -> (ok: bool)
    ensures
        ok == cells_cuttable_v(located_rows(first_located(located_view(fs@), n as nat))),
        ok ==> final(o)@ == write_lines(
            old(o)@,
            sub_header_lines(title@) + findings_report(
                located_view(fs@),
                n as nat,
                none@,
                some@,
                headers_view(headers@),
            ),
        ),
        !ok ==> final(o)@ == old(o)@,
{
    let ghost o0 = o@;
    let rows = located_rows_exec(fs, n);
    let ok = table_printable(rows.as_slice());
    proof {
        crate::display::lemma_table_view(Seq::<&str>::empty(), rows@);
    }
    if !ok {
        return false;
    }
    let mut body: Vec<Vec<char>> = Vec::new();
    if fs.len() == 0 {
        push_line(&mut body, ok_line_exec(none));
    } else {
        push_line(&mut body, warning_line_exec(some));
        push_lines(&mut body, table_lines_exec(headers.as_slice(), rows.as_slice()));
    }
    proof {
        assert(views(body@) =~= findings_report(located_view(fs@), n as nat, none@, some@, headers_view(headers@)));
    }
    crate::display::print_sub_header(o, title);
    out_all(o, &body);
    proof {
        crate::display::lemma_write_lines_append(o0, sub_header_lines(title@), views(body@));
    }
    true
}

/// Adds findings with the given file and line for each label.
fn push_located(out: &mut Vec<LocatedFinding>, path: &Vec<char>, line: usize, labels: &Vec<String>)
    ensures
        located_view(final(out)@) == located_view(old(out)@) + Seq::new(
            labels@.len(),
            |k: int| (path@, line as nat, labels@[k]@),
        ),
{
    let ghost o0 = located_view(out@);
    let mut k: usize = 0;
    while k < labels.len()
        invariant
            k <= labels@.len(),
            o0 == located_view(old(out)@),
            located_view(out@) == o0 + Seq::new(k as nat, |m: int| (path@, line as nat, labels@[m]@)),
        decreases labels@.len() - k,
    {
        let ghost before = located_view(out@);
        out.push(LocatedFinding { file: string_of(path), line, label: labels[k].clone() });
        proof {
            assert(located_view(out@) =~= before.push((path@, line as nat, labels@[k as int]@)));
            assert(Seq::new((k + 1) as nat, |m: int| (path@, line as nat, labels@[m]@)) =~= Seq::new(
                k as nat,
                |m: int| (path@, line as nat, labels@[m]@),
            ).push((path@, line as nat, labels@[k as int]@)));
        }
        k += 1;
    }
    proof {
        assert(Seq::new(labels@.len(), |k: int| (path@, line as nat, labels@[k]@)) =~= Seq::new(
            k as nat,
            |m: int| (path@, line as nat, labels@[m]@),
        ));
    }
}

/// The names of the labelled patterns, among the first `n`, that match the line, in order.
pub open spec fn matching_labels(pats: Seq<(Seq<char>, Seq<char>)>, line: Seq<char>, n: int) -> Seq<Seq<char>>
    decreases n,
{
    if n <= 0 {
        Seq::empty()
    } else {
        let prev = matching_labels(pats, line, n - 1);
        if regex_is_match(pats[n - 1].1, line) {
            prev.push(pats[n - 1].0)
        } else {
            prev
        }
    }
}

/// Every pattern of the labelled patterns compiles.
pub open spec fn labelled_compile(pats: Seq<(Seq<char>, Seq<char>)>) -> bool {
    forall|i: int| 0 <= i < pats.len() ==> regex_compiles(#[trigger] pats[i].1)
}

/// Labelled patterns, compiled.
struct Labelled {
    labels: Vec<&'static str>,
    pats: Vec<Pattern>,
}

/// The texts of labelled patterns.
spec fn labelled_view(l: Labelled) -> Seq<(Seq<char>, Seq<char>)> {
    Seq::new(l.labels@.len(), |i: int| (l.labels@[i]@, l.pats@[i].source()))
}

fn compile_labelled(labels: Vec<&'static str>, srcs: Vec<&'static str>, Ghost(table): Ghost<Seq<(Seq<char>, Seq<char>)>>) -> (r: Option<Labelled>)
    requires
        labels@.len() == srcs@.len(),
        table == Seq::new(labels@.len(), |i: int| (labels@[i]@, srcs@[i]@)),
    ensures
        r is Some <==> labelled_compile(table),
        r matches Some(l) ==> labelled_view(l) == table && l.labels@.len() == l.pats@.len(),
{
    let mut pats: Vec<Pattern> = Vec::new();
    let mut i: usize = 0;
    while i < srcs.len()
        invariant
            i <= srcs@.len(),
            labels@.len() == srcs@.len(),
            table == Seq::new(labels@.len(), |i: int| (labels@[i]@, srcs@[i]@)),
            pats@.len() == i,
            forall|k: int| 0 <= k < i ==> (#[trigger] pats@[k]).source() == srcs@[k]@,
            forall|k: int| 0 <= k < i ==> regex_compiles(#[trigger] table[k].1),
        decreases srcs@.len() - i,
    {
        match Pattern::new(srcs[i]) {
            Some(p) => {
                pats.push(p);
            },
            None => {
                assert(table[i as int].1 == srcs@[i as int]@);
                return None;
            },
        }
        i += 1;
    }
    let l = Labelled { labels, pats };
    proof {
        assert(labelled_view(l) =~= table);
    }
    Some(l)
}

/// The labels of the patterns that match the line.
fn matching_labels_exec(l: &Labelled, line: &str) -> (r: Vec<String>)
    requires
        l.labels@.len() == l.pats@.len(),
    ensures
        crate::text::string_views(r@) == matching_labels(labelled_view(*l), line@, l.labels@.len() as int),
{
    let ghost lv = labelled_view(*l);
    let mut r: Vec<String> = Vec::new();
    let mut i: usize = 0;
    proof {
        assert(crate::text::string_views(r@) =~= Seq::<Seq<char>>::empty());
    }
    while i < l.pats.len()
        invariant
            i <= l.pats@.len(),
            l.labels@.len() == l.pats@.len(),
            lv == labelled_view(*l),
            crate::text::string_views(r@) == matching_labels(lv, line@, i as int),
        decreases l.pats@.len() - i,
    {
        assert(lv[i as int] == (l.labels@[i as int]@, l.pats@[i as int].source()));
        if l.pats[i].is_match(line) {
            let ghost before = crate::text::string_views(r@);
            r.push(l.labels[i].to_string());
            proof {
                assert(crate::text::string_views(r@) =~= before.push(lv[i as int].0));
            }
        }
        i += 1;
    }
    r
}

/// Directories the secret scan never looks into.
pub open spec fn secret_skip_dirs() -> Seq<Seq<char>> {
    seq!["vendor/"@, "node_modules/"@, ".git/"@, "target/"@, "dist/"@, "build/"@]
}

/// The file extensions the secret scan reads.
pub open spec fn secret_exts() -> Seq<Seq<char>> {
    seq![
        ".go"@, ".ts"@, ".tsx"@, ".js"@, ".json"@, ".yaml"@, ".yml"@, ".toml"@, ".py"@, ".rs"@, ".env"@,
        ".cfg"@, ".conf"@, ".ini"@,
    ]
}

/// The secret patterns: what each suggests, and the pattern.
pub open spec fn secret_patterns() -> Seq<(Seq<char>, Seq<char>)> {
    seq![
        (
            "API keys/tokens"@,
            r"(?i)(password|secret|api_key|apikey|access_token|private_key|SECRET_KEY|AWS_ACCESS|AKIA[0-9A-Z]{16})"@,
        ),
        ("Base64 blobs (potential embedded secrets)"@, r"[A-Za-z0-9+/]{40,}={0,2}"@),
    ]
}

/// A lower-cased line of test, mock, fixture or example code.
pub open spec fn is_sample_line(lower: Seq<char>) -> bool {
    contains(lower, "test"@) || contains(lower, "mock"@) || contains(lower, "fixture"@) || contains(lower, "example"@)
}

/// Findings for each label, at a line.
pub open spec fn at_line(path: Seq<char>, line: nat, labels: Seq<Seq<char>>) -> Seq<Located> {
    Seq::new(labels.len(), |k: int| (path, line, labels[k]))
}

/// The secret findings in the lines of a file.
pub open spec fn secret_file_findings(path: Seq<char>, ls: Seq<Seq<char>>) -> Seq<Located>
    decreases ls.len(),
{
    if ls.len() == 0 {
        Seq::empty()
    } else {
        let prev = secret_file_findings(path, ls.drop_last());
        if is_sample_line(lowercase(ls.last())) {
            prev
        } else {
            prev + at_line(path, ls.len(), matching_labels(secret_patterns(), ls.last(), 2))
        }
    }
}

/// The secret findings in the files of the tree, in walk order.
pub open spec fn secret_findings(entries: Seq<TreeEntry>, ignore: Seq<Seq<char>>) -> Seq<Located>
    decreases entries.len(),
{
    if entries.len() == 0 {
        Seq::empty()
    } else {
        let prev = secret_findings(entries.drop_last(), ignore);
        let e = entries.last();
        let p = entry_path(e);
        if !skipped(p, secret_skip_dirs(), ignore) && has_extension(p, secret_exts()) {
            match e.content {
                BlobContent::Text(c) => prev + secret_file_findings(p, lines(c@)),
                _ => prev,
            }
        } else {
            prev
        }
    }
}

/// The path of an entry, as characters.
fn path_of(e: &TreeEntry) -> (r: Vec<char>)
    ensures
        r@ == entry_path(*e),
{
    let mut path = chars_of(e.dir.as_str());
    extend_str(&mut path, e.name.as_str());
    path
}

/// Scan tracked files outside the skipped directories (the built-in ones and
/// `ignore_dirs`) for lines that may hold hardcoded secrets (lines of test,
/// mock, fixture or example code aside), and report the first 30.
///
/// Returns `false`, writing nothing, when a pattern does not compile or the
/// table cannot be printed (a cell longer than 50 bytes that cannot be cut at
/// byte 49).
pub fn scan_secrets(o: &mut Output, entries: &Vec<TreeEntry>, ignore_dirs: &Vec<String>) -> (ok: bool)
    ensures
        ok == (labelled_compile(secret_patterns()) && cells_cuttable_v(
            located_rows(first_located(secret_findings(entries@, strings_view(ignore_dirs@)), 30)),
        )),
        ok ==> final(o)@ == write_lines(
            old(o)@,
            sub_header_lines("Secrets & Credential Detection"@) + findings_report(
                secret_findings(entries@, strings_view(ignore_dirs@)),
                30,
                "No potential secrets detected in tracked files"@,
                "Found "@ + decimal(secret_findings(entries@, strings_view(ignore_dirs@)).len()) + " potential secret references:"@,
                seq!["File"@, "Line"@, "Pattern"@],
            ),
        ),
        !ok ==> final(o)@ == old(o)@,
{
    let labels: Vec<&'static str> = vec!["API keys/tokens", "Base64 blobs (potential embedded secrets)"];
    let srcs: Vec<&'static str> = vec![
        r"(?i)(password|secret|api_key|apikey|access_token|private_key|SECRET_KEY|AWS_ACCESS|AKIA[0-9A-Z]{16})",
        r"[A-Za-z0-9+/]{40,}={0,2}",
    ];
    proof {
        assert(Seq::new(labels@.len(), |i: int| (labels@[i]@, srcs@[i]@)) =~= secret_patterns());
    }
    let lab = match compile_labelled(labels, srcs, Ghost(secret_patterns())) {
        Some(l) => l,
        None => return false,
    };
    let defaults: Vec<&str> = vec!["vendor/", "node_modules/", ".git/", "target/", "dist/", "build/"];
    let exts: Vec<&'static str> = vec![
        ".go", ".ts", ".tsx", ".js", ".json", ".yaml", ".yml", ".toml", ".py", ".rs", ".env", ".cfg", ".conf", ".ini",
    ];
    proof {
        assert(strs_view(defaults@) =~= secret_skip_dirs());
        assert(strs_view(exts@) =~= secret_exts());
    }
    let mut fs: Vec<LocatedFinding> = Vec::new();
    let mut i: usize = 0;
    proof {
        assert(entries@.take(0) =~= Seq::<TreeEntry>::empty());
        assert(located_view(fs@) =~= Seq::<Located>::empty());
    }
    while i < entries.len()
        invariant
            i <= entries@.len(),
            labelled_view(lab) == secret_patterns(),
            lab.labels@.len() == lab.pats@.len(),
            strs_view(defaults@) == secret_skip_dirs(),
            strs_view(exts@) == secret_exts(),
            located_view(fs@) == secret_findings(entries@.take(i as int), strings_view(ignore_dirs@)),
        decreases entries@.len() - i,
    {
        let e = &entries[i];
        proof {
            assert(entries@.take(i + 1).drop_last() =~= entries@.take(i as int));
            assert(entries@.take(i + 1).last() == *e);
        }
        let path = path_of(e);
        if !is_skipped(&path, defaults.as_slice(), ignore_dirs.as_slice()) && has_extension_exec(&path, &exts) {
            match &e.content {
                BlobContent::Text(c) => {
                    let ls = lines_of(c.as_str());
                    let ghost lv = lines(c@);
                    let ghost base = located_view(fs@);
                    let mut j: usize = 0;
                    let n = ls.len();
                    proof {
                        assert(lv.take(0) =~= Seq::<Seq<char>>::empty());
                        assert(located_view(fs@) =~= base + secret_file_findings(path@, lv.take(0)));
                    }
                    while j < n
                        invariant
                            j <= n,
                            n == ls@.len(),
                            views(ls@) == lv,
                            labelled_view(lab) == secret_patterns(),
                            lab.labels@.len() == lab.pats@.len(),
                            located_view(fs@) == base + secret_file_findings(path@, lv.take(j as int)),
                        decreases n - j,
                    {
                        proof {
                            assert(lv.take(j + 1).drop_last() =~= lv.take(j as int));
                            assert(lv.take(j + 1).last() == ls@[j as int]@);
                        }
                        let text = string_of(&ls[j]);
                        let lower = to_lower(text.as_str());
                        let lc = chars_of(lower.as_str());
                        let sample = contains_str(&lc, "test") || contains_str(&lc, "mock") || contains_str(&lc, "fixture")
                            || contains_str(&lc, "example");
                        if !sample {
                            let names = matching_labels_exec(&lab, text.as_str());
                            let ghost before = located_view(fs@);
                            push_located(&mut fs, &path, j + 1, &names);
                            proof {
                                assert(labelled_view(lab).len() == lab.labels@.len());
                                assert(lab.labels@.len() == 2);
                                let ml = matching_labels(secret_patterns(), ls@[j as int]@, 2);
                                assert(crate::text::string_views(names@) == ml);
                                assert forall|k: int| 0 <= k < names@.len() implies #[trigger] names@[k]@ == ml[k] by {
                                    assert(crate::text::string_views(names@)[k] == names@[k]@);
                                }
                                assert(Seq::new(names@.len(), |k: int| (path@, (j + 1) as nat, names@[k]@)) =~= at_line(
                                    path@,
                                    (j + 1) as nat,
                                    matching_labels(secret_patterns(), ls@[j as int]@, 2),
                                ));
                            }
                        }
                        j += 1;
                    }
                    proof {
                        assert(lv.take(n as int) =~= lv);
                    }
                },
                _ => {},
            }
        }
        i += 1;
    }
    proof {
        assert(entries@.take(entries@.len() as int) =~= entries@);
    }
    let mut some: Vec<char> = Vec::new();
    extend_str(&mut some, "Found ");
    extend(&mut some, &decimal_exec(fs.len()));
    extend_str(&mut some, " potential secret references:");
    let h: Vec<&str> = vec!["File", "Line", "Pattern"];
    proof {
        assert(headers_view(h@) =~= seq!["File"@, "Line"@, "Pattern"@]);
    }
    write_findings_report(
        o,
        "Secrets & Credential Detection",
        &fs,
        30,
        "No potential secrets detected in tracked files",
        &some,
        &h,
    )
}

/// The dangerous code patterns: name, pattern, file extensions.
pub open spec fn danger_table() -> Seq<(Seq<char>, Seq<char>, Seq<Seq<char>>)> {
    seq![
        (
            "SQL injection risk"@,
            r#"(Exec|Raw|Query)\(.*fmt\.Sprintf|Exec\(.*\+.*\)|Raw\(.*\+.*\)"#@,
            seq![".go"@],
        ),
        (
            "Command injection"@,
            r"(exec\.Command|os\.system|subprocess|child_process)\("@,
            seq![".go"@, ".py"@, ".js"@, ".ts"@],
        ),
        (
            "Disabled TLS verification"@,
            r"(InsecureSkipVerify|NODE_TLS_REJECT_UNAUTHORIZED|verify=False|ssl_verify.*false)"@,
            seq![".go"@, ".py"@, ".js"@, ".ts"@, ".yaml"@, ".yml"@],
        ),
        ("Weak crypto usage"@, r"\b(md5|sha1|DES|RC4|Math\.random)\b"@, seq![".go"@, ".ts"@, ".js"@, ".rs"@]),
        (
            "CORS wildcard"@,
            r"(Access-Control-Allow-Origin.*\*|AllowAllOrigins|cors\.Default)"@,
            seq![".go"@, ".ts"@, ".js"@, ".rs"@, ".yaml"@],
        ),
        (
            "Debug/dev flags in production code"@,
            r"(?i)(DEBUG.*=.*true|SWAGGER_ENABLED|devMode|development.*true)"@,
            seq![".go"@, ".ts"@, ".yaml"@, ".yml"@, ".rs"@],
        ),
    ]
}

/// A dangerous code pattern.
pub struct DangerRule {
    pub name: &'static str,
    pub pattern: &'static str,
    pub extensions: Vec<&'static str>,
}

/// The texts of a dangerous code pattern.
pub open spec fn danger_view(r: DangerRule) -> (Seq<char>, Seq<char>, Seq<Seq<char>>) {
    (r.name@, r.pattern@, strs_view(r.extensions@))
}

fn danger_rules() -> (r: Vec<DangerRule>)
    ensures
        Seq::new(r@.len(), |i: int| danger_view(r@[i])) == danger_table(),
{
    let mut v: Vec<DangerRule> = Vec::new();
    v.push(DangerRule {
        name: "SQL injection risk",
        pattern: r#"(Exec|Raw|Query)\(.*fmt\.Sprintf|Exec\(.*\+.*\)|Raw\(.*\+.*\)"#,
        extensions: vec![".go"],
    });
    v.push(DangerRule {
        name: "Command injection",
        pattern: r"(exec\.Command|os\.system|subprocess|child_process)\(",
        extensions: vec![".go", ".py", ".js", ".ts"],
    });
    v.push(DangerRule {
        name: "Disabled TLS verification",
        pattern: r"(InsecureSkipVerify|NODE_TLS_REJECT_UNAUTHORIZED|verify=False|ssl_verify.*false)",
        extensions: vec![".go", ".py", ".js", ".ts", ".yaml", ".yml"],
    });
    v.push(DangerRule {
        name: "Weak crypto usage",
        pattern: r"\b(md5|sha1|DES|RC4|Math\.random)\b",
        extensions: vec![".go", ".ts", ".js", ".rs"],
    });
    v.push(DangerRule {
        name: "CORS wildcard",
        pattern: r"(Access-Control-Allow-Origin.*\*|AllowAllOrigins|cors\.Default)",
        extensions: vec![".go", ".ts", ".js", ".rs", ".yaml"],
    });
    v.push(DangerRule {
        name: "Debug/dev flags in production code",
        pattern: r"(?i)(DEBUG.*=.*true|SWAGGER_ENABLED|devMode|development.*true)",
        extensions: vec![".go", ".ts", ".yaml", ".yml", ".rs"],
    });
    proof {
        assert(Seq::new(v@.len(), |i: int| danger_view(v@[i])) =~~= danger_table());
    }
    v
}

/// Directories the dangerous pattern scan never looks into.
pub open spec fn danger_skip_dirs() -> Seq<Seq<char>> {
    seq!["vendor/"@, "node_modules/"@, ".git/"@, "target/"@, "dist/"@, "build/"@]
}

/// A test file's path for the dangerous pattern scan: "_test.", ".test." or "/test/".
pub open spec fn is_danger_test_path(p: Seq<char>) -> bool {
    contains(p, "_test."@) || contains(p, ".test."@) || contains(p, "/test/"@)
}

/// The 1-based numbers of the lines the pattern matches.
pub open spec fn matching_lines(pat: Seq<char>, ls: Seq<Seq<char>>) -> Seq<nat>
    decreases ls.len(),
{
    if ls.len() == 0 {
        Seq::empty()
    } else {
        let prev = matching_lines(pat, ls.drop_last());
        if regex_is_match(pat, ls.last()) {
            prev.push(ls.len())
        } else {
            prev
        }
    }
}

/// The findings of the first `n` dangerous patterns in a file, pattern by pattern.
pub open spec fn danger_file_findings(rules: Seq<(Seq<char>, Seq<char>, Seq<Seq<char>>)>, path: Seq<char>, ls: Seq<Seq<char>>, n: int) -> Seq<Located>
    decreases n,
{
    if n <= 0 {
        Seq::empty()
    } else {
        let prev = danger_file_findings(rules, path, ls, n - 1);
        let r = rules[n - 1];
        if has_extension(path, r.2) {
            let ml = matching_lines(r.1, ls);
            prev + Seq::new(ml.len(), |k: int| (path, ml[k], r.0))
        } else {
            prev
        }
    }
}

/// The dangerous pattern findings in the files of the tree, in walk order.
pub open spec fn danger_findings(entries: Seq<TreeEntry>, ignore: Seq<Seq<char>>) -> Seq<Located>
    decreases entries.len(),
{
    if entries.len() == 0 {
        Seq::empty()
    } else {
        let prev = danger_findings(entries.drop_last(), ignore);
        let e = entries.last();
        let p = entry_path(e);
        if !skipped(p, danger_skip_dirs(), ignore) && !is_danger_test_path(p) {
            match e.content {
                BlobContent::Text(c) => prev + danger_file_findings(danger_table(), p, lines(c@), 6),
                _ => prev,
            }
        } else {
            prev
        }
    }
}

/// Every dangerous pattern compiles.
pub open spec fn danger_compile() -> bool {
    forall|i: int| 0 <= i < danger_table().len() ==> regex_compiles(#[trigger] danger_table()[i].1)
}

/// Adds the findings of one pattern over the lines of a file.
fn push_matching_lines(out: &mut Vec<LocatedFinding>, pat: &Pattern, ls: &Vec<Vec<char>>, path: &Vec<char>, name: &str)
    ensures
        located_view(final(out)@) == located_view(old(out)@) + Seq::new(
            matching_lines(pat.source(), views(ls@)).len(),
            |k: int| (path@, matching_lines(pat.source(), views(ls@))[k], name@),
        ),
{
    let ghost lv = views(ls@);
    let ghost o0 = located_view(out@);
    let ghost p = pat.source();
    let n = ls.len();
    let mut j: usize = 0;
    proof {
        assert(lv.take(0) =~= Seq::<Seq<char>>::empty());
        assert(located_view(out@) =~= o0 + Seq::new(
            matching_lines(p, lv.take(0)).len(),
            |k: int| (path@, matching_lines(p, lv.take(0))[k], name@),
        ));
    }
    while j < n
        invariant
            j <= n,
            n == ls@.len(),
            lv == views(ls@),
            p == pat.source(),
            o0 == located_view(old(out)@),
            located_view(out@) == o0 + Seq::new(
                matching_lines(p, lv.take(j as int)).len(),
                |k: int| (path@, matching_lines(p, lv.take(j as int))[k], name@),
            ),
        decreases n - j,
    {
        proof {
            assert(lv.take(j + 1).drop_last() =~= lv.take(j as int));
            assert(lv.take(j + 1).last() == ls@[j as int]@);
        }
        let text = string_of(&ls[j]);
        if pat.is_match(text.as_str()) {
            let ghost before = located_view(out@);
            out.push(LocatedFinding { file: string_of(path), line: j + 1, label: name.to_string() });
            proof {
                let ml = matching_lines(p, lv.take(j + 1));
                assert(ml == matching_lines(p, lv.take(j as int)).push((j + 1) as nat));
                assert(located_view(out@) =~= before.push((path@, (j + 1) as nat, name@)));
                assert(located_view(out@) =~= o0 + Seq::new(ml.len(), |k: int| (path@, ml[k], name@)));
            }
        } else {
            proof {
                assert(matching_lines(p, lv.take(j + 1)) == matching_lines(p, lv.take(j as int)));
            }
        }
        j += 1;
    }
    proof {
        assert(lv.take(n as int) =~= lv);
    }
}

/// Check the tree's source files (test files and the skipped directories,
/// built-in and `ignore_dirs`, aside) for dangerous code patterns, pattern
/// by pattern, and report the first 30 findings.
///
/// Returns `false`, writing nothing, when a pattern does not compile or the
/// table cannot be printed (a cell longer than 50 bytes that cannot be cut at
/// byte 49).
pub fn dangerous_patterns(o: &mut Output, entries: &Vec<TreeEntry>, ignore_dirs: &Vec<String>) -> (ok: bool)
    ensures
        ok == (danger_compile() && cells_cuttable_v(located_rows(first_located(danger_findings(entries@, strings_view(ignore_dirs@)), 30)))),
        ok ==> final(o)@ == write_lines(
            old(o)@,
            sub_header_lines("Dangerous Code Patterns"@) + findings_report(
                danger_findings(entries@, strings_view(ignore_dirs@)),
                30,
                "No dangerous code patterns detected"@,
                decimal(danger_findings(entries@, strings_view(ignore_dirs@)).len()) + " dangerous patterns found:"@,
                seq!["File"@, "Line"@, "Issue"@],
            ),
        ),
        !ok ==> final(o)@ == old(o)@,
{
    let ghost table = danger_table();
    let rules = danger_rules();
    let mut pats: Vec<Pattern> = Vec::new();
    let mut q: usize = 0;
    while q < rules.len()
        invariant
            q <= rules@.len(),
            table == danger_table(),
            Seq::new(rules@.len(), |i: int| danger_view(rules@[i])) == table,
            pats@.len() == q,
            forall|i: int| 0 <= i < q ==> (#[trigger] pats@[i]).source() == rules@[i].pattern@,
            forall|i: int| 0 <= i < q ==> regex_compiles(#[trigger] table[i].1),
        decreases rules@.len() - q,
    {
        assert(danger_view(rules@[q as int]) == table[q as int]);
        match Pattern::new(rules[q].pattern) {
            Some(p) => {
                pats.push(p);
            },
            None => {
                assert(!regex_compiles(table[q as int].1));
                return false;
            },
        }
        q += 1;
    }
    let defaults: Vec<&str> = vec!["vendor/", "node_modules/", ".git/", "target/", "dist/", "build/"];
    proof {
        assert(strs_view(defaults@) =~= danger_skip_dirs());
    }
    let mut fs: Vec<LocatedFinding> = Vec::new();
    let mut i: usize = 0;
    proof {
        assert(entries@.take(0) =~= Seq::<TreeEntry>::empty());
        assert(located_view(fs@) =~= Seq::<Located>::empty());
    }
    while i < entries.len()
        invariant
            i <= entries@.len(),
            table == danger_table(),
            danger_compile(),
            Seq::new(rules@.len(), |i: int| danger_view(rules@[i])) == table,
            pats@.len() == rules@.len(),
            forall|i: int| 0 <= i < pats@.len() ==> (#[trigger] pats@[i]).source() == rules@[i].pattern@,
            strs_view(defaults@) == danger_skip_dirs(),
            located_view(fs@) == danger_findings(entries@.take(i as int), strings_view(ignore_dirs@)),
        decreases entries@.len() - i,
    {
        let e = &entries[i];
        proof {
            assert(entries@.take(i + 1).drop_last() =~= entries@.take(i as int));
            assert(entries@.take(i + 1).last() == *e);
        }
        let path = path_of(e);
        let test = contains_str(&path, "_test.") || contains_str(&path, ".test.") || contains_str(&path, "/test/");
        if !is_skipped(&path, defaults.as_slice(), ignore_dirs.as_slice()) && !test {
            match &e.content {
                BlobContent::Text(c) => {
                    let ls = lines_of(c.as_str());
                    let ghost lv = lines(c@);
                    let ghost base = located_view(fs@);
                    let mut k: usize = 0;
                    while k < rules.len()
                        invariant
                            k <= rules@.len(),
                            table == danger_table(),
                            Seq::new(rules@.len(), |i: int| danger_view(rules@[i])) == table,
                            pats@.len() == rules@.len(),
                            forall|i: int| 0 <= i < pats@.len() ==> (#[trigger] pats@[i]).source() == rules@[i].pattern@,
                            views(ls@) == lv,
                            located_view(fs@) == base + danger_file_findings(table, path@, lv, k as int),
                        decreases rules@.len() - k,
                    {
                        assert(danger_view(rules@[k as int]) == table[k as int]);
                        if has_extension_exec(&path, &rules[k].extensions) {
                            let ghost before = located_view(fs@);
                            push_matching_lines(&mut fs, &pats[k], &ls, &path, rules[k].name);
                            proof {
                                assert(located_view(fs@) =~= base + danger_file_findings(table, path@, lv, k + 1));
                            }
                        }
                        k += 1;
                    }
                    proof {
                        assert(Seq::new(rules@.len(), |i: int| danger_view(rules@[i])).len() == rules@.len());
                        assert(table.len() == 6);
                        assert(rules@.len() == 6);
                    }
                },
                _ => {},
            }
        }
        i += 1;
    }
    proof {
        assert(entries@.take(entries@.len() as int) =~= entries@);
    }
    let mut some = decimal_exec(fs.len());
    extend_str(&mut some, " dangerous patterns found:");
    let h: Vec<&str> = vec!["File", "Line", "Issue"];
    proof {
        assert(headers_view(h@) =~= seq!["File"@, "Line"@, "Issue"@]);
    }
    write_findings_report(o, "Dangerous Code Patterns", &fs, 30, "No dangerous code patterns detected", &some, &h)
}

/// The pattern of a sensitive file's path.
pub open spec fn sensitive_pattern() -> Seq<char> {
    r"(?i)(\.env$|\.env\.|secret|credential|\.key$|\.pem$|\.p12$|\.pfx$|\.jks$|\.keystore$|\.credentials|token)"@
}

/// Directories the sensitive-file check never looks into.
pub open spec fn sensitive_skip_dirs() -> Seq<Seq<char>> {
    seq!["vendor/"@, "node_modules/"@, ".git/"@, "target/"@, "dist/"@, "build/"@]
}

/// The paths of sensitive files in the tree (skipped directories aside), in
/// walk order.
pub open spec fn sensitive_paths(entries: Seq<TreeEntry>, ignore: Seq<Seq<char>>) -> Seq<Seq<char>>
    decreases entries.len(),
{
    if entries.len() == 0 {
        Seq::empty()
    } else {
        let prev = sensitive_paths(entries.drop_last(), ignore);
        let p = entry_path(entries.last());
        if !skipped(p, sensitive_skip_dirs(), ignore) && regex_is_match(sensitive_pattern(), p) {
            prev.push(p)
        } else {
            prev
        }
    }
}

/// The report on sensitive files.
pub open spec fn sensitive_report(ps: Seq<Seq<char>>) -> Seq<Seq<char>> {
    sub_header_lines("Sensitive Files in Repository"@) + if ps.len() == 0 {
        seq![ok_line("No sensitive files found in tracked tree"@)]
    } else {
        seq![warning_line(decimal(ps.len()) + " potentially sensitive files tracked:"@)] + Seq::new(
            ps.len(),
            |i: int| "      \x1b[31m•\x1b[0m "@ + ps[i],
        )
    }
}

/// Check for sensitive files that shouldn't be tracked, outside the skipped
/// directories (the built-in ones and `ignore_dirs`).
///
/// Returns `false`, writing nothing, when the pattern does not compile.
pub fn sensitive_files(o: &mut Output, entries: &Vec<TreeEntry>, ignore_dirs: &Vec<String>) -> (ok: bool)
    ensures
        ok == regex_compiles(sensitive_pattern()),
        ok ==> final(o)@ == write_lines(old(o)@, sensitive_report(sensitive_paths(entries@, strings_view(ignore_dirs@)))),
        !ok ==> final(o)@ == old(o)@,
{
    let ghost o0 = o@;
    let pat = match Pattern::new(
        r"(?i)(\.env$|\.env\.|secret|credential|\.key$|\.pem$|\.p12$|\.pfx$|\.jks$|\.keystore$|\.credentials|token)",
    ) {
        Some(p) => p,
        None => return false,
    };
    let defaults: Vec<&str> = vec!["vendor/", "node_modules/", ".git/", "target/", "dist/", "build/"];
    let mut found: Vec<Vec<char>> = Vec::new();
    let mut i: usize = 0;
    proof {
        assert(strs_view(defaults@) =~= sensitive_skip_dirs());
        assert(entries@.take(0) =~= Seq::<TreeEntry>::empty());
        assert(views(found@) =~= Seq::<Seq<char>>::empty());
    }
    while i < entries.len()
        invariant
            i <= entries@.len(),
            strs_view(defaults@) == sensitive_skip_dirs(),
            pat.source() == sensitive_pattern(),
            views(found@) == sensitive_paths(entries@.take(i as int), strings_view(ignore_dirs@)),
        decreases entries@.len() - i,
    {
        let e = &entries[i];
        proof {
            assert(entries@.take(i + 1).drop_last() =~= entries@.take(i as int));
            assert(entries@.take(i + 1).last() == *e);
        }
        let path = path_of(e);
        if !is_skipped(&path, defaults.as_slice(), ignore_dirs.as_slice()) {
            let text = string_of(&path);
            if pat.is_match(text.as_str()) {
                push_line(&mut found, path);
            }
        }
        i += 1;
    }
    proof {
        assert(entries@.take(entries@.len() as int) =~= entries@);
    }
    let ghost ps = views(found@);
    let mut body: Vec<Vec<char>> = Vec::new();
    if found.len() == 0 {
        push_line(&mut body, ok_line_exec("No sensitive files found in tracked tree"));
    } else {
        let mut m = decimal_exec(found.len());
        extend_str(&mut m, " potentially sensitive files tracked:");
        push_line(&mut body, warning_line_exec(&m));
        let mut k: usize = 0;
        let ghost head = views(body@);
        while k < found.len()
            invariant
                k <= found@.len(),
                ps == views(found@),
                views(body@) == head + Seq::new(k as nat, |i: int| "      \x1b[31m•\x1b[0m "@ + ps[i]),
            decreases found@.len() - k,
        {
            let mut l: Vec<char> = Vec::new();
            extend_str(&mut l, "      \x1b[31m•\x1b[0m ");
            extend(&mut l, &found[k]);
            let ghost before = views(body@);
            push_line(&mut body, l);
            proof {
                assert(Seq::new((k + 1) as nat, |i: int| "      \x1b[31m•\x1b[0m "@ + ps[i]) =~= Seq::new(
                    k as nat,
                    |i: int| "      \x1b[31m•\x1b[0m "@ + ps[i],
                ).push("      \x1b[31m•\x1b[0m "@ + ps[k as int]));
            }
            k += 1;
        }
    }
    proof {
        assert(sub_header_lines("Sensitive Files in Repository"@) + views(body@) =~= sensitive_report(ps));
    }
    crate::display::print_sub_header(o, "Sensitive Files in Repository");
    out_all(o, &body);
    proof {
        crate::display::lemma_write_lines_append(o0, sub_header_lines("Sensitive Files in Repository"@), views(body@));
    }
    true
}

/// The patterns a `.gitignore` should hold.
pub open spec fn required_ignores() -> Seq<Seq<char>> {
    seq![".env"@, "*.key"@, "*.pem"@, "*.p12"@, ".credentials"@, "*.secret"@]
}

/// The report on `.gitignore` coverage (`None`: there is no `.gitignore`).
pub open spec fn gitignore_report(content: Option<Seq<char>>) -> Seq<Seq<char>> {
    sub_header_lines(".gitignore Coverage Check"@) + match content {
        None => seq![warning_line("No .gitignore file found!"@)],
        Some(c) => Seq::new(
            6,
            |i: int|
                if contains(c, required_ignores()[i]) {
                    ok_line(required_ignores()[i] + " is ignored"@)
                } else {
                    warning_line(required_ignores()[i] + " is NOT in .gitignore"@)
                },
        ),
    }
}

/// Check `.gitignore` (its text; `None` when the repository has none) for
/// the patterns that keep sensitive files out.
pub fn gitignore_coverage(o: &mut Output, content: &Option<String>)
    ensures
        final(o)@ == write_lines(old(o)@, gitignore_report(crate::text::opt_view(*content))),
{
    let ghost o0 = o@;
    let mut body: Vec<Vec<char>> = Vec::new();
    match content {
        None => {
            push_line(&mut body, warning_line_exec(&chars_of("No .gitignore file found!")));
        },
        Some(c) => {
            let cc = chars_of(c.as_str());
            let pats: Vec<&str> = vec![".env", "*.key", "*.pem", "*.p12", ".credentials", "*.secret"];
            proof {
                assert(strs_view(pats@) =~= required_ignores());
            }
            let mut k: usize = 0;
            while k < pats.len()
                invariant
                    k <= pats@.len(),
                    pats@.len() == 6,
                    strs_view(pats@) == required_ignores(),
                    cc@ == c@,
                    views(body@).len() == k,
                    forall|i: int| 0 <= i < k ==> #[trigger] views(body@)[i] == (if contains(c@, required_ignores()[i]) {
                        ok_line(required_ignores()[i] + " is ignored"@)
                    } else {
                        warning_line(required_ignores()[i] + " is NOT in .gitignore"@)
                    }),
                decreases pats@.len() - k,
            {
                assert(required_ignores()[k as int] == pats@[k as int]@);
                let mut m: Vec<char> = chars_of(pats[k]);
                let l = if contains_str(&cc, pats[k]) {
                    extend_str(&mut m, " is ignored");
                    crate::complexity::ok_line_chars(&m)
                } else {
                    extend_str(&mut m, " is NOT in .gitignore");
                    warning_line_exec(&m)
                };
                let ghost before = body@;
                push_line(&mut body, l);
                proof {
                    assert forall|i: int| 0 <= i < k + 1 implies #[trigger] views(body@)[i] == (if contains(
                        c@,
                        required_ignores()[i],
                    ) {
                        ok_line(required_ignores()[i] + " is ignored"@)
                    } else {
                        warning_line(required_ignores()[i] + " is NOT in .gitignore"@)
                    }) by {
                        if i < k {
                            assert(views(body@)[i] == views(before)[i]);
                        }
                    }
                }
                k += 1;
            }
        },
    }
    proof {
        assert(sub_header_lines(".gitignore Coverage Check"@) + views(body@) =~= gitignore_report(
            crate::text::opt_view(*content),
        ));
    }
    crate::display::print_sub_header(o, ".gitignore Coverage Check");
    out_all(o, &body);
    proof {
        crate::display::lemma_write_lines_append(o0, sub_header_lines(".gitignore Coverage Check"@), views(body@));
    }
}

/// The pattern of an IPv4 address.
pub open spec fn ip_pattern() -> Seq<char> {
    r"(\d{1,3}\.\d{1,3}\.\d{1,3}\.\d{1,3})"@
}

/// The file extensions the address scan reads.
pub open spec fn ip_exts() -> Seq<Seq<char>> {
    seq![".go"@, ".ts"@, ".tsx"@, ".js"@, ".yaml"@, ".yml"@, ".toml"@, ".rs"@, ".py"@]
}

/// Addresses that are never reported.
pub open spec fn safe_ips() -> Seq<Seq<char>> {
    seq!["127.0.0.1"@, "0.0.0.0"@, "255.255.255.0"@, "255.255.255.255"@]
}

/// A line the address scan passes over: an example, a test, or a comment about localhost.
pub open spec fn skips_ip_line(l: Seq<char>) -> bool {
    contains(l, "example"@) || contains(l, "test"@) || (contains(l, "//"@) && contains(l, "localhost"@))
}

/// Every match took part with its group.
pub open spec fn all_captured(caps: Seq<Option<Seq<char>>>) -> bool {
    forall|i: int| 0 <= i < caps.len() ==> (#[trigger] caps[i]) is Some
}

/// The captured addresses that are not safe, in order.
pub open spec fn unsafe_ips(caps: Seq<Option<Seq<char>>>) -> Seq<Seq<char>>
    decreases caps.len(),
{
    if caps.len() == 0 {
        Seq::empty()
    } else {
        let prev = unsafe_ips(caps.drop_last());
        match caps.last() {
            Some(ip) => if safe_ips().contains(ip) {
                prev
            } else {
                prev.push(ip)
            },
            None => prev,
        }
    }
}

/// The hardcoded addresses in the lines of a file; `None` when a match has no group.
pub open spec fn ip_file_findings(path: Seq<char>, ls: Seq<Seq<char>>) -> Option<Seq<Located>>
    decreases ls.len(),
{
    if ls.len() == 0 {
        Some(Seq::empty())
    } else {
        match ip_file_findings(path, ls.drop_last()) {
            None => None,
            Some(prev) => {
                let l = ls.last();
                if skips_ip_line(l) {
                    Some(prev)
                } else {
                    let caps = regex_all_captures(ip_pattern(), l, 1);
                    if all_captured(caps) {
                        Some(prev + at_line(path, ls.len(), unsafe_ips(caps)))
                    } else {
                        None
                    }
                }
            },
        }
    }
}

/// The hardcoded addresses in the files of the tree, in walk order; `None`
/// when a match has no group.
pub open spec fn ip_findings(entries: Seq<TreeEntry>, ignore: Seq<Seq<char>>) -> Option<Seq<Located>>
    decreases entries.len(),
{
    if entries.len() == 0 {
        Some(Seq::empty())
    } else {
        match ip_findings(entries.drop_last(), ignore) {
            None => None,
            Some(prev) => {
                let e = entries.last();
                let p = entry_path(e);
                if !skipped(p, danger_skip_dirs(), ignore) && has_extension(p, ip_exts()) {
                    match e.content {
                        BlobContent::Text(c) => match ip_file_findings(p, lines(c@)) {
                            Some(f) => Some(prev + f),
                            None => None,
                        },
                        _ => Some(prev),
                    }
                } else {
                    Some(prev)
                }
            },
        }
    }
}

proof fn lemma_ip_findings_none(entries: Seq<TreeEntry>, ignore: Seq<Seq<char>>, i: int)
    requires
        0 <= i <= entries.len(),
        ip_findings(entries.take(i), ignore) is None,
    ensures
        ip_findings(entries, ignore) is None,
    decreases entries.len() - i,
{
    if i < entries.len() {
        assert(entries.take(i + 1).drop_last() =~= entries.take(i));
        lemma_ip_findings_none(entries, ignore, i + 1);
    } else {
        assert(entries.take(i) =~= entries);
    }
}

proof fn lemma_ip_file_none(path: Seq<char>, ls: Seq<Seq<char>>, i: int)
    requires
        0 <= i <= ls.len(),
        ip_file_findings(path, ls.take(i)) is None,
    ensures
        ip_file_findings(path, ls) is None,
    decreases ls.len() - i,
{
    if i < ls.len() {
        assert(ls.take(i + 1).drop_last() =~= ls.take(i));
        lemma_ip_file_none(path, ls, i + 1);
    } else {
        assert(ls.take(i) =~= ls);
    }
}

fn is_safe_ip(ip: &str) -> (r: bool)
    ensures
        r == safe_ips().contains(ip@),
{
    let c = chars_of(ip);
    let r = crate::text::eq_str(&c, "127.0.0.1") || crate::text::eq_str(&c, "0.0.0.0") || crate::text::eq_str(
        &c,
        "255.255.255.0",
    ) || crate::text::eq_str(&c, "255.255.255.255");
    proof {
        if r {
            if c@ == "127.0.0.1"@ {
                assert(safe_ips()[0] == ip@);
            } else if c@ == "0.0.0.0"@ {
                assert(safe_ips()[1] == ip@);
            } else if c@ == "255.255.255.0"@ {
                assert(safe_ips()[2] == ip@);
            } else {
                assert(safe_ips()[3] == ip@);
            }
        } else {
            assert forall|i: int| 0 <= i < 4 implies safe_ips()[i] != ip@ by {}
        }
    }
    r
}

/// The unsafe addresses of a line's captures; `None` when one has no group.
fn unsafe_ips_exec(caps: &Vec<Option<String>>, Ghost(spec_caps): Ghost<Seq<Option<Seq<char>>>>) -> (r: Option<Vec<String>>)
    requires
        caps@.len() == spec_caps.len(),
        forall|i: int| 0 <= i < caps@.len() ==> (#[trigger] caps@[i] is None <==> spec_caps[i] is None),
        forall|i: int| 0 <= i < caps@.len() ==> (#[trigger] caps@[i] matches Some(s) ==> spec_caps[i] == Some(s@)),
    ensures
        r is Some <==> all_captured(spec_caps),
        r matches Some(v) ==> crate::text::string_views(v@) == unsafe_ips(spec_caps),
{
    let mut r: Vec<String> = Vec::new();
    let mut i: usize = 0;
    proof {
        assert(spec_caps.take(0) =~= Seq::<Option<Seq<char>>>::empty());
        assert(crate::text::string_views(r@) =~= Seq::<Seq<char>>::empty());
    }
    while i < caps.len()
        invariant
            i <= caps@.len(),
            caps@.len() == spec_caps.len(),
            forall|i: int| 0 <= i < caps@.len() ==> (#[trigger] caps@[i] is None <==> spec_caps[i] is None),
            forall|i: int| 0 <= i < caps@.len() ==> (#[trigger] caps@[i] matches Some(s) ==> spec_caps[i] == Some(s@)),
            forall|k: int| 0 <= k < i ==> (#[trigger] spec_caps[k]) is Some,
            crate::text::string_views(r@) == unsafe_ips(spec_caps.take(i as int)),
        decreases caps@.len() - i,
    {
        proof {
            assert(spec_caps.take(i + 1).drop_last() =~= spec_caps.take(i as int));
            assert(spec_caps.take(i + 1).last() == spec_caps[i as int]);
        }
        match &caps[i] {
            Some(ip) => {
                if !is_safe_ip(ip.as_str()) {
                    let ghost before = crate::text::string_views(r@);
                    r.push(ip.clone());
                    proof {
                        assert(crate::text::string_views(r@) =~= before.push(ip@));
                    }
                }
            },
            None => {
                return None;
            },
        }
        i += 1;
    }
    proof {
        assert(spec_caps.take(caps@.len() as int) =~= spec_caps);
    }
    Some(r)
}

/// Check the tree's source files outside the skipped directories (built-in
/// and `ignore_dirs`) for hardcoded IP addresses (other than loopback,
/// unspecified and broadcast ones), and report the first 20.
///
/// Returns `false`, writing nothing, when the pattern does not compile, a
/// match has no group, or the table cannot be printed (a cell longer than 50
/// bytes that cannot be cut at byte 49).
pub fn hardcoded_ips(o: &mut Output, entries: &Vec<TreeEntry>, ignore_dirs: &Vec<String>) -> (ok: bool)
    ensures
        ok == (regex_compiles(ip_pattern()) && ip_findings(entries@, strings_view(ignore_dirs@)) is Some && cells_cuttable_v(
            located_rows(first_located(ip_findings(entries@, strings_view(ignore_dirs@))->0, 20)),
        )),
        ok ==> final(o)@ == write_lines(
            old(o)@,
            sub_header_lines("Hardcoded IP Addresses"@) + findings_report(
                ip_findings(entries@, strings_view(ignore_dirs@))->0,
                20,
                "No hardcoded IP addresses found"@,
                decimal(ip_findings(entries@, strings_view(ignore_dirs@))->0.len()) + " hardcoded IPs found:"@,
                seq!["File"@, "Line"@, "IP"@],
            ),
        ),
        !ok ==> final(o)@ == old(o)@,
{
    let pat = match Pattern::new(r"(\d{1,3}\.\d{1,3}\.\d{1,3}\.\d{1,3})") {
        Some(p) => p,
        None => return false,
    };
    let defaults: Vec<&str> = vec!["vendor/", "node_modules/", ".git/", "target/", "dist/", "build/"];
    let exts: Vec<&'static str> = vec![".go", ".ts", ".tsx", ".js", ".yaml", ".yml", ".toml", ".rs", ".py"];
    proof {
        assert(strs_view(defaults@) =~= danger_skip_dirs());
        assert(strs_view(exts@) =~= ip_exts());
    }
    let mut fs: Vec<LocatedFinding> = Vec::new();
    let mut i: usize = 0;
    proof {
        assert(entries@.take(0) =~= Seq::<TreeEntry>::empty());
        assert(located_view(fs@) =~= Seq::<Located>::empty());
    }
    while i < entries.len()
        invariant
            i <= entries@.len(),
            pat.source() == ip_pattern(),
            strs_view(defaults@) == danger_skip_dirs(),
            strs_view(exts@) == ip_exts(),
            ip_findings(entries@.take(i as int), strings_view(ignore_dirs@)) == Some(located_view(fs@)),
        decreases entries@.len() - i,
    {
        let e = &entries[i];
        proof {
            assert(entries@.take(i + 1).drop_last() =~= entries@.take(i as int));
            assert(entries@.take(i + 1).last() == *e);
        }
        let path = path_of(e);
        if !is_skipped(&path, defaults.as_slice(), ignore_dirs.as_slice()) && has_extension_exec(&path, &exts) {
            match &e.content {
                BlobContent::Text(c) => {
                    let ls = lines_of(c.as_str());
                    let ghost lv = lines(c@);
                    let ghost base = located_view(fs@);
                    let mut j: usize = 0;
                    let n = ls.len();
                    let ghost cv = c@;
                    proof {
                        assert(lv.take(0) =~= Seq::<Seq<char>>::empty());
                        assert(base + Seq::<Located>::empty() =~= base);
                        assert(!skipped(path@, danger_skip_dirs(), strings_view(ignore_dirs@)));
                    }
                    while j < n
                        invariant
                            j <= n,
                            n == ls@.len(),
                            views(ls@) == lv,
                            lv == lines(cv),
                            pat.source() == ip_pattern(),
                            i < entries@.len(),
                            entries@.take(i + 1).drop_last() == entries@.take(i as int),
                            entries@.take(i + 1).last() == *e,
                            ip_findings(entries@.take(i as int), strings_view(ignore_dirs@)) == Some(base),
                            path@ == entry_path(*e),
                            !skipped(path@, danger_skip_dirs(), strings_view(ignore_dirs@)),
                            has_extension(path@, ip_exts()),
                            e.content matches BlobContent::Text(x) && x@ == cv,
                            ip_file_findings(path@, lv.take(j as int)) matches Some(f) && located_view(fs@) == base + f,
                        decreases n - j,
                    {
                        proof {
                            assert(lv.take(j + 1).drop_last() =~= lv.take(j as int));
                            assert(lv.take(j + 1).last() == ls@[j as int]@);
                        }
                        let l = &ls[j];
                        let skip = contains_str(l, "example") || contains_str(l, "test") || (contains_str(l, "//")
                            && contains_str(l, "localhost"));
                        if !skip {
                            let text = string_of(l);
                            let caps = pat.all_captures(text.as_str(), 1);
                            let ghost sc = regex_all_captures(ip_pattern(), l@, 1);
                            match unsafe_ips_exec(&caps, Ghost(sc)) {
                                Some(ips) => {
                                    let ghost before = located_view(fs@);
                                    push_located(&mut fs, &path, j + 1, &ips);
                                    proof {
                                        let f = ip_file_findings(path@, lv.take(j as int))->0;
                                        assert forall|k: int| 0 <= k < ips@.len() implies #[trigger] ips@[k]@
                                            == unsafe_ips(sc)[k] by {
                                            assert(crate::text::string_views(ips@)[k] == ips@[k]@);
                                        }
                                        assert(Seq::new(ips@.len(), |k: int| (path@, (j + 1) as nat, ips@[k]@)) =~= at_line(
                                            path@,
                                            (j + 1) as nat,
                                            unsafe_ips(sc),
                                        ));
                                        assert(located_view(fs@) =~= base + (f + at_line(path@, (j + 1) as nat, unsafe_ips(sc))));
                                    }
                                },
                                None => {
                                    proof {
                                        assert(ip_file_findings(path@, lv.take(j + 1)) is None);
                                        lemma_ip_file_none(path@, lv, j + 1);
                                        assert(ip_findings(entries@.take(i + 1), strings_view(ignore_dirs@)) is None);
                                        lemma_ip_findings_none(entries@, strings_view(ignore_dirs@), i + 1);
                                    }
                                    return false;
                                },
                            }
                        }
                        j += 1;
                    }
                    proof {
                        assert(lv.take(n as int) =~= lv);
                    }
                },
                _ => {},
            }
        }
        i += 1;
    }
    proof {
        assert(entries@.take(entries@.len() as int) =~= entries@);
    }
    let mut some = decimal_exec(fs.len());
    extend_str(&mut some, " hardcoded IPs found:");
    let h: Vec<&str> = vec!["File", "Line", "IP"];
    proof {
        assert(headers_view(h@) =~= seq!["File"@, "Line"@, "IP"@]);
    }
    write_findings_report(o, "Hardcoded IP Addresses", &fs, 20, "No hardcoded IP addresses found", &some, &h)
}

/// A message shortened for a table: cut to its first `keep` bytes and "…"
/// when it is longer than `limit` bytes.
pub open spec fn shorten(msg: Seq<char>, limit: nat, keep: nat) -> Seq<char> {
    if utf8_len(msg) > limit {
        byte_prefix(msg, keep as int) + "…"@
    } else {
        msg
    }
}

/// The message can be shortened where it must be.
pub open spec fn shortenable(msg: Seq<char>, limit: nat, keep: nat) -> bool {
    utf8_len(msg) > limit ==> is_boundary(msg, keep as int)
}

/// [`shorten`].
fn shorten_exec(msg: &Vec<char>, limit: usize, keep: usize) -> (r: Vec<char>)
    requires
        limit < 1000,
        keep < 1000,
    ensures
        r@ == shorten(msg@, limit as nat, keep as nat),
{
    if utf8_len_capped_exec(msg, limit + 1) > limit {
        let mut r = byte_prefix_exec(msg, keep);
        extend_str(&mut r, "…");
        proof {
            assert(r@ =~= shorten(msg@, limit as nat, keep as nat));
        }
        r
    } else {
        crate::text::slice(msg, 0, msg.len())
    }
}

/// Whether `shorten` can cut the message where it must.
fn shortenable_exec(msg: &Vec<char>, limit: usize, keep: usize) -> (r: bool)
    requires
        limit < 1000,
        keep < 1000,
    ensures
        r == shortenable(msg@, limit as nat, keep as nat),
{
    !(utf8_len_capped_exec(msg, limit + 1) > limit) || is_boundary_exec(msg, keep)
}

/// The pattern of a commit message that mentions secrets.
pub open spec fn secret_commit_pattern() -> Seq<char> {
    r"(?i)(secret|credential|password|api.key|token|leak)"@
}

/// The commits (hash, message; newest first) whose trimmed message mentions
/// secrets, up to 20: short hash and message shortened past 70 bytes; `None`
/// when a hash or message cannot be cut where it must.
pub open spec fn secret_commits(cs: Seq<(Seq<char>, Seq<char>)>) -> Option<Seq<(Seq<char>, Seq<char>)>>
    decreases cs.len(),
{
    if cs.len() == 0 {
        Some(Seq::empty())
    } else {
        match secret_commits(cs.drop_last()) {
            None => None,
            Some(prev) => if prev.len() >= 20 {
                Some(prev)
            } else {
                let msg = trim(cs.last().1);
                if regex_is_match(secret_commit_pattern(), msg) {
                    if is_boundary(cs.last().0, 7) && shortenable(msg, 70, 69) {
                        Some(prev.push((byte_prefix(cs.last().0, 7), shorten(msg, 70, 69))))
                    } else {
                        None
                    }
                } else {
                    Some(prev)
                }
            },
        }
    }
}

/// The texts of (hash, message) pairs.
pub open spec fn pairs_view(cs: Seq<(String, String)>) -> Seq<(Seq<char>, Seq<char>)> {
    Seq::new(cs.len(), |i: int| (cs[i].0@, cs[i].1@))
}

/// Table rows of hash and message.
pub open spec fn pair_rows(es: Seq<(Seq<char>, Seq<char>)>) -> Seq<Seq<Seq<char>>> {
    Seq::new(es.len(), |i: int| seq![es[i].0, es[i].1])
}

/// The report on commits mentioning secrets.
pub open spec fn secret_commits_report(es: Seq<(Seq<char>, Seq<char>)>) -> Seq<Seq<char>> {
    sub_header_lines("Commits Mentioning Secrets/Credentials"@) + if es.len() == 0 {
        seq![ok_line("No commits mentioning secrets or credentials"@)]
    } else {
        seq![warning_line(decimal(es.len()) + " commits reference secrets/credentials:"@)] + table_lines_v(
            seq!["Hash"@, "Message"@],
            pair_rows(es),
        )
    }
}

proof fn lemma_secret_commits_none(cs: Seq<(Seq<char>, Seq<char>)>, i: int)
    requires
        0 <= i <= cs.len(),
        secret_commits(cs.take(i)) is None,
    ensures
        secret_commits(cs) is None,
    decreases cs.len() - i,
{
    if i < cs.len() {
        assert(cs.take(i + 1).drop_last() =~= cs.take(i));
        lemma_secret_commits_none(cs, i + 1);
    } else {
        assert(cs.take(i) =~= cs);
    }
}

proof fn lemma_secret_commits_full(cs: Seq<(Seq<char>, Seq<char>)>, i: int)
    requires
        0 <= i <= cs.len(),
        secret_commits(cs.take(i)) matches Some(es) && es.len() >= 20,
    ensures
        secret_commits(cs) == secret_commits(cs.take(i)),
    decreases cs.len() - i,
{
    if i < cs.len() {
        assert(cs.take(i + 1).drop_last() =~= cs.take(i));
        lemma_secret_commits_full(cs, i + 1);
    } else {
        assert(cs.take(i) =~= cs);
    }
}

/// The commits mentioning secrets or credentials, from the commits (full
/// hash and message) newest first, up to 20.
///
/// Returns `false`, writing nothing, when the pattern does not compile, a
/// hash cannot be cut at byte 7 or a message longer than 70 bytes at byte
/// 69, or the table cannot be printed (a cell longer than 50 bytes that
/// cannot be cut at byte 49).
pub fn secret_related_commits(o: &mut Output, commits: &Vec<(String, String)>) -> (ok: bool)
    ensures
        ok == (regex_compiles(secret_commit_pattern()) && secret_commits(pairs_view(commits@)) is Some
            && cells_cuttable_v(pair_rows(secret_commits(pairs_view(commits@))->0))),
        ok ==> final(o)@ == write_lines(old(o)@, secret_commits_report(secret_commits(pairs_view(commits@))->0)),
        !ok ==> final(o)@ == old(o)@,
{
    let ghost o0 = o@;
    let ghost cv = pairs_view(commits@);
    let pat = match Pattern::new(r"(?i)(secret|credential|password|api.key|token|leak)") {
        Some(p) => p,
        None => return false,
    };
    let mut rows: Vec<Vec<String>> = Vec::new();
    let mut i: usize = 0;
    proof {
        assert(cv.take(0) =~= Seq::<(Seq<char>, Seq<char>)>::empty());
        assert(rows_view(rows@) =~= pair_rows(Seq::empty()));
    }
    while i < commits.len() && rows.len() < 20
        invariant
            i <= commits@.len(),
            cv == pairs_view(commits@),
            pat.source() == secret_commit_pattern(),
            secret_commits(cv.take(i as int)) matches Some(es) && rows_view(rows@) == pair_rows(es),
        decreases commits@.len() - i,
    {
        proof {
            assert(cv.take(i + 1).drop_last() =~= cv.take(i as int));
            assert(cv.take(i + 1).last() == cv[i as int]);
            assert(cv[i as int] == (commits@[i as int].0@, commits@[i as int].1@));
        }
        let ghost es = secret_commits(cv.take(i as int))->0;
        proof {
            assert(rows_view(rows@).len() == rows@.len());
            assert(pair_rows(es).len() == es.len());
            assert(es.len() < 20);
        }
        let mc = chars_of(commits[i].1.as_str());
        let msg = trim_exec(&mc);
        let text = string_of(&msg);
        if pat.is_match(text.as_str()) {
            let hc = chars_of(commits[i].0.as_str());
            if !(is_boundary_exec(&hc, 7) && shortenable_exec(&msg, 70, 69)) {
                proof {
                    assert(secret_commits(cv.take(i + 1)) is None);
                    lemma_secret_commits_none(cv, i + 1);
                }
                return false;
            }
            let short = shorten_exec(&msg, 70, 69);
            let h7 = byte_prefix_exec(&hc, 7);
            let mut row: Vec<String> = Vec::new();
            row.push(string_of(&h7));
            row.push(string_of(&short));
            let ghost before = rows@;
            let ghost ne = es.push((byte_prefix(cv[i as int].0, 7), shorten(trim(cv[i as int].1), 70, 69)));
            proof {
                assert(row@.len() == 2);
                assert(Seq::new(row@.len(), |j: int| row@[j]@) =~= seq![
                    byte_prefix(cv[i as int].0, 7),
                    shorten(trim(cv[i as int].1), 70, 69),
                ]);
            }
            rows.push(row);
            proof {
                assert forall|k: int| 0 <= k < rows@.len() implies #[trigger] rows_view(rows@)[k] == pair_rows(ne)[k] by {
                    if k < before.len() {
                        assert(rows@[k] == before[k]);
                        assert(rows_view(before)[k] == pair_rows(es)[k]);
                    }
                }
                assert(rows_view(rows@) =~= pair_rows(ne));
                assert(secret_commits(cv.take(i + 1)) == Some(ne));
            }
        }
        i += 1;
    }
    proof {
        let es = secret_commits(cv.take(i as int))->0;
        assert(rows_view(rows@).len() == rows@.len());
        assert(pair_rows(es).len() == es.len());
        if i == commits@.len() {
            assert(cv.take(i as int) =~= cv);
        } else {
            lemma_secret_commits_full(cv, i as int);
        }
    }
    let ok = table_printable(rows.as_slice());
    proof {
        crate::display::lemma_table_view(Seq::<&str>::empty(), rows@);
    }
    if !ok {
        return false;
    }
    let mut body: Vec<Vec<char>> = Vec::new();
    if rows.len() == 0 {
        push_line(&mut body, ok_line_exec("No commits mentioning secrets or credentials"));
    } else {
        let mut m = decimal_exec(rows.len());
        extend_str(&mut m, " commits reference secrets/credentials:");
        push_line(&mut body, warning_line_exec(&m));
        let h: Vec<&str> = vec!["Hash", "Message"];
        proof {
            assert(headers_view(h@) =~= seq!["Hash"@, "Message"@]);
        }
        push_lines(&mut body, table_lines_exec(h.as_slice(), rows.as_slice()));
    }
    let ghost es = secret_commits(cv)->0;
    proof {
        assert(pair_rows(es).len() == es.len());
        assert(sub_header_lines("Commits Mentioning Secrets/Credentials"@) + views(body@) =~= secret_commits_report(es));
    }
    crate::display::print_sub_header(o, "Commits Mentioning Secrets/Credentials");
    out_all(o, &body);
    proof {
        crate::display::lemma_write_lines_append(o0, sub_header_lines("Commits Mentioning Secrets/Credentials"@), views(body@));
    }
    true
}

/// A commit as the history walk gives it: full hash, message, and the paths
/// its diff against its first parent touches (new side).
pub struct CommitChange {
    pub hash: String,
    pub message: String,
    pub paths: Vec<String>,
}

/// The texts of a commit.
pub type ChangeView = (Seq<char>, Seq<char>, Seq<Seq<char>>);

/// The texts of commits.
pub open spec fn changes_view(cs: Seq<CommitChange>) -> Seq<ChangeView> {
    Seq::new(cs.len(), |i: int| (cs[i].hash@, cs[i].message@, crate::text::string_views(cs[i].paths@)))
}

/// The pattern of a security-sensitive path.
pub open spec fn sensitive_commit_pattern() -> Seq<char> {
    r"(?i)(auth|login|session|crypto|middleware|permission|authorization)"@
}

/// The paths the pattern matches, in order.
pub open spec fn matching_paths(pat: Seq<char>, ps: Seq<Seq<char>>) -> Seq<Seq<char>>
    decreases ps.len(),
{
    if ps.len() == 0 {
        Seq::empty()
    } else {
        let prev = matching_paths(pat, ps.drop_last());
        if regex_is_match(pat, ps.last()) {
            prev.push(ps.last())
        } else {
            prev
        }
    }
}

/// The scan of the commits (newest first) for changes to security-sensitive
/// files: how many commits were looked at, and for each that touched such
/// files its short hash, message (shortened past 50 bytes) and those paths.
/// The scan stops after 500 commits or 20 entries; `None` when a hash or
/// message cannot be cut where it must.
pub open spec fn sensitive_changes(cs: Seq<ChangeView>) -> Option<(nat, Seq<(Seq<char>, Seq<char>, Seq<char>)>)>
    decreases cs.len(),
{
    if cs.len() == 0 {
        Some((0, Seq::empty()))
    } else {
        match sensitive_changes(cs.drop_last()) {
            None => None,
            Some(prev) => if prev.0 >= 500 || prev.1.len() >= 20 {
                Some(prev)
            } else {
                let c = cs.last();
                let ps = matching_paths(sensitive_commit_pattern(), c.2);
                if ps.len() > 0 {
                    let msg = trim(c.1);
                    if is_boundary(c.0, 7) && shortenable(msg, 50, 49) {
                        Some(
                            (
                                prev.0 + 1,
                                prev.1.push((byte_prefix(c.0, 7), shorten(msg, 50, 49), crate::text::join(ps, ", "@))),
                            ),
                        )
                    } else {
                        None
                    }
                } else {
                    Some((prev.0 + 1, prev.1))
                }
            },
        }
    }
}

/// Table rows of hash, message and files.
pub open spec fn triple_rows(es: Seq<(Seq<char>, Seq<char>, Seq<char>)>) -> Seq<Seq<Seq<char>>> {
    Seq::new(es.len(), |i: int| seq![es[i].0, es[i].1, es[i].2])
}

/// The report on commits touching security-sensitive files.
pub open spec fn sensitive_changes_report(es: Seq<(Seq<char>, Seq<char>, Seq<char>)>) -> Seq<Seq<char>> {
    sub_header_lines("Recent Commits Touching Security-Sensitive Files"@) + if es.len() == 0 {
        seq![info_line("No security-sensitive file changes found in recent history"@)]
    } else {
        table_lines_v(seq!["Hash"@, "Message"@, "Files"@], triple_rows(es))
    }
}

proof fn lemma_sensitive_changes_none(cs: Seq<ChangeView>, i: int)
    requires
        0 <= i <= cs.len(),
        sensitive_changes(cs.take(i)) is None,
    ensures
        sensitive_changes(cs) is None,
    decreases cs.len() - i,
{
    if i < cs.len() {
        assert(cs.take(i + 1).drop_last() =~= cs.take(i));
        lemma_sensitive_changes_none(cs, i + 1);
    } else {
        assert(cs.take(i) =~= cs);
    }
}

proof fn lemma_sensitive_changes_done(cs: Seq<ChangeView>, i: int)
    requires
        0 <= i <= cs.len(),
        sensitive_changes(cs.take(i)) matches Some(p) && (p.0 >= 500 || p.1.len() >= 20),
    ensures
        sensitive_changes(cs) == sensitive_changes(cs.take(i)),
    decreases cs.len() - i,
{
    if i < cs.len() {
        assert(cs.take(i + 1).drop_last() =~= cs.take(i));
        lemma_sensitive_changes_done(cs, i + 1);
    } else {
        assert(cs.take(i) =~= cs);
    }
}

fn matching_paths_exec<'a>(pat: &Pattern, ps: &'a Vec<String>) -> (r: Vec<&'a str>)
    ensures
        crate::text::str_seq_view(r@) == matching_paths(pat.source(), crate::text::string_views(ps@)),
{
    let ghost pv = crate::text::string_views(ps@);
    let mut r: Vec<&str> = Vec::new();
    let mut i: usize = 0;
    proof {
        assert(pv.take(0) =~= Seq::<Seq<char>>::empty());
        assert(crate::text::str_seq_view(r@) =~= Seq::<Seq<char>>::empty());
    }
    while i < ps.len()
        invariant
            i <= ps@.len(),
            pv == crate::text::string_views(ps@),
            crate::text::str_seq_view(r@) == matching_paths(pat.source(), pv.take(i as int)),
        decreases ps@.len() - i,
    {
        proof {
            assert(pv.take(i + 1).drop_last() =~= pv.take(i as int));
            assert(pv.take(i + 1).last() == ps@[i as int]@);
        }
        if pat.is_match(ps[i].as_str()) {
            let ghost before = crate::text::str_seq_view(r@);
            r.push(ps[i].as_str());
            proof {
                assert(crate::text::str_seq_view(r@) =~= before.push(ps@[i as int]@));
            }
        }
        i += 1;
    }
    proof {
        assert(pv.take(ps@.len() as int) =~= pv);
    }
    r
}

/// The recent commits (newest first, at most 500 looked at) that touch
/// security-sensitive files, up to 20.
///
/// Returns `false`, writing nothing, when the pattern does not compile, a
/// hash cannot be cut at byte 7 or a message longer than 50 bytes at byte
/// 49, or the table cannot be printed (a cell longer than 50 bytes that
/// cannot be cut at byte 49).
pub fn security_sensitive_commits(o: &mut Output, commits: &Vec<CommitChange>) -> (ok: bool)
    ensures
        ok == (regex_compiles(sensitive_commit_pattern()) && sensitive_changes(changes_view(commits@)) is Some
            && cells_cuttable_v(triple_rows((sensitive_changes(changes_view(commits@))->0).1))),
        ok ==> final(o)@ == write_lines(
            old(o)@,
            sensitive_changes_report((sensitive_changes(changes_view(commits@))->0).1),
        ),
        !ok ==> final(o)@ == old(o)@,
{
    let ghost o0 = o@;
    let ghost cv = changes_view(commits@);
    let pat = match Pattern::new(r"(?i)(auth|login|session|crypto|middleware|permission|authorization)") {
        Some(p) => p,
        None => return false,
    };
    let mut rows: Vec<Vec<String>> = Vec::new();
    let mut count: usize = 0;
    let mut i: usize = 0;
    proof {
        assert(cv.take(0) =~= Seq::<ChangeView>::empty());
        assert(rows_view(rows@) =~= triple_rows(Seq::empty()));
    }
    while i < commits.len() && count < 500 && rows.len() < 20
        invariant
            i <= commits@.len(),
            cv == changes_view(commits@),
            pat.source() == sensitive_commit_pattern(),
            count <= i,
            sensitive_changes(cv.take(i as int)) matches Some(st) && st.0 == count && rows_view(rows@) == triple_rows(
                st.1,
            ),
        decreases commits@.len() - i,
    {
        proof {
            assert(cv.take(i + 1).drop_last() =~= cv.take(i as int));
            assert(cv.take(i + 1).last() == cv[i as int]);
        }
        let ghost st = sensitive_changes(cv.take(i as int))->0;
        proof {
            assert(rows_view(rows@).len() == rows@.len());
            assert(triple_rows(st.1).len() == st.1.len());
        }
        let c = &commits[i];
        let ps = matching_paths_exec(&pat, &c.paths);
        if ps.len() > 0 {
            let mc = chars_of(c.message.as_str());
            let msg = trim_exec(&mc);
            let hc = chars_of(c.hash.as_str());
            if !(is_boundary_exec(&hc, 7) && shortenable_exec(&msg, 50, 49)) {
                proof {
                    assert(sensitive_changes(cv.take(i + 1)) is None);
                    lemma_sensitive_changes_none(cv, i + 1);
                }
                return false;
            }
            let short = shorten_exec(&msg, 50, 49);
            let h7 = byte_prefix_exec(&hc, 7);
            let files = crate::text::join_strs(&ps, ", ");
            let mut row: Vec<String> = Vec::new();
            row.push(string_of(&h7));
            row.push(string_of(&short));
            row.push(string_of(&files));
            let ghost before = rows@;
            let ghost ne = st.1.push(
                (
                    byte_prefix(cv[i as int].0, 7),
                    shorten(trim(cv[i as int].1), 50, 49),
                    crate::text::join(matching_paths(sensitive_commit_pattern(), cv[i as int].2), ", "@),
                ),
            );
            proof {
                assert(Seq::new(row@.len(), |j: int| row@[j]@) =~= seq![
                    byte_prefix(cv[i as int].0, 7),
                    shorten(trim(cv[i as int].1), 50, 49),
                    crate::text::join(matching_paths(sensitive_commit_pattern(), cv[i as int].2), ", "@),
                ]);
            }
            rows.push(row);
            proof {
                assert forall|k: int| 0 <= k < rows@.len() implies #[trigger] rows_view(rows@)[k] == triple_rows(ne)[k] by {
                    if k < before.len() {
                        assert(rows@[k] == before[k]);
                        assert(rows_view(before)[k] == triple_rows(st.1)[k]);
                    }
                }
                assert(rows_view(rows@) =~= triple_rows(ne));
                assert(sensitive_changes(cv.take(i + 1)) == Some(((st.0 + 1) as nat, ne)));
            }
        }
        count += 1;
        i += 1;
    }
    proof {
        let st = sensitive_changes(cv.take(i as int))->0;
        assert(rows_view(rows@).len() == rows@.len());
        assert(triple_rows(st.1).len() == st.1.len());
        if i == commits@.len() {
            assert(cv.take(i as int) =~= cv);
        } else {
            lemma_sensitive_changes_done(cv, i as int);
        }
    }
    let ok = table_printable(rows.as_slice());
    proof {
        crate::display::lemma_table_view(Seq::<&str>::empty(), rows@);
    }
    if !ok {
        return false;
    }
    let mut body: Vec<Vec<char>> = Vec::new();
    if rows.len() == 0 {
        push_line(&mut body, crate::display::info_line_exec(&chars_of("No security-sensitive file changes found in recent history")));
    } else {
        let h: Vec<&str> = vec!["Hash", "Message", "Files"];
        proof {
            assert(headers_view(h@) =~= seq!["Hash"@, "Message"@, "Files"@]);
        }
        push_lines(&mut body, table_lines_exec(h.as_slice(), rows.as_slice()));
    }
    let ghost es = (sensitive_changes(cv)->0).1;
    proof {
        assert(triple_rows(es).len() == es.len());
        assert(sub_header_lines("Recent Commits Touching Security-Sensitive Files"@) + views(body@)
            =~= sensitive_changes_report(es));
    }
    crate::display::print_sub_header(o, "Recent Commits Touching Security-Sensitive Files");
    out_all(o, &body);
    proof {
        crate::display::lemma_write_lines_append(
            o0,
            sub_header_lines("Recent Commits Touching Security-Sensitive Files"@),
            views(body@),
        );
    }
    true
}

} // verus!
