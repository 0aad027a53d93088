//! Fix suggestions: dependency upgrades for known advisories, refactoring
//! hints for complex functions, and remediation guidance for risky lines.
use vstd::prelude::*;
use crate::autofix::{
    collect_deps, collected_deps, cve_table, cve_view, deps_view, fix_skip_dirs, known_cves,
    refactoring_hint, refactoring_hint_spec, remediation_table, remediation_view, sast_remediations,
    version_less_than, version_lt, ComplexFunction, DepInfo, KnownCve, SastRemediation,
};
use crate::display::{
    cells_cuttable_v, headers_view, info_line, info_line_exec, ok_line, ok_line_exec, out_all,
    push_line, push_lines, rows_view, str_line, sub_header_lines, table_lines_exec, table_lines_v,
    table_printable, warning_line, warning_line_exec, write_lines, Output,
};
use crate::complexity::{
    complexities_fit, find_functions, fn_views, funcs_view, functions_from, sort_by_complexity,
    sort_desc, weights, with_file, FnView, FuncView,
};
use crate::pattern::{regex_compiles, Pattern};
use crate::sast::{
    compile_rules, file_hits, file_hits_exec, has_extension, is_test_path_exec, lemma_hit_rule_index,
    rules_view, sast_files, RuleView, SastRule,
};
use crate::text::{
    byte_prefix, byte_prefix_exec, chars_of, contains, contains_exec, contains_str, decimal,
    decimal_exec, extend, extend_str, is_boundary, is_boundary_exec, lines, lowercase, string_of,
    to_lower, total_len, trim, trim_exec, utf8_len, utf8_len_capped_exec, views,
};
use crate::tree::{entry_path, is_skipped, skipped, strings_view, strs_view, BlobContent, TreeEntry};

verus! {

/// The languages the fix scan looks for functions in: extensions, the
/// function header pattern, and whether bodies go by indentation.
pub open spec fn fix_language_table() -> Seq<(Seq<Seq<char>>, Seq<char>, bool)> {
    seq![
        (seq![".rs"@], r"^\s*(?:pub\s+)?(?:async\s+)?fn\s+(\w+)"@, false),
        (seq![".go"@], r"^\s*func\s+(?:\([^)]*\)\s+)?(\w+)"@, false),
        (seq![".py"@], r"^\s*(?:async\s+)?def\s+(\w+)"@, true),
        (
            seq![".ts"@, ".tsx"@, ".js"@, ".jsx"@],
            r"^\s*(?:export\s+)?(?:async\s+)?(?:function\s+(\w+)|(?:const|let|var)\s+(\w+)\s*=)"@,
            false,
        ),
        (
            seq![".java"@],
            r"^\s*(?:public|private|protected|static|final|abstract|synchronized|native)*\s*(?:\w+(?:<[^>]*>)?)\s+(\w+)\s*\("@,
            false,
        ),
    ]
}

/// A language of the fix scan.
pub struct FixLanguage {
    pub extensions: Vec<&'static str>,
    pub pattern: &'static str,
    pub python: bool,
}

/// The texts of a language of the fix scan.
pub open spec fn fix_language_view(l: FixLanguage) -> (Seq<Seq<char>>, Seq<char>, bool) {
    (strs_view(l.extensions@), l.pattern@, l.python)
}

fn fix_languages() -> (r: Vec<FixLanguage>)
    ensures
        Seq::new(r@.len(), |i: int| fix_language_view(r@[i])) == fix_language_table(),
{
    let mut v: Vec<FixLanguage> = Vec::new();
    v.push(FixLanguage { extensions: vec![".rs"], pattern: r"^\s*(?:pub\s+)?(?:async\s+)?fn\s+(\w+)", python: false });
    v.push(FixLanguage { extensions: vec![".go"], pattern: r"^\s*func\s+(?:\([^)]*\)\s+)?(\w+)", python: false });
    v.push(FixLanguage { extensions: vec![".py"], pattern: r"^\s*(?:async\s+)?def\s+(\w+)", python: true });
    v.push(FixLanguage {
        extensions: vec![".ts", ".tsx", ".js", ".jsx"],
        pattern: r"^\s*(?:export\s+)?(?:async\s+)?(?:function\s+(\w+)|(?:const|let|var)\s+(\w+)\s*=)",
        python: false,
    });
    v.push(FixLanguage {
        extensions: vec![".java"],
        pattern: r"^\s*(?:public|private|protected|static|final|abstract|synchronized|native)*\s*(?:\w+(?:<[^>]*>)?)\s+(\w+)\s*\(",
        python: false,
    });
    proof {
        assert(Seq::new(v@.len(), |i: int| fix_language_view(v@[i])) =~~= fix_language_table());
    }
    v
}

/// The keywords whose presence in a body line adds one to the complexity.
pub open spec fn branch_keywords() -> Seq<Seq<char>> {
    seq!["if"@, "else if"@, "elif"@, "for"@, "while"@, "loop"@, "match"@, "case"@, "catch"@, "except"@]
}

/// How many of the keywords `text` contains.
pub open spec fn keyword_count(kws: Seq<Seq<char>>, text: Seq<char>) -> nat
    decreases kws.len(),
{
    if kws.len() == 0 {
        0
    } else {
        keyword_count(kws.drop_last(), text) + if contains(text, kws.last()) {
            1nat
        } else {
            0nat
        }
    }
}

/// The weight of each line: the keywords it contains (trimmed first, for indented bodies).
pub open spec fn keyword_weights(ls: Seq<Seq<char>>, python: bool) -> Seq<nat> {
    Seq::new(
        ls.len(),
        |j: int| keyword_count(branch_keywords(), if python { trim(ls[j]) } else { ls[j] }),
    )
}

/// The first language of the fix scan, from `k` on, that applies to the path.
pub open spec fn first_fix_language(path: Seq<char>, k: int) -> Option<int>
    decreases fix_language_table().len() - k,
{
    if k < 0 || k >= fix_language_table().len() {
        None
    } else if has_extension(path, fix_language_table()[k].0) {
        Some(k)
    } else {
        first_fix_language(path, k + 1)
    }
}

/// The functions more complex than `t`.
pub open spec fn above(fs: Seq<FuncView>, t: nat) -> Seq<FuncView>
    decreases fs.len(),
{
    if fs.len() == 0 {
        Seq::empty()
    } else {
        let prev = above(fs.drop_last(), t);
        if fs.last().3 > t {
            prev.push(fs.last())
        } else {
            prev
        }
    }
}

/// The functions of one file of the tree more complex than `t`, in order;
/// `None` when a complexity exceeds `usize::MAX`.
pub open spec fn complex_in_entry(e: TreeEntry, ignore: Seq<Seq<char>>, t: nat) -> Option<Seq<FuncView>> {
    let p = entry_path(e);
    if skipped(p, fix_skip_dirs(), ignore) {
        Some(Seq::empty())
    } else {
        match first_fix_language(p, 0) {
            None => Some(Seq::empty()),
            Some(k) => match e.content {
                BlobContent::Text(c) => {
                    let lang = fix_language_table()[k];
                    let ls = lines(c@);
                    let fs = functions_from(ls, keyword_weights(ls, lang.2), lang.1, lang.2, true, 0);
                    if complexities_fit(fs) {
                        Some(above(with_file(p, fs), t))
                    } else {
                        None
                    }
                },
                _ => Some(Seq::empty()),
            },
        }
    }
}

/// The functions of the tree more complex than `t`, in walk order; `None`
/// when a complexity exceeds `usize::MAX`.
pub open spec fn complex_in_tree(entries: Seq<TreeEntry>, ignore: Seq<Seq<char>>, t: nat) -> Option<Seq<FuncView>>
    decreases entries.len(),
{
    if entries.len() == 0 {
        Some(Seq::empty())
    } else {
        match (complex_in_tree(entries.drop_last(), ignore, t), complex_in_entry(entries.last(), ignore, t)) {
            (Some(a), Some(b)) => Some(a + b),
            _ => None,
        }
    }
}

/// Every function pattern of the fix scan compiles.
pub open spec fn fix_languages_compile() -> bool {
    forall|i: int| 0 <= i < fix_language_table().len() ==> regex_compiles(#[trigger] fix_language_table()[i].1)
}

/// What the search for complex functions finds: those more complex than `t`,
/// most complex first (equally complex ones in walk order); `None` when a
/// pattern does not compile or a complexity exceeds `usize::MAX`.
pub open spec fn complex_functions(entries: Seq<TreeEntry>, ignore: Seq<Seq<char>>, t: nat) -> Option<Seq<FuncView>> {
    if fix_languages_compile() {
        match complex_in_tree(entries, ignore, t) {
            Some(fs) => Some(sort_desc(fs)),
            None => None,
        }
    } else {
        None
    }
}

fn keyword_count_exec(text: &[char]) -> (r: usize)
    ensures
        r == keyword_count(branch_keywords(), text@),
        r <= 10,
{
    let kws: Vec<&str> = vec!["if", "else if", "elif", "for", "while", "loop", "match", "case", "catch", "except"];
    proof {
        assert(strs_view(kws@) =~= branch_keywords());
    }
    let ghost kv = branch_keywords();
    let mut r: usize = 0;
    let mut i: usize = 0;
    proof {
        assert(kv.take(0) =~= Seq::<Seq<char>>::empty());
    }
    while i < kws.len()
        invariant
            i <= kws@.len(),
            kws@.len() == 10,
            strs_view(kws@) == kv,
            kv == branch_keywords(),
            r == keyword_count(kv.take(i as int), text@),
            r <= i,
        decreases kws@.len() - i,
    {
        proof {
            assert(kv.take(i + 1).drop_last() =~= kv.take(i as int));
            assert(kv.take(i + 1).last() == kws@[i as int]@);
        }
        if contains_str(text, kws[i]) {
            r += 1;
        }
        i += 1;
    }
    proof {
        assert(kv.take(10) =~= kv);
    }
    r
}

/// [`above`], on a file's functions.
fn push_above(out: &mut Vec<ComplexFunction>, path: &Vec<char>, fs: &Vec<(String, usize, usize)>, t: usize)
    ensures
        funcs_view(final(out)@) == funcs_view(old(out)@) + above(with_file(path@, fn_views(fs@)), t as nat),
{
    let ghost o0 = funcs_view(out@);
    let ghost wf = with_file(path@, fn_views(fs@));
    let mut k: usize = 0;
    proof {
        assert(wf.take(0) =~= Seq::<FuncView>::empty());
        assert(funcs_view(out@) =~= o0 + above(wf.take(0), t as nat));
    }
    while k < fs.len()
        invariant
            k <= fs@.len(),
            wf == with_file(path@, fn_views(fs@)),
            o0 == funcs_view(old(out)@),
            funcs_view(out@) == o0 + above(wf.take(k as int), t as nat),
        decreases fs@.len() - k,
    {
        proof {
            assert(wf.take(k + 1).drop_last() =~= wf.take(k as int));
            assert(wf.take(k + 1).last() == wf[k as int]);
        }
        if fs[k].2 > t {
            let ghost before = funcs_view(out@);
            out.push(ComplexFunction { file: string_of(path), name: fs[k].0.clone(), line: fs[k].1, complexity: fs[k].2 });
            proof {
                assert(funcs_view(out@) =~= before.push(wf[k as int]));
            }
        }
        k += 1;
    }
    proof {
        assert(wf.take(fs@.len() as int) =~= wf);
    }
}

/// [`first_fix_language`] from the first language on.
fn fix_language_of(langs: &Vec<FixLanguage>, path: &Vec<char>) -> (r: Option<usize>)
    requires
        Seq::new(langs@.len(), |i: int| fix_language_view(langs@[i])) == fix_language_table(),
    ensures
        r matches Some(k) ==> first_fix_language(path@, 0) == Some(k as int) && k < langs@.len(),
        r is None ==> first_fix_language(path@, 0) is None,
{
    let ghost table = fix_language_table();
    let mut k: usize = 0;
    while k < langs.len()
        invariant
            k <= langs@.len(),
            table == fix_language_table(),
            Seq::new(langs@.len(), |i: int| fix_language_view(langs@[i])) == table,
            first_fix_language(path@, 0) == first_fix_language(path@, k as int),
        decreases langs@.len() - k,
    {
        assert(fix_language_view(langs@[k as int]) == table[k as int]);
        if crate::sast::has_extension_exec(path, &langs[k].extensions) {
            return Some(k);
        }
        k += 1;
    }
    None
}

/// The functions of one file more complex than `t`.
fn complex_in_entry_exec(
    e: &TreeEntry,
    ignore_dirs: &Vec<String>,
    t: usize,
    langs: &Vec<FixLanguage>,
    pats: &Vec<Pattern>,
    out: &mut Vec<ComplexFunction>,
) -> (ok: bool)
    requires
        Seq::new(langs@.len(), |i: int| fix_language_view(langs@[i])) == fix_language_table(),
        pats@.len() == langs@.len(),
        forall|i: int| 0 <= i < pats@.len() ==> (#[trigger] pats@[i]).source() == langs@[i].pattern@,
    ensures
        ok == complex_in_entry(*e, strings_view(ignore_dirs@), t as nat) is Some,
        ok ==> funcs_view(final(out)@) == funcs_view(old(out)@) + complex_in_entry(
            *e,
            strings_view(ignore_dirs@),
            t as nat,
        )->0,
{
    let ghost table = fix_language_table();
    let defaults: Vec<&str> = vec!["vendor/", "node_modules/", ".git/", "target/", "dist/", "build/"];
    proof {
        assert(strs_view(defaults@) =~= fix_skip_dirs());
        assert(funcs_view(out@) =~= funcs_view(out@) + Seq::<FuncView>::empty());
    }
    let mut path = chars_of(e.dir.as_str());
    extend_str(&mut path, e.name.as_str());
    assert(path@ == entry_path(*e));
    if is_skipped(&path, defaults.as_slice(), ignore_dirs.as_slice()) {
        return true;
    }
    let k = match fix_language_of(langs, &path) {
        Some(k) => k,
        None => {
            return true;
        },
    };
    match &e.content {
        BlobContent::Text(c) => {
            let lang = &langs[k];
            assert(fix_language_view(*lang) == table[k as int]);
            let cs = chars_of(c.as_str());
            let cl = cs.len();
            let ls = crate::text::lines_exec(&cs);
            let ghost lv = views(ls@);
            proof {
                crate::text::lemma_lines_total_len(c@);
                assert(cl == c@.len());
            }
            let mut ws: Vec<usize> = Vec::new();
            let mut j: usize = 0;
            while j < ls.len()
                invariant
                    j <= ls@.len(),
                    lv == views(ls@),
                    ws@.len() == j,
                    forall|m: int| 0 <= m < j ==> ws@[m] as nat == #[trigger] keyword_weights(lv, lang.python)[m],
                decreases ls@.len() - j,
            {
                let w = if lang.python {
                    let tl = trim_exec(&ls[j]);
                    keyword_count_exec(&tl)
                } else {
                    keyword_count_exec(&ls[j])
                };
                proof {
                    assert(lv[j as int] == ls@[j as int]@);
                }
                ws.push(w);
                j += 1;
            }
            proof {
                assert(weights(ws@) =~= keyword_weights(lv, lang.python));
            }
            match find_functions(&ls, &ws, &pats[k], lang.python, true) {
                Some(fs) => {
                    push_above(out, &path, &fs, t);
                    true
                },
                None => false,
            }
        },
        _ => true,
    }
}

/// Find the functions of the tree's source files more complex than
/// `threshold`, most complex first (equally complex ones in walk order).
///
/// `None` when a function pattern does not compile or a complexity exceeds
/// `usize::MAX`.
pub fn find_complex_functions(entries: &Vec<TreeEntry>, threshold: usize, ignore_dirs: &Vec<String>) -> (r: Option<Vec<ComplexFunction>>)
    ensures
        r is Some <==> complex_functions(entries@, strings_view(ignore_dirs@), threshold as nat) is Some,
        r matches Some(v) ==> complex_functions(entries@, strings_view(ignore_dirs@), threshold as nat) == Some(
            funcs_view(v@),
        ),
{
    let ghost iv = strings_view(ignore_dirs@);
    let ghost table = fix_language_table();
    let langs = fix_languages();
    let mut pats: Vec<Pattern> = Vec::new();
    let mut q: usize = 0;
    while q < langs.len()
        invariant
            q <= langs@.len(),
            table == fix_language_table(),
            Seq::new(langs@.len(), |i: int| fix_language_view(langs@[i])) == table,
            pats@.len() == q,
            forall|i: int| 0 <= i < q ==> (#[trigger] pats@[i]).source() == langs@[i].pattern@,
            forall|i: int| 0 <= i < q ==> regex_compiles(#[trigger] table[i].1),
        decreases langs@.len() - q,
    {
        assert(fix_language_view(langs@[q as int]) == table[q as int]);
        match Pattern::new(langs[q].pattern) {
            Some(p) => {
                pats.push(p);
            },
            None => {
                assert(!regex_compiles(table[q as int].1));
                return None;
            },
        }
        q += 1;
    }
    let mut out: Vec<ComplexFunction> = Vec::new();
    let mut i: usize = 0;
    proof {
        assert(entries@.take(0) =~= Seq::<TreeEntry>::empty());
        assert(funcs_view(out@) =~= Seq::<FuncView>::empty());
    }
    while i < entries.len()
        invariant
            i <= entries@.len(),
            iv == strings_view(ignore_dirs@),
            table == fix_language_table(),
            fix_languages_compile(),
            Seq::new(langs@.len(), |i: int| fix_language_view(langs@[i])) == table,
            pats@.len() == langs@.len(),
            forall|i: int| 0 <= i < pats@.len() ==> (#[trigger] pats@[i]).source() == langs@[i].pattern@,
            complex_in_tree(entries@.take(i as int), iv, threshold as nat) == Some(funcs_view(out@)),
        decreases entries@.len() - i,
    {
        proof {
            assert(entries@.take(i + 1).drop_last() =~= entries@.take(i as int));
            assert(entries@.take(i + 1).last() == entries@[i as int]);
        }
        if !complex_in_entry_exec(&entries[i], ignore_dirs, threshold, &langs, &pats, &mut out) {
            proof {
                lemma_complex_in_tree_none(entries@, iv, threshold as nat, i + 1);
            }
            return None;
        }
        i += 1;
    }
    proof {
        assert(entries@.take(entries@.len() as int) =~= entries@);
    }
    let sorted = sort_by_complexity(&out);
    Some(sorted)
}

proof fn lemma_complex_in_tree_none(entries: Seq<TreeEntry>, ignore: Seq<Seq<char>>, t: nat, i: int)
    requires
        0 <= i <= entries.len(),
        complex_in_tree(entries.take(i), ignore, t) is None,
    ensures
        complex_in_tree(entries, ignore, t) is None,
    decreases entries.len() - i,
{
    if i < entries.len() {
        assert(entries.take(i + 1).drop_last() =~= entries.take(i));
        lemma_complex_in_tree_none(entries, ignore, t, i + 1);
    } else {
        assert(entries.take(i) =~= entries);
    }
}

/// The rules the fix scan re-checks source lines with.
pub open spec fn fix_rule_table() -> Seq<RuleView> {
    seq![
        (
            "SQL injection"@,
            "HIGH"@,
            r#"(?i)(execute|query|raw)\s*\(.*(\+|format!|f"|fmt\.Sprintf)"#@,
            seq![".rs"@, ".go"@, ".py"@, ".ts"@, ".js"@, ".java"@],
            "User input may flow into SQL query"@,
        ),
        (
            "Insecure deserialization (pickle)"@,
            "HIGH"@,
            r"pickle\.(loads?|Unpickler)\("@,
            seq![".py"@],
            "pickle can execute arbitrary code from untrusted data"@,
        ),
        ("eval() usage"@, "HIGH"@, r"\beval\s*\("@, seq![".js"@, ".ts"@, ".py"@, ".php"@], "eval() executes arbitrary code"@),
        (
            "innerHTML assignment"@,
            "MEDIUM"@,
            r"\.innerHTML\s*="@,
            seq![".js"@, ".ts"@, ".tsx"@, ".jsx"@],
            "innerHTML can lead to XSS"@,
        ),
        (
            "Weak hash (MD5/SHA1)"@,
            "MEDIUM"@,
            r"(?i)(md5|sha-?1)\s*\("@,
            seq![".py"@, ".java"@, ".go"@, ".js"@, ".ts"@],
            "MD5/SHA1 are cryptographically weak"@,
        ),
        (
            "Hardcoded secret"@,
            "HIGH"@,
            r#"(?i)(SECRET_KEY|API_KEY|PASSWORD)\s*=\s*['"][^'"]{4,}['"]"#@,
            seq![".py"@, ".js"@, ".ts"@, ".java"@, ".rb"@],
            "Secret appears hardcoded"@,
        ),
        (
            "Disabled TLS verification"@,
            "HIGH"@,
            r"(?i)(rejectUnauthorized\s*:\s*false|verify\s*=\s*False|InsecureSkipVerify\s*:\s*true)"@,
            seq![".js"@, ".ts"@, ".py"@, ".go"@],
            "TLS verification is disabled"@,
        ),
        ("Unsafe block (Rust)"@, "INFO"@, r"\bunsafe\s*\{"@, seq![".rs"@], "Unsafe block requires careful review"@),
    ]
}

fn fix_rules() -> (r: Vec<SastRule>)
    ensures
        rules_view(r@) == fix_rule_table(),
{
    let mut v: Vec<SastRule> = Vec::new();
    v.push(SastRule {
        name: "SQL injection",
        severity: "HIGH",
        pattern: r#"(?i)(execute|query|raw)\s*\(.*(\+|format!|f"|fmt\.Sprintf)"#,
        extensions: vec![".rs", ".go", ".py", ".ts", ".js", ".java"],
        description: "User input may flow into SQL query",
    });
    v.push(SastRule {
        name: "Insecure deserialization (pickle)",
        severity: "HIGH",
        pattern: r"pickle\.(loads?|Unpickler)\(",
        extensions: vec![".py"],
        description: "pickle can execute arbitrary code from untrusted data",
    });
    v.push(SastRule {
        name: "eval() usage",
        severity: "HIGH",
        pattern: r"\beval\s*\(",
        extensions: vec![".js", ".ts", ".py", ".php"],
        description: "eval() executes arbitrary code",
    });
    v.push(SastRule {
        name: "innerHTML assignment",
        severity: "MEDIUM",
        pattern: r"\.innerHTML\s*=",
        extensions: vec![".js", ".ts", ".tsx", ".jsx"],
        description: "innerHTML can lead to XSS",
    });
    v.push(SastRule {
        name: "Weak hash (MD5/SHA1)",
        severity: "MEDIUM",
        pattern: r"(?i)(md5|sha-?1)\s*\(",
        extensions: vec![".py", ".java", ".go", ".js", ".ts"],
        description: "MD5/SHA1 are cryptographically weak",
    });
    v.push(SastRule {
        name: "Hardcoded secret",
        severity: "HIGH",
        pattern: r#"(?i)(SECRET_KEY|API_KEY|PASSWORD)\s*=\s*['"][^'"]{4,}['"]"#,
        extensions: vec![".py", ".js", ".ts", ".java", ".rb"],
        description: "Secret appears hardcoded",
    });
    v.push(SastRule {
        name: "Disabled TLS verification",
        severity: "HIGH",
        pattern: r"(?i)(rejectUnauthorized\s*:\s*false|verify\s*=\s*False|InsecureSkipVerify\s*:\s*true)",
        extensions: vec![".js", ".ts", ".py", ".go"],
        description: "TLS verification is disabled",
    });
    v.push(SastRule {
        name: "Unsafe block (Rust)",
        severity: "INFO",
        pattern: r"\bunsafe\s*\{",
        extensions: vec![".rs"],
        description: "Unsafe block requires careful review",
    });
    proof {
        assert(rules_view(v@) =~~= fix_rule_table());
    }
    v
}

/// A finding of the fix scan: file, line, rule name, severity, description,
/// and the trimmed source line.
pub type FixFindingView = (Seq<char>, nat, Seq<char>, Seq<char>, Seq<char>, Seq<char>);

/// The findings of hits in the lines of the file at `path`.
pub open spec fn fix_hit_findings(rules: Seq<RuleView>, path: Seq<char>, ls: Seq<Seq<char>>, hs: Seq<(nat, nat)>) -> Seq<FixFindingView> {
    Seq::new(
        hs.len(),
        |k: int|
            (
                path,
                hs[k].0,
                rules[hs[k].1 as int].0,
                rules[hs[k].1 as int].1,
                rules[hs[k].1 as int].4,
                trim(ls[hs[k].0 - 1]),
            ),
    )
}

/// The findings in a file of the tree (none when it cannot be read as text).
pub open spec fn fix_entry_findings(rules: Seq<RuleView>, e: TreeEntry) -> Seq<FixFindingView> {
    match e.content {
        BlobContent::Text(c) => fix_hit_findings(
            rules,
            entry_path(e),
            lines(c@),
            file_hits(rules, entry_path(e), lines(c@), false),
        ),
        _ => Seq::empty(),
    }
}

/// The findings in the files, in order.
pub open spec fn fix_findings(rules: Seq<RuleView>, files: Seq<TreeEntry>) -> Seq<FixFindingView>
    decreases files.len(),
{
    if files.len() == 0 {
        Seq::empty()
    } else {
        fix_findings(rules, files.drop_last()) + fix_entry_findings(rules, files.last())
    }
}

/// A finding of the fix scan.
pub struct FixFinding {
    pub file: String,
    pub line: usize,
    pub rule_name: &'static str,
    pub severity: &'static str,
    pub description: &'static str,
    pub source_line: String,
}

/// The views of findings.
pub open spec fn fix_findings_view(fs: Seq<FixFinding>) -> Seq<FixFindingView> {
    Seq::new(
        fs.len(),
        |i: int|
            (
                fs[i].file@,
                fs[i].line as nat,
                fs[i].rule_name@,
                fs[i].severity@,
                fs[i].description@,
                fs[i].source_line@,
            ),
    )
}

/// Every pattern of the fix scan's rules compiles.
pub open spec fn fix_rules_compile() -> bool {
    forall|i: int| 0 <= i < fix_rule_table().len() ==> regex_compiles(#[trigger] fix_rule_table()[i].2)
}

/// Re-scan the tree's source files (outside skipped directories, not test
/// files) with the fix scan's rules: every non-comment line that a rule for
/// the file's extension matches. `None` when a pattern does not compile.
pub fn collect_sast_findings(entries: &Vec<TreeEntry>, ignore_dirs: &Vec<String>) -> (r: Option<Vec<FixFinding>>)
    ensures
        r is Some <==> fix_rules_compile(),
        r matches Some(v) ==> fix_findings_view(v@) == fix_findings(
            fix_rule_table(),
            sast_files(entries@, strings_view(ignore_dirs@), fix_rule_table()),
        ),
{
    let ghost iv = strings_view(ignore_dirs@);
    let ghost rv = fix_rule_table();
    let rules = fix_rules();
    let pats = match compile_rules(&rules) {
        Some(p) => p,
        None => {
            proof {
                assert(!crate::sast::all_compile(rv));
            }
            return None;
        },
    };
    let defaults: Vec<&str> = vec!["vendor/", "node_modules/", ".git/", "target/", "dist/", "build/"];
    proof {
        assert(strs_view(defaults@) =~= fix_skip_dirs());
    }
    let mut fs: Vec<FixFinding> = Vec::new();
    let mut i: usize = 0;
    proof {
        assert(entries@.take(0) =~= Seq::<TreeEntry>::empty());
        assert(fix_findings_view(fs@) =~= Seq::<FixFindingView>::empty());
    }
    while i < entries.len()
        invariant
            i <= entries@.len(),
            iv == strings_view(ignore_dirs@),
            rv == fix_rule_table(),
            rv == rules_view(rules@),
            strs_view(defaults@) == fix_skip_dirs(),
            pats@.len() == rules@.len(),
            forall|i: int| 0 <= i < pats@.len() ==> (#[trigger] pats@[i]).source() == rules@[i].pattern@,
            fix_findings_view(fs@) == fix_findings(rv, sast_files(entries@.take(i as int), iv, rv)),
        decreases entries@.len() - i,
    {
        let e = &entries[i];
        proof {
            assert(entries@.take(i + 1).drop_last() =~= entries@.take(i as int));
            assert(entries@.take(i + 1).last() == *e);
        }
        let ghost files = sast_files(entries@.take(i as int), iv, rv);
        let mut path = chars_of(e.dir.as_str());
        extend_str(&mut path, e.name.as_str());
        assert(path@ == entry_path(*e));
        if !is_skipped(&path, defaults.as_slice(), ignore_dirs.as_slice()) && !is_test_path_exec(&path)
            && crate::sast::any_rule_applies_exec(&rules, &path) {
            proof {
                assert(files.push(*e).drop_last() =~= files);
            }
            match &e.content {
                BlobContent::Text(c) => {
                    let hs = file_hits_exec(&rules, &pats, &path, c.as_str(), false);
                    let ls = crate::text::lines_of(c.as_str());
                    let ghost lv = lines(c@);
                    let ghost hv = file_hits(rv, path@, lv, false);
                    let ghost before = fix_findings_view(fs@);
                    let mut k: usize = 0;
                    while k < hs.len()
                        invariant
                            k <= hs@.len(),
                            hs@.len() == hv.len(),
                            forall|j: int| 0 <= j < hs@.len() ==> (hs@[j].0 as nat, hs@[j].1 as nat) == #[trigger] hv[j],
                            hv == file_hits(rv, path@, lv, false),
                            views(ls@) == lv,
                            rv == rules_view(rules@),
                            fix_findings_view(fs@) == before + fix_hit_findings(rv, path@, lv, hv.take(k as int)),
                        decreases hs@.len() - k,
                    {
                        let (ln, ri) = hs[k];
                        proof {
                            assert(hv[k as int] == (ln as nat, ri as nat));
                            lemma_hit_rule_index(rv, path@, lv, false, k as int);
                            assert(rv[ri as int] == crate::sast::rule_view(rules@[ri as int]));
                        }
                        let rule = &rules[ri];
                        let src = trim_exec(&ls[ln - 1]);
                        proof {
                            assert(lv[ln - 1] == ls@[ln - 1]@);
                        }
                        let ghost fv0 = fix_findings_view(fs@);
                        fs.push(FixFinding {
                            file: string_of(&path),
                            line: ln,
                            rule_name: rule.name,
                            severity: rule.severity,
                            description: rule.description,
                            source_line: string_of(&src),
                        });
                        proof {
                            let nf = fix_findings_view(fs@)[fv0.len() as int];
                            assert(nf == fix_hit_findings(rv, path@, lv, hv.take(k + 1))[k as int]);
                            assert(fix_findings_view(fs@) =~= fv0.push(nf));
                            assert(fix_hit_findings(rv, path@, lv, hv.take(k + 1)) =~= fix_hit_findings(
                                rv,
                                path@,
                                lv,
                                hv.take(k as int),
                            ).push(nf));
                        }
                        k += 1;
                    }
                    proof {
                        assert(hv.take(hs@.len() as int) =~= hv);
                    }
                },
                _ => {
                    proof {
                        assert(fix_findings_view(fs@) =~= fix_findings_view(fs@) + fix_entry_findings(rv, *e));
                    }
                },
            }
        }
        i += 1;
    }
    proof {
        assert(entries@.take(entries@.len() as int) =~= entries@);
    }
    Some(fs)
}

/// A dependency's texts: name, version, lockfile.
pub type DepView = (Seq<char>, Seq<char>, Seq<char>);

/// The ecosystem whose packages a lockfile lists.
pub open spec fn source_ecosystem(source: Seq<char>) -> Seq<char> {
    if source == "Cargo.lock"@ {
        "crates.io"@
    } else if source == "package-lock.json"@ {
        "npm"@
    } else if source == "go.sum"@ {
        "go"@
    } else if source == "requirements.txt"@ {
        "pypi"@
    } else {
        Seq::empty()
    }
}

fn source_ecosystem_exec(source: &str) -> (r: &'static str)
    ensures
        r@ == source_ecosystem(source@),
{
    let c = chars_of(source);
    if crate::text::eq_str(&c, "Cargo.lock") {
        "crates.io"
    } else if crate::text::eq_str(&c, "package-lock.json") {
        "npm"
    } else if crate::text::eq_str(&c, "go.sum") {
        "go"
    } else if crate::text::eq_str(&c, "requirements.txt") {
        "pypi"
    } else {
        proof {
            reveal_strlit("");
        }
        ""
    }
}

/// The advisories a dependency is affected by: same package name ignoring
/// case, the ecosystem of the dependency's lockfile, and a version below the
/// first unaffected one; in table order.
pub open spec fn dep_advisories(cves: Seq<Seq<Seq<char>>>, d: DepView) -> Seq<(Seq<Seq<char>>, DepView)>
    decreases cves.len(),
{
    if cves.len() == 0 {
        Seq::empty()
    } else {
        let prev = dep_advisories(cves.drop_last(), d);
        let c = cves.last();
        if lowercase(c[0]) == lowercase(d.0) && c[1] == source_ecosystem(d.2) && version_lt(d.1, c[2]) {
            prev.push((c, d))
        } else {
            prev
        }
    }
}

/// Every (advisory, dependency) match, dependency by dependency.
pub open spec fn advisory_matches(cves: Seq<Seq<Seq<char>>>, deps: Seq<DepView>) -> Seq<(Seq<Seq<char>>, DepView)>
    decreases deps.len(),
{
    if deps.len() == 0 {
        Seq::empty()
    } else {
        advisory_matches(cves, deps.drop_last()) + dep_advisories(cves, deps.last())
    }
}

/// Rows of the advisory table: package, current version, upgrade target, identifier, severity.
pub open spec fn advisory_rows(ms: Seq<(Seq<Seq<char>>, DepView)>) -> Seq<Seq<Seq<char>>> {
    Seq::new(ms.len(), |k: int| seq![ms[k].1.0, ms[k].1.1, "→ "@ + ms[k].0[3], ms[k].0[4], ms[k].0[5]])
}

/// The command that upgrades a package, by its lockfile; empty for another file.
pub open spec fn upgrade_command(source: Seq<char>, name: Seq<char>, fixed: Seq<char>) -> Seq<char> {
    if source == "Cargo.lock"@ {
        "        Run: cargo update -p "@ + name + " --precise "@ + fixed
    } else if source == "package-lock.json"@ {
        "        Run: npm install "@ + name + "@"@ + fixed
    } else if source == "go.sum"@ {
        "        Run: go get "@ + name + "@v"@ + fixed
    } else if source == "requirements.txt"@ {
        "        Run: pip install "@ + name + "=="@ + fixed
    } else {
        Seq::empty()
    }
}

/// The remediation lines of one match.
pub open spec fn remediation_step(c: Seq<Seq<char>>, d: DepView) -> Seq<Seq<char>> {
    let cmd = upgrade_command(d.2, d.0, c[3]);
    seq!["      \x1b[33m"@ + d.0 + "\x1b[0m "@ + d.1 + " → "@ + c[3], "        "@ + c[4] + ": "@ + c[6]]
        + if cmd.len() > 0 {
        seq!["\x1b[2m"@ + cmd + "\x1b[0m"@]
    } else {
        Seq::empty()
    } + seq![""@]
}

/// The remediation lines of the matches, in order.
pub open spec fn remediation_steps(ms: Seq<(Seq<Seq<char>>, DepView)>) -> Seq<Seq<char>>
    decreases ms.len(),
{
    if ms.len() == 0 {
        Seq::empty()
    } else {
        remediation_steps(ms.drop_last()) + remediation_step(ms.last().0, ms.last().1)
    }
}

/// The headers of the advisory table.
pub open spec fn advisory_headers() -> Seq<Seq<char>> {
    seq!["Package"@, "Current"@, "Upgrade To"@, "CVE"@, "Severity"@]
}

/// The dependency advisory part of the report.
pub open spec fn advisory_section(ms: Seq<(Seq<Seq<char>>, DepView)>) -> Seq<Seq<char>> {
    seq![""@, "    \x1b[1mDependency CVE Check:\x1b[0m"@] + if ms.len() == 0 {
        seq![ok_line("No known CVEs found in current dependencies"@)]
    } else {
        seq![warning_line(decimal(ms.len()) + " dependencies with known CVEs:"@), ""@] + table_lines_v(
            advisory_headers(),
            advisory_rows(ms),
        ) + seq![""@, "    \x1b[1mRemediation Steps:\x1b[0m"@] + remediation_steps(ms)
    }
}

/// The lines of one complex function: where it is, and how to simplify it.
pub open spec fn complex_lines(f: FuncView) -> Seq<Seq<char>> {
    seq![
        "      \x1b[33m"@ + f.0 + ":"@ + decimal(f.2) + "\x1b[0m  fn \x1b[1m"@ + f.1
            + "\x1b[0m (complexity: \x1b[31m"@ + decimal(f.3) + "\x1b[0m)"@,
        "        \x1b[2m→ "@ + refactoring_hint_spec(f.0, f.3) + "\x1b[0m"@,
        ""@,
    ]
}

/// The lines of the functions, in order.
pub open spec fn complex_list(fs: Seq<FuncView>) -> Seq<Seq<char>>
    decreases fs.len(),
{
    if fs.len() == 0 {
        Seq::empty()
    } else {
        complex_list(fs.drop_last()) + complex_lines(fs.last())
    }
}

/// The refactoring part of the report: the first 15 complex functions.
pub open spec fn refactoring_section(fs: Seq<FuncView>) -> Seq<Seq<char>> {
    seq![""@, "    \x1b[1mRefactoring Suggestions (Complex Functions):\x1b[0m"@] + if fs.len() == 0 {
        seq![ok_line("No functions exceed the complexity threshold"@)]
    } else {
        seq![warning_line(decimal(fs.len()) + " functions exceed complexity threshold of 10:"@), ""@]
            + complex_list(if fs.len() <= 15 { fs } else { fs.take(15) }) + if fs.len() > 15 {
            seq![info_line("... and "@ + decimal((fs.len() - 15) as nat) + " more complex functions"@)]
        } else {
            Seq::empty()
        }
    }
}

/// A source line as the guidance quotes it: cut to its first 77 bytes and
/// "..." when it is longer than 80 bytes.
pub open spec fn code_excerpt(src: Seq<char>) -> Seq<char> {
    if utf8_len(src) > 80 {
        byte_prefix(src, 77) + "..."@
    } else {
        src
    }
}

/// The first remediation, from index `k` on, whose pattern name the
/// lower-cased rule name contains (ignoring case).
pub open spec fn remediation_for(table: Seq<(Seq<char>, Seq<char>, Seq<char>)>, lower_rule: Seq<char>, k: int) -> Option<(Seq<char>, Seq<char>, Seq<char>)>
    decreases table.len() - k,
{
    if k < 0 || k >= table.len() {
        None
    } else if contains(lower_rule, lowercase(table[k].0)) {
        Some(table[k])
    } else {
        remediation_for(table, lower_rule, k + 1)
    }
}

/// The guidance lines of one finding.
pub open spec fn guidance_lines(f: FixFindingView) -> Seq<Seq<char>> {
    seq![
        "      \x1b[33m"@ + f.0 + ":L"@ + decimal(f.1) + "\x1b[0m ["@ + f.3 + "] "@ + f.2,
        "        \x1b[2mCode: "@ + code_excerpt(f.5) + "\x1b[0m"@,
    ] + match remediation_for(remediation_table(), lowercase(f.2), 0) {
        Some(r) => seq!["        \x1b[32m→ Fix: "@ + r.1 + "\x1b[0m"@, "        \x1b[2m  Example: "@ + r.2 + "\x1b[0m"@],
        None => seq!["        \x1b[32m→ "@ + f.4 + "\x1b[0m"@],
    } + seq![""@]
}

/// The guidance lines of the findings, in order.
pub open spec fn guidance_list(fs: Seq<FixFindingView>) -> Seq<Seq<char>>
    decreases fs.len(),
{
    if fs.len() == 0 {
        Seq::empty()
    } else {
        guidance_list(fs.drop_last()) + guidance_lines(fs.last())
    }
}

/// At most the first 20 findings.
pub open spec fn shown_findings(fs: Seq<FixFindingView>) -> Seq<FixFindingView> {
    if fs.len() <= 20 {
        fs
    } else {
        fs.take(20)
    }
}

/// The remediation guidance part of the report: the first 20 findings.
pub open spec fn guidance_section(fs: Seq<FixFindingView>) -> Seq<Seq<char>> {
    seq![""@, "    \x1b[1mSAST Remediation Guidance:\x1b[0m"@] + if fs.len() == 0 {
        seq![ok_line("No SAST findings requiring remediation"@)]
    } else {
        seq![warning_line(decimal(fs.len()) + " SAST findings with remediation guidance:"@), ""@]
            + guidance_list(shown_findings(fs)) + if fs.len() > 20 {
            seq![info_line("... and "@ + decimal((fs.len() - 20) as nat) + " more findings"@)]
        } else {
            Seq::empty()
        }
    }
}

/// Every quoted source line longer than 80 bytes can be cut at byte 77.
pub open spec fn excerpts_cuttable(fs: Seq<FixFindingView>) -> bool {
    forall|k: int| 0 <= k < shown_findings(fs).len() && utf8_len(#[trigger] shown_findings(fs)[k].5) > 80 ==> is_boundary(
        shown_findings(fs)[k].5,
        77,
    )
}

/// The fix suggestion report.
pub open spec fn autofix_report_lines(
    ms: Seq<(Seq<Seq<char>>, DepView)>,
    complex: Seq<FuncView>,
    fs: Seq<FixFindingView>,
) -> Seq<Seq<char>> {
    sub_header_lines("Fix Suggestions & Autofix"@) + advisory_section(ms) + refactoring_section(complex)
        + guidance_section(fs)
}

/// The advisory table's texts.
pub open spec fn cves_view(cves: Seq<KnownCve>) -> Seq<Seq<Seq<char>>> {
    Seq::new(cves.len(), |i: int| cve_view(cves[i]))
}

/// The matches named by (advisory index, dependency index) pairs.
pub open spec fn matches_view(idx: Seq<(usize, usize)>, cves: Seq<KnownCve>, deps: Seq<DepInfo>) -> Seq<(Seq<Seq<char>>, DepView)> {
    Seq::new(idx.len(), |k: int| (cve_view(cves[idx[k].0 as int]), deps_view(deps)[idx[k].1 as int]))
}

/// [`advisory_matches`], as index pairs.
fn advisory_matches_exec(deps: &Vec<DepInfo>, cves: &Vec<KnownCve>) -> (r: Vec<(usize, usize)>)
    ensures
        forall|k: int| 0 <= k < r@.len() ==> (#[trigger] r@[k]).0 < cves@.len() && r@[k].1 < deps@.len(),
        matches_view(r@, cves@, deps@) == advisory_matches(cves_view(cves@), deps_view(deps@)),
{
    let ghost cv = cves_view(cves@);
    let ghost dv = deps_view(deps@);
    let mut lowers: Vec<String> = Vec::new();
    let mut q: usize = 0;
    while q < cves.len()
        invariant
            q <= cves@.len(),
            lowers@.len() == q,
            forall|m: int| 0 <= m < q ==> (#[trigger] lowers@[m])@ == lowercase(cves@[m].package@),
        decreases cves@.len() - q,
    {
        lowers.push(to_lower(cves[q].package));
        q += 1;
    }
    let mut r: Vec<(usize, usize)> = Vec::new();
    let mut i: usize = 0;
    proof {
        assert(dv.take(0) =~= Seq::<DepView>::empty());
        assert(matches_view(r@, cves@, deps@) =~= Seq::<(Seq<Seq<char>>, DepView)>::empty());
    }
    while i < deps.len()
        invariant
            i <= deps@.len(),
            cv == cves_view(cves@),
            dv == deps_view(deps@),
            lowers@.len() == cves@.len(),
            forall|m: int| 0 <= m < cves@.len() ==> (#[trigger] lowers@[m])@ == lowercase(cves@[m].package@),
            forall|k: int| 0 <= k < r@.len() ==> (#[trigger] r@[k]).0 < cves@.len() && r@[k].1 < deps@.len(),
            matches_view(r@, cves@, deps@) == advisory_matches(cv, dv.take(i as int)),
        decreases deps@.len() - i,
    {
        proof {
            assert(dv.take(i + 1).drop_last() =~= dv.take(i as int));
            assert(dv.take(i + 1).last() == dv[i as int]);
        }
        let ghost d = dv[i as int];
        let ghost base = matches_view(r@, cves@, deps@);
        let dl = to_lower(deps[i].name.as_str());
        let dlc = chars_of(dl.as_str());
        let eco = chars_of(source_ecosystem_exec(deps[i].source.as_str()));
        let mut j: usize = 0;
        proof {
            assert(cv.take(0) =~= Seq::<Seq<Seq<char>>>::empty());
            assert(matches_view(r@, cves@, deps@) =~= base + dep_advisories(cv.take(0), d));
        }
        while j < cves.len()
            invariant
                j <= cves@.len(),
                i < deps@.len(),
                cv == cves_view(cves@),
                dv == deps_view(deps@),
                d == dv[i as int],
                dlc@ == lowercase(deps@[i as int].name@),
                eco@ == source_ecosystem(deps@[i as int].source@),
                lowers@.len() == cves@.len(),
                forall|m: int| 0 <= m < cves@.len() ==> (#[trigger] lowers@[m])@ == lowercase(cves@[m].package@),
                forall|k: int| 0 <= k < r@.len() ==> (#[trigger] r@[k]).0 < cves@.len() && r@[k].1 < deps@.len(),
                matches_view(r@, cves@, deps@) == base + dep_advisories(cv.take(j as int), d),
            decreases cves@.len() - j,
        {
            proof {
                assert(cv.take(j + 1).drop_last() =~= cv.take(j as int));
                assert(cv.take(j + 1).last() == cv[j as int]);
                assert(cv[j as int] == cve_view(cves@[j as int]));
            }
            let lc = chars_of(lowers[j].as_str());
            let ec = chars_of(cves[j].ecosystem);
            if crate::text::seq_eq(&lc, &dlc) && crate::text::seq_eq(&ec, &eco) && version_less_than(
                deps[i].version.as_str(),
                cves[j].affected_below,
            ) {
                let ghost before = matches_view(r@, cves@, deps@);
                r.push((j, i));
                proof {
                    assert(matches_view(r@, cves@, deps@) =~= before.push((cv[j as int], d)));
                }
            }
            j += 1;
        }
        proof {
            assert(cv.take(cves@.len() as int) =~= cv);
        }
        i += 1;
    }
    proof {
        assert(dv.take(deps@.len() as int) =~= dv);
    }
    r
}

fn advisory_rows_exec(idx: &Vec<(usize, usize)>, cves: &Vec<KnownCve>, deps: &Vec<DepInfo>) -> (r: Vec<Vec<String>>)
    requires
        forall|k: int| 0 <= k < idx@.len() ==> (#[trigger] idx@[k]).0 < cves@.len() && idx@[k].1 < deps@.len(),
    ensures
        rows_view(r@) == advisory_rows(matches_view(idx@, cves@, deps@)),
{
    let ghost ms = matches_view(idx@, cves@, deps@);
    let mut r: Vec<Vec<String>> = Vec::new();
    let mut k: usize = 0;
    while k < idx.len()
        invariant
            k <= idx@.len(),
            ms == matches_view(idx@, cves@, deps@),
            forall|k: int| 0 <= k < idx@.len() ==> (#[trigger] idx@[k]).0 < cves@.len() && idx@[k].1 < deps@.len(),
            r@.len() == k,
            forall|m: int| 0 <= m < k ==> #[trigger] rows_view(r@)[m] == advisory_rows(ms)[m],
        decreases idx@.len() - k,
    {
        let (ci, di) = idx[k];
        assert(idx@[k as int] == (ci, di));
        let c = &cves[ci];
        let d = &deps[di];
        let mut row: Vec<String> = Vec::new();
        row.push(d.name.clone());
        row.push(d.version.clone());
        let mut up: Vec<char> = Vec::new();
        extend_str(&mut up, "→ ");
        extend_str(&mut up, c.fixed_version);
        row.push(string_of(&up));
        row.push(c.cve_id.to_string());
        row.push(c.severity.to_string());
        let ghost before = r@;
        r.push(row);
        proof {
            assert(ms[k as int] == (cve_view(*c), deps_view(deps@)[di as int]));
            assert forall|m: int| 0 <= m < k + 1 implies #[trigger] rows_view(r@)[m] == advisory_rows(ms)[m] by {
                if m < k {
                    assert(r@[m] == before[m]);
                    assert(rows_view(r@)[m] == rows_view(before)[m]);
                } else {
                    assert(rows_view(r@)[m] =~= advisory_rows(ms)[m]);
                }
            }
        }
        k += 1;
    }
    proof {
        assert(rows_view(r@) =~= advisory_rows(ms));
    }
    r
}

fn upgrade_command_exec(source: &str, name: &str, fixed: &str) -> (r: Vec<char>)
    ensures
        r@ == upgrade_command(source@, name@, fixed@),
{
    let sc = chars_of(source);
    let mut r: Vec<char> = Vec::new();
    if crate::text::eq_str(&sc, "Cargo.lock") {
        extend_str(&mut r, "        Run: cargo update -p ");
        extend_str(&mut r, name);
        extend_str(&mut r, " --precise ");
        extend_str(&mut r, fixed);
    } else if crate::text::eq_str(&sc, "package-lock.json") {
        extend_str(&mut r, "        Run: npm install ");
        extend_str(&mut r, name);
        extend_str(&mut r, "@");
        extend_str(&mut r, fixed);
    } else if crate::text::eq_str(&sc, "go.sum") {
        extend_str(&mut r, "        Run: go get ");
        extend_str(&mut r, name);
        extend_str(&mut r, "@v");
        extend_str(&mut r, fixed);
    } else if crate::text::eq_str(&sc, "requirements.txt") {
        extend_str(&mut r, "        Run: pip install ");
        extend_str(&mut r, name);
        extend_str(&mut r, "==");
        extend_str(&mut r, fixed);
    }
    proof {
        assert(r@ =~= upgrade_command(source@, name@, fixed@));
    }
    r
}

fn remediation_steps_exec(idx: &Vec<(usize, usize)>, cves: &Vec<KnownCve>, deps: &Vec<DepInfo>) -> (r: Vec<Vec<char>>)
    requires
        forall|k: int| 0 <= k < idx@.len() ==> (#[trigger] idx@[k]).0 < cves@.len() && idx@[k].1 < deps@.len(),
    ensures
        views(r@) == remediation_steps(matches_view(idx@, cves@, deps@)),
{
    let ghost ms = matches_view(idx@, cves@, deps@);
    let mut r: Vec<Vec<char>> = Vec::new();
    let mut k: usize = 0;
    proof {
        assert(ms.take(0) =~= Seq::<(Seq<Seq<char>>, DepView)>::empty());
    }
    while k < idx.len()
        invariant
            k <= idx@.len(),
            ms == matches_view(idx@, cves@, deps@),
            forall|k: int| 0 <= k < idx@.len() ==> (#[trigger] idx@[k]).0 < cves@.len() && idx@[k].1 < deps@.len(),
            views(r@) == remediation_steps(ms.take(k as int)),
        decreases idx@.len() - k,
    {
        proof {
            assert(ms.take(k + 1).drop_last() =~= ms.take(k as int));
            assert(ms.take(k + 1).last() == ms[k as int]);
        }
        let (ci, di) = idx[k];
        assert(idx@[k as int] == (ci, di));
        let c = &cves[ci];
        let d = &deps[di];
        let ghost base = views(r@);
        let mut l1: Vec<char> = Vec::new();
        extend_str(&mut l1, "      \x1b[33m");
        extend_str(&mut l1, d.name.as_str());
        extend_str(&mut l1, "\x1b[0m ");
        extend_str(&mut l1, d.version.as_str());
        extend_str(&mut l1, " → ");
        extend_str(&mut l1, c.fixed_version);
        push_line(&mut r, l1);
        let mut l2: Vec<char> = Vec::new();
        extend_str(&mut l2, "        ");
        extend_str(&mut l2, c.cve_id);
        extend_str(&mut l2, ": ");
        extend_str(&mut l2, c.summary);
        push_line(&mut r, l2);
        let cmd = upgrade_command_exec(d.source.as_str(), d.name.as_str(), c.fixed_version);
        if cmd.len() > 0 {
            let mut l3: Vec<char> = Vec::new();
            extend_str(&mut l3, "\x1b[2m");
            extend(&mut l3, &cmd);
            extend_str(&mut l3, "\x1b[0m");
            push_line(&mut r, l3);
        }
        push_line(&mut r, str_line(""));
        proof {
            assert(ms[k as int] == (cve_view(*c), deps_view(deps@)[di as int]));
            assert(views(r@) =~= base + remediation_step(ms[k as int].0, ms[k as int].1));
        }
        k += 1;
    }
    proof {
        assert(ms.take(idx@.len() as int) =~= ms);
    }
    r
}

/// The advisory section, given the matches and their printable table.
fn advisory_section_exec(idx: &Vec<(usize, usize)>, cves: &Vec<KnownCve>, deps: &Vec<DepInfo>, rows: &Vec<Vec<String>>) -> (r: Vec<Vec<char>>)
    requires
        forall|k: int| 0 <= k < idx@.len() ==> (#[trigger] idx@[k]).0 < cves@.len() && idx@[k].1 < deps@.len(),
        rows_view(rows@) == advisory_rows(matches_view(idx@, cves@, deps@)),
        cells_cuttable_v(rows_view(rows@)),
    ensures
        views(r@) == advisory_section(matches_view(idx@, cves@, deps@)),
{
    let ghost ms = matches_view(idx@, cves@, deps@);
    let mut r: Vec<Vec<char>> = Vec::new();
    push_line(&mut r, str_line(""));
    push_line(&mut r, str_line("    \x1b[1mDependency CVE Check:\x1b[0m"));
    if idx.len() == 0 {
        push_line(&mut r, ok_line_exec("No known CVEs found in current dependencies"));
        proof {
            assert(views(r@) =~= advisory_section(ms));
        }
    } else {
        let mut m = decimal_exec(idx.len());
        extend_str(&mut m, " dependencies with known CVEs:");
        push_line(&mut r, warning_line_exec(&m));
        push_line(&mut r, str_line(""));
        let h: Vec<&str> = vec!["Package", "Current", "Upgrade To", "CVE", "Severity"];
        push_lines(&mut r, table_lines_exec(h.as_slice(), rows.as_slice()));
        push_line(&mut r, str_line(""));
        push_line(&mut r, str_line("    \x1b[1mRemediation Steps:\x1b[0m"));
        push_lines(&mut r, remediation_steps_exec(idx, cves, deps));
        proof {
            assert(headers_view(h@) =~= advisory_headers());
            assert(views(r@) =~= advisory_section(ms));
        }
    }
    r
}

fn complex_lines_exec(f: &ComplexFunction) -> (r: Vec<Vec<char>>)
    ensures
        views(r@) == complex_lines((f.file@, f.name@, f.line as nat, f.complexity as nat)),
{
    let mut r: Vec<Vec<char>> = Vec::new();
    let mut l1: Vec<char> = Vec::new();
    extend_str(&mut l1, "      \x1b[33m");
    extend_str(&mut l1, f.file.as_str());
    extend_str(&mut l1, ":");
    extend(&mut l1, &decimal_exec(f.line));
    extend_str(&mut l1, "\x1b[0m  fn \x1b[1m");
    extend_str(&mut l1, f.name.as_str());
    extend_str(&mut l1, "\x1b[0m (complexity: \x1b[31m");
    extend(&mut l1, &decimal_exec(f.complexity));
    extend_str(&mut l1, "\x1b[0m)");
    push_line(&mut r, l1);
    let hint = refactoring_hint(f);
    let mut l2: Vec<char> = Vec::new();
    extend_str(&mut l2, "        \x1b[2m→ ");
    extend_str(&mut l2, hint.as_str());
    extend_str(&mut l2, "\x1b[0m");
    push_line(&mut r, l2);
    push_line(&mut r, str_line(""));
    proof {
        assert(views(r@) =~= complex_lines((f.file@, f.name@, f.line as nat, f.complexity as nat)));
    }
    r
}

/// [`refactoring_section`].
fn refactoring_section_exec(fs: &Vec<ComplexFunction>) -> (r: Vec<Vec<char>>)
    ensures
        views(r@) == refactoring_section(funcs_view(fs@)),
{
    let ghost fv = funcs_view(fs@);
    let mut r: Vec<Vec<char>> = Vec::new();
    push_line(&mut r, str_line(""));
    push_line(&mut r, str_line("    \x1b[1mRefactoring Suggestions (Complex Functions):\x1b[0m"));
    if fs.len() == 0 {
        push_line(&mut r, ok_line_exec("No functions exceed the complexity threshold"));
        proof {
            assert(views(r@) =~= refactoring_section(fv));
        }
        return r;
    }
    let mut m = decimal_exec(fs.len());
    extend_str(&mut m, " functions exceed complexity threshold of 10:");
    push_line(&mut r, warning_line_exec(&m));
    push_line(&mut r, str_line(""));
    let ghost head = views(r@);
    let ghost shown = if fv.len() <= 15 { fv } else { fv.take(15) };
    let n: usize = if fs.len() <= 15 { fs.len() } else { 15 };
    assert(shown.len() == n);
    let mut k: usize = 0;
    proof {
        assert(shown.take(0) =~= Seq::<FuncView>::empty());
        assert(views(r@) =~= head + complex_list(shown.take(0)));
    }
    while k < n
        invariant
            k <= n,
            n <= fs@.len(),
            fv == funcs_view(fs@),
            shown.len() == n,
            forall|m: int| 0 <= m < n ==> #[trigger] shown[m] == fv[m],
            views(r@) == head + complex_list(shown.take(k as int)),
        decreases n - k,
    {
        proof {
            assert(shown.take(k + 1).drop_last() =~= shown.take(k as int));
            assert(shown.take(k + 1).last() == shown[k as int]);
            assert(shown[k as int] == fv[k as int]);
        }
        let more = complex_lines_exec(&fs[k]);
        push_lines(&mut r, more);
        k += 1;
    }
    proof {
        assert(shown.take(n as int) =~= shown);
    }
    let ghost body = views(r@);
    if fs.len() > 15 {
        let mut l: Vec<char> = Vec::new();
        extend_str(&mut l, "... and ");
        extend(&mut l, &decimal_exec(fs.len() - 15));
        extend_str(&mut l, " more complex functions");
        push_line(&mut r, info_line_exec(&l));
    }
    proof {
        assert(views(r@) =~= refactoring_section(fv));
    }
    r
}

/// [`remediation_for`] from the first entry on.
fn remediation_for_exec(rems: &Vec<SastRemediation>, rule_name: &str) -> (r: Option<usize>)
    requires
        Seq::new(rems@.len(), |i: int| remediation_view(rems@[i])) == remediation_table(),
    ensures
        r matches Some(k) ==> k < rems@.len() && remediation_for(remediation_table(), lowercase(rule_name@), 0)
            == Some(remediation_view(rems@[k as int])),
        r is None ==> remediation_for(remediation_table(), lowercase(rule_name@), 0) is None,
{
    let ghost table = remediation_table();
    let lower = to_lower(rule_name);
    let lc = chars_of(lower.as_str());
    let mut k: usize = 0;
    while k < rems.len()
        invariant
            k <= rems@.len(),
            table == remediation_table(),
            Seq::new(rems@.len(), |i: int| remediation_view(rems@[i])) == table,
            lc@ == lowercase(rule_name@),
            remediation_for(table, lc@, 0) == remediation_for(table, lc@, k as int),
        decreases rems@.len() - k,
    {
        assert(table[k as int] == remediation_view(rems@[k as int]));
        let pl = to_lower(rems[k].pattern_name);
        let pc = chars_of(pl.as_str());
        if contains_exec(&lc, &pc) {
            return Some(k);
        }
        k += 1;
    }
    None
}

/// [`code_excerpt`], for a line that can be cut where it must be.
fn code_excerpt_exec(src: &str) -> (r: Vec<char>)
    requires
        utf8_len(src@) > 80 ==> is_boundary(src@, 77),
    ensures
        r@ == code_excerpt(src@),
{
    let c = chars_of(src);
    if utf8_len_capped_exec(&c, 81) > 80 {
        let mut r = byte_prefix_exec(&c, 77);
        extend_str(&mut r, "...");
        proof {
            assert(r@ =~= code_excerpt(src@));
        }
        r
    } else {
        c
    }
}

fn guidance_lines_exec(f: &FixFinding, rems: &Vec<SastRemediation>) -> (r: Vec<Vec<char>>)
    requires
        Seq::new(rems@.len(), |i: int| remediation_view(rems@[i])) == remediation_table(),
        utf8_len(f.source_line@) > 80 ==> is_boundary(f.source_line@, 77),
    ensures
        views(r@) == guidance_lines(
            (f.file@, f.line as nat, f.rule_name@, f.severity@, f.description@, f.source_line@),
        ),
{
    let mut r: Vec<Vec<char>> = Vec::new();
    let mut l1: Vec<char> = Vec::new();
    extend_str(&mut l1, "      \x1b[33m");
    extend_str(&mut l1, f.file.as_str());
    extend_str(&mut l1, ":L");
    extend(&mut l1, &decimal_exec(f.line));
    extend_str(&mut l1, "\x1b[0m [");
    extend_str(&mut l1, f.severity);
    extend_str(&mut l1, "] ");
    extend_str(&mut l1, f.rule_name);
    push_line(&mut r, l1);
    let mut l2: Vec<char> = Vec::new();
    extend_str(&mut l2, "        \x1b[2mCode: ");
    extend(&mut l2, &code_excerpt_exec(f.source_line.as_str()));
    extend_str(&mut l2, "\x1b[0m");
    push_line(&mut r, l2);
    let ghost head = views(r@);
    match remediation_for_exec(rems, f.rule_name) {
        Some(k) => {
            let rem = &rems[k];
            let mut a: Vec<char> = Vec::new();
            extend_str(&mut a, "        \x1b[32m→ Fix: ");
            extend_str(&mut a, rem.guidance);
            extend_str(&mut a, "\x1b[0m");
            push_line(&mut r, a);
            let mut b: Vec<char> = Vec::new();
            extend_str(&mut b, "        \x1b[2m  Example: ");
            extend_str(&mut b, rem.code_example);
            extend_str(&mut b, "\x1b[0m");
            push_line(&mut r, b);
        },
        None => {
            let mut a: Vec<char> = Vec::new();
            extend_str(&mut a, "        \x1b[32m→ ");
            extend_str(&mut a, f.description);
            extend_str(&mut a, "\x1b[0m");
            push_line(&mut r, a);
        },
    }
    push_line(&mut r, str_line(""));
    proof {
        assert(views(r@) =~= guidance_lines(
            (f.file@, f.line as nat, f.rule_name@, f.severity@, f.description@, f.source_line@),
        ));
    }
    r
}

/// [`guidance_section`], when every quoted line can be cut where it must be.
fn guidance_section_exec(fs: &Vec<FixFinding>, rems: &Vec<SastRemediation>) -> (r: Vec<Vec<char>>)
    requires
        Seq::new(rems@.len(), |i: int| remediation_view(rems@[i])) == remediation_table(),
        excerpts_cuttable(fix_findings_view(fs@)),
    ensures
        views(r@) == guidance_section(fix_findings_view(fs@)),
{
    let ghost fv = fix_findings_view(fs@);
    let mut r: Vec<Vec<char>> = Vec::new();
    push_line(&mut r, str_line(""));
    push_line(&mut r, str_line("    \x1b[1mSAST Remediation Guidance:\x1b[0m"));
    if fs.len() == 0 {
        push_line(&mut r, ok_line_exec("No SAST findings requiring remediation"));
        proof {
            assert(views(r@) =~= guidance_section(fv));
        }
        return r;
    }
    let mut m = decimal_exec(fs.len());
    extend_str(&mut m, " SAST findings with remediation guidance:");
    push_line(&mut r, warning_line_exec(&m));
    push_line(&mut r, str_line(""));
    let ghost head = views(r@);
    let ghost shown = shown_findings(fv);
    let n: usize = if fs.len() <= 20 { fs.len() } else { 20 };
    assert(shown.len() == n);
    let mut k: usize = 0;
    proof {
        assert(shown.take(0) =~= Seq::<FixFindingView>::empty());
        assert(views(r@) =~= head + guidance_list(shown.take(0)));
    }
    while k < n
        invariant
            k <= n,
            n <= fs@.len(),
            fv == fix_findings_view(fs@),
            shown == shown_findings(fv),
            shown.len() == n,
            excerpts_cuttable(fv),
            Seq::new(rems@.len(), |i: int| remediation_view(rems@[i])) == remediation_table(),
            views(r@) == head + guidance_list(shown.take(k as int)),
        decreases n - k,
    {
        proof {
            assert(shown.take(k + 1).drop_last() =~= shown.take(k as int));
            assert(shown.take(k + 1).last() == shown[k as int]);
            assert(shown[k as int] == fv[k as int]);
            assert(utf8_len(shown[k as int].5) > 80 ==> is_boundary(shown[k as int].5, 77));
        }
        let more = guidance_lines_exec(&fs[k], rems);
        push_lines(&mut r, more);
        k += 1;
    }
    proof {
        assert(shown.take(n as int) =~= shown);
    }
    if fs.len() > 20 {
        let mut l: Vec<char> = Vec::new();
        extend_str(&mut l, "... and ");
        extend(&mut l, &decimal_exec(fs.len() - 20));
        extend_str(&mut l, " more findings");
        push_line(&mut r, info_line_exec(&l));
    }
    proof {
        assert(views(r@) =~= guidance_section(fv));
    }
    r
}

/// Whether every quoted source line of the shown findings can be cut where it must be.
fn excerpts_cuttable_exec(fs: &Vec<FixFinding>) -> (r: bool)
    ensures
        r == excerpts_cuttable(fix_findings_view(fs@)),
{
    let ghost fv = fix_findings_view(fs@);
    let ghost shown = shown_findings(fv);
    let n: usize = if fs.len() <= 20 { fs.len() } else { 20 };
    assert(shown.len() == n);
    let mut k: usize = 0;
    while k < n
        invariant
            k <= n,
            n <= fs@.len(),
            fv == fix_findings_view(fs@),
            shown == shown_findings(fv),
            shown.len() == n,
            forall|m: int| 0 <= m < k && utf8_len(#[trigger] shown[m].5) > 80 ==> is_boundary(shown[m].5, 77),
        decreases n - k,
    {
        assert(shown[k as int] == fv[k as int]);
        let c = chars_of(fs[k].source_line.as_str());
        if utf8_len_capped_exec(&c, 81) > 80 && !is_boundary_exec(&c, 77) {
            proof {
                assert(shown_findings(fv)[k as int].5 == c@);
                assert(utf8_len(shown_findings(fv)[k as int].5) > 80);
                assert(!is_boundary(shown_findings(fv)[k as int].5, 77));
            }
            return false;
        }
        k += 1;
    }
    true
}

/// The fix suggestions for the repository tree (its files as the walk hands
/// them over, in walk order), skipping `ignore_dirs`: upgrades for
/// dependencies with known advisories, refactoring hints for functions more
/// complex than 10, and remediation guidance for risky source lines.
///
/// Returns `false`, writing nothing, where the report could not be made: a
/// pattern does not compile, a complexity exceeds `usize::MAX`, the advisory
/// table cannot be printed (a cell longer than 50 bytes that cannot be cut
/// at byte 49), or a quoted source line longer than 80 bytes cannot be cut
/// at byte 77.
pub fn autofix_scan(o: &mut Output, entries: &Vec<TreeEntry>, ignore_dirs: &Vec<String>) -> (ok: bool)
    ensures
        ({
            let iv = strings_view(ignore_dirs@);
            let ms = advisory_matches(cve_table(), collected_deps(entries@, iv));
            let complex = complex_functions(entries@, iv, 10);
            let fs = fix_findings(fix_rule_table(), sast_files(entries@, iv, fix_rule_table()));
            &&& ok == (complex is Some && fix_rules_compile() && cells_cuttable_v(advisory_rows(ms))
                && excerpts_cuttable(fs))
            &&& ok ==> final(o)@ == write_lines(old(o)@, autofix_report_lines(ms, complex->0, fs))
            &&& !ok ==> final(o)@ == old(o)@
        }),
{
    let ghost o0 = o@;
    let ghost iv = strings_view(ignore_dirs@);
    let deps = collect_deps(entries, ignore_dirs);
    let cves = known_cves();
    let idx = advisory_matches_exec(&deps, &cves);
    let ghost ms = matches_view(idx@, cves@, deps@);
    proof {
        assert(cves_view(cves@) == cve_table());
    }
    let rows = advisory_rows_exec(&idx, &cves, &deps);
    let ok1 = table_printable(rows.as_slice());
    proof {
        crate::display::lemma_table_view(Seq::<&str>::empty(), rows@);
    }
    let complex = find_complex_functions(entries, 10, ignore_dirs);
    let findings = collect_sast_findings(entries, ignore_dirs);
    let (complex, findings) = match (complex, findings) {
        (Some(c), Some(f)) => (c, f),
        _ => return false,
    };
    let ok2 = excerpts_cuttable_exec(&findings);
    if !(ok1 && ok2) {
        return false;
    }
    let rems = sast_remediations();
    let mut body: Vec<Vec<char>> = Vec::new();
    push_lines(&mut body, advisory_section_exec(&idx, &cves, &deps, &rows));
    push_lines(&mut body, refactoring_section_exec(&complex));
    push_lines(&mut body, guidance_section_exec(&findings, &rems));
    let ghost title = "Fix Suggestions & Autofix"@;
    proof {
        assert(sub_header_lines(title) + views(body@) =~= autofix_report_lines(
            ms,
            funcs_view(complex@),
            fix_findings_view(findings@),
        ));
    }
    crate::display::print_sub_header(o, "Fix Suggestions & Autofix");
    out_all(o, &body);
    proof {
        crate::display::lemma_write_lines_append(o0, sub_header_lines(title), views(body@));
    }
    true
}

} // verus!
