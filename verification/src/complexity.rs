//! Cyclomatic complexity: where functions start and end in source text, how
//! many branches their bodies hold, and the report on a tree's functions.
use vstd::prelude::*;
use crate::pattern::{regex_capture, regex_compiles, regex_match_count, Pattern};
use crate::autofix::ComplexFunction;
use crate::autofix::fix_skip_dirs;
use crate::display::{
    cells_cuttable_v, headers_view, info_line, info_line_exec, ok_line, ok_line_exec, out_all,
    push_line, push_lines, rows_view, str_line, sub_header_lines, summary_line_exec,
    summary_stat_line, table_lines_exec, table_lines_v, table_printable, warning_line,
    warning_line_exec, write_lines, Output,
};
use crate::sast::has_extension;
use crate::tree::{entry_path, is_skipped, skipped, strings_view, strs_view, BlobContent, TreeEntry};
use crate::text::{
    char_width, decimal, decimal_exec, extend, extend_str, lemma_total_len_subrange, lines, lemma_utf8_len_split, leading_ws, starts_with,
    starts_with_str, string_of, total_len, trim, trim_exec, trim_start, utf8_len, views,
};

verus! {

/// The brace depth a line adds: its `{` less its `}`.
pub open spec fn brace_delta(l: Seq<char>) -> int
    decreases l.len(),
{
    if l.len() == 0 {
        0
    } else {
        brace_delta(l.drop_last()) + if l.last() == '{' {
            1int
        } else if l.last() == '}' {
            -1int
        } else {
            0int
        }
    }
}

/// Per-line weights as natural numbers.
pub open spec fn weights(ws: Seq<usize>) -> Seq<nat> {
    Seq::new(ws.len(), |k: int| ws[k] as nat)
}

/// The scan of a brace-delimited body from line `j`, for the function whose
/// header is line `start`, with the depth and whether a `{` was seen so far:
/// the line where the body closes (depth back at or below zero after a `{`;
/// the number of lines when it never does), and the total weight of the
/// lines after `start` from the one holding the first `{` on.
pub open spec fn brace_scan(ls: Seq<Seq<char>>, w: Seq<nat>, start: int, j: int, depth: int, found: bool) -> (int, nat)
    decreases ls.len() - j,
{
    if j < 0 || j >= ls.len() {
        (ls.len() as int, 0)
    } else {
        let d = depth + brace_delta(ls[j]);
        let f = found || ls[j].contains('{');
        let add: nat = if f && j > start {
            w[j]
        } else {
            0
        };
        if f && d <= 0 {
            (j, add)
        } else {
            let r = brace_scan(ls, w, start, j + 1, d, f);
            (r.0, add + r.1)
        }
    }
}

/// The body scan ends at or after where it starts.
pub proof fn lemma_brace_scan_bounds(ls: Seq<Seq<char>>, w: Seq<nat>, start: int, j: int, depth: int, found: bool)
    requires
        0 <= j <= ls.len(),
    ensures
        j <= brace_scan(ls, w, start, j, depth, found).0 <= ls.len(),
    decreases ls.len() - j,
{
    if j < ls.len() {
        let d = depth + brace_delta(ls[j]);
        let f = found || ls[j].contains('{');
        if !(f && d <= 0) {
            lemma_brace_scan_bounds(ls, w, start, j + 1, d, f);
        }
    }
}

/// The indentation of a line: the bytes of its leading whitespace.
pub open spec fn indent(l: Seq<char>) -> int {
    utf8_len(l) - utf8_len(trim_start(l))
}

/// A line that is blank or a `#` comment once trimmed.
pub open spec fn is_blank_or_comment(l: Seq<char>) -> bool {
    trim(l).len() == 0 || starts_with(trim(l), "#"@)
}

/// The scan of an indented (Python) body from line `j`: the first line that
/// is neither blank nor a comment and is indented no deeper than `def_indent`
/// (the number of lines when there is none), and the total weight of the
/// lines before it that are neither blank nor comments.
pub open spec fn py_scan(ls: Seq<Seq<char>>, w: Seq<nat>, def_indent: int, j: int) -> (int, nat)
    decreases ls.len() - j,
{
    if j < 0 || j >= ls.len() {
        (ls.len() as int, 0)
    } else if is_blank_or_comment(ls[j]) {
        py_scan(ls, w, def_indent, j + 1)
    } else if indent(ls[j]) <= def_indent {
        (j, 0)
    } else {
        let r = py_scan(ls, w, def_indent, j + 1);
        (r.0, w[j] + r.1)
    }
}

/// The indented body scan ends at or after where it starts.
pub proof fn lemma_py_scan_bounds(ls: Seq<Seq<char>>, w: Seq<nat>, def_indent: int, j: int)
    requires
        0 <= j <= ls.len(),
    ensures
        j <= py_scan(ls, w, def_indent, j).0 <= ls.len(),
    decreases ls.len() - j,
{
    if j < ls.len() {
        if is_blank_or_comment(ls[j]) || indent(ls[j]) > def_indent {
            lemma_py_scan_bounds(ls, w, def_indent, j + 1);
        }
    }
}

/// The depth change and whether a `{` occurs, over a line.
fn line_braces(l: &Vec<char>) -> (r: (i128, bool))
    ensures
        r.0 == brace_delta(l@),
        r.1 == l@.contains('{'),
        -(l@.len() as int) <= r.0 <= l@.len(),
{
    let mut d: i128 = 0;
    let mut has = false;
    let mut k: usize = 0;
    proof {
        assert(l@.take(0) =~= Seq::<char>::empty());
    }
    while k < l.len()
        invariant
            k <= l@.len(),
            d == brace_delta(l@.take(k as int)),
            -(k as int) <= d <= k,
            has == (exists|m: int| 0 <= m < k && #[trigger] l@[m] == '{'),
        decreases l@.len() - k,
    {
        proof {
            assert(l@.take(k + 1).drop_last() =~= l@.take(k as int));
            assert(l@.take(k + 1).last() == l@[k as int]);
        }
        let c = l[k];
        if c == '{' {
            d = d + 1;
            has = true;
        } else if c == '}' {
            d = d - 1;
        }
        k += 1;
    }
    proof {
        assert(l@.take(l@.len() as int) =~= l@);
        if has {
            let m = choose|m: int| 0 <= m < l@.len() && #[trigger] l@[m] == '{';
            assert(l@.contains('{'));
        }
    }
    (d, has)
}

/// The end line and the complexity (one plus the counted weights; `None`
/// when it exceeds `usize::MAX`) of the brace-delimited function at `start`.
pub(crate) fn brace_scan_exec(ls: &Vec<Vec<char>>, ws: &Vec<usize>, start: usize) -> (r: (usize, Option<usize>))
    requires
        start < ls@.len(),
        ws@.len() == ls@.len(),
        total_len(views(ls@)) <= usize::MAX,
    ensures
        r.0 == brace_scan(views(ls@), weights(ws@), start as int, start as int, 0, false).0,
        r.1 is Some <==> 1 + brace_scan(views(ls@), weights(ws@), start as int, start as int, 0, false).1
            <= usize::MAX,
        r.1 matches Some(c) ==> c == 1 + brace_scan(views(ls@), weights(ws@), start as int, start as int, 0, false).1,
{
    let ghost lv = views(ls@);
    let ghost wv = weights(ws@);
    let ghost full = brace_scan(lv, wv, start as int, start as int, 0, false);
    let n = ls.len();
    let mut depth: i128 = 0;
    let mut found = false;
    let mut acc: Option<usize> = Some(1);
    let ghost mut sum: nat = 0;
    let mut j: usize = start;
    proof {
        assert(lv.subrange(start as int, start as int) =~= Seq::<Seq<char>>::empty());
    }
    loop
        invariant
            n == ls@.len(),
            lv == views(ls@),
            wv == weights(ws@),
            ws@.len() == n,
            total_len(lv) <= usize::MAX,
            start <= j <= n,
            full == brace_scan(lv, wv, start as int, start as int, 0, false),
            full.0 == brace_scan(lv, wv, start as int, j as int, depth as int, found).0,
            full.1 == sum + brace_scan(lv, wv, start as int, j as int, depth as int, found).1,
            acc matches Some(a) ==> a == 1 + sum,
            acc is None ==> 1 + sum > usize::MAX,
            -(total_len(lv.subrange(start as int, j as int)) as int) <= depth <= total_len(
                lv.subrange(start as int, j as int),
            ),
        decreases n - j,
    {
        if j >= n {
            proof {
                assert(brace_scan(lv, wv, start as int, j as int, depth as int, found) == (n as int, 0nat));
            }
            return (n, acc);
        }
        let (delta, has) = line_braces(&ls[j]);
        proof {
            assert(lv[j as int] == ls@[j as int]@);
            assert(lv.subrange(start as int, j + 1).drop_last() =~= lv.subrange(start as int, j as int));
            assert(lv.subrange(start as int, j + 1).last() == lv[j as int]);
            lemma_total_len_subrange(lv, start as int, j + 1);
        }
        let d = depth + delta;
        let f = found || has;
        let ghost add: nat = if f && j > start { wv[j as int] } else { 0 };
        if f && j > start {
            acc = match acc {
                Some(a) => a.checked_add(ws[j]),
                None => None,
            };
        }
        proof {
            sum = sum + add;
        }
        if f && d <= 0 {
            return (j, acc);
        }
        depth = d;
        found = f;
        j += 1;
    }
}

/// [`indent`].
fn indent_exec(l: &Vec<char>) -> (r: u128)
    ensures
        r == indent(l@),
{
    let k = leading_ws(l);
    let mut acc: u128 = 0;
    let mut i: usize = 0;
    proof {
        assert(l@.take(0) =~= Seq::<char>::empty());
    }
    while i < k
        invariant
            i <= k,
            k <= l@.len(),
            acc == utf8_len(l@.take(i as int)),
            acc <= 4 * i,
        decreases k - i,
    {
        proof {
            assert(l@.take(i + 1).drop_last() =~= l@.take(i as int));
            assert(l@.take(i + 1).last() == l@[i as int]);
        }
        let w = crate::text::char_width_exec(l[i]);
        acc = acc + w as u128;
        i += 1;
    }
    proof {
        lemma_utf8_len_split(l@, k as int);
        assert(l@.skip(k as int) =~= l@.subrange(k as int, l@.len() as int));
    }
    acc
}

fn is_blank_or_comment_exec(l: &Vec<char>) -> (r: bool)
    ensures
        r == is_blank_or_comment(l@),
{
    let t = trim_exec(l);
    t.len() == 0 || starts_with_str(&t, "#")
}

/// The end line and the complexity (one plus the counted weights; `None`
/// when it exceeds `usize::MAX`) of the indented function whose header is
/// indented by `def_indent`, its body starting at line `j0`.
fn py_scan_exec(ls: &Vec<Vec<char>>, ws: &Vec<usize>, def_indent: u128, j0: usize) -> (r: (usize, Option<usize>))
    requires
        j0 <= ls@.len(),
        ws@.len() == ls@.len(),
    ensures
        r.0 == py_scan(views(ls@), weights(ws@), def_indent as int, j0 as int).0,
        r.1 is Some <==> 1 + py_scan(views(ls@), weights(ws@), def_indent as int, j0 as int).1 <= usize::MAX,
        r.1 matches Some(c) ==> c == 1 + py_scan(views(ls@), weights(ws@), def_indent as int, j0 as int).1,
{
    let ghost lv = views(ls@);
    let ghost wv = weights(ws@);
    let ghost full = py_scan(lv, wv, def_indent as int, j0 as int);
    let n = ls.len();
    let mut acc: Option<usize> = Some(1);
    let ghost mut sum: nat = 0;
    let mut j: usize = j0;
    loop
        invariant
            n == ls@.len(),
            lv == views(ls@),
            wv == weights(ws@),
            ws@.len() == n,
            j0 <= j <= n,
            full == py_scan(lv, wv, def_indent as int, j0 as int),
            full.0 == py_scan(lv, wv, def_indent as int, j as int).0,
            full.1 == sum + py_scan(lv, wv, def_indent as int, j as int).1,
            acc matches Some(a) ==> a == 1 + sum,
            acc is None ==> 1 + sum > usize::MAX,
        decreases n - j,
    {
        if j >= n {
            return (n, acc);
        }
        proof {
            assert(lv[j as int] == ls@[j as int]@);
        }
        if is_blank_or_comment_exec(&ls[j]) {
            j += 1;
        } else {
            let ind = indent_exec(&ls[j]);
            if ind <= def_indent {
                return (j, acc);
            }
            acc = match acc {
                Some(a) => a.checked_add(ws[j]),
                None => None,
            };
            proof {
                sum = sum + wv[j as int];
            }
            j += 1;
        }
    }
}

/// The name of the function a line declares, if any: capture group 1 of the
/// function pattern (or, with `second`, group 2 when group 1 did not take
/// part), when it is not empty.
pub open spec fn function_name(pat: Seq<char>, line: Seq<char>, second: bool) -> Option<Seq<char>> {
    let n = match regex_capture(pat, line, 1) {
        Some(x) => Some(x),
        None => if second {
            regex_capture(pat, line, 2)
        } else {
            None
        },
    };
    match n {
        Some(x) => if x.len() > 0 {
            Some(x)
        } else {
            None
        },
        None => None,
    }
}

/// A function found in source text: name, 1-based line, complexity.
pub type FnView = (Seq<char>, nat, nat);

/// The functions declared from line `i` on, in order: each header line found
/// by the pattern opens a function whose body is scanned (by indentation when
/// `python`, by braces otherwise); its complexity is one plus the weights of
/// the body's counted lines; the search goes on after the body (for an
/// indented body, at the line that ended it).
pub open spec fn functions_from(
    ls: Seq<Seq<char>>,
    w: Seq<nat>,
    pat: Seq<char>,
    python: bool,
    second: bool,
    i: int,
) -> Seq<FnView>
    decreases ls.len() + 1 - i,
{
    if i < 0 || i >= ls.len() {
        Seq::empty()
    } else {
        match function_name(pat, ls[i], second) {
            None => functions_from(ls, w, pat, python, second, i + 1),
            Some(name) => if python {
                let r = py_scan(ls, w, indent(ls[i]), i + 1);
                proof {
                    lemma_py_scan_bounds(ls, w, indent(ls[i]), i + 1);
                }
                seq![(name, (i + 1) as nat, 1 + r.1)] + functions_from(ls, w, pat, python, second, r.0)
            } else {
                let r = brace_scan(ls, w, i, i, 0, false);
                proof {
                    lemma_brace_scan_bounds(ls, w, i, i, 0, false);
                }
                seq![(name, (i + 1) as nat, 1 + r.1)] + functions_from(ls, w, pat, python, second, r.0 + 1)
            },
        }
    }
}

/// Every complexity fits in a `usize`.
pub open spec fn complexities_fit(fs: Seq<FnView>) -> bool {
    forall|k: int| 0 <= k < fs.len() ==> #[trigger] fs[k].2 <= usize::MAX
}

/// The views of found functions.
pub open spec fn fn_views(v: Seq<(String, usize, usize)>) -> Seq<FnView> {
    Seq::new(v.len(), |k: int| (v[k].0@, v[k].1 as nat, v[k].2 as nat))
}

fn function_name_exec(pat: &Pattern, line: &Vec<char>, second: bool) -> (r: Option<String>)
    ensures
        r matches Some(n) ==> function_name(pat.source(), line@, second) == Some(n@),
        r is None ==> function_name(pat.source(), line@, second) is None,
{
    let text = string_of(line);
    let n = match pat.capture(text.as_str(), 1) {
        Some(x) => Some(x),
        None => if second {
            pat.capture(text.as_str(), 2)
        } else {
            None
        },
    };
    match n {
        Some(x) => {
            let xc = crate::text::chars_of(x.as_str());
            if xc.len() > 0 {
                Some(x)
            } else {
                None
            }
        },
        None => None,
    }
}

/// The functions declared in the lines (see [`functions_from`]), with the
/// given per-line weights; `None` when a complexity exceeds `usize::MAX`.
pub fn find_functions(ls: &Vec<Vec<char>>, ws: &Vec<usize>, pat: &Pattern, python: bool, second: bool) -> (r: Option<Vec<(String, usize, usize)>>)
    requires
        ws@.len() == ls@.len(),
        total_len(views(ls@)) <= usize::MAX,
    ensures
        r is Some <==> complexities_fit(functions_from(views(ls@), weights(ws@), pat.source(), python, second, 0)),
        r matches Some(v) ==> fn_views(v@) == functions_from(views(ls@), weights(ws@), pat.source(), python, second, 0),
{
    let ghost lv = views(ls@);
    let ghost wv = weights(ws@);
    let ghost p = pat.source();
    let ghost full = functions_from(lv, wv, p, python, second, 0);
    let n = ls.len();
    let mut out: Vec<(String, usize, usize)> = Vec::new();
    let mut i: usize = 0;
    proof {
        assert(fn_views(out@) + functions_from(lv, wv, p, python, second, 0) =~= full);
    }
    while i < n
        invariant
            n == ls@.len(),
            lv == views(ls@),
            wv == weights(ws@),
            p == pat.source(),
            ws@.len() == n,
            total_len(lv) <= usize::MAX,
            i <= n,
            full == functions_from(lv, wv, p, python, second, 0),
            full == fn_views(out@) + functions_from(lv, wv, p, python, second, i as int),
        decreases n - i,
    {
        proof {
            assert(lv[i as int] == ls@[i as int]@);
        }
        match function_name_exec(pat, &ls[i], second) {
            None => {
                i += 1;
            },
            Some(name) => {
                let ghost before = fn_views(out@);
                let (j, c) = if python {
                    let d = indent_exec(&ls[i]);
                    let r = py_scan_exec(ls, ws, d, i + 1);
                    proof {
                        lemma_py_scan_bounds(lv, wv, indent(lv[i as int]), i + 1);
                    }
                    r
                } else {
                    let r = brace_scan_exec(ls, ws, i);
                    proof {
                        lemma_brace_scan_bounds(lv, wv, i as int, i as int, 0, false);
                    }
                    if r.0 < n {
                        (r.0 + 1, r.1)
                    } else {
                        (n, r.1)
                    }
                };
                let ghost rest = functions_from(lv, wv, p, python, second, j as int);
                proof {
                    if !python {
                        let e = brace_scan(lv, wv, i as int, i as int, 0, false).0;
                        if e >= n {
                            assert(functions_from(lv, wv, p, python, second, e + 1) =~= Seq::<FnView>::empty());
                        }
                    }
                }
                let ghost cplx: nat = if python {
                    1 + py_scan(lv, wv, indent(lv[i as int]), i + 1).1
                } else {
                    1 + brace_scan(lv, wv, i as int, i as int, 0, false).1
                };
                proof {
                    assert(functions_from(lv, wv, p, python, second, i as int) == seq![(name@, (i + 1) as nat, cplx)] + rest);
                    assert(full =~= before.push((name@, (i + 1) as nat, cplx)) + rest);
                }
                match c {
                    Some(c) => {
                        out.push((name, i + 1, c));
                        proof {
                            assert(fn_views(out@) =~= before.push((name@, (i + 1) as nat, cplx)));
                        }
                    },
                    None => {
                        proof {
                            assert(full[before.len() as int].2 > usize::MAX);
                        }
                        return None;
                    },
                }
                i = j;
            },
        }
    }
    proof {
        assert(functions_from(lv, wv, p, python, second, i as int) =~= Seq::<FnView>::empty());
        assert(full =~= fn_views(out@));
        assert forall|k: int| 0 <= k < full.len() implies #[trigger] full[k].2 <= usize::MAX by {
            assert(full[k] == fn_views(out@)[k]);
        }
    }
    Some(out)
}

/// Languages the analysis knows: their file extensions, the pattern that
/// finds a function header (the name in group 1, or group 2), and the
/// patterns whose every match in a body line adds one to the complexity.
pub struct LanguageRules {
    pub extensions: Vec<&'static str>,
    pub func_pattern: &'static str,
    pub branch_patterns: Vec<&'static str>,
}

/// A language's texts: extensions, function pattern, branch patterns.
pub type RulesView = (Seq<Seq<char>>, Seq<char>, Seq<Seq<char>>);

/// The texts of a language's rules.
pub open spec fn language_view(r: LanguageRules) -> RulesView {
    (strs_view(r.extensions@), r.func_pattern@, strs_view(r.branch_patterns@))
}

/// The languages, in the order a file's extension is looked up.
pub open spec fn language_table() -> Seq<RulesView> {
    seq![
        (
            seq![".rs"@],
            r"^\s*(?:pub\s+)?(?:async\s+)?fn\s+(\w+)"@,
            seq![r"\bif\b"@, r"\belse\s+if\b"@, r"\bwhile\b"@, r"\bfor\b"@, r"\bloop\b"@, r"\bmatch\b"@, r"=>"@, r"&&"@, r"\|\|"@, r"\?"@],
        ),
        (
            seq![".go"@],
            r"^\s*func\s+(?:\([^)]*\)\s+)?(\w+)"@,
            seq![r"\bif\b"@, r"\belse\s+if\b"@, r"\bfor\b"@, r"\bcase\b"@, r"\bselect\b"@, r"&&"@, r"\|\|"@],
        ),
        (
            seq![".ts"@, ".tsx"@, ".js"@, ".jsx"@],
            r"^\s*(?:export\s+)?(?:async\s+)?(?:function\s+(\w+)|(?:const|let|var)\s+(\w+)\s*=\s*(?:async\s+)?(?:\([^)]*\)|[^=])\s*=>)"@,
            seq![r"\bif\b"@, r"\belse\s+if\b"@, r"\bfor\b"@, r"\bwhile\b"@, r"\bcase\b"@, r"\bcatch\b"@, r"\?\?"@, r"\?\.\w"@, r"&&"@, r"\|\|"@, r"\?[^?.:}]"@],
        ),
        (
            seq![".py"@],
            r"^\s*(?:async\s+)?def\s+(\w+)"@,
            seq![r"\bif\b"@, r"\belif\b"@, r"\bfor\b"@, r"\bwhile\b"@, r"\bexcept\b"@, r"\band\b"@, r"\bor\b"@],
        ),
        (
            seq![".java"@],
            r"^\s*(?:public|private|protected|static|final|abstract|synchronized|native)*\s*(?:\w+(?:<[^>]*>)?)\s+(\w+)\s*\("@,
            seq![r"\bif\b"@, r"\belse\s+if\b"@, r"\bfor\b"@, r"\bwhile\b"@, r"\bcase\b"@, r"\bcatch\b"@, r"&&"@, r"\|\|"@, r"\?[^?.:}]"@],
        ),
    ]
}

/// The text of an optional, non-capturing regular-expression group `(?:x)?`.
pub open spec fn re_optional(x: Seq<char>) -> Seq<char> {
    "(?:"@ + x + ")?"@
}

/// The text of a capturing regular-expression group `(x)`.
pub open spec fn re_capture(x: Seq<char>) -> Seq<char> {
    "("@ + x + ")"@
}

/// A Go method receiver: a parenthesised list, then whitespace.
pub open spec fn go_receiver_re() -> Seq<char> {
    r"\([^)]*\)\s+"@
}

/// Go functions are found with or without a receiver: the Go pattern reads
/// `func`, then an optional receiver such as `(s *Server)`, then captures
/// the name (`\w+`) of the function or method.
pub proof fn lemma_go_methods_found()
    ensures
        language_table()[1].0 == seq![".go"@],
        language_table()[1].1 == r"^\s*func\s+"@ + re_optional(go_receiver_re()) + re_capture(r"\w+"@),
{
    reveal_strlit(r"^\s*func\s+(?:\([^)]*\)\s+)?(\w+)");
    reveal_strlit(r"^\s*func\s+");
    reveal_strlit(r"\([^)]*\)\s+");
    reveal_strlit(r"\w+");
    reveal_strlit("(?:");
    reveal_strlit(")?");
    reveal_strlit("(");
    reveal_strlit(")");
    assert(r"^\s*func\s+"@ + re_optional(go_receiver_re()) + re_capture(r"\w+"@) =~= r"^\s*func\s+(?:\([^)]*\)\s+)?(\w+)"@);
}

/// Supported languages and their function-detection patterns.
pub fn language_rules() -> (r: Vec<LanguageRules>)
    ensures
        Seq::new(r@.len(), |i: int| language_view(r@[i])) == language_table(),
{
    let mut v: Vec<LanguageRules> = Vec::new();
    v.push(LanguageRules {
        extensions: vec![".rs"],
        func_pattern: r"^\s*(?:pub\s+)?(?:async\s+)?fn\s+(\w+)",
        branch_patterns: vec![r"\bif\b", r"\belse\s+if\b", r"\bwhile\b", r"\bfor\b", r"\bloop\b", r"\bmatch\b", r"=>", r"&&", r"\|\|", r"\?"],
    });
    v.push(LanguageRules {
        extensions: vec![".go"],
        func_pattern: r"^\s*func\s+(?:\([^)]*\)\s+)?(\w+)",
        branch_patterns: vec![r"\bif\b", r"\belse\s+if\b", r"\bfor\b", r"\bcase\b", r"\bselect\b", r"&&", r"\|\|"],
    });
    v.push(LanguageRules {
        extensions: vec![".ts", ".tsx", ".js", ".jsx"],
        func_pattern: r"^\s*(?:export\s+)?(?:async\s+)?(?:function\s+(\w+)|(?:const|let|var)\s+(\w+)\s*=\s*(?:async\s+)?(?:\([^)]*\)|[^=])\s*=>)",
        branch_patterns: vec![r"\bif\b", r"\belse\s+if\b", r"\bfor\b", r"\bwhile\b", r"\bcase\b", r"\bcatch\b", r"\?\?", r"\?\.\w", r"&&", r"\|\|", r"\?[^?.:}]"],
    });
    v.push(LanguageRules {
        extensions: vec![".py"],
        func_pattern: r"^\s*(?:async\s+)?def\s+(\w+)",
        branch_patterns: vec![r"\bif\b", r"\belif\b", r"\bfor\b", r"\bwhile\b", r"\bexcept\b", r"\band\b", r"\bor\b"],
    });
    v.push(LanguageRules {
        extensions: vec![".java"],
        func_pattern: r"^\s*(?:public|private|protected|static|final|abstract|synchronized|native)*\s*(?:\w+(?:<[^>]*>)?)\s+(\w+)\s*\(",
        branch_patterns: vec![r"\bif\b", r"\belse\s+if\b", r"\bfor\b", r"\bwhile\b", r"\bcase\b", r"\bcatch\b", r"&&", r"\|\|", r"\?[^?.:}]"],
    });
    proof {
        assert(Seq::new(v@.len(), |i: int| language_view(v@[i])) =~~= language_table());
    }
    v
}

/// The number of matches of all the branch patterns in a line.
pub open spec fn branch_count(pats: Seq<Seq<char>>, line: Seq<char>) -> nat
    decreases pats.len(),
{
    if pats.len() == 0 {
        0
    } else {
        branch_count(pats.drop_last(), line) + regex_match_count(pats.last(), line)
    }
}

/// A count capped at `usize::MAX`.
pub open spec fn capped(n: nat) -> nat {
    if n <= usize::MAX {
        n
    } else {
        usize::MAX as nat
    }
}

/// The weight of each line: its branch count, capped at `usize::MAX` (a
/// function whose body holds a capped line cannot have its complexity fit).
pub open spec fn branch_weights(pats: Seq<Seq<char>>, ls: Seq<Seq<char>>) -> Seq<nat> {
    Seq::new(ls.len(), |j: int| capped(branch_count(pats, ls[j])))
}

/// Every pattern compiles.
pub open spec fn patterns_compile(pats: Seq<Seq<char>>) -> bool {
    forall|i: int| 0 <= i < pats.len() ==> regex_compiles(#[trigger] pats[i])
}

/// What the analysis of a file finds: its functions with their complexity;
/// `None` when a pattern does not compile or a complexity exceeds `usize::MAX`.
pub open spec fn analysis_of(content: Seq<char>, rules: RulesView, python: bool) -> Option<Seq<FnView>> {
    if regex_compiles(rules.1) && patterns_compile(rules.2) {
        let ls = lines(content);
        let fs = functions_from(ls, branch_weights(rules.2, ls), rules.1, python, !python, 0);
        if complexities_fit(fs) {
            Some(fs)
        } else {
            None
        }
    } else {
        None
    }
}

fn compile_all(srcs: &Vec<&'static str>) -> (r: Option<Vec<Pattern>>)
    ensures
        r is Some <==> patterns_compile(strs_view(srcs@)),
        r matches Some(ps) ==> ps@.len() == srcs@.len() && forall|i: int|
            0 <= i < ps@.len() ==> (#[trigger] ps@[i]).source() == srcs@[i]@,
{
    let ghost sv = strs_view(srcs@);
    let mut ps: Vec<Pattern> = Vec::new();
    let mut i: usize = 0;
    while i < srcs.len()
        invariant
            i <= srcs@.len(),
            sv == strs_view(srcs@),
            ps@.len() == i,
            forall|k: int| 0 <= k < i ==> (#[trigger] ps@[k]).source() == srcs@[k]@,
            forall|k: int| 0 <= k < i ==> regex_compiles(#[trigger] sv[k]),
        decreases srcs@.len() - i,
    {
        match Pattern::new(srcs[i]) {
            Some(p) => {
                ps.push(p);
            },
            None => {
                assert(sv[i as int] == srcs@[i as int]@);
                return None;
            },
        }
        i += 1;
    }
    Some(ps)
}

/// The capped branch count of a line.
fn branch_count_exec(ps: &Vec<Pattern>, line: &str, Ghost(srcs): Ghost<Seq<Seq<char>>>) -> (r: usize)
    requires
        ps@.len() == srcs.len(),
        forall|i: int| 0 <= i < ps@.len() ==> (#[trigger] ps@[i]).source() == srcs[i],
    ensures
        r == capped(branch_count(srcs, line@)),
{
    let mut acc: usize = 0;
    let mut over = false;
    let mut i: usize = 0;
    proof {
        assert(srcs.take(0) =~= Seq::<Seq<char>>::empty());
    }
    while i < ps.len()
        invariant
            i <= ps@.len(),
            ps@.len() == srcs.len(),
            forall|i: int| 0 <= i < ps@.len() ==> (#[trigger] ps@[i]).source() == srcs[i],
            !over ==> acc == branch_count(srcs.take(i as int), line@),
            over ==> acc == usize::MAX && branch_count(srcs.take(i as int), line@) > usize::MAX,
        decreases ps@.len() - i,
    {
        proof {
            assert(srcs.take(i + 1).drop_last() =~= srcs.take(i as int));
            assert(srcs.take(i + 1).last() == srcs[i as int]);
        }
        let c = ps[i].match_count(line);
        if !over {
            match acc.checked_add(c) {
                Some(x) => {
                    acc = x;
                },
                None => {
                    acc = usize::MAX;
                    over = true;
                },
            }
        }
        i += 1;
    }
    proof {
        assert(srcs.take(ps@.len() as int) =~= srcs);
    }
    acc
}

/// Compute cyclomatic complexity for functions in a source file: each
/// function's name, 1-based line and complexity (one plus every branch
/// pattern match in its body), found with brace counting, or with
/// indentation when `is_python`.
///
/// `None` when a pattern of the rules does not compile or a complexity
/// exceeds `usize::MAX`.
pub fn analyze_file(content: &str, rules: &LanguageRules, is_python: bool) -> (r: Option<Vec<(String, usize, usize)>>)
    ensures
        r is Some <==> analysis_of(content@, language_view(*rules), is_python) is Some,
        r matches Some(v) ==> analysis_of(content@, language_view(*rules), is_python) == Some(fn_views(v@)),
{
    let ghost bv = strs_view(rules.branch_patterns@);
    let fp = match Pattern::new(rules.func_pattern) {
        Some(p) => p,
        None => return None,
    };
    let bps = match compile_all(&rules.branch_patterns) {
        Some(ps) => ps,
        None => return None,
    };
    let cs = crate::text::chars_of(content);
    let cl = cs.len();
    let ls = crate::text::lines_exec(&cs);
    let ghost lv = views(ls@);
    proof {
        crate::text::lemma_lines_total_len(content@);
        assert(cl == content@.len());
        assert(total_len(lv) <= usize::MAX);
        assert forall|i: int| 0 <= i < bps@.len() implies (#[trigger] bps@[i]).source() == bv[i] by {
            assert(bv[i] == rules.branch_patterns@[i]@);
        }
    }
    let mut ws: Vec<usize> = Vec::new();
    let mut j: usize = 0;
    while j < ls.len()
        invariant
            j <= ls@.len(),
            lv == views(ls@),
            bps@.len() == bv.len(),
            forall|i: int| 0 <= i < bps@.len() ==> (#[trigger] bps@[i]).source() == bv[i],
            ws@.len() == j,
            forall|k: int| 0 <= k < j ==> ws@[k] as nat == #[trigger] branch_weights(bv, lv)[k],
        decreases ls@.len() - j,
    {
        let text = string_of(&ls[j]);
        let w = branch_count_exec(&bps, text.as_str(), Ghost(bv));
        proof {
            assert(lv[j as int] == ls@[j as int]@);
        }
        ws.push(w);
        j += 1;
    }
    proof {
        assert(weights(ws@) =~= branch_weights(bv, lv));
    }
    find_functions(&ls, &ws, &fp, is_python, !is_python)
}

/// A function of the tree with its complexity (file, name, line, complexity).
pub type FunctionComplexity = ComplexFunction;

/// A function's texts and numbers: file, name, line, complexity.
pub type FuncView = (Seq<char>, Seq<char>, nat, nat);

/// The views of functions.
pub open spec fn funcs_view(v: Seq<ComplexFunction>) -> Seq<FuncView> {
    Seq::new(v.len(), |i: int| (v[i].file@, v[i].name@, v[i].line as nat, v[i].complexity as nat))
}

/// Where a function of complexity `c` goes in a list sorted by decreasing
/// complexity: after every function at least as complex.
pub open spec fn insert_pos(s: Seq<FuncView>, c: nat) -> int
    decreases s.len(),
{
    if s.len() == 0 {
        0
    } else if s.last().3 >= c {
        s.len() as int
    } else {
        insert_pos(s.drop_last(), c)
    }
}

/// The functions sorted by decreasing complexity, equally complex ones in
/// their original order (a stable sort).
pub open spec fn sort_desc(s: Seq<FuncView>) -> Seq<FuncView>
    decreases s.len(),
{
    if s.len() == 0 {
        Seq::empty()
    } else {
        let t = sort_desc(s.drop_last());
        t.insert(insert_pos(t, s.last().3), s.last())
    }
}

proof fn lemma_insert_pos_bounds(s: Seq<FuncView>, c: nat)
    ensures
        0 <= insert_pos(s, c) <= s.len(),
    decreases s.len(),
{
    if s.len() > 0 && s.last().3 < c {
        lemma_insert_pos_bounds(s.drop_last(), c);
    }
}

proof fn lemma_sort_desc_len(s: Seq<FuncView>)
    ensures
        sort_desc(s).len() == s.len(),
    decreases s.len(),
{
    if s.len() > 0 {
        lemma_sort_desc_len(s.drop_last());
        lemma_insert_pos_bounds(sort_desc(s.drop_last()), s.last().3);
    }
}

proof fn lemma_insert_pos(s: Seq<FuncView>, c: nat)
    requires
        forall|i: int, j: int| 0 <= i < j < s.len() ==> (#[trigger] s[i]).3 >= (#[trigger] s[j]).3,
    ensures
        0 <= insert_pos(s, c) <= s.len(),
        forall|i: int| 0 <= i < insert_pos(s, c) ==> (#[trigger] s[i]).3 >= c,
        forall|i: int| insert_pos(s, c) <= i < s.len() ==> (#[trigger] s[i]).3 < c,
    decreases s.len(),
{
    if s.len() > 0 {
        let n = s.len() - 1;
        if s.last().3 >= c {
            assert forall|i: int| 0 <= i < s.len() implies (#[trigger] s[i]).3 >= c by {
                if i < n {
                    assert(s[i].3 >= s[n].3);
                }
            }
        } else {
            let d = s.drop_last();
            assert forall|i: int, j: int| 0 <= i < j < d.len() implies (#[trigger] d[i]).3 >= (#[trigger] d[j]).3 by {
                assert(d[i] == s[i] && d[j] == s[j]);
            }
            lemma_insert_pos(d, c);
            assert forall|i: int| 0 <= i < insert_pos(s, c) implies (#[trigger] s[i]).3 >= c by {
                assert(d[i] == s[i]);
            }
            assert forall|i: int| insert_pos(s, c) <= i < s.len() implies (#[trigger] s[i]).3 < c by {
                if i < n {
                    assert(d[i] == s[i]);
                }
            }
        }
    }
}

/// Sorting by complexity puts the most complex first and keeps every
/// function: it is a reordering of what it was given.
pub proof fn lemma_sort_desc(s: Seq<FuncView>)
    ensures
        sort_desc(s).len() == s.len(),
        sort_desc(s).to_multiset() == s.to_multiset(),
        forall|i: int, j: int|
            0 <= i < j < sort_desc(s).len() ==> (#[trigger] sort_desc(s)[i]).3 >= (#[trigger] sort_desc(s)[j]).3,
    decreases s.len(),
{
    broadcast use vstd::seq_lib::to_multiset_build, vstd::seq_lib::to_multiset_insert;

    if s.len() == 0 {
        assert(s =~= Seq::<FuncView>::empty());
        assert(sort_desc(s) =~= s);
    } else {
        let t = sort_desc(s.drop_last());
        let x = s.last();
        lemma_sort_desc(s.drop_last());
        lemma_insert_pos(t, x.3);
        let p = insert_pos(t, x.3);
        let r = t.insert(p, x);
        assert(r == sort_desc(s));
        assert forall|i: int, j: int| 0 <= i < j < r.len() implies (#[trigger] r[i]).3 >= (#[trigger] r[j]).3 by {
            if j < p {
                assert(r[i] == t[i] && r[j] == t[j]);
            } else if j == p {
                assert(r[i] == t[i]);
            } else if i < p {
                assert(r[i] == t[i] && r[j] == t[j - 1]);
            } else if i == p {
                assert(r[j] == t[j - 1]);
            } else {
                assert(r[i] == t[i - 1] && r[j] == t[j - 1]);
            }
        }
        assert(s.drop_last().push(x) == s);
    }
}

fn clone_function(f: &ComplexFunction) -> (r: ComplexFunction)
    ensures
        funcs_view(seq![r]) == funcs_view(seq![*f]),
{
    let r = ComplexFunction { file: f.file.clone(), name: f.name.clone(), line: f.line, complexity: f.complexity };
    proof {
        assert(funcs_view(seq![r]) =~= funcs_view(seq![*f]));
    }
    r
}

/// Sorts by decreasing complexity, keeping equally complex functions in order.
pub fn sort_by_complexity(fs: &Vec<ComplexFunction>) -> (r: Vec<ComplexFunction>)
    ensures
        funcs_view(r@) == sort_desc(funcs_view(fs@)),
{
    let ghost fv = funcs_view(fs@);
    let mut r: Vec<ComplexFunction> = Vec::new();
    let mut i: usize = 0;
    proof {
        assert(fv.take(0) =~= Seq::<FuncView>::empty());
        assert(funcs_view(r@) =~= Seq::<FuncView>::empty());
    }
    while i < fs.len()
        invariant
            i <= fs@.len(),
            fv == funcs_view(fs@),
            funcs_view(r@) == sort_desc(fv.take(i as int)),
        decreases fs@.len() - i,
    {
        proof {
            assert(fv.take(i + 1).drop_last() =~= fv.take(i as int));
            assert(fv.take(i + 1).last() == fv[i as int]);
        }
        let ghost t = funcs_view(r@);
        let c = fs[i].complexity;
        let mut j: usize = r.len();
        proof {
            assert(t.take(j as int) =~= t);
        }
        while j > 0 && r[j - 1].complexity < c
            invariant
                j <= r@.len(),
                t == funcs_view(r@),
                insert_pos(t, c as nat) == insert_pos(t.take(j as int), c as nat),
            decreases j,
        {
            proof {
                assert(t.take(j as int).drop_last() =~= t.take(j - 1));
                assert(t.take(j as int).last() == t[j - 1]);
            }
            j -= 1;
        }
        proof {
            if j > 0 {
                assert(t.take(j as int).last() == t[j - 1]);
            } else {
                assert(t.take(0) =~= Seq::<FuncView>::empty());
            }
        }
        let x = clone_function(&fs[i]);
        r.insert(j, x);
        proof {
            assert(funcs_view(seq![x])[0] == funcs_view(seq![fs@[i as int]])[0]);
            assert(funcs_view(r@) =~= t.insert(j as int, fv[i as int]));
        }
        i += 1;
    }
    proof {
        assert(fv.take(fs@.len() as int) =~= fv);
    }
    r
}

/// The index of the first language, from `k` on, that applies to the path.
pub open spec fn first_language(table: Seq<RulesView>, path: Seq<char>, k: int) -> Option<int>
    decreases table.len() - k,
{
    if k < 0 || k >= table.len() {
        None
    } else if has_extension(path, table[k].0) {
        Some(k)
    } else {
        first_language(table, path, k + 1)
    }
}

/// A language analysed by indentation: one of its extensions is ".py".
pub open spec fn is_python_language(r: RulesView) -> bool {
    r.0.contains(".py"@)
}

/// All the patterns of a language compile.
pub open spec fn language_compiles(r: RulesView) -> bool {
    regex_compiles(r.1) && patterns_compile(r.2)
}

/// All the patterns of all the languages compile.
pub open spec fn languages_compile(table: Seq<RulesView>) -> bool {
    forall|i: int| 0 <= i < table.len() ==> language_compiles(#[trigger] table[i])
}

/// A file with functions: its language's first extension, its path, its functions.
pub type FileAnalysis = (Seq<char>, Seq<char>, Seq<FnView>);

/// The files of the tree that hold functions, in walk order, outside skipped
/// directories; `None` when a complexity exceeds `usize::MAX`.
pub open spec fn file_analyses(entries: Seq<TreeEntry>, ignore: Seq<Seq<char>>) -> Option<Seq<FileAnalysis>>
    decreases entries.len(),
{
    if entries.len() == 0 {
        Some(Seq::empty())
    } else {
        match file_analyses(entries.drop_last(), ignore) {
            None => None,
            Some(prev) => {
                let e = entries.last();
                let p = entry_path(e);
                if skipped(p, fix_skip_dirs(), ignore) {
                    Some(prev)
                } else {
                    match first_language(language_table(), p, 0) {
                        None => Some(prev),
                        Some(k) => match e.content {
                            BlobContent::Text(c) => {
                                let r = language_table()[k];
                                match analysis_of(c@, r, is_python_language(r)) {
                                    None => None,
                                    Some(fs) => if fs.len() > 0 {
                                        Some(prev.push((r.0[0], p, fs)))
                                    } else {
                                        Some(prev)
                                    },
                                }
                            },
                            _ => Some(prev),
                        },
                    }
                }
            },
        }
    }
}

/// The functions of a file, with its path.
pub open spec fn with_file(path: Seq<char>, fs: Seq<FnView>) -> Seq<FuncView> {
    Seq::new(fs.len(), |k: int| (path, fs[k].0, fs[k].1, fs[k].2))
}

/// All the functions of the analysed files, in order.
pub open spec fn functions_of(fas: Seq<FileAnalysis>) -> Seq<FuncView>
    decreases fas.len(),
{
    if fas.len() == 0 {
        Seq::empty()
    } else {
        functions_of(fas.drop_last()) + with_file(fas.last().1, fas.last().2)
    }
}

/// Per-language counts: extension, files, functions.
pub type StatView = (Seq<char>, nat, nat);

/// The index of the first counts of `ext` from index `k` on.
pub open spec fn stat_index_from(stats: Seq<StatView>, ext: Seq<char>, k: int) -> Option<int>
    decreases stats.len() - k,
{
    if k < 0 || k >= stats.len() {
        None
    } else if stats[k].0 == ext {
        Some(k)
    } else {
        stat_index_from(stats, ext, k + 1)
    }
}

/// The index of the counts of `ext`, if it has any yet.
pub open spec fn stat_index(stats: Seq<StatView>, ext: Seq<char>) -> Option<int> {
    stat_index_from(stats, ext, 0)
}

/// Counts one more file of `ext` with `n` functions.
pub open spec fn add_stat(stats: Seq<StatView>, ext: Seq<char>, n: nat) -> Seq<StatView> {
    match stat_index(stats, ext) {
        Some(k) => stats.update(k, (ext, stats[k].1 + 1, stats[k].2 + n)),
        None => stats.push((ext, 1, n)),
    }
}

/// The per-language counts of the analysed files, languages in order of first appearance.
pub open spec fn language_stats(fas: Seq<FileAnalysis>) -> Seq<StatView>
    decreases fas.len(),
{
    if fas.len() == 0 {
        Seq::empty()
    } else {
        add_stat(language_stats(fas.drop_last()), fas.last().0, fas.last().2.len())
    }
}

/// The views of per-language counts.
pub open spec fn stats_view(v: Seq<(String, usize, usize)>) -> Seq<StatView> {
    Seq::new(v.len(), |k: int| (v[k].0@, v[k].1 as nat, v[k].2 as nat))
}

proof fn lemma_stat_index_from(stats: Seq<StatView>, ext: Seq<char>, k: int)
    requires
        0 <= k <= stats.len(),
    ensures
        stat_index_from(stats, ext, k) matches Some(m) ==> k <= m < stats.len() && stats[m].0 == ext,
    decreases stats.len() - k,
{
    if k < stats.len() && stats[k].0 != ext {
        lemma_stat_index_from(stats, ext, k + 1);
    }
}

fn stat_index_exec(stats: &Vec<(String, usize, usize)>, ext: &str) -> (r: Option<usize>)
    ensures
        r matches Some(k) ==> stat_index(stats_view(stats@), ext@) == Some(k as int) && k < stats@.len(),
        r is None ==> stat_index(stats_view(stats@), ext@) is None,
{
    let ghost sv = stats_view(stats@);
    let ec = crate::text::chars_of(ext);
    let mut i: usize = 0;
    while i < stats.len()
        invariant
            i <= stats@.len(),
            sv == stats_view(stats@),
            ec@ == ext@,
            stat_index(sv, ext@) == stat_index_from(sv, ext@, i as int),
        decreases stats@.len() - i,
    {
        let x = crate::text::chars_of(stats[i].0.as_str());
        if crate::text::seq_eq(&x, &ec) {
            assert(sv[i as int].0 == ext@);
            return Some(i);
        }
        i += 1;
    }
    None
}

/// Once a prefix of the tree holds an overflowing function, the whole tree does.
proof fn lemma_file_analyses_none(entries: Seq<TreeEntry>, ignore: Seq<Seq<char>>, i: int)
    requires
        0 <= i <= entries.len(),
        file_analyses(entries.take(i), ignore) is None,
    ensures
        file_analyses(entries, ignore) is None,
    decreases entries.len() - i,
{
    if i < entries.len() {
        assert(entries.take(i + 1).drop_last() =~= entries.take(i));
        lemma_file_analyses_none(entries, ignore, i + 1);
    } else {
        assert(entries.take(i) =~= entries);
    }
}

/// The functions of the tree's source files with their complexity, in walk
/// order, and the per-language counts of files holding functions; `None`
/// when a language pattern does not compile or a complexity exceeds
/// `usize::MAX`.
pub fn collect_functions(entries: &Vec<TreeEntry>, ignore_dirs: &Vec<String>) -> (r: Option<(Vec<ComplexFunction>, Vec<(String, usize, usize)>)>)
    ensures
        r is Some <==> languages_compile(language_table()) && file_analyses(entries@, strings_view(ignore_dirs@)) is Some,
        r matches Some(x) ==> (file_analyses(entries@, strings_view(ignore_dirs@)) matches Some(fas) && funcs_view(x.0@)
            == functions_of(fas) && stats_view(x.1@) == language_stats(fas)),
{
    let ghost iv = strings_view(ignore_dirs@);
    let ghost table = language_table();
    let rules = language_rules();
    proof {
        assert forall|k: int| 0 <= k < rules@.len() implies #[trigger] language_view(rules@[k]) == table[k] by {
            assert(Seq::new(rules@.len(), |i: int| language_view(rules@[i]))[k] == language_view(rules@[k]));
        }
    }
    let mut q: usize = 0;
    while q < rules.len()
        invariant
            q <= rules@.len(),
            rules@.len() == table.len(),
            table == language_table(),
            forall|k: int| 0 <= k < rules@.len() ==> #[trigger] language_view(rules@[k]) == table[k],
            forall|k: int| 0 <= k < q ==> language_compiles(#[trigger] language_view(rules@[k])),
        decreases rules@.len() - q,
    {
        let ok1 = match Pattern::new(rules[q].func_pattern) {
            Some(_) => true,
            None => false,
        };
        let ok2 = match compile_all(&rules[q].branch_patterns) {
            Some(_) => true,
            None => false,
        };
        proof {
            assert(language_view(rules@[q as int]) == table[q as int]);
        }
        if !(ok1 && ok2) {
            proof {
                assert(!language_compiles(table[q as int]));
            }
            return None;
        }
        assert(language_compiles(language_view(rules@[q as int])));
        q += 1;
    }
    proof {
        assert forall|k: int| 0 <= k < table.len() implies language_compiles(#[trigger] table[k]) by {
            assert(language_view(rules@[k]) == table[k]);
        }
    }
    let defaults: Vec<&str> = vec!["vendor/", "node_modules/", ".git/", "target/", "dist/", "build/"];
    proof {
        assert(strs_view(defaults@) =~= fix_skip_dirs());
    }
    let mut all: Vec<ComplexFunction> = Vec::new();
    let mut stats: Vec<(String, usize, usize)> = Vec::new();
    let ghost mut fas: Seq<FileAnalysis> = Seq::empty();
    let mut i: usize = 0;
    proof {
        assert(entries@.take(0) =~= Seq::<TreeEntry>::empty());
        assert(funcs_view(all@) =~= Seq::<FuncView>::empty());
        assert(stats_view(stats@) =~= Seq::<StatView>::empty());
    }
    while i < entries.len()
        invariant
            i <= entries@.len(),
            iv == strings_view(ignore_dirs@),
            table == language_table(),
            rules@.len() == table.len(),
            forall|k: int| 0 <= k < rules@.len() ==> #[trigger] language_view(rules@[k]) == table[k],
            languages_compile(table),
            strs_view(defaults@) == fix_skip_dirs(),
            file_analyses(entries@.take(i as int), iv) == Some(fas),
            funcs_view(all@) == functions_of(fas),
            stats_view(stats@) == language_stats(fas),
            forall|k: int| 0 <= k < stats@.len() ==> (#[trigger] stats@[k]).1 <= i && stats@[k].2 <= all@.len(),
        decreases entries@.len() - i,
    {
        let e = &entries[i];
        proof {
            assert(entries@.take(i + 1).drop_last() =~= entries@.take(i as int));
            assert(entries@.take(i + 1).last() == *e);
        }
        let mut path = crate::text::chars_of(e.dir.as_str());
        crate::text::extend_str(&mut path, e.name.as_str());
        assert(path@ == entry_path(*e));
        if !is_skipped(&path, defaults.as_slice(), ignore_dirs.as_slice()) {
            match language_of_exec(&rules, &path) {
                None => {},
                Some(k) => {
                    match &e.content {
                        BlobContent::Text(c) => {
                            let r = &rules[k];
                            let py = has_py(&r.extensions);
                            proof {
                                assert(language_view(*r) == table[k as int]);
                            }
                            match analyze_file(c.as_str(), r, py) {
                                None => {
                                    proof {
                                        assert(file_analyses(entries@.take(i + 1), iv) is None);
                                        lemma_file_analyses_none(entries@, iv, i + 1);
                                    }
                                    return None;
                                },
                                Some(fs) => {
                                    if fs.len() > 0 {
                                        let ghost before = funcs_view(all@);
                                        let ghost sv0 = stats_view(stats@);
                                        let ghost fv = fn_views(fs@);
                                        let ghost old_len = all@.len();
                                        push_functions(&mut all, &path, &fs);
                                        proof {
                                            assert(with_file(path@, fv).len() == fs@.len());
                                            assert(funcs_view(all@).len() == all@.len());
                                            assert(all@.len() == old_len + fs@.len());
                                        }
                                        add_stat_exec(&mut stats, r.extensions[0], fs.len(), Ghost(i as nat), all.len());
                                        proof {
                                            assert(table[k as int].0[0] == r.extensions@[0]@);
                                            let old_fas = fas;
                                            fas = fas.push((table[k as int].0[0], path@, fv));
                                            assert(fas.drop_last() =~= old_fas);
                                        }
                                    }
                                },
                            }
                        },
                        _ => {},
                    }
                },
            }
        }
        i += 1;
    }
    proof {
        assert(entries@.take(entries@.len() as int) =~= entries@);
    }
    Some((all, stats))
}

/// [`first_language`] from the start of the table.
fn language_of_exec(rules: &Vec<LanguageRules>, path: &Vec<char>) -> (r: Option<usize>)
    requires
        forall|k: int| 0 <= k < rules@.len() ==> #[trigger] language_view(rules@[k]) == language_table()[k],
        rules@.len() == language_table().len(),
    ensures
        r matches Some(k) ==> first_language(language_table(), path@, 0) == Some(k as int) && k < rules@.len()
            && rules@[k as int].extensions@.len() > 0,
        r is None ==> first_language(language_table(), path@, 0) is None,
{
    let ghost table = language_table();
    let mut k: usize = 0;
    while k < rules.len()
        invariant
            k <= rules@.len(),
            rules@.len() == table.len(),
            table == language_table(),
            forall|k: int| 0 <= k < rules@.len() ==> #[trigger] language_view(rules@[k]) == table[k],
            first_language(table, path@, 0) == first_language(table, path@, k as int),
        decreases rules@.len() - k,
    {
        assert(language_view(rules@[k as int]) == table[k as int]);
        if crate::sast::has_extension_exec(path, &rules[k].extensions) {
            proof {
                assert(table[k as int].0.len() > 0);
            }
            return Some(k);
        }
        k += 1;
    }
    None
}

fn has_py(exts: &Vec<&'static str>) -> (r: bool)
    ensures
        r == strs_view(exts@).contains(".py"@),
{
    let mut i: usize = 0;
    while i < exts.len()
        invariant
            i <= exts@.len(),
            forall|m: int| 0 <= m < i ==> #[trigger] strs_view(exts@)[m] != ".py"@,
        decreases exts@.len() - i,
    {
        let x = crate::text::chars_of(exts[i]);
        if crate::text::eq_str(&x, ".py") {
            assert(strs_view(exts@)[i as int] == ".py"@);
            return true;
        }
        i += 1;
    }
    false
}

fn push_functions(all: &mut Vec<ComplexFunction>, path: &Vec<char>, fs: &Vec<(String, usize, usize)>)
    ensures
        funcs_view(final(all)@) == funcs_view(old(all)@) + with_file(path@, fn_views(fs@)),
{
    let ghost a0 = funcs_view(all@);
    let ghost fv = fn_views(fs@);
    let mut k: usize = 0;
    proof {
        assert(funcs_view(all@) =~= a0 + with_file(path@, fv.take(0)));
    }
    while k < fs.len()
        invariant
            k <= fs@.len(),
            fv == fn_views(fs@),
            a0 == funcs_view(old(all)@),
            funcs_view(all@) == a0 + with_file(path@, fv.take(k as int)),
        decreases fs@.len() - k,
    {
        let ghost before = funcs_view(all@);
        all.push(ComplexFunction {
            file: string_of(path),
            name: fs[k].0.clone(),
            line: fs[k].1,
            complexity: fs[k].2,
        });
        proof {
            assert(with_file(path@, fv.take(k + 1)) =~= with_file(path@, fv.take(k as int)).push(
                (path@, fv[k as int].0, fv[k as int].1, fv[k as int].2),
            ));
            assert(funcs_view(all@) =~= before.push((path@, fv[k as int].0, fv[k as int].1, fv[k as int].2)));
        }
        k += 1;
    }
    proof {
        assert(fv.take(fs@.len() as int) =~= fv);
    }
}

fn add_stat_exec(stats: &mut Vec<(String, usize, usize)>, ext: &str, n: usize, Ghost(files_bound): Ghost<nat>, total: usize)
    requires
        forall|k: int| 0 <= k < old(stats)@.len() ==> (#[trigger] old(stats)@[k]).1 <= files_bound && old(stats)@[k].2
            + n <= total,
        files_bound < usize::MAX,
        n <= total,
    ensures
        stats_view(final(stats)@) == add_stat(stats_view(old(stats)@), ext@, n as nat),
        forall|k: int| 0 <= k < final(stats)@.len() ==> (#[trigger] final(stats)@[k]).1 <= files_bound + 1
            && final(stats)@[k].2 <= total,
{
    let ghost sv = stats_view(stats@);
    let ghost s0 = stats@;
    proof {
        lemma_stat_index_from(sv, ext@, 0);
    }
    match stat_index_exec(stats, ext) {
        Some(k) => {
            let f = stats[k].1 + 1;
            let c = stats[k].2 + n;
            let e = stats[k].0.clone();
            stats.set(k, (e, f, c));
            proof {
                assert(stats_view(stats@) =~= sv.update(
                    k as int,
                    (ext@, (sv[k as int].1 + 1) as nat, (sv[k as int].2 + n) as nat),
                ));
                assert forall|m: int| 0 <= m < stats@.len() implies (#[trigger] stats@[m]).1 <= files_bound + 1
                    && stats@[m].2 <= total by {
                    if m != k {
                        assert(stats@[m] == s0[m]);
                    }
                }
            }
        },
        None => {
            stats.push((ext.to_string(), 1, n));
            proof {
                assert(stats_view(stats@) =~= sv.push((ext@, 1nat, n as nat)));
                assert forall|m: int| 0 <= m < stats@.len() implies (#[trigger] stats@[m]).1 <= files_bound + 1
                    && stats@[m].2 <= total by {
                    if m < s0.len() {
                        assert(stats@[m] == s0[m]);
                    }
                }
            }
        },
    }
}

/// The number of functions more complex than `t`.
pub open spec fn above_threshold(fs: Seq<FuncView>, t: nat) -> nat
    decreases fs.len(),
{
    if fs.len() == 0 {
        0
    } else {
        above_threshold(fs.drop_last(), t) + if fs.last().3 > t {
            1nat
        } else {
            0nat
        }
    }
}

/// At most the first `n` functions.
pub open spec fn first_funcs(fs: Seq<FuncView>, n: nat) -> Seq<FuncView> {
    if fs.len() <= n {
        fs
    } else {
        fs.take(n as int)
    }
}

/// Rows of the per-language table: extension, files, functions.
pub open spec fn stat_rows(st: Seq<StatView>) -> Seq<Seq<Seq<char>>> {
    Seq::new(st.len(), |k: int| seq![st[k].0, decimal(st[k].1), decimal(st[k].2)])
}

/// A complexity as the table shows it: in red above the threshold.
pub open spec fn complexity_cell(c: nat, t: nat) -> Seq<char> {
    if c > t {
        "\x1b[31m"@ + decimal(c) + "\x1b[0m"@
    } else {
        decimal(c)
    }
}

/// Rows of the most complex functions: file, function, line, complexity.
pub open spec fn top_rows(fs: Seq<FuncView>, t: nat) -> Seq<Seq<Seq<char>>> {
    Seq::new(fs.len(), |k: int| seq![fs[k].0, fs[k].1, "L"@ + decimal(fs[k].2), complexity_cell(fs[k].3, t)])
}

/// The functions shown in the table of the most complex ones.
pub open spec fn top_functions(fs: Seq<FuncView>, top_n: nat) -> Seq<FuncView> {
    first_funcs(sort_desc(fs), top_n)
}

/// The complexity report: counts, the average as `avg` gives it, the
/// threshold verdict, the per-language table and the `top_n` most complex
/// functions.
pub open spec fn complexity_report_lines(fs: Seq<FuncView>, st: Seq<StatView>, t: nat, top_n: nat, avg: Seq<char>) -> Seq<Seq<char>> {
    sub_header_lines("Cyclomatic Complexity Analysis"@) + if fs.len() == 0 {
        seq![info_line("No functions found to analyze"@)]
    } else {
        let above = above_threshold(fs, t);
        seq![
            summary_stat_line("Functions analyzed"@, decimal(fs.len())),
            summary_stat_line("Average complexity"@, avg),
            summary_stat_line("Complexity threshold"@, decimal(t)),
            if above > 0 {
                warning_line(decimal(above) + " functions exceed threshold of "@ + decimal(t))
            } else {
                ok_line("All functions are within complexity threshold ("@ + decimal(t) + ")"@)
            },
            ""@,
            "    \x1b[1mFiles analyzed by language:\x1b[0m"@,
        ] + table_lines_v(seq!["Extension"@, "Files"@, "Functions"@], stat_rows(st)) + seq![
            ""@,
            "    \x1b[1mTop "@ + decimal(top_n) + " Most Complex Functions:\x1b[0m"@,
        ] + table_lines_v(seq!["File"@, "Function"@, "Line"@, "Complexity"@], top_rows(top_functions(fs, top_n), t))
    }
}

/// Both tables of the complexity report can be printed.
pub open spec fn complexity_printable(fs: Seq<FuncView>, st: Seq<StatView>, t: nat, top_n: nat) -> bool {
    cells_cuttable_v(stat_rows(st)) && cells_cuttable_v(top_rows(top_functions(fs, top_n), t))
}

fn above_threshold_exec(fs: &Vec<ComplexFunction>, t: usize) -> (r: usize)
    ensures
        r == above_threshold(funcs_view(fs@), t as nat),
{
    let ghost fv = funcs_view(fs@);
    let mut r: usize = 0;
    let mut i: usize = 0;
    proof {
        assert(fv.take(0) =~= Seq::<FuncView>::empty());
    }
    while i < fs.len()
        invariant
            i <= fs@.len(),
            fv == funcs_view(fs@),
            r == above_threshold(fv.take(i as int), t as nat),
            r <= i,
        decreases fs@.len() - i,
    {
        proof {
            assert(fv.take(i + 1).drop_last() =~= fv.take(i as int));
            assert(fv.take(i + 1).last() == fv[i as int]);
        }
        if fs[i].complexity > t {
            r += 1;
        }
        i += 1;
    }
    proof {
        assert(fv.take(fs@.len() as int) =~= fv);
    }
    r
}

fn stat_rows_exec(st: &Vec<(String, usize, usize)>) -> (r: Vec<Vec<String>>)
    ensures
        rows_view(r@) == stat_rows(stats_view(st@)),
{
    let ghost sv = stats_view(st@);
    let mut r: Vec<Vec<String>> = Vec::new();
    let mut i: usize = 0;
    while i < st.len()
        invariant
            i <= st@.len(),
            sv == stats_view(st@),
            r@.len() == i,
            forall|k: int| 0 <= k < i ==> #[trigger] rows_view(r@)[k] == stat_rows(sv)[k],
        decreases st@.len() - i,
    {
        let mut row: Vec<String> = Vec::new();
        row.push(st[i].0.clone());
        row.push(string_of(&decimal_exec(st[i].1)));
        row.push(string_of(&decimal_exec(st[i].2)));
        let ghost before = r@;
        r.push(row);
        proof {
            assert forall|k: int| 0 <= k < i + 1 implies #[trigger] rows_view(r@)[k] == stat_rows(sv)[k] by {
                if k < i {
                    assert(r@[k] == before[k]);
                    assert(rows_view(r@)[k] == rows_view(before)[k]);
                } else {
                    assert(rows_view(r@)[k] =~= stat_rows(sv)[k]);
                }
            }
        }
        i += 1;
    }
    proof {
        assert(rows_view(r@) =~= stat_rows(sv));
    }
    r
}

fn top_rows_exec(fs: &Vec<ComplexFunction>, n: usize, t: usize) -> (r: Vec<Vec<String>>)
    ensures
        rows_view(r@) == top_rows(first_funcs(funcs_view(fs@), n as nat), t as nat),
{
    let ghost fv = funcs_view(fs@);
    let ghost shown = first_funcs(fv, n as nat);
    let m: usize = if fs.len() <= n { fs.len() } else { n };
    assert(shown.len() == m);
    let mut r: Vec<Vec<String>> = Vec::new();
    let mut i: usize = 0;
    while i < m
        invariant
            i <= m,
            m <= fs@.len(),
            fv == funcs_view(fs@),
            shown == first_funcs(fv, n as nat),
            shown.len() == m,
            r@.len() == i,
            forall|k: int| 0 <= k < i ==> #[trigger] rows_view(r@)[k] == top_rows(shown, t as nat)[k],
        decreases m - i,
    {
        assert(shown[i as int] == fv[i as int]);
        let f = &fs[i];
        let mut row: Vec<String> = Vec::new();
        row.push(f.file.clone());
        row.push(f.name.clone());
        let mut l: Vec<char> = Vec::new();
        l.push('L');
        extend(&mut l, &decimal_exec(f.line));
        row.push(string_of(&l));
        let d = decimal_exec(f.complexity);
        let cell: Vec<char> = if f.complexity > t {
            let mut c: Vec<char> = Vec::new();
            extend_str(&mut c, "\x1b[31m");
            extend(&mut c, &d);
            extend_str(&mut c, "\x1b[0m");
            c
        } else {
            d
        };
        proof {
            reveal_strlit("L");
            assert(l@ =~= "L"@ + decimal(f.line as nat));
            assert(cell@ =~= complexity_cell(f.complexity as nat, t as nat));
        }
        row.push(string_of(&cell));
        let ghost before = r@;
        r.push(row);
        proof {
            assert forall|k: int| 0 <= k < i + 1 implies #[trigger] rows_view(r@)[k] == top_rows(shown, t as nat)[k] by {
                if k < i {
                    assert(r@[k] == before[k]);
                    assert(rows_view(r@)[k] == rows_view(before)[k]);
                } else {
                    assert(rows_view(r@)[k] =~= top_rows(shown, t as nat)[k]);
                }
            }
        }
        i += 1;
    }
    proof {
        assert(rows_view(r@) =~= top_rows(shown, t as nat));
    }
    r
}

/// The cyclomatic complexity report on the functions of a tree (as
/// [`collect_functions`] finds them), with their per-language counts, a
/// threshold, how many of the most complex to list, and the average
/// complexity as text.
///
/// Returns `false`, writing nothing, when a table cell longer than 50 bytes
/// cannot be cut at byte 49 (where the report could not be printed).
pub fn complexity_report(
    o: &mut Output,
    fs: &Vec<ComplexFunction>,
    stats: &Vec<(String, usize, usize)>,
    threshold: usize,
    top_n: usize,
    avg: &str,
) -> (ok: bool)
    ensures
        ok == (funcs_view(fs@).len() == 0 || complexity_printable(
            funcs_view(fs@),
            stats_view(stats@),
            threshold as nat,
            top_n as nat,
        )),
        ok ==> final(o)@ == write_lines(
            old(o)@,
            complexity_report_lines(funcs_view(fs@), stats_view(stats@), threshold as nat, top_n as nat, avg@),
        ),
        !ok ==> final(o)@ == old(o)@,
{
    let ghost o0 = o@;
    let ghost fv = funcs_view(fs@);
    let ghost title = "Cyclomatic Complexity Analysis"@;
    if fs.len() == 0 {
        crate::display::print_sub_header(o, "Cyclomatic Complexity Analysis");
        crate::display::print_info(o, "No functions found to analyze");
        proof {
            crate::display::lemma_write_lines_push(o0, sub_header_lines(title), info_line("No functions found to analyze"@));
            assert(complexity_report_lines(fv, stats_view(stats@), threshold as nat, top_n as nat, avg@) =~= sub_header_lines(
                title,
            ).push(info_line("No functions found to analyze"@)));
        }
        return true;
    }
    let srows = stat_rows_exec(stats);
    let sorted = sort_by_complexity(fs);
    let trows = top_rows_exec(&sorted, top_n, threshold);
    let ok1 = table_printable(srows.as_slice());
    let ok2 = table_printable(trows.as_slice());
    proof {
        crate::display::lemma_table_view(Seq::<&str>::empty(), srows@);
        crate::display::lemma_table_view(Seq::<&str>::empty(), trows@);
    }
    if !(ok1 && ok2) {
        return false;
    }
    let mut body: Vec<Vec<char>> = Vec::new();
    push_line(&mut body, summary_line_exec("Functions analyzed", &decimal_exec(fs.len())));
    push_line(&mut body, summary_line_exec("Average complexity", &crate::text::chars_of(avg)));
    push_line(&mut body, summary_line_exec("Complexity threshold", &decimal_exec(threshold)));
    let above = above_threshold_exec(fs, threshold);
    if above > 0 {
        let mut m = decimal_exec(above);
        extend_str(&mut m, " functions exceed threshold of ");
        extend(&mut m, &decimal_exec(threshold));
        push_line(&mut body, warning_line_exec(&m));
    } else {
        let mut m: Vec<char> = Vec::new();
        extend_str(&mut m, "All functions are within complexity threshold (");
        extend(&mut m, &decimal_exec(threshold));
        extend_str(&mut m, ")");
        push_line(&mut body, ok_line_chars(&m));
    }
    push_line(&mut body, str_line(""));
    push_line(&mut body, str_line("    \x1b[1mFiles analyzed by language:\x1b[0m"));
    let h1: Vec<&str> = vec!["Extension", "Files", "Functions"];
    push_lines(&mut body, table_lines_exec(h1.as_slice(), srows.as_slice()));
    push_line(&mut body, str_line(""));
    let mut top: Vec<char> = Vec::new();
    extend_str(&mut top, "    \x1b[1mTop ");
    extend(&mut top, &decimal_exec(top_n));
    extend_str(&mut top, " Most Complex Functions:\x1b[0m");
    push_line(&mut body, top);
    let h2: Vec<&str> = vec!["File", "Function", "Line", "Complexity"];
    push_lines(&mut body, table_lines_exec(h2.as_slice(), trows.as_slice()));
    proof {
        assert(headers_view(h1@) =~= seq!["Extension"@, "Files"@, "Functions"@]);
        assert(headers_view(h2@) =~= seq!["File"@, "Function"@, "Line"@, "Complexity"@]);
        assert(sub_header_lines(title) + views(body@) =~= complexity_report_lines(
            fv,
            stats_view(stats@),
            threshold as nat,
            top_n as nat,
            avg@,
        ));
    }
    crate::display::print_sub_header(o, "Cyclomatic Complexity Analysis");
    out_all(o, &body);
    proof {
        crate::display::lemma_write_lines_append(o0, sub_header_lines(title), views(body@));
    }
    true
}

/// [`ok_line`] of a character message.
pub fn ok_line_chars(msg: &Vec<char>) -> (r: Vec<char>)
    ensures
        r@ == ok_line(msg@),
{
    let mut l: Vec<char> = Vec::new();
    extend_str(&mut l, "    \x1b[1;32m✓  ");
    extend(&mut l, msg);
    extend_str(&mut l, "\x1b[0m");
    proof {
        assert(l@ =~= ok_line(msg@));
    }
    l
}

/// The complexity scan of the tree: the functions of its source files (see
/// [`collect_functions`]) reported against `threshold`, with the `top_n`
/// most complex listed; `average` gives the mean complexity as text.
///
/// Returns `false`, writing nothing, when a language pattern does not
/// compile, a complexity exceeds `usize::MAX`, or the report cannot be
/// printed (a table cell longer than 50 bytes that cannot be cut at byte 49).
pub fn complexity_scan<F: Fn(&Vec<ComplexFunction>) -> String>(
    o: &mut Output,
    entries: &Vec<TreeEntry>,
    threshold: usize,
    top_n: usize,
    ignore_dirs: &Vec<String>,
    average: F,
) -> (ok: bool)
    requires
        forall|v: &Vec<ComplexFunction>| call_requires(average, (v,)),
    ensures
        ({
            let found = file_analyses(entries@, strings_view(ignore_dirs@));
            let fas = found->0;
            &&& ok == (languages_compile(language_table()) && found is Some && (functions_of(fas).len() == 0
                || complexity_printable(
                functions_of(fas),
                language_stats(fas),
                threshold as nat,
                top_n as nat,
            )))
            &&& ok ==> exists|v: Vec<ComplexFunction>, a: String|
                #![trigger call_ensures(average, (&v,), a)]
                {
                    &&& funcs_view(v@) == functions_of(fas)
                    &&& call_ensures(average, (&v,), a)
                    &&& final(o)@ == write_lines(
                        old(o)@,
                        complexity_report_lines(
                            functions_of(fas),
                            language_stats(fas),
                            threshold as nat,
                            top_n as nat,
                            a@,
                        ),
                    )
                }
            &&& !ok ==> final(o)@ == old(o)@
        }),
{
    let (fs, stats) = match collect_functions(entries, ignore_dirs) {
        Some(x) => x,
        None => return false,
    };
    let avg = average(&fs);
    let ok = complexity_report(o, &fs, &stats, threshold, top_n, avg.as_str());
    proof {
        if ok {
            assert(call_ensures(average, (&fs,), avg));
        }
    }
    ok
}

/// Threshold above which a function counts as too complex, when none is given.
pub const DEFAULT_THRESHOLD: usize = 10;

/// The complexity scan with the default threshold and the twenty most complex
/// functions listed.
pub fn run<F: Fn(&Vec<ComplexFunction>) -> String>(
    o: &mut Output,
    entries: &Vec<TreeEntry>,
    ignore_dirs: &Vec<String>,
    average: F,
) -> (ok: bool)
    requires
        forall|v: &Vec<ComplexFunction>| call_requires(average, (v,)),
    ensures
        ({
            let found = file_analyses(entries@, strings_view(ignore_dirs@));
            let fas = found->0;
            &&& ok == (languages_compile(language_table()) && found is Some && (functions_of(fas).len() == 0
                || complexity_printable(functions_of(fas), language_stats(fas), 10, 20)))
            &&& ok ==> exists|v: Vec<ComplexFunction>, a: String|
                #![trigger call_ensures(average, (&v,), a)]
                {
                    &&& funcs_view(v@) == functions_of(fas)
                    &&& call_ensures(average, (&v,), a)
                    &&& final(o)@ == write_lines(
                        old(o)@,
                        complexity_report_lines(functions_of(fas), language_stats(fas), 10, 20, a@),
                    )
                }
            &&& !ok ==> final(o)@ == old(o)@
        }),
{
    complexity_scan(o, entries, DEFAULT_THRESHOLD, 20, ignore_dirs, average)
}

} // verus!
