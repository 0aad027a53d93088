//! Fix suggestions: version comparison against known advisories, the
//! dependency lists of lockfiles, refactoring hints and remediation guidance.
use vstd::prelude::*;
use crate::text::{
    chars_of, ends_with, ends_with_str, eq_str, find, find_exec, join, join_strs, lines, lines_of,
    slice, split_str, split_str_exec, split_ws, split_ws_exec, starts_with, starts_with_str,
    str_seq_view, string_of, strip_prefix, strip_prefix_str, trim, trim_char, trim_char_exec,
    trim_end_matches, trim_end_matches_str, trim_exec, trim_start_matches,
    trim_start_matches_str, views, extend, extend_str, has_char,
};
use crate::value::{get, get_field, get_str, get_str_exec, json_parse, parse_json, DocValue};
use crate::tree::{entry_path, is_skipped, skipped, strings_view, strs_view, BlobContent, TreeEntry};

verus! {

/// `char::is_ascii_digit`.
pub open spec fn is_ascii_digit(c: char) -> bool {
    '0' <= c && c <= '9'
}

/// The value of an ASCII digit.
pub open spec fn digit_value(c: char) -> nat {
    (c as int - '0' as int) as nat
}

/// The number of leading ASCII digits of `s`.
pub open spec fn leading_digits(s: Seq<char>) -> nat
    decreases s.len(),
{
    if s.len() > 0 && is_ascii_digit(s[0]) {
        1 + leading_digits(s.drop_first())
    } else {
        0
    }
}

/// The value of a string of decimal digits.
pub open spec fn digits_value(s: Seq<char>) -> nat
    decreases s.len(),
{
    if s.len() == 0 {
        0
    } else {
        digits_value(s.drop_last()) * 10 + digit_value(s.last())
    }
}

/// A version component: the number its leading digits spell, when there is
/// at least one and the number fits in a `u64`.
pub open spec fn version_component(p: Seq<char>) -> Option<nat> {
    let d = p.take(leading_digits(p) as int);
    if d.len() > 0 && digits_value(d) <= u64::MAX {
        Some(digits_value(d))
    } else {
        None
    }
}

/// The numbers of the components that have one, in order.
pub open spec fn component_values(ps: Seq<Seq<char>>) -> Seq<nat>
    decreases ps.len(),
{
    if ps.len() == 0 {
        Seq::empty()
    } else {
        let prev = component_values(ps.drop_last());
        match version_component(ps.last()) {
            Some(n) => prev.push(n),
            None => prev,
        }
    }
}

/// The numeric parts of a version: leading 'v's dropped, split at '.', each
/// part read by its leading digits; parts without a number are left out.
pub open spec fn version_parts(v: Seq<char>) -> Seq<nat> {
    component_values(split_str(trim_start_matches(v, "v"@), "."@))
}

/// Part `i` of a version, 0 beyond its end.
pub open spec fn part_at(a: Seq<nat>, i: int) -> nat {
    if 0 <= i < a.len() {
        a[i]
    } else {
        0
    }
}

/// The larger of two lengths.
pub open spec fn max_len(a: Seq<nat>, b: Seq<nat>) -> int {
    if a.len() > b.len() {
        a.len() as int
    } else {
        b.len() as int
    }
}

/// From part `i` on, `a` comes before `b`: at the first part where they
/// differ (missing parts counting as 0), `a`'s is smaller.
pub open spec fn parts_less_from(a: Seq<nat>, b: Seq<nat>, i: int) -> bool
    decreases max_len(a, b) - i,
{
    if i < 0 || i >= max_len(a, b) {
        false
    } else if part_at(a, i) < part_at(b, i) {
        true
    } else if part_at(a, i) > part_at(b, i) {
        false
    } else {
        parts_less_from(a, b, i + 1)
    }
}

/// `current` is an older version than `target`.
pub open spec fn version_lt(current: Seq<char>, target: Seq<char>) -> bool {
    parts_less_from(version_parts(current), version_parts(target), 0)
}

proof fn lemma_leading_digits(p: Seq<char>, i: int)
    requires
        0 <= i <= p.len(),
        forall|j: int| 0 <= j < i ==> is_ascii_digit(#[trigger] p[j]),
        i == p.len() || !is_ascii_digit(p[i]),
    ensures
        leading_digits(p) == i,
    decreases i,
{
    if i > 0 {
        let q = p.drop_first();
        assert forall|j: int| 0 <= j < i - 1 implies is_ascii_digit(#[trigger] q[j]) by {
            assert(q[j] == p[j + 1]);
        }
        if i - 1 < q.len() {
            assert(q[i - 1] == p[i]);
        }
        lemma_leading_digits(q, i - 1);
    }
}

/// The number spelled by the leading digits of a component, if it has one
/// that fits in a `u64`.
fn version_component_exec(p: &[char]) -> (r: Option<u64>)
    ensures
        r matches Some(n) ==> version_component(p@) == Some(n as nat),
        r is None ==> version_component(p@) is None,
{
    let mut i: usize = 0;
    let mut val: u64 = 0;
    let mut overflow = false;
    proof {
        assert(p@.take(0) =~= Seq::<char>::empty());
    }
    while i < p.len() && '0' <= p[i] && p[i] <= '9'
        invariant
            i <= p@.len(),
            forall|j: int| 0 <= j < i ==> is_ascii_digit(#[trigger] p@[j]),
            overflow == (digits_value(p@.take(i as int)) > u64::MAX),
            !overflow ==> val == digits_value(p@.take(i as int)),
        decreases p@.len() - i,
    {
        let c = p[i];
        let d: u64 = (c as u32 - '0' as u32) as u64;
        proof {
            assert(p@.take(i + 1).drop_last() =~= p@.take(i as int));
            assert(p@.take(i + 1).last() == c);
            assert(d == digit_value(c));
        }
        if !overflow {
            if val > (u64::MAX - d) / 10 {
                overflow = true;
                assert(val * 10 + d > u64::MAX) by (nonlinear_arith)
                    requires
                        val > (u64::MAX - d) / 10,
                        d <= 9,
                ;
            } else {
                assert(val * 10 + d <= u64::MAX) by (nonlinear_arith)
                    requires
                        val <= (u64::MAX - d) / 10,
                        d <= 9,
                ;
                val = val * 10 + d;
            }
        }
        i += 1;
    }
    proof {
        lemma_leading_digits(p@, i as int);
    }
    if i == 0 || overflow {
        None
    } else {
        Some(val)
    }
}

/// The numeric parts of a version.
fn version_parts_exec(v: &str) -> (r: Vec<u64>)
    ensures
        r@.len() == version_parts(v@).len(),
        forall|i: int| 0 <= i < r@.len() ==> r@[i] as nat == #[trigger] version_parts(v@)[i],
{
    let vc = chars_of(v);
    let t = trim_start_matches_str(&vc, "v");
    proof {
        reveal_strlit(".");
    }
    let ps = split_str_exec(&t, ".");
    let ghost pv = views(ps@);
    let mut r: Vec<u64> = Vec::new();
    let mut i: usize = 0;
    proof {
        assert(pv.take(0) =~= Seq::<Seq<char>>::empty());
    }
    while i < ps.len()
        invariant
            i <= ps@.len(),
            pv == views(ps@),
            r@.len() == component_values(pv.take(i as int)).len(),
            forall|k: int|
                0 <= k < r@.len() ==> r@[k] as nat == #[trigger] component_values(
                    pv.take(i as int),
                )[k],
        decreases ps@.len() - i,
    {
        proof {
            assert(pv.take(i + 1).drop_last() =~= pv.take(i as int));
            assert(pv.take(i + 1).last() == ps@[i as int]@);
        }
        match version_component_exec(&ps[i]) {
            Some(n) => {
                r.push(n);
            },
            None => {},
        }
        i += 1;
    }
    proof {
        assert(pv.take(ps@.len() as int) =~= pv);
    }
    r
}

/// Simple version comparison (semver-like). Returns true if `current < target`.
pub fn version_less_than(current: &str, target: &str) -> (r: bool)
    ensures
        r == version_lt(current@, target@),
{
    let a = version_parts_exec(current);
    let b = version_parts_exec(target);
    let ghost av = version_parts(current@);
    let ghost bv = version_parts(target@);
    let n = if a.len() > b.len() {
        a.len()
    } else {
        b.len()
    };
    let mut i: usize = 0;
    while i < n
        invariant
            av == version_parts(current@),
            bv == version_parts(target@),
            n == max_len(av, bv),
            i <= n,
            a@.len() == av.len(),
            b@.len() == bv.len(),
            forall|k: int| 0 <= k < a@.len() ==> a@[k] as nat == #[trigger] av[k],
            forall|k: int| 0 <= k < b@.len() ==> b@[k] as nat == #[trigger] bv[k],
            parts_less_from(av, bv, 0) == parts_less_from(av, bv, i as int),
        decreases n - i,
    {
        let va: u64 = if i < a.len() {
            a[i]
        } else {
            0
        };
        let vb: u64 = if i < b.len() {
            b[i]
        } else {
            0
        };
        assert(va == part_at(av, i as int));
        assert(vb == part_at(bv, i as int));
        assert(0 <= i < max_len(av, bv));
        if va < vb {
            assert(parts_less_from(av, bv, i as int));
            return true;
        }
        if va > vb {
            assert(!parts_less_from(av, bv, i as int));
            return false;
        }
        assert(parts_less_from(av, bv, i as int) == parts_less_from(av, bv, i + 1));
        i += 1;
    }
    false
}

/// A version never comes before itself.
pub proof fn lemma_version_lt_irreflexive(v: Seq<char>)
    ensures
        !version_lt(v, v),
{
    lemma_parts_less_irreflexive(version_parts(v), 0);
}

proof fn lemma_parts_less_irreflexive(a: Seq<nat>, i: int)
    requires
        0 <= i,
    ensures
        !parts_less_from(a, a, i),
    decreases max_len(a, a) - i,
{
    if i < max_len(a, a) {
        lemma_parts_less_irreflexive(a, i + 1);
    }
}

proof fn lemma_parts_less_asymmetric(a: Seq<nat>, b: Seq<nat>, i: int)
    requires
        0 <= i,
        parts_less_from(a, b, i),
    ensures
        !parts_less_from(b, a, i),
    decreases max_len(a, b) - i,
{
    if part_at(a, i) == part_at(b, i) {
        lemma_parts_less_asymmetric(a, b, i + 1);
    }
}

/// Of two versions, at most one comes before the other.
pub proof fn lemma_version_lt_asymmetric(a: Seq<char>, b: Seq<char>)
    requires
        version_lt(a, b),
    ensures
        !version_lt(b, a),
{
    lemma_parts_less_asymmetric(version_parts(a), version_parts(b), 0);
}

proof fn lemma_parts_less_transitive(a: Seq<nat>, b: Seq<nat>, c: Seq<nat>, i: int)
    requires
        0 <= i,
        parts_less_from(a, b, i),
        parts_less_from(b, c, i),
    ensures
        parts_less_from(a, c, i),
    decreases max_len(a, b) + max_len(b, c) - 2 * i,
{
    if part_at(a, i) == part_at(b, i) && part_at(b, i) == part_at(c, i) {
        lemma_parts_less_transitive(a, b, c, i + 1);
    }
}

/// Coming before is transitive: versions are ordered.
pub proof fn lemma_version_lt_transitive(a: Seq<char>, b: Seq<char>, c: Seq<char>)
    requires
        version_lt(a, b),
        version_lt(b, c),
    ensures
        version_lt(a, c),
{
    lemma_parts_less_transitive(version_parts(a), version_parts(b), version_parts(c), 0);
}


/// A known advisory: the package and its ecosystem, the first version that
/// is not affected, the version to upgrade to, and what it is.
pub struct KnownCve {
    pub package: &'static str,
    pub ecosystem: &'static str,
    pub affected_below: &'static str,
    pub fixed_version: &'static str,
    pub cve_id: &'static str,
    pub severity: &'static str,
    pub summary: &'static str,
}

/// The texts of an advisory: package, ecosystem, affected-below version,
/// fixed version, identifier, severity, summary.
pub open spec fn cve_view(c: KnownCve) -> Seq<Seq<char>> {
    seq![c.package@, c.ecosystem@, c.affected_below@, c.fixed_version@, c.cve_id@, c.severity@, c.summary@]
}

/// The advisories the scan knows of, in order.
pub open spec fn cve_table() -> Seq<Seq<Seq<char>>> {
    seq![
        seq!["lodash"@, "npm"@, "4.17.21"@, "4.17.21"@, "CVE-2021-23337"@, "HIGH"@, "Command injection via template function"@],
        seq!["minimist"@, "npm"@, "1.2.6"@, "1.2.6"@, "CVE-2021-44906"@, "CRITICAL"@, "Prototype pollution"@],
        seq!["node-fetch"@, "npm"@, "2.6.7"@, "2.6.7"@, "CVE-2022-0235"@, "HIGH"@, "Exposure of sensitive information to an unauthorized actor"@],
        seq!["express"@, "npm"@, "4.19.2"@, "4.19.2"@, "CVE-2024-29041"@, "MEDIUM"@, "Open redirect via URL parsing"@],
        seq!["json5"@, "npm"@, "2.2.2"@, "2.2.2"@, "CVE-2022-46175"@, "HIGH"@, "Prototype pollution in parse()"@],
        seq!["axios"@, "npm"@, "1.6.0"@, "1.6.0"@, "CVE-2023-45857"@, "MEDIUM"@, "CSRF token exposure via XSRF-TOKEN cookie"@],
        seq!["semver"@, "npm"@, "7.5.2"@, "7.5.2"@, "CVE-2022-25883"@, "MEDIUM"@, "Regular expression denial of service"@],
        seq!["requests"@, "pypi"@, "2.31.0"@, "2.31.0"@, "CVE-2023-32681"@, "MEDIUM"@, "Unintended leak of Proxy-Authorization header"@],
        seq!["urllib3"@, "pypi"@, "2.0.7"@, "2.0.7"@, "CVE-2023-45803"@, "MEDIUM"@, "Request body not stripped after cross-origin redirect"@],
        seq!["django"@, "pypi"@, "4.2.11"@, "4.2.11"@, "CVE-2024-27351"@, "HIGH"@, "ReDoS in Truncator.words()"@],
        seq!["flask"@, "pypi"@, "2.3.2"@, "2.3.2"@, "CVE-2023-30861"@, "HIGH"@, "Session cookie set on every response when vary: cookie not set"@],
        seq!["pillow"@, "pypi"@, "10.2.0"@, "10.2.0"@, "CVE-2023-50447"@, "CRITICAL"@, "Arbitrary code execution via PIL.ImageMath.eval"@],
        seq!["jinja2"@, "pypi"@, "3.1.3"@, "3.1.3"@, "CVE-2024-22195"@, "MEDIUM"@, "XSS via xmlattr filter"@],
        seq!["cryptography"@, "pypi"@, "42.0.0"@, "42.0.0"@, "CVE-2023-49083"@, "HIGH"@, "NULL-dereference when loading PKCS7 certificates"@],
        seq!["hyper"@, "crates.io"@, "0.14.27"@, "0.14.27"@, "CVE-2023-26964"@, "HIGH"@, "HTTP/2 peer can cause excessive memory growth"@],
        seq!["regex"@, "crates.io"@, "1.5.5"@, "1.5.5"@, "CVE-2022-24713"@, "HIGH"@, "Regex denial of service"@],
        seq!["openssl"@, "crates.io"@, "0.10.48"@, "0.10.48"@, "CVE-2023-0286"@, "HIGH"@, "X.400 address type confusion in X.509 GeneralName"@],
        seq!["golang.org/x/net"@, "go"@, "0.17.0"@, "0.17.0"@, "CVE-2023-44487"@, "HIGH"@, "HTTP/2 rapid reset attack"@],
        seq!["golang.org/x/crypto"@, "go"@, "0.17.0"@, "0.17.0"@, "CVE-2023-48795"@, "MEDIUM"@, "SSH prefix truncation attack (Terrapin)"@],
        seq!["github.com/gin-gonic/gin"@, "go"@, "1.9.1"@, "1.9.1"@, "CVE-2023-29401"@, "HIGH"@, "Improper handling of non-standard HTTP methods"@]

    ]
}

/// Known CVE database (embedded – a practical subset for common packages).
pub fn known_cves() -> (r: Vec<KnownCve>)
    ensures
        Seq::new(r@.len(), |i: int| cve_view(r@[i])) == cve_table(),
{
    let mut v: Vec<KnownCve> = Vec::new();
    v.push(KnownCve { package: "lodash", ecosystem: "npm", affected_below: "4.17.21", fixed_version: "4.17.21", cve_id: "CVE-2021-23337", severity: "HIGH", summary: "Command injection via template function" });
    v.push(KnownCve { package: "minimist", ecosystem: "npm", affected_below: "1.2.6", fixed_version: "1.2.6", cve_id: "CVE-2021-44906", severity: "CRITICAL", summary: "Prototype pollution" });
    v.push(KnownCve { package: "node-fetch", ecosystem: "npm", affected_below: "2.6.7", fixed_version: "2.6.7", cve_id: "CVE-2022-0235", severity: "HIGH", summary: "Exposure of sensitive information to an unauthorized actor" });
    v.push(KnownCve { package: "express", ecosystem: "npm", affected_below: "4.19.2", fixed_version: "4.19.2", cve_id: "CVE-2024-29041", severity: "MEDIUM", summary: "Open redirect via URL parsing" });
    v.push(KnownCve { package: "json5", ecosystem: "npm", affected_below: "2.2.2", fixed_version: "2.2.2", cve_id: "CVE-2022-46175", severity: "HIGH", summary: "Prototype pollution in parse()" });
    v.push(KnownCve { package: "axios", ecosystem: "npm", affected_below: "1.6.0", fixed_version: "1.6.0", cve_id: "CVE-2023-45857", severity: "MEDIUM", summary: "CSRF token exposure via XSRF-TOKEN cookie" });
    v.push(KnownCve { package: "semver", ecosystem: "npm", affected_below: "7.5.2", fixed_version: "7.5.2", cve_id: "CVE-2022-25883", severity: "MEDIUM", summary: "Regular expression denial of service" });
    v.push(KnownCve { package: "requests", ecosystem: "pypi", affected_below: "2.31.0", fixed_version: "2.31.0", cve_id: "CVE-2023-32681", severity: "MEDIUM", summary: "Unintended leak of Proxy-Authorization header" });
    v.push(KnownCve { package: "urllib3", ecosystem: "pypi", affected_below: "2.0.7", fixed_version: "2.0.7", cve_id: "CVE-2023-45803", severity: "MEDIUM", summary: "Request body not stripped after cross-origin redirect" });
    v.push(KnownCve { package: "django", ecosystem: "pypi", affected_below: "4.2.11", fixed_version: "4.2.11", cve_id: "CVE-2024-27351", severity: "HIGH", summary: "ReDoS in Truncator.words()" });
    v.push(KnownCve { package: "flask", ecosystem: "pypi", affected_below: "2.3.2", fixed_version: "2.3.2", cve_id: "CVE-2023-30861", severity: "HIGH", summary: "Session cookie set on every response when vary: cookie not set" });
    v.push(KnownCve { package: "pillow", ecosystem: "pypi", affected_below: "10.2.0", fixed_version: "10.2.0", cve_id: "CVE-2023-50447", severity: "CRITICAL", summary: "Arbitrary code execution via PIL.ImageMath.eval" });
    v.push(KnownCve { package: "jinja2", ecosystem: "pypi", affected_below: "3.1.3", fixed_version: "3.1.3", cve_id: "CVE-2024-22195", severity: "MEDIUM", summary: "XSS via xmlattr filter" });
    v.push(KnownCve { package: "cryptography", ecosystem: "pypi", affected_below: "42.0.0", fixed_version: "42.0.0", cve_id: "CVE-2023-49083", severity: "HIGH", summary: "NULL-dereference when loading PKCS7 certificates" });
    v.push(KnownCve { package: "hyper", ecosystem: "crates.io", affected_below: "0.14.27", fixed_version: "0.14.27", cve_id: "CVE-2023-26964", severity: "HIGH", summary: "HTTP/2 peer can cause excessive memory growth" });
    v.push(KnownCve { package: "regex", ecosystem: "crates.io", affected_below: "1.5.5", fixed_version: "1.5.5", cve_id: "CVE-2022-24713", severity: "HIGH", summary: "Regex denial of service" });
    v.push(KnownCve { package: "openssl", ecosystem: "crates.io", affected_below: "0.10.48", fixed_version: "0.10.48", cve_id: "CVE-2023-0286", severity: "HIGH", summary: "X.400 address type confusion in X.509 GeneralName" });
    v.push(KnownCve { package: "golang.org/x/net", ecosystem: "go", affected_below: "0.17.0", fixed_version: "0.17.0", cve_id: "CVE-2023-44487", severity: "HIGH", summary: "HTTP/2 rapid reset attack" });
    v.push(KnownCve { package: "golang.org/x/crypto", ecosystem: "go", affected_below: "0.17.0", fixed_version: "0.17.0", cve_id: "CVE-2023-48795", severity: "MEDIUM", summary: "SSH prefix truncation attack (Terrapin)" });
    v.push(KnownCve { package: "github.com/gin-gonic/gin", ecosystem: "go", affected_below: "1.9.1", fixed_version: "1.9.1", cve_id: "CVE-2023-29401", severity: "HIGH", summary: "Improper handling of non-standard HTTP methods" });
    proof {
        assert(Seq::new(v@.len(), |i: int| cve_view(v@[i])) =~~= cve_table());
    }
    v
}

/// Remediation guidance for findings whose rule name mentions `pattern_name`.
pub struct SastRemediation {
    pub pattern_name: &'static str,
    pub guidance: &'static str,
    pub code_example: &'static str,
}

/// The texts of a remediation: pattern name, guidance, code example.
pub open spec fn remediation_view(r: SastRemediation) -> (Seq<char>, Seq<char>, Seq<char>) {
    (r.pattern_name@, r.guidance@, r.code_example@)
}

/// The remediation guidance, in the order it is searched.
pub open spec fn remediation_table() -> Seq<(Seq<char>, Seq<char>, Seq<char>)> {
    seq![
        ("SQL injection"@, "Use parameterized queries instead of string interpolation"@, "cursor.execute(\"SELECT * FROM users WHERE id = ?\", (user_id,))"@),
        ("command injection"@, "Use subprocess with shell=False and pass arguments as a list"@, "subprocess.run([\"cmd\", arg1, arg2], shell=False)"@),
        ("pickle"@, "Use json or msgpack for serialization instead of pickle"@, "data = json.loads(untrusted_input)"@),
        ("yaml.load"@, "Use yaml.safe_load() or specify SafeLoader"@, "data = yaml.load(stream, Loader=yaml.SafeLoader)"@),
        ("ObjectInputStream"@, "Implement ObjectInputFilter to validate deserialized classes"@, "ObjectInputFilter.Config.setSerialFilter(filter);"@),
        ("eval"@, "Avoid eval(); use safer alternatives like JSON.parse or AST-based parsing"@, "const data = JSON.parse(input);"@),
        ("innerHTML"@, "Use textContent for plain text or sanitize with DOMPurify"@, "element.textContent = userInput; // or DOMPurify.sanitize(html)"@),
        ("dangerouslySetInnerHTML"@, "Sanitize the HTML before rendering with DOMPurify"@, "dangerouslySetInnerHTML={{ __html: DOMPurify.sanitize(html) }}"@),
        ("prototype pollution"@, "Validate and sanitize object keys; use Object.create(null) for dictionaries"@, "const safeObj = Object.create(null);"@),
        ("path traversal"@, "Use path.resolve() and verify the result is within an allowed directory"@, "const resolved = path.resolve(basedir, userInput); if (!resolved.startsWith(basedir)) throw Error();"@),
        ("weak hash"@, "Replace MD5/SHA1 with SHA-256 or stronger"@, "hashlib.sha256(data).hexdigest()"@),
        ("Math.random"@, "Use crypto.getRandomValues() or crypto.randomBytes() for security-sensitive values"@, "const token = crypto.randomBytes(32).toString('hex');"@),
        ("TLS"@, "Never disable TLS certificate verification in production"@, "// Remove NODE_TLS_REJECT_UNAUTHORIZED=0 and rejectUnauthorized: false"@),
        ("CORS"@, "Specify allowed origins explicitly instead of using wildcard"@, "res.setHeader('Access-Control-Allow-Origin', 'https://trusted.example.com');"@),
        ("JWT"@, "Store JWT secrets in environment variables, never hardcode them"@, "const secret = process.env.JWT_SECRET; jwt.sign(payload, secret);"@),
        ("SSRF"@, "Validate and allowlist URLs before making requests; block internal IPs"@, "if (!isAllowedUrl(url)) throw new Error('URL not allowed');"@),
        ("XSS"@, "Sanitize all user input before rendering; use framework auto-escaping"@, "{{ user_input | escape }}"@),
        ("SSTI"@, "Never pass user input directly to template engines; use sandboxed environments"@, "env = SandboxedEnvironment(); template = env.from_string(safe_template)"@),
        ("debug"@, "Disable debug mode in production; use environment variables to control"@, "app.run(debug=os.environ.get('FLASK_DEBUG', 'false') == 'true')"@),
        ("unsafe"@, "Minimize unsafe blocks; document invariants; consider safe abstractions"@, "// SAFETY: pointer is valid and aligned because ..."@)

    ]
}

/// The remediation guidance table.
pub fn sast_remediations() -> (r: Vec<SastRemediation>)
    ensures
        Seq::new(r@.len(), |i: int| remediation_view(r@[i])) == remediation_table(),
{
    let mut v: Vec<SastRemediation> = Vec::new();
    v.push(SastRemediation { pattern_name: "SQL injection", guidance: "Use parameterized queries instead of string interpolation", code_example: "cursor.execute(\"SELECT * FROM users WHERE id = ?\", (user_id,))" });
    v.push(SastRemediation { pattern_name: "command injection", guidance: "Use subprocess with shell=False and pass arguments as a list", code_example: "subprocess.run([\"cmd\", arg1, arg2], shell=False)" });
    v.push(SastRemediation { pattern_name: "pickle", guidance: "Use json or msgpack for serialization instead of pickle", code_example: "data = json.loads(untrusted_input)" });
    v.push(SastRemediation { pattern_name: "yaml.load", guidance: "Use yaml.safe_load() or specify SafeLoader", code_example: "data = yaml.load(stream, Loader=yaml.SafeLoader)" });
    v.push(SastRemediation { pattern_name: "ObjectInputStream", guidance: "Implement ObjectInputFilter to validate deserialized classes", code_example: "ObjectInputFilter.Config.setSerialFilter(filter);" });
    v.push(SastRemediation { pattern_name: "eval", guidance: "Avoid eval(); use safer alternatives like JSON.parse or AST-based parsing", code_example: "const data = JSON.parse(input);" });
    v.push(SastRemediation { pattern_name: "innerHTML", guidance: "Use textContent for plain text or sanitize with DOMPurify", code_example: "element.textContent = userInput; // or DOMPurify.sanitize(html)" });
    v.push(SastRemediation { pattern_name: "dangerouslySetInnerHTML", guidance: "Sanitize the HTML before rendering with DOMPurify", code_example: "dangerouslySetInnerHTML={{ __html: DOMPurify.sanitize(html) }}" });
    v.push(SastRemediation { pattern_name: "prototype pollution", guidance: "Validate and sanitize object keys; use Object.create(null) for dictionaries", code_example: "const safeObj = Object.create(null);" });
    v.push(SastRemediation { pattern_name: "path traversal", guidance: "Use path.resolve() and verify the result is within an allowed directory", code_example: "const resolved = path.resolve(basedir, userInput); if (!resolved.startsWith(basedir)) throw Error();" });
    v.push(SastRemediation { pattern_name: "weak hash", guidance: "Replace MD5/SHA1 with SHA-256 or stronger", code_example: "hashlib.sha256(data).hexdigest()" });
    v.push(SastRemediation { pattern_name: "Math.random", guidance: "Use crypto.getRandomValues() or crypto.randomBytes() for security-sensitive values", code_example: "const token = crypto.randomBytes(32).toString('hex');" });
    v.push(SastRemediation { pattern_name: "TLS", guidance: "Never disable TLS certificate verification in production", code_example: "// Remove NODE_TLS_REJECT_UNAUTHORIZED=0 and rejectUnauthorized: false" });
    v.push(SastRemediation { pattern_name: "CORS", guidance: "Specify allowed origins explicitly instead of using wildcard", code_example: "res.setHeader('Access-Control-Allow-Origin', 'https://trusted.example.com');" });
    v.push(SastRemediation { pattern_name: "JWT", guidance: "Store JWT secrets in environment variables, never hardcode them", code_example: "const secret = process.env.JWT_SECRET; jwt.sign(payload, secret);" });
    v.push(SastRemediation { pattern_name: "SSRF", guidance: "Validate and allowlist URLs before making requests; block internal IPs", code_example: "if (!isAllowedUrl(url)) throw new Error('URL not allowed');" });
    v.push(SastRemediation { pattern_name: "XSS", guidance: "Sanitize all user input before rendering; use framework auto-escaping", code_example: "{{ user_input | escape }}" });
    v.push(SastRemediation { pattern_name: "SSTI", guidance: "Never pass user input directly to template engines; use sandboxed environments", code_example: "env = SandboxedEnvironment(); template = env.from_string(safe_template)" });
    v.push(SastRemediation { pattern_name: "debug", guidance: "Disable debug mode in production; use environment variables to control", code_example: "app.run(debug=os.environ.get('FLASK_DEBUG', 'false') == 'true')" });
    v.push(SastRemediation { pattern_name: "unsafe", guidance: "Minimize unsafe blocks; document invariants; consider safe abstractions", code_example: "// SAFETY: pointer is valid and aligned because ..." });
    proof {
        assert(Seq::new(v@.len(), |i: int| remediation_view(v@[i])) =~= remediation_table());
    }
    v
}


/// A function found too complex: its file, name, line (1-based) and complexity.
pub struct ComplexFunction {
    pub file: String,
    pub name: String,
    pub line: usize,
    pub complexity: usize,
}

/// Hints by how far the complexity goes.
pub open spec fn complexity_hints(c: nat) -> Seq<Seq<char>> {
    if c > 30 {
        seq![
            "Consider splitting this function into multiple smaller functions"@,
            "Extract distinct logical blocks into separate helper functions"@,
        ]
    } else if c > 20 {
        seq![
            "Extract conditional branches into well-named helper functions"@,
            "Consider using early returns to reduce nesting depth"@,
        ]
    } else if c > 10 {
        seq![
            "Look for repeated patterns that can be extracted into helpers"@,
            "Consider using guard clauses (early returns) for preconditions"@,
        ]
    } else {
        Seq::empty()
    }
}

/// A hint for the file's language, if it has one.
pub open spec fn language_hints(file: Seq<char>) -> Seq<Seq<char>> {
    if ends_with(file, ".rs"@) {
        seq!["Consider using match arms with extracted functions"@]
    } else if ends_with(file, ".py"@) {
        seq!["Consider using dictionary dispatch instead of long if/elif chains"@]
    } else if ends_with(file, ".go"@) {
        seq!["Consider using table-driven tests or switch with extracted functions"@]
    } else if ends_with(file, ".ts"@) || ends_with(file, ".tsx"@) || ends_with(file, ".js"@)
        || ends_with(file, ".jsx"@) {
        seq!["Consider using a strategy/map pattern instead of complex conditionals"@]
    } else {
        Seq::empty()
    }
}

/// The refactoring hint for a function: its hints joined with "; ".
pub open spec fn refactoring_hint_spec(file: Seq<char>, complexity: nat) -> Seq<char> {
    join(complexity_hints(complexity) + language_hints(file), "; "@)
}

/// Generate refactoring hints for complex functions.
pub fn refactoring_hint(func: &ComplexFunction) -> (r: String)
    ensures
        r@ == refactoring_hint_spec(func.file@, func.complexity as nat),
{
    let mut hints: Vec<&str> = Vec::new();
    if func.complexity > 30 {
        hints.push("Consider splitting this function into multiple smaller functions");
        hints.push("Extract distinct logical blocks into separate helper functions");
    } else if func.complexity > 20 {
        hints.push("Extract conditional branches into well-named helper functions");
        hints.push("Consider using early returns to reduce nesting depth");
    } else if func.complexity > 10 {
        hints.push("Look for repeated patterns that can be extracted into helpers");
        hints.push("Consider using guard clauses (early returns) for preconditions");
    }
    let ghost first = str_seq_view(hints@);
    proof {
        assert(first =~= complexity_hints(func.complexity as nat));
    }
    let f = chars_of(func.file.as_str());
    if ends_with_str(&f, ".rs") {
        hints.push("Consider using match arms with extracted functions");
    } else if ends_with_str(&f, ".py") {
        hints.push("Consider using dictionary dispatch instead of long if/elif chains");
    } else if ends_with_str(&f, ".go") {
        hints.push("Consider using table-driven tests or switch with extracted functions");
    } else if ends_with_str(&f, ".ts") || ends_with_str(&f, ".tsx") || ends_with_str(&f, ".js")
        || ends_with_str(&f, ".jsx") {
        hints.push("Consider using a strategy/map pattern instead of complex conditionals");
    }
    proof {
        assert(str_seq_view(hints@) =~= first + language_hints(func.file@));
    }
    let r = join_strs(&hints, "; ");
    string_of(&r)
}

/// A dependency found in a lockfile: name, version and the lockfile's name.
pub struct DepInfo {
    pub name: String,
    pub version: String,
    pub source: String,
}

/// The texts of dependencies.
pub open spec fn deps_view(v: Seq<DepInfo>) -> Seq<(Seq<char>, Seq<char>, Seq<char>)> {
    Seq::new(v.len(), |i: int| (v[i].name@, v[i].version@, v[i].source@))
}

/// (name, version) pairs, all attributed to `source`.
pub open spec fn with_source(v: Seq<(Seq<char>, Seq<char>)>, source: Seq<char>) -> Seq<(Seq<char>, Seq<char>, Seq<char>)> {
    Seq::new(v.len(), |i: int| (v[i].0, v[i].1, source))
}

pub(crate) fn push_dep(deps: &mut Vec<DepInfo>, name: String, version: String, source: &str)
    ensures
        deps_view(final(deps)@) == deps_view(old(deps)@).push((name@, version@, source@)),
{
    deps.push(DepInfo { name, version, source: source.to_string() });
    proof {
        assert(deps_view(deps@) =~= deps_view(old(deps)@).push((name@, version@, source@)));
    }
}

/// The state of a Cargo.lock reader: the name and version seen since the
/// last `[[package]]`.
pub type LockState = (Option<Seq<char>>, Option<Seq<char>>);

/// One line of a Cargo.lock: the new state and the package it completes.
pub open spec fn cargo_lock_step(line: Seq<char>, st: LockState) -> (LockState, Seq<(Seq<char>, Seq<char>)>) {
    let t = trim(line);
    if t == "[[package]]"@ {
        (
            (None, None),
            if st.0 is Some && st.1 is Some {
                seq![(st.0->0, st.1->0)]
            } else {
                Seq::empty()
            },
        )
    } else if strip_prefix(t, "name = "@) is Some {
        ((Some(trim_char(strip_prefix(t, "name = "@)->0, '"')), st.1), Seq::empty())
    } else if strip_prefix(t, "version = "@) is Some {
        ((st.0, Some(trim_char(strip_prefix(t, "version = "@)->0, '"'))), Seq::empty())
    } else {
        (st, Seq::empty())
    }
}

/// The state and packages after the given lines of a Cargo.lock.
pub open spec fn cargo_lock_scan(ls: Seq<Seq<char>>) -> (LockState, Seq<(Seq<char>, Seq<char>)>)
    decreases ls.len(),
{
    if ls.len() == 0 {
        ((None, None), Seq::empty())
    } else {
        let prev = cargo_lock_scan(ls.drop_last());
        let step = cargo_lock_step(ls.last(), prev.0);
        (step.0, prev.1 + step.1)
    }
}

/// The packages of a Cargo.lock: each `[[package]]` closes the name and
/// version seen since the last one, and so does the end of the file.
pub open spec fn cargo_lock_packages(content: Seq<char>) -> Seq<(Seq<char>, Seq<char>)> {
    let r = cargo_lock_scan(lines(content));
    if r.0.0 is Some && r.0.1 is Some {
        r.1.push((r.0.0->0, r.0.1->0))
    } else {
        r.1
    }
}

/// Adds the packages of a Cargo.lock to `deps`.
pub fn parse_cargo_lock_deps(content: &str, deps: &mut Vec<DepInfo>)
    ensures
        deps_view(final(deps)@) == deps_view(old(deps)@) + with_source(
            cargo_lock_packages(content@),
            "Cargo.lock"@,
        ),
{
    let ls = lines_of(content);
    let ghost lv = lines(content@);
    let ghost d0 = deps_view(deps@);
    let mut name: Option<String> = None;
    let mut version: Option<String> = None;
    let mut i: usize = 0;
    proof {
        assert(lv.take(0) =~= Seq::<Seq<char>>::empty());
        assert(deps_view(deps@) =~= d0 + with_source(Seq::empty(), "Cargo.lock"@));
    }
    while i < ls.len()
        invariant
            i <= ls@.len(),
            lv == lines(content@),
            views(ls@) == lv,
            d0 == deps_view(old(deps)@),
            (opt_str(name), opt_str(version)) == cargo_lock_scan(lv.take(i as int)).0,
            deps_view(deps@) == d0 + with_source(cargo_lock_scan(lv.take(i as int)).1, "Cargo.lock"@),
        decreases ls@.len() - i,
    {
        proof {
            assert(lv.take(i + 1).drop_last() =~= lv.take(i as int));
            assert(lv.take(i + 1).last() == ls@[i as int]@);
        }
        let ghost prev = cargo_lock_scan(lv.take(i as int));
        let t = trim_exec(&ls[i]);
        if eq_str(&t, "[[package]]") {
            let n = name.take();
            let v = version.take();
            match (n, v) {
                (Some(n), Some(v)) => {
                    push_dep(deps, n, v, "Cargo.lock");
                    proof {
                        assert(deps_view(deps@) =~= d0 + with_source(
                            prev.1 + seq![(prev.0.0->0, prev.0.1->0)],
                            "Cargo.lock"@,
                        ));
                    }
                },
                _ => {
                    proof {
                        assert(prev.1 + Seq::<(Seq<char>, Seq<char>)>::empty() =~= prev.1);
                    }
                },
            }
        } else {
            match strip_prefix_str(&t, "name = ") {
                Some(rest) => {
                    let x = trim_char_exec(&rest, '"');
                    name = Some(string_of(&x));
                },
                None => match strip_prefix_str(&t, "version = ") {
                    Some(rest) => {
                        let x = trim_char_exec(&rest, '"');
                        version = Some(string_of(&x));
                    },
                    None => {},
                },
            }
            proof {
                assert(prev.1 + Seq::<(Seq<char>, Seq<char>)>::empty() =~= prev.1);
            }
        }
        i += 1;
    }
    proof {
        assert(lv.take(ls@.len() as int) =~= lv);
    }
    match (name, version) {
        (Some(n), Some(v)) => {
            let ghost r = cargo_lock_scan(lv);
            push_dep(deps, n, v, "Cargo.lock");
            proof {
                assert(deps_view(deps@) =~= d0 + with_source(r.1.push((r.0.0->0, r.0.1->0)), "Cargo.lock"@));
            }
        },
        _ => {},
    }
}

/// The view of an optional string.
pub open spec fn opt_str(o: Option<String>) -> Option<Seq<char>> {
    match o {
        Some(s) => Some(s@),
        None => None,
    }
}


/// The names of (name, version) pairs.
pub open spec fn names_of(v: Seq<(Seq<char>, Seq<char>)>) -> Seq<Seq<char>> {
    Seq::new(v.len(), |i: int| v[i].0)
}

/// The modules of a go.sum: for each line with at least two fields, the first
/// field and the second with a trailing "/go.mod" dropped; a module already
/// listed is not listed again.
pub open spec fn go_sum_entries(ls: Seq<Seq<char>>) -> Seq<(Seq<char>, Seq<char>)>
    decreases ls.len(),
{
    if ls.len() == 0 {
        Seq::empty()
    } else {
        let prev = go_sum_entries(ls.drop_last());
        let parts = split_ws(ls.last());
        if parts.len() >= 2 && !names_of(prev).contains(parts[0]) {
            prev.push((parts[0], trim_end_matches(parts[1], "/go.mod"@)))
        } else {
            prev
        }
    }
}

/// No module is listed twice.
pub proof fn lemma_go_sum_names_unique(ls: Seq<Seq<char>>)
    ensures
        names_of(go_sum_entries(ls)).no_duplicates(),
    decreases ls.len(),
{
    if ls.len() > 0 {
        lemma_go_sum_names_unique(ls.drop_last());
        let prev = go_sum_entries(ls.drop_last());
        let parts = split_ws(ls.last());
        if parts.len() >= 2 && !names_of(prev).contains(parts[0]) {
            let cur = prev.push((parts[0], trim_end_matches(parts[1], "/go.mod"@)));
            assert(names_of(cur) =~= names_of(prev).push(parts[0]));
        }
    }
}

fn contains_name(seen: &Vec<Vec<char>>, n: &[char]) -> (r: bool)
    ensures
        r == views(seen@).contains(n@),
{
    let mut i: usize = 0;
    while i < seen.len()
        invariant
            i <= seen@.len(),
            forall|k: int| 0 <= k < i ==> #[trigger] views(seen@)[k] != n@,
        decreases seen@.len() - i,
    {
        if crate::text::seq_eq(&seen[i], n) {
            assert(views(seen@)[i as int] == n@);
            return true;
        }
        i += 1;
    }
    false
}

/// Adds the modules of a go.sum to `deps`.
pub fn parse_go_sum_deps(content: &str, deps: &mut Vec<DepInfo>)
    ensures
        deps_view(final(deps)@) == deps_view(old(deps)@) + with_source(
            go_sum_entries(lines(content@)),
            "go.sum"@,
        ),
{
    let ls = lines_of(content);
    let ghost lv = lines(content@);
    let ghost d0 = deps_view(deps@);
    let mut seen: Vec<Vec<char>> = Vec::new();
    let mut i: usize = 0;
    proof {
        assert(lv.take(0) =~= Seq::<Seq<char>>::empty());
        assert(deps_view(deps@) =~= d0 + with_source(Seq::empty(), "go.sum"@));
        assert(views(seen@) =~= names_of(go_sum_entries(lv.take(0))));
    }
    while i < ls.len()
        invariant
            i <= ls@.len(),
            lv == lines(content@),
            views(ls@) == lv,
            d0 == deps_view(old(deps)@),
            views(seen@) == names_of(go_sum_entries(lv.take(i as int))),
            deps_view(deps@) == d0 + with_source(go_sum_entries(lv.take(i as int)), "go.sum"@),
        decreases ls@.len() - i,
    {
        proof {
            assert(lv.take(i + 1).drop_last() =~= lv.take(i as int));
            assert(lv.take(i + 1).last() == ls@[i as int]@);
        }
        let ghost prev = go_sum_entries(lv.take(i as int));
        let parts = split_ws_exec(&ls[i]);
        if parts.len() >= 2 {
            proof {
                assert(views(parts@)[0] == parts@[0]@);
                assert(views(parts@)[1] == parts@[1]@);
            }
            if !contains_name(&seen, &parts[0]) {
                let v = trim_end_matches_str(&parts[1], "/go.mod");
                let ghost entry = (parts@[0]@, v@);
                push_dep(deps, string_of(&parts[0]), string_of(&v), "go.sum");
                let ghost s0 = views(seen@);
                seen.push(slice(&parts[0], 0, parts[0].len()));
                proof {
                    assert(parts@[0]@.subrange(0, parts@[0]@.len() as int) =~= parts@[0]@);
                    assert(views(seen@) =~= s0.push(parts@[0]@));
                    assert(names_of(prev.push(entry)) =~= names_of(prev).push(parts@[0]@));
                    assert(deps_view(deps@) =~= d0 + with_source(prev.push(entry), "go.sum"@));
                }
            }
        }
        i += 1;
    }
    proof {
        assert(lv.take(ls@.len() as int) =~= lv);
    }
}

/// The requirement a line of requirements.txt states, if any: `name==version`,
/// `name>=version` (the version keeps its ">="), or a bare name ("unpinned");
/// extras in brackets are dropped from the name.
pub open spec fn requirement_of(line: Seq<char>) -> Option<(Seq<char>, Seq<char>)> {
    let t = trim(line);
    if t.len() == 0 || starts_with(t, "#"@) || starts_with(t, "-"@) {
        None
    } else {
        let nv: (Seq<char>, Seq<char>) = match find(t, "=="@) {
            Some(p) => (trim(t.take(p)), trim(t.skip(p + 2))),
            None => match find(t, ">="@) {
                Some(p) => (trim(t.take(p)), ">="@ + trim(t.skip(p + 2))),
                None => (t, "unpinned"@),
            },
        };
        let clean = match find(nv.0, "["@) {
            Some(q) => nv.0.take(q),
            None => nv.0,
        };
        Some((clean, nv.1))
    }
}

/// The requirements of a requirements.txt, in order.
pub open spec fn requirements_entries(ls: Seq<Seq<char>>) -> Seq<(Seq<char>, Seq<char>)>
    decreases ls.len(),
{
    if ls.len() == 0 {
        Seq::empty()
    } else {
        let prev = requirements_entries(ls.drop_last());
        match requirement_of(ls.last()) {
            Some(e) => prev.push(e),
            None => prev,
        }
    }
}

pub(crate) fn requirement_of_exec(line: &[char]) -> (r: Option<(Vec<char>, Vec<char>)>)
    ensures
        r matches Some(e) ==> requirement_of(line@) == Some((e.0@, e.1@)),
        r is None ==> requirement_of(line@) is None,
{
    let t = trim_exec(line);
    if t.len() == 0 || starts_with_str(&t, "#") || starts_with_str(&t, "-") {
        return None;
    }
    let eq = chars_of("==");
    let ge = chars_of(">=");
    proof {
        reveal_strlit("==");
        reveal_strlit(">=");
        crate::text::lemma_find(t@, "=="@);
        crate::text::lemma_find(t@, ">="@);
    }
    let (name, version): (Vec<char>, Vec<char>) = match find_exec(&t, &eq) {
        Some(p) => {
            let tl = t.len();
            assert(p + 2 <= tl);
            let a = slice(&t, 0, p);
            let b = slice(&t, p + 2, tl);
            (trim_exec(&a), trim_exec(&b))
        },
        None => match find_exec(&t, &ge) {
            Some(p) => {
                let tl = t.len();
                assert(p + 2 <= tl);
                let a = slice(&t, 0, p);
                let b = slice(&t, p + 2, tl);
                let mut v = chars_of(">=");
                let bt = trim_exec(&b);
                extend(&mut v, &bt);
                (trim_exec(&a), v)
            },
            None => {
                let mut v: Vec<char> = Vec::new();
                extend_str(&mut v, "unpinned");
                (slice(&t, 0, t.len()), v)
            },
        },
    };
    proof {
        assert(t@.subrange(0, t@.len() as int) =~= t@);
    }
    let br = chars_of("[");
    let clean = match find_exec(&name, &br) {
        Some(q) => {
            proof {
                crate::text::lemma_find(name@, br@);
            }
            slice(&name, 0, q)
        },
        None => name,
    };
    Some((clean, version))
}

/// Adds the requirements of a requirements.txt to `deps`.
pub fn parse_requirements_deps(content: &str, deps: &mut Vec<DepInfo>)
    ensures
        deps_view(final(deps)@) == deps_view(old(deps)@) + with_source(
            requirements_entries(lines(content@)),
            "requirements.txt"@,
        ),
{
    let ls = lines_of(content);
    let ghost lv = lines(content@);
    let ghost d0 = deps_view(deps@);
    let mut i: usize = 0;
    proof {
        assert(lv.take(0) =~= Seq::<Seq<char>>::empty());
        assert(deps_view(deps@) =~= d0 + with_source(Seq::empty(), "requirements.txt"@));
    }
    while i < ls.len()
        invariant
            i <= ls@.len(),
            lv == lines(content@),
            views(ls@) == lv,
            d0 == deps_view(old(deps)@),
            deps_view(deps@) == d0 + with_source(requirements_entries(lv.take(i as int)), "requirements.txt"@),
        decreases ls@.len() - i,
    {
        proof {
            assert(lv.take(i + 1).drop_last() =~= lv.take(i as int));
            assert(lv.take(i + 1).last() == ls@[i as int]@);
        }
        let ghost prev = requirements_entries(lv.take(i as int));
        match requirement_of_exec(&ls[i]) {
            Some((n, v)) => {
                let ghost e = (n@, v@);
                push_dep(deps, string_of(&n), string_of(&v), "requirements.txt");
                proof {
                    assert(deps_view(deps@) =~= d0 + with_source(prev.push(e), "requirements.txt"@));
                }
            },
            None => {},
        }
        i += 1;
    }
    proof {
        assert(lv.take(ls@.len() as int) =~= lv);
    }
}


/// The package name of a package-lock path: what follows its last "node_modules/".
pub open spec fn npm_package_name(path: Seq<char>) -> Seq<char> {
    split_str(path, "node_modules/"@).last()
}

/// The packages of the entries of a package-lock `packages` object: the root
/// entry (empty path) is left out; a package without a version string is "unknown".
pub open spec fn npm_lock_entries(es: Seq<(String, DocValue)>) -> Seq<(Seq<char>, Seq<char>)>
    decreases es.len(),
{
    if es.len() == 0 {
        Seq::empty()
    } else {
        let prev = npm_lock_entries(es.drop_last());
        let e = es.last();
        if e.0@.len() == 0 {
            prev
        } else {
            prev.push(
                (
                    npm_package_name(e.0@),
                    match get_str(e.1, "version"@) {
                        Some(v) => v,
                        None => "unknown"@,
                    },
                ),
            )
        }
    }
}

/// The packages of a parsed package-lock.json.
pub open spec fn npm_lock_packages(doc: Option<DocValue>) -> Seq<(Seq<char>, Seq<char>)> {
    match doc {
        Some(v) => match get(v, "packages"@) {
            Some(DocValue::Object(es)) => npm_lock_entries(es@),
            _ => Seq::empty(),
        },
        None => Seq::empty(),
    }
}

/// Adds the packages of a parsed package-lock.json (`None`: it did not parse) to `deps`.
pub fn npm_lock_deps_from(doc: &Option<DocValue>, deps: &mut Vec<DepInfo>)
    ensures
        deps_view(final(deps)@) == deps_view(old(deps)@) + with_source(
            npm_lock_packages(*doc),
            "package-lock.json"@,
        ),
{
    let ghost d0 = deps_view(deps@);
    match doc {
        Some(v) => match get_field(v, "packages") {
            Some(DocValue::Object(es)) => {
                let mut i: usize = 0;
                proof {
                    assert(es@.take(0) =~= Seq::<(String, DocValue)>::empty());
                    assert(deps_view(deps@) =~= d0 + with_source(Seq::empty(), "package-lock.json"@));
                }
                while i < es.len()
                    invariant
                        i <= es@.len(),
                        d0 == deps_view(old(deps)@),
                        deps_view(deps@) == d0 + with_source(
                            npm_lock_entries(es@.take(i as int)),
                            "package-lock.json"@,
                        ),
                    decreases es@.len() - i,
                {
                    proof {
                        assert(es@.take(i + 1).drop_last() =~= es@.take(i as int));
                        assert(es@.take(i + 1).last() == es@[i as int]);
                    }
                    let ghost prev = npm_lock_entries(es@.take(i as int));
                    let path = chars_of(es[i].0.as_str());
                    if path.len() > 0 {
                        proof {
                            reveal_strlit("node_modules/");
                        }
                        let pieces = split_str_exec(&path, "node_modules/");
                        proof {
                            crate::text::lemma_split_str_nonempty(path@, "node_modules/"@);
                        }
                        let name = string_of(&pieces[pieces.len() - 1]);
                        proof {
                            assert(views(pieces@).last() == pieces@[pieces@.len() - 1]@);
                        }
                        let version: String = match get_str_exec(&es[i].1, "version") {
                            Some(x) => x,
                            None => "unknown".to_string(),
                        };
                        let ghost e = (name@, version@);
                        push_dep(deps, name, version, "package-lock.json");
                        proof {
                            assert(deps_view(deps@) =~= d0 + with_source(prev.push(e), "package-lock.json"@));
                        }
                    }
                    i += 1;
                }
                proof {
                    assert(es@.take(es@.len() as int) =~= es@);
                }
            },
            _ => {
                proof {
                    assert(deps_view(deps@) =~= d0 + with_source(Seq::empty(), "package-lock.json"@));
                }
            },
        },
        None => {
            proof {
                assert(deps_view(deps@) =~= d0 + with_source(Seq::empty(), "package-lock.json"@));
            }
        },
    }
}

/// Adds the packages of a package-lock.json to `deps`.
pub fn parse_npm_lock_deps(content: &str, deps: &mut Vec<DepInfo>)
    ensures
        deps_view(final(deps)@) == deps_view(old(deps)@) + with_source(
            npm_lock_packages(json_parse(content@)),
            "package-lock.json"@,
        ),
{
    let doc = parse_json(content);
    npm_lock_deps_from(&doc, deps);
}

/// Directories the fix scans never look into.
pub open spec fn fix_skip_dirs() -> Seq<Seq<char>> {
    seq!["vendor/"@, "node_modules/"@, ".git/"@, "target/"@, "dist/"@, "build/"@]
}

/// The dependencies a lockfile entry of the tree contributes.
pub open spec fn lockfile_deps(e: TreeEntry) -> Seq<(Seq<char>, Seq<char>, Seq<char>)> {
    match e.content {
        BlobContent::Text(c) => if e.name@ == "Cargo.lock"@ {
            with_source(cargo_lock_packages(c@), "Cargo.lock"@)
        } else if e.name@ == "package-lock.json"@ {
            with_source(npm_lock_packages(json_parse(c@)), "package-lock.json"@)
        } else if e.name@ == "go.sum"@ {
            with_source(go_sum_entries(lines(c@)), "go.sum"@)
        } else if e.name@ == "requirements.txt"@ {
            with_source(requirements_entries(lines(c@)), "requirements.txt"@)
        } else {
            Seq::empty()
        },
        _ => Seq::empty(),
    }
}

/// The dependencies of all lockfiles of the tree outside skipped directories, in walk order.
pub open spec fn collected_deps(entries: Seq<TreeEntry>, ignore: Seq<Seq<char>>) -> Seq<(Seq<char>, Seq<char>, Seq<char>)>
    decreases entries.len(),
{
    if entries.len() == 0 {
        Seq::empty()
    } else {
        let prev = collected_deps(entries.drop_last(), ignore);
        let e = entries.last();
        if skipped(entry_path(e), fix_skip_dirs(), ignore) {
            prev
        } else {
            prev + lockfile_deps(e)
        }
    }
}

/// The dependencies listed in the lockfiles (Cargo.lock, package-lock.json,
/// go.sum, requirements.txt) among the files of the tree.
pub fn collect_deps(entries: &Vec<TreeEntry>, ignore_dirs: &Vec<String>) -> (r: Vec<DepInfo>)
    ensures
        deps_view(r@) == collected_deps(entries@, strings_view(ignore_dirs@)),
{
    let ghost iv = strings_view(ignore_dirs@);
    let defaults: Vec<&str> = vec!["vendor/", "node_modules/", ".git/", "target/", "dist/", "build/"];
    proof {
        assert(strs_view(defaults@) =~= fix_skip_dirs());
    }
    let mut deps: Vec<DepInfo> = Vec::new();
    let mut i: usize = 0;
    proof {
        assert(entries@.take(0) =~= Seq::<TreeEntry>::empty());
        assert(deps_view(deps@) =~= Seq::<(Seq<char>, Seq<char>, Seq<char>)>::empty());
    }
    while i < entries.len()
        invariant
            i <= entries@.len(),
            iv == strings_view(ignore_dirs@),
            strs_view(defaults@) == fix_skip_dirs(),
            deps_view(deps@) == collected_deps(entries@.take(i as int), iv),
        decreases entries@.len() - i,
    {
        let e = &entries[i];
        proof {
            assert(entries@.take(i + 1).drop_last() =~= entries@.take(i as int));
            assert(entries@.take(i + 1).last() == *e);
        }
        let ghost prev = deps_view(deps@);
        let mut path = chars_of(e.dir.as_str());
        extend_str(&mut path, e.name.as_str());
        assert(path@ == entry_path(*e));
        if !is_skipped(&path, defaults.as_slice(), ignore_dirs.as_slice()) {
            let name = chars_of(e.name.as_str());
            match &e.content {
                BlobContent::Text(c) => {
                    if eq_str(&name, "Cargo.lock") {
                        parse_cargo_lock_deps(c.as_str(), &mut deps);
                    } else if eq_str(&name, "package-lock.json") {
                        parse_npm_lock_deps(c.as_str(), &mut deps);
                    } else if eq_str(&name, "go.sum") {
                        parse_go_sum_deps(c.as_str(), &mut deps);
                    } else if eq_str(&name, "requirements.txt") {
                        parse_requirements_deps(c.as_str(), &mut deps);
                    } else {
                        assert(prev + lockfile_deps(*e) =~= prev);
                    }
                },
                _ => {
                    assert(prev + lockfile_deps(*e) =~= prev);
                },
            }
        }
        i += 1;
    }
    proof {
        assert(entries@.take(entries@.len() as int) =~= entries@);
    }
    deps
}

} // verus!
