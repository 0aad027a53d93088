//! Static application security testing: rules that flag risky source lines,
//! the scan of the tree's source files against them, and its report.
use vstd::prelude::*;
use crate::autofix::fix_skip_dirs;
use crate::display::{
    cells_cuttable_v, info_line, info_line_exec, ok_line, ok_line_exec, out_all, push_line,
    push_lines, str_line, sub_header_lines, summary_line_exec, summary_stat_line, table_lines_exec,
    table_lines_v, table_printable, warning_line, warning_line_exec, write_lines, Output,
};
use crate::pattern::{regex_compiles, regex_is_match, Pattern};
use crate::text::{
    chars_of, contains, decimal, decimal_exec, contains_str, ends_with, ends_with_str, lines, lines_of, starts_with,
    starts_with_str, string_of, trim, trim_exec, views,
};
use crate::tree::{entry_path, is_skipped, skipped, strings_view, strs_view, BlobContent, TreeEntry};

verus! {

/// A rule: what it is called, how severe a hit is, the regular expression a
/// source line is matched against, the file extensions it applies to, and
/// what a hit means.
pub struct SastRule {
    pub name: &'static str,
    pub severity: &'static str,
    pub pattern: &'static str,
    pub extensions: Vec<&'static str>,
    pub description: &'static str,
}

/// A rule's texts: name, severity, pattern, extensions, description.
pub type RuleView = (Seq<char>, Seq<char>, Seq<char>, Seq<Seq<char>>, Seq<char>);

/// The texts of a rule.
pub open spec fn rule_view(r: SastRule) -> RuleView {
    (r.name@, r.severity@, r.pattern@, strs_view(r.extensions@), r.description@)
}

/// The texts of rules.
pub open spec fn rules_view(rs: Seq<SastRule>) -> Seq<RuleView> {
    Seq::new(rs.len(), |i: int| rule_view(rs[i]))
}

/// Rules 1 to 15 of the table.
pub open spec fn rule_group_1() -> Seq<RuleView> {
    seq![
        ("SQL injection (string interpolation in query)"@, "HIGH"@, r#"(?i)(execute|query|raw)\s*\(.*(\+|format!|f"|fmt\.Sprintf|`\$\{)"#@, seq![".rs"@, ".go"@, ".py"@, ".ts"@, ".js"@, ".java"@], "User input may flow into SQL query via string concatenation or interpolation"@),
        ("SQL injection (format string in query)"@, "HIGH"@, r#"(?i)(\.query|\.execute|\.raw)\(.*%[sd]"#@, seq![".py"@, ".go"@], "SQL query uses format string that may include unsanitized input"@),
        ("Insecure deserialization (Python pickle)"@, "HIGH"@, r"pickle\.(loads?|Unpickler)\("@, seq![".py"@], "pickle.load/loads can execute arbitrary code from untrusted data"@),
        ("Insecure deserialization (Python yaml.load)"@, "HIGH"@, r"yaml\.load\("@, seq![".py"@], "yaml.load without SafeLoader can execute arbitrary code"@),
        ("Insecure deserialization (Java ObjectInputStream)"@, "HIGH"@, r"ObjectInputStream|readObject\(\)"@, seq![".java"@], "Java deserialization of untrusted data can lead to RCE"@),
        ("Insecure deserialization (PHP unserialize)"@, "HIGH"@, r"\bunserialize\s*\("@, seq![".php"@], "PHP unserialize of untrusted data can lead to object injection"@),
        ("Path traversal (dot-dot in path operations)"@, "MEDIUM"@, r#"(?i)(open|read_to_string|readFile|readFileSync|os\.Open|ioutil\.ReadFile)\s*\(.*\.\."#@, seq![".rs"@, ".go"@, ".py"@, ".ts"@, ".js"@, ".java"@], "File operation with potential path traversal via '..'"@),
        ("Path traversal (user input in file path)"@, "MEDIUM"@, r"(?i)(req\.params|req\.query|req\.body|request\.form|request\.args)\[.*\].*(?:open|read|write|path\.join)"@, seq![".py"@, ".ts"@, ".js"@], "User input from request used in file path operations"@),
        ("Path traversal (unsanitized path join)"@, "MEDIUM"@, r"(?:path\.Join|filepath\.Join|path\.join|os\.path\.join)\(.*(?:req|request|params|query|input|user)"@, seq![".go"@, ".py"@, ".ts"@, ".js"@], "Path join with potentially unsanitized user input"@),
        ("Unsafe eval()"@, "HIGH"@, r"\beval\s*\("@, seq![".js"@, ".ts"@, ".py"@], "eval() executes arbitrary code and should be avoided"@),
        ("Unsafe exec()"@, "HIGH"@, r"\bexec\s*\("@, seq![".py"@], "exec() executes arbitrary code and should be avoided"@),
        ("Unsafe Function constructor"@, "HIGH"@, r"new\s+Function\s*\("@, seq![".js"@, ".ts"@], "Function constructor creates code from strings, similar to eval"@),
        ("Dynamic import with variable"@, "MEDIUM"@, r#"(?:require|import)\s*\(\s*[a-zA-Z_$]"#@, seq![".js"@, ".ts"@], "Dynamic require/import with non-literal argument may load untrusted modules"@),
        ("Unsafe setTimeout/setInterval with string"@, "MEDIUM"@, r#"(?:setTimeout|setInterval)\s*\(\s*['"]"#@, seq![".js"@, ".ts"@], "setTimeout/setInterval with string argument acts like eval"@),
        ("Rust unsafe block"@, "INFO"@, r"\bunsafe\s*\{"@, seq![".rs"@], "unsafe block bypasses Rust's safety guarantees — review for soundness"@),
    ]
}

fn push_rule_group_1(v: &mut Vec<SastRule>)
    ensures
        rules_view(final(v)@) == rules_view(old(v)@) + rule_group_1(),
{
    let ghost v0 = v@;
    let mut w: Vec<SastRule> = Vec::new();
    w.push(SastRule { name: "SQL injection (string interpolation in query)", severity: "HIGH", pattern: r#"(?i)(execute|query|raw)\s*\(.*(\+|format!|f"|fmt\.Sprintf|`\$\{)"#, extensions: vec![".rs", ".go", ".py", ".ts", ".js", ".java"], description: "User input may flow into SQL query via string concatenation or interpolation" });
    w.push(SastRule { name: "SQL injection (format string in query)", severity: "HIGH", pattern: r#"(?i)(\.query|\.execute|\.raw)\(.*%[sd]"#, extensions: vec![".py", ".go"], description: "SQL query uses format string that may include unsanitized input" });
    w.push(SastRule { name: "Insecure deserialization (Python pickle)", severity: "HIGH", pattern: r"pickle\.(loads?|Unpickler)\(", extensions: vec![".py"], description: "pickle.load/loads can execute arbitrary code from untrusted data" });
    w.push(SastRule { name: "Insecure deserialization (Python yaml.load)", severity: "HIGH", pattern: r"yaml\.load\(", extensions: vec![".py"], description: "yaml.load without SafeLoader can execute arbitrary code" });
    w.push(SastRule { name: "Insecure deserialization (Java ObjectInputStream)", severity: "HIGH", pattern: r"ObjectInputStream|readObject\(\)", extensions: vec![".java"], description: "Java deserialization of untrusted data can lead to RCE" });
    w.push(SastRule { name: "Insecure deserialization (PHP unserialize)", severity: "HIGH", pattern: r"\bunserialize\s*\(", extensions: vec![".php"], description: "PHP unserialize of untrusted data can lead to object injection" });
    w.push(SastRule { name: "Path traversal (dot-dot in path operations)", severity: "MEDIUM", pattern: r#"(?i)(open|read_to_string|readFile|readFileSync|os\.Open|ioutil\.ReadFile)\s*\(.*\.\."#, extensions: vec![".rs", ".go", ".py", ".ts", ".js", ".java"], description: "File operation with potential path traversal via '..'" });
    w.push(SastRule { name: "Path traversal (user input in file path)", severity: "MEDIUM", pattern: r"(?i)(req\.params|req\.query|req\.body|request\.form|request\.args)\[.*\].*(?:open|read|write|path\.join)", extensions: vec![".py", ".ts", ".js"], description: "User input from request used in file path operations" });
    w.push(SastRule { name: "Path traversal (unsanitized path join)", severity: "MEDIUM", pattern: r"(?:path\.Join|filepath\.Join|path\.join|os\.path\.join)\(.*(?:req|request|params|query|input|user)", extensions: vec![".go", ".py", ".ts", ".js"], description: "Path join with potentially unsanitized user input" });
    w.push(SastRule { name: "Unsafe eval()", severity: "HIGH", pattern: r"\beval\s*\(", extensions: vec![".js", ".ts", ".py"], description: "eval() executes arbitrary code and should be avoided" });
    w.push(SastRule { name: "Unsafe exec()", severity: "HIGH", pattern: r"\bexec\s*\(", extensions: vec![".py"], description: "exec() executes arbitrary code and should be avoided" });
    w.push(SastRule { name: "Unsafe Function constructor", severity: "HIGH", pattern: r"new\s+Function\s*\(", extensions: vec![".js", ".ts"], description: "Function constructor creates code from strings, similar to eval" });
    w.push(SastRule { name: "Dynamic import with variable", severity: "MEDIUM", pattern: r#"(?:require|import)\s*\(\s*[a-zA-Z_$]"#, extensions: vec![".js", ".ts"], description: "Dynamic require/import with non-literal argument may load untrusted modules" });
    w.push(SastRule { name: "Unsafe setTimeout/setInterval with string", severity: "MEDIUM", pattern: r#"(?:setTimeout|setInterval)\s*\(\s*['"]"#, extensions: vec![".js", ".ts"], description: "setTimeout/setInterval with string argument acts like eval" });
    w.push(SastRule { name: "Rust unsafe block", severity: "INFO", pattern: r"\bunsafe\s*\{", extensions: vec![".rs"], description: "unsafe block bypasses Rust's safety guarantees — review for soundness" });
    proof {
        assert(rules_view(w@) =~~= rule_group_1());
    }
    v.append(&mut w);
    proof {
        assert(rules_view(v@) =~= rules_view(v0) + rule_group_1());
    }
}

/// Rules 16 to 30 of the table.
pub open spec fn rule_group_2() -> Seq<RuleView> {
    seq![
        ("Rust unsafe fn"@, "INFO"@, r"\bunsafe\s+fn\b"@, seq![".rs"@], "unsafe function requires callers to uphold safety invariants"@),
        ("Rust raw pointer dereference"@, "MEDIUM"@, r"\*(?:const|mut)\s+\w"@, seq![".rs"@], "Raw pointer usage may lead to undefined behavior if misused"@),
        ("JS prototype pollution (direct __proto__)"@, "HIGH"@, r"__proto__"@, seq![".js"@, ".ts"@], "Direct __proto__ access can enable prototype pollution attacks"@),
        ("JS prototype pollution (Object.assign with user input)"@, "MEDIUM"@, r"Object\.assign\s*\(\s*\{\s*\}\s*,.*(?:req|request|body|params|query|input)"@, seq![".js"@, ".ts"@], "Object.assign with user-controlled input may allow prototype pollution"@),
        ("JS prototype pollution (recursive merge)"@, "MEDIUM"@, r"(?:deepMerge|merge|extend|assign)\s*\(.*(?:req|request|body|params|query|input)"@, seq![".js"@, ".ts"@], "Deep merge with user input may allow prototype pollution"@),
        ("Go template injection"@, "HIGH"@, r"template\.(HTML|JS|CSS)\("@, seq![".go"@], "Direct use of template.HTML/JS/CSS bypasses auto-escaping"@),
        ("Go weak TLS config"@, "HIGH"@, r"tls\.Config\s*\{[^}]*InsecureSkipVerify\s*:\s*true"@, seq![".go"@], "InsecureSkipVerify disables TLS certificate verification"@),
        ("Go unhandled error"@, "MEDIUM"@, r"[^,]\s*:?=\s*\w+\.\w+\([^)]*\)\s*$"@, seq![".go"@], "Return value (possibly an error) may be silently discarded"@),
        ("Shell command with user input"@, "HIGH"@, r"(?:exec\.Command|subprocess\.(?:call|run|Popen)|child_process\.exec|os\.system)\s*\(.*(?:req|request|input|params|query|user|arg)"@, seq![".go"@, ".py"@, ".js"@, ".ts"@, ".java"@], "Shell command execution with potential user-controlled input"@),
        ("JS innerHTML assignment"@, "HIGH"@, r"\.innerHTML\s*="@, seq![".js"@, ".ts"@, ".jsx"@, ".tsx"@], "Direct innerHTML assignment can lead to XSS if input is unsanitized"@),
        ("JS document.write"@, "HIGH"@, r"document\.write\s*\("@, seq![".js"@, ".ts"@, ".jsx"@, ".tsx"@], "document.write can inject unsanitized content into the DOM"@),
        ("JS dangerouslySetInnerHTML"@, "HIGH"@, r"dangerouslySetInnerHTML"@, seq![".js"@, ".ts"@, ".jsx"@, ".tsx"@], "dangerouslySetInnerHTML bypasses React's XSS protection"@),
        ("NoSQL injection (MongoDB query with user input)"@, "HIGH"@, r"\.find\s*\(\s*\{.*(?:req\.|request\.|params\.|query\.|body\.)"@, seq![".js"@, ".ts"@], "MongoDB query built with user input may allow NoSQL injection"@),
        ("NoSQL injection ($where operator)"@, "HIGH"@, r#"\$where\s*:"#@, seq![".js"@, ".ts"@], "MongoDB $where operator executes JavaScript and is vulnerable to injection"@),
        ("JS SSRF (fetch/axios with user input)"@, "HIGH"@, r"(?:fetch|axios\.get|axios\.post|http\.get|https\.get)\s*\(.*(?:req\.|request\.|params|query|body|input|user)"@, seq![".js"@, ".ts"@], "HTTP request with user-controlled URL may allow SSRF"@),
    ]
}

fn push_rule_group_2(v: &mut Vec<SastRule>)
    ensures
        rules_view(final(v)@) == rules_view(old(v)@) + rule_group_2(),
{
    let ghost v0 = v@;
    let mut w: Vec<SastRule> = Vec::new();
    w.push(SastRule { name: "Rust unsafe fn", severity: "INFO", pattern: r"\bunsafe\s+fn\b", extensions: vec![".rs"], description: "unsafe function requires callers to uphold safety invariants" });
    w.push(SastRule { name: "Rust raw pointer dereference", severity: "MEDIUM", pattern: r"\*(?:const|mut)\s+\w", extensions: vec![".rs"], description: "Raw pointer usage may lead to undefined behavior if misused" });
    w.push(SastRule { name: "JS prototype pollution (direct __proto__)", severity: "HIGH", pattern: r"__proto__", extensions: vec![".js", ".ts"], description: "Direct __proto__ access can enable prototype pollution attacks" });
    w.push(SastRule { name: "JS prototype pollution (Object.assign with user input)", severity: "MEDIUM", pattern: r"Object\.assign\s*\(\s*\{\s*\}\s*,.*(?:req|request|body|params|query|input)", extensions: vec![".js", ".ts"], description: "Object.assign with user-controlled input may allow prototype pollution" });
    w.push(SastRule { name: "JS prototype pollution (recursive merge)", severity: "MEDIUM", pattern: r"(?:deepMerge|merge|extend|assign)\s*\(.*(?:req|request|body|params|query|input)", extensions: vec![".js", ".ts"], description: "Deep merge with user input may allow prototype pollution" });
    w.push(SastRule { name: "Go template injection", severity: "HIGH", pattern: r"template\.(HTML|JS|CSS)\(", extensions: vec![".go"], description: "Direct use of template.HTML/JS/CSS bypasses auto-escaping" });
    w.push(SastRule { name: "Go weak TLS config", severity: "HIGH", pattern: r"tls\.Config\s*\{[^}]*InsecureSkipVerify\s*:\s*true", extensions: vec![".go"], description: "InsecureSkipVerify disables TLS certificate verification" });
    w.push(SastRule { name: "Go unhandled error", severity: "MEDIUM", pattern: r"[^,]\s*:?=\s*\w+\.\w+\([^)]*\)\s*$", extensions: vec![".go"], description: "Return value (possibly an error) may be silently discarded" });
    w.push(SastRule { name: "Shell command with user input", severity: "HIGH", pattern: r"(?:exec\.Command|subprocess\.(?:call|run|Popen)|child_process\.exec|os\.system)\s*\(.*(?:req|request|input|params|query|user|arg)", extensions: vec![".go", ".py", ".js", ".ts", ".java"], description: "Shell command execution with potential user-controlled input" });
    w.push(SastRule { name: "JS innerHTML assignment", severity: "HIGH", pattern: r"\.innerHTML\s*=", extensions: vec![".js", ".ts", ".jsx", ".tsx"], description: "Direct innerHTML assignment can lead to XSS if input is unsanitized" });
    w.push(SastRule { name: "JS document.write", severity: "HIGH", pattern: r"document\.write\s*\(", extensions: vec![".js", ".ts", ".jsx", ".tsx"], description: "document.write can inject unsanitized content into the DOM" });
    w.push(SastRule { name: "JS dangerouslySetInnerHTML", severity: "HIGH", pattern: r"dangerouslySetInnerHTML", extensions: vec![".js", ".ts", ".jsx", ".tsx"], description: "dangerouslySetInnerHTML bypasses React's XSS protection" });
    w.push(SastRule { name: "NoSQL injection (MongoDB query with user input)", severity: "HIGH", pattern: r"\.find\s*\(\s*\{.*(?:req\.|request\.|params\.|query\.|body\.)", extensions: vec![".js", ".ts"], description: "MongoDB query built with user input may allow NoSQL injection" });
    w.push(SastRule { name: "NoSQL injection ($where operator)", severity: "HIGH", pattern: r#"\$where\s*:"#, extensions: vec![".js", ".ts"], description: "MongoDB $where operator executes JavaScript and is vulnerable to injection" });
    w.push(SastRule { name: "JS SSRF (fetch/axios with user input)", severity: "HIGH", pattern: r"(?:fetch|axios\.get|axios\.post|http\.get|https\.get)\s*\(.*(?:req\.|request\.|params|query|body|input|user)", extensions: vec![".js", ".ts"], description: "HTTP request with user-controlled URL may allow SSRF" });
    proof {
        assert(rules_view(w@) =~~= rule_group_2());
    }
    v.append(&mut w);
    proof {
        assert(rules_view(v@) =~= rules_view(v0) + rule_group_2());
    }
}

/// Rules 31 to 45 of the table.
pub open spec fn rule_group_3() -> Seq<RuleView> {
    seq![
        ("JS weak hash algorithm (MD5/SHA1)"@, "MEDIUM"@, r#"createHash\s*\(\s*['"](?:md5|sha1)['"]"#@, seq![".js"@, ".ts"@], "MD5/SHA1 are cryptographically weak; use SHA-256 or stronger"@),
        ("JS hardcoded JWT secret"@, "HIGH"@, r#"(?:jwt\.sign|jwt\.verify)\s*\([^)]*,\s*['"][^'"]{1,}['"]"#@, seq![".js"@, ".ts"@], "JWT secret appears hardcoded; use environment variables instead"@),
        ("JS permissive CORS (wildcard origin)"@, "MEDIUM"@, r#"(?:Access-Control-Allow-Origin|origin)\s*[:=]\s*['"\*]?\*"#@, seq![".js"@, ".ts"@], "Wildcard CORS origin allows any domain to make requests"@),
        ("JS helmet disabled or missing"@, "MEDIUM"@, r#"app\.disable\s*\(\s*['"]x-powered-by['"]\s*\)"#@, seq![".js"@, ".ts"@], "Manually disabling x-powered-by; consider using helmet middleware instead"@),
        ("JS ReDoS-prone regex"@, "MEDIUM"@, r"new\s+RegExp\s*\(.*(?:req|request|params|query|body|input|user)"@, seq![".js"@, ".ts"@], "Regex built from user input may allow ReDoS attacks"@),
        ("JS Math.random for security"@, "MEDIUM"@, r"Math\.random\s*\(\s*\)"@, seq![".js"@, ".ts"@], "Math.random() is not cryptographically secure; use crypto.randomBytes()"@),
        ("JS child_process.exec (shell injection)"@, "HIGH"@, r"child_process\.exec\s*\("@, seq![".js"@, ".ts"@], "child_process.exec uses a shell; prefer execFile or spawn for safety"@),
        ("JS disable TLS verification"@, "HIGH"@, r"NODE_TLS_REJECT_UNAUTHORIZED.*=.*0|rejectUnauthorized\s*:\s*false"@, seq![".js"@, ".ts"@], "Disabling TLS certificate verification exposes the app to MITM attacks"@),
        ("JS unvalidated redirect"@, "MEDIUM"@, r"(?:res\.redirect|response\.redirect)\s*\(.*(?:req\.|request\.|params|query|body)"@, seq![".js"@, ".ts"@], "Redirect with user-controlled URL may allow open redirect attacks"@),
        ("Python os.system"@, "HIGH"@, r"os\.system\s*\("@, seq![".py"@], "os.system() executes shell commands and is vulnerable to injection"@),
        ("Python subprocess with shell=True"@, "HIGH"@, r"subprocess\.\w+\s*\(.*shell\s*=\s*True"@, seq![".py"@], "subprocess with shell=True is vulnerable to shell injection"@),
        ("Python os.popen"@, "HIGH"@, r"os\.popen\s*\("@, seq![".py"@], "os.popen() executes shell commands; use subprocess with shell=False"@),
        ("Python SQL string formatting"@, "HIGH"@, r#"(?:cursor\.execute|\.execute)\s*\(\s*(?:f['"]|['"].*%[sd]|['"].*\.format)"#@, seq![".py"@], "SQL query built with string formatting; use parameterized queries"@),
        ("Python SSRF (requests with user input)"@, "HIGH"@, r"requests\.(?:get|post|put|delete|patch)\s*\(.*(?:request\.|form\[|args\[|input|user)"@, seq![".py"@], "HTTP request with user-controlled URL may allow SSRF"@),
        ("Python weak hash (MD5/SHA1)"@, "MEDIUM"@, r"hashlib\.(?:md5|sha1)\s*\("@, seq![".py"@], "MD5/SHA1 are cryptographically weak; use SHA-256 or stronger"@),
    ]
}

fn push_rule_group_3(v: &mut Vec<SastRule>)
    ensures
        rules_view(final(v)@) == rules_view(old(v)@) + rule_group_3(),
{
    let ghost v0 = v@;
    let mut w: Vec<SastRule> = Vec::new();
    w.push(SastRule { name: "JS weak hash algorithm (MD5/SHA1)", severity: "MEDIUM", pattern: r#"createHash\s*\(\s*['"](?:md5|sha1)['"]"#, extensions: vec![".js", ".ts"], description: "MD5/SHA1 are cryptographically weak; use SHA-256 or stronger" });
    w.push(SastRule { name: "JS hardcoded JWT secret", severity: "HIGH", pattern: r#"(?:jwt\.sign|jwt\.verify)\s*\([^)]*,\s*['"][^'"]{1,}['"]"#, extensions: vec![".js", ".ts"], description: "JWT secret appears hardcoded; use environment variables instead" });
    w.push(SastRule { name: "JS permissive CORS (wildcard origin)", severity: "MEDIUM", pattern: r#"(?:Access-Control-Allow-Origin|origin)\s*[:=]\s*['"\*]?\*"#, extensions: vec![".js", ".ts"], description: "Wildcard CORS origin allows any domain to make requests" });
    w.push(SastRule { name: "JS helmet disabled or missing", severity: "MEDIUM", pattern: r#"app\.disable\s*\(\s*['"]x-powered-by['"]\s*\)"#, extensions: vec![".js", ".ts"], description: "Manually disabling x-powered-by; consider using helmet middleware instead" });
    w.push(SastRule { name: "JS ReDoS-prone regex", severity: "MEDIUM", pattern: r"new\s+RegExp\s*\(.*(?:req|request|params|query|body|input|user)", extensions: vec![".js", ".ts"], description: "Regex built from user input may allow ReDoS attacks" });
    w.push(SastRule { name: "JS Math.random for security", severity: "MEDIUM", pattern: r"Math\.random\s*\(\s*\)", extensions: vec![".js", ".ts"], description: "Math.random() is not cryptographically secure; use crypto.randomBytes()" });
    w.push(SastRule { name: "JS child_process.exec (shell injection)", severity: "HIGH", pattern: r"child_process\.exec\s*\(", extensions: vec![".js", ".ts"], description: "child_process.exec uses a shell; prefer execFile or spawn for safety" });
    w.push(SastRule { name: "JS disable TLS verification", severity: "HIGH", pattern: r"NODE_TLS_REJECT_UNAUTHORIZED.*=.*0|rejectUnauthorized\s*:\s*false", extensions: vec![".js", ".ts"], description: "Disabling TLS certificate verification exposes the app to MITM attacks" });
    w.push(SastRule { name: "JS unvalidated redirect", severity: "MEDIUM", pattern: r"(?:res\.redirect|response\.redirect)\s*\(.*(?:req\.|request\.|params|query|body)", extensions: vec![".js", ".ts"], description: "Redirect with user-controlled URL may allow open redirect attacks" });
    w.push(SastRule { name: "Python os.system", severity: "HIGH", pattern: r"os\.system\s*\(", extensions: vec![".py"], description: "os.system() executes shell commands and is vulnerable to injection" });
    w.push(SastRule { name: "Python subprocess with shell=True", severity: "HIGH", pattern: r"subprocess\.\w+\s*\(.*shell\s*=\s*True", extensions: vec![".py"], description: "subprocess with shell=True is vulnerable to shell injection" });
    w.push(SastRule { name: "Python os.popen", severity: "HIGH", pattern: r"os\.popen\s*\(", extensions: vec![".py"], description: "os.popen() executes shell commands; use subprocess with shell=False" });
    w.push(SastRule { name: "Python SQL string formatting", severity: "HIGH", pattern: r#"(?:cursor\.execute|\.execute)\s*\(\s*(?:f['"]|['"].*%[sd]|['"].*\.format)"#, extensions: vec![".py"], description: "SQL query built with string formatting; use parameterized queries" });
    w.push(SastRule { name: "Python SSRF (requests with user input)", severity: "HIGH", pattern: r"requests\.(?:get|post|put|delete|patch)\s*\(.*(?:request\.|form\[|args\[|input|user)", extensions: vec![".py"], description: "HTTP request with user-controlled URL may allow SSRF" });
    w.push(SastRule { name: "Python weak hash (MD5/SHA1)", severity: "MEDIUM", pattern: r"hashlib\.(?:md5|sha1)\s*\(", extensions: vec![".py"], description: "MD5/SHA1 are cryptographically weak; use SHA-256 or stronger" });
    proof {
        assert(rules_view(w@) =~~= rule_group_3());
    }
    v.append(&mut w);
    proof {
        assert(rules_view(v@) =~= rules_view(v0) + rule_group_3());
    }
}

/// Rules 46 to 60 of the table.
pub open spec fn rule_group_4() -> Seq<RuleView> {
    seq![
        ("Python insecure random"@, "MEDIUM"@, r"\brandom\.(?:random|randint|choice|randrange)\s*\("@, seq![".py"@], "random module is not cryptographically secure; use secrets module"@),
        ("Python XML parsing (XXE)"@, "HIGH"@, r"(?:xml\.etree\.ElementTree|xml\.dom\.minidom|xml\.sax)\.parse"@, seq![".py"@], "Standard XML parsers may be vulnerable to XXE; use defusedxml"@),
        ("Python SSTI (Jinja2 from string)"@, "HIGH"@, r"(?:Template|Environment)\s*\(.*(?:request|input|user|form|args)"@, seq![".py"@], "Template rendered from user input may allow server-side template injection"@),
        ("Python render_template_string"@, "HIGH"@, r"render_template_string\s*\("@, seq![".py"@], "render_template_string with user input allows SSTI"@),
        ("Flask debug mode in production"@, "HIGH"@, r"app\.run\s*\(.*debug\s*=\s*True"@, seq![".py"@], "Flask debug mode exposes an interactive debugger; disable in production"@),
        ("Django mark_safe with user input"@, "HIGH"@, r"mark_safe\s*\(.*(?:request|input|user|form|args)"@, seq![".py"@], "mark_safe with user input bypasses Django's XSS protection"@),
        ("Python assert for validation"@, "MEDIUM"@, r"\bassert\s+.*(?:request|input|user|form|password|token|auth)"@, seq![".py"@], "assert statements are stripped with -O; do not use for security checks"@),
        ("Python hardcoded secret key"@, "HIGH"@, r#"(?:SECRET_KEY|API_KEY|PASSWORD)\s*=\s*['"][^'"]{4,}['"]"#@, seq![".py"@], "Secret appears hardcoded; use environment variables instead"@),
        ("Python disable SSL verification"@, "HIGH"@, r"verify\s*=\s*False"@, seq![".py"@], "Disabling SSL verification exposes the app to MITM attacks"@),
        ("Java SQL injection (string concat in query)"@, "HIGH"@, r#"(?:createStatement|executeQuery|executeUpdate|execute)\s*\(.*\+"#@, seq![".java"@], "SQL query built with string concatenation; use PreparedStatement"@),
        ("Java Runtime.exec"@, "HIGH"@, r"Runtime\.getRuntime\(\)\.exec\s*\("@, seq![".java"@], "Runtime.exec can execute arbitrary commands; validate all input"@),
        ("Java ProcessBuilder with user input"@, "HIGH"@, r"ProcessBuilder\s*\(.*(?:request|getParameter|input|user)"@, seq![".java"@], "ProcessBuilder with user-controlled input may allow command injection"@),
        ("Java XXE (DocumentBuilderFactory)"@, "HIGH"@, r"DocumentBuilderFactory\.newInstance\(\)"@, seq![".java"@], "Default DocumentBuilderFactory is vulnerable to XXE; disable external entities"@),
        ("Java XXE (SAXParserFactory)"@, "HIGH"@, r"SAXParserFactory\.newInstance\(\)"@, seq![".java"@], "Default SAXParserFactory is vulnerable to XXE; disable external entities"@),
        ("Java XXE (XMLInputFactory)"@, "HIGH"@, r"XMLInputFactory\.newInstance\(\)"@, seq![".java"@], "Default XMLInputFactory is vulnerable to XXE; disable external entities"@),
    ]
}

fn push_rule_group_4(v: &mut Vec<SastRule>)
    ensures
        rules_view(final(v)@) == rules_view(old(v)@) + rule_group_4(),
{
    let ghost v0 = v@;
    let mut w: Vec<SastRule> = Vec::new();
    w.push(SastRule { name: "Python insecure random", severity: "MEDIUM", pattern: r"\brandom\.(?:random|randint|choice|randrange)\s*\(", extensions: vec![".py"], description: "random module is not cryptographically secure; use secrets module" });
    w.push(SastRule { name: "Python XML parsing (XXE)", severity: "HIGH", pattern: r"(?:xml\.etree\.ElementTree|xml\.dom\.minidom|xml\.sax)\.parse", extensions: vec![".py"], description: "Standard XML parsers may be vulnerable to XXE; use defusedxml" });
    w.push(SastRule { name: "Python SSTI (Jinja2 from string)", severity: "HIGH", pattern: r"(?:Template|Environment)\s*\(.*(?:request|input|user|form|args)", extensions: vec![".py"], description: "Template rendered from user input may allow server-side template injection" });
    w.push(SastRule { name: "Python render_template_string", severity: "HIGH", pattern: r"render_template_string\s*\(", extensions: vec![".py"], description: "render_template_string with user input allows SSTI" });
    w.push(SastRule { name: "Flask debug mode in production", severity: "HIGH", pattern: r"app\.run\s*\(.*debug\s*=\s*True", extensions: vec![".py"], description: "Flask debug mode exposes an interactive debugger; disable in production" });
    w.push(SastRule { name: "Django mark_safe with user input", severity: "HIGH", pattern: r"mark_safe\s*\(.*(?:request|input|user|form|args)", extensions: vec![".py"], description: "mark_safe with user input bypasses Django's XSS protection" });
    w.push(SastRule { name: "Python assert for validation", severity: "MEDIUM", pattern: r"\bassert\s+.*(?:request|input|user|form|password|token|auth)", extensions: vec![".py"], description: "assert statements are stripped with -O; do not use for security checks" });
    w.push(SastRule { name: "Python hardcoded secret key", severity: "HIGH", pattern: r#"(?:SECRET_KEY|API_KEY|PASSWORD)\s*=\s*['"][^'"]{4,}['"]"#, extensions: vec![".py"], description: "Secret appears hardcoded; use environment variables instead" });
    w.push(SastRule { name: "Python disable SSL verification", severity: "HIGH", pattern: r"verify\s*=\s*False", extensions: vec![".py"], description: "Disabling SSL verification exposes the app to MITM attacks" });
    w.push(SastRule { name: "Java SQL injection (string concat in query)", severity: "HIGH", pattern: r#"(?:createStatement|executeQuery|executeUpdate|execute)\s*\(.*\+"#, extensions: vec![".java"], description: "SQL query built with string concatenation; use PreparedStatement" });
    w.push(SastRule { name: "Java Runtime.exec", severity: "HIGH", pattern: r"Runtime\.getRuntime\(\)\.exec\s*\(", extensions: vec![".java"], description: "Runtime.exec can execute arbitrary commands; validate all input" });
    w.push(SastRule { name: "Java ProcessBuilder with user input", severity: "HIGH", pattern: r"ProcessBuilder\s*\(.*(?:request|getParameter|input|user)", extensions: vec![".java"], description: "ProcessBuilder with user-controlled input may allow command injection" });
    w.push(SastRule { name: "Java XXE (DocumentBuilderFactory)", severity: "HIGH", pattern: r"DocumentBuilderFactory\.newInstance\(\)", extensions: vec![".java"], description: "Default DocumentBuilderFactory is vulnerable to XXE; disable external entities" });
    w.push(SastRule { name: "Java XXE (SAXParserFactory)", severity: "HIGH", pattern: r"SAXParserFactory\.newInstance\(\)", extensions: vec![".java"], description: "Default SAXParserFactory is vulnerable to XXE; disable external entities" });
    w.push(SastRule { name: "Java XXE (XMLInputFactory)", severity: "HIGH", pattern: r"XMLInputFactory\.newInstance\(\)", extensions: vec![".java"], description: "Default XMLInputFactory is vulnerable to XXE; disable external entities" });
    proof {
        assert(rules_view(w@) =~~= rule_group_4());
    }
    v.append(&mut w);
    proof {
        assert(rules_view(v@) =~= rules_view(v0) + rule_group_4());
    }
}

/// Rules 61 to 75 of the table.
pub open spec fn rule_group_5() -> Seq<RuleView> {
    seq![
        ("Java unescaped output in JSP"@, "HIGH"@, r"<%=.*(?:request\.getParameter|request\.getAttribute)"@, seq![".jsp"@, ".java"@], "Unescaped request parameter in JSP output allows XSS"@),
        ("Java SSRF (URL with user input)"@, "HIGH"@, r"new\s+URL\s*\(.*(?:request|getParameter|input|user)"@, seq![".java"@], "URL constructed from user input may allow SSRF"@),
        ("Java weak cipher (DES/RC4)"@, "HIGH"@, r#"Cipher\.getInstance\s*\(\s*['"](?:DES|RC4|RC2|Blowfish)"#@, seq![".java"@], "DES/RC4/RC2/Blowfish are weak ciphers; use AES-256-GCM"@),
        ("Java ECB cipher mode"@, "MEDIUM"@, r#"Cipher\.getInstance\s*\(\s*['"]AES/ECB"#@, seq![".java"@], "ECB mode does not provide semantic security; use CBC or GCM"@),
        ("Java weak hash (MD5/SHA1)"@, "MEDIUM"@, r#"MessageDigest\.getInstance\s*\(\s*['"](?:MD5|SHA-?1)['"]"#@, seq![".java"@], "MD5/SHA1 are cryptographically weak; use SHA-256 or stronger"@),
        ("Java insecure random (java.util.Random)"@, "MEDIUM"@, r"new\s+Random\s*\("@, seq![".java"@], "java.util.Random is predictable; use SecureRandom for security"@),
        ("Java path traversal (File with user input)"@, "HIGH"@, r"new\s+File\s*\(.*(?:request|getParameter|input|user)"@, seq![".java"@], "File path from user input without validation allows path traversal"@),
        ("Java LDAP injection"@, "HIGH"@, r"(?:search|lookup)\s*\(.*(?:request|getParameter|input|user).*\+"@, seq![".java"@], "LDAP query built with user input may allow LDAP injection"@),
        ("Java hardcoded password"@, "HIGH"@, r#"(?i)(?:password|passwd|secret|apikey)\s*=\s*"[^"]{4,}""#@, seq![".java"@], "Password or secret appears hardcoded; use secure configuration"@),
        ("Java trust all certificates"@, "HIGH"@, r"TrustAllCerts|X509TrustManager.*checkServerTrusted.*\{\s*\}|ALLOW_ALL_HOSTNAME_VERIFIER"@, seq![".java"@], "Trusting all certificates disables TLS verification"@),
        ("Java Spring CSRF disabled"@, "MEDIUM"@, r"csrf\(\)\.disable\(\)"@, seq![".java"@], "Disabling CSRF protection allows cross-site request forgery attacks"@),
        ("Java unvalidated redirect"@, "MEDIUM"@, r"response\.sendRedirect\s*\(.*(?:request|getParameter|input)"@, seq![".java"@], "Redirect with user-controlled URL may allow open redirect attacks"@),
        ("Java Log injection"@, "MEDIUM"@, r"(?:log|logger)\.(?:info|warn|error|debug)\s*\(.*(?:request\.getParameter|getHeader)"@, seq![".java"@], "Logging unsanitized user input may allow log injection/forging"@),
        ("PHP eval()"@, "HIGH"@, r"\beval\s*\("@, seq![".php"@], "eval() executes arbitrary PHP code and should be avoided"@),
        ("PHP SQL injection (string concat)"@, "HIGH"@, r#"(?:mysql_query|mysqli_query|pg_query)\s*\(.*\$_(?:GET|POST|REQUEST|COOKIE)"#@, seq![".php"@], "SQL query with unsanitized superglobal; use prepared statements"@),
    ]
}

fn push_rule_group_5(v: &mut Vec<SastRule>)
    ensures
        rules_view(final(v)@) == rules_view(old(v)@) + rule_group_5(),
{
    let ghost v0 = v@;
    let mut w: Vec<SastRule> = Vec::new();
    w.push(SastRule { name: "Java unescaped output in JSP", severity: "HIGH", pattern: r"<%=.*(?:request\.getParameter|request\.getAttribute)", extensions: vec![".jsp", ".java"], description: "Unescaped request parameter in JSP output allows XSS" });
    w.push(SastRule { name: "Java SSRF (URL with user input)", severity: "HIGH", pattern: r"new\s+URL\s*\(.*(?:request|getParameter|input|user)", extensions: vec![".java"], description: "URL constructed from user input may allow SSRF" });
    w.push(SastRule { name: "Java weak cipher (DES/RC4)", severity: "HIGH", pattern: r#"Cipher\.getInstance\s*\(\s*['"](?:DES|RC4|RC2|Blowfish)"#, extensions: vec![".java"], description: "DES/RC4/RC2/Blowfish are weak ciphers; use AES-256-GCM" });
    w.push(SastRule { name: "Java ECB cipher mode", severity: "MEDIUM", pattern: r#"Cipher\.getInstance\s*\(\s*['"]AES/ECB"#, extensions: vec![".java"], description: "ECB mode does not provide semantic security; use CBC or GCM" });
    w.push(SastRule { name: "Java weak hash (MD5/SHA1)", severity: "MEDIUM", pattern: r#"MessageDigest\.getInstance\s*\(\s*['"](?:MD5|SHA-?1)['"]"#, extensions: vec![".java"], description: "MD5/SHA1 are cryptographically weak; use SHA-256 or stronger" });
    w.push(SastRule { name: "Java insecure random (java.util.Random)", severity: "MEDIUM", pattern: r"new\s+Random\s*\(", extensions: vec![".java"], description: "java.util.Random is predictable; use SecureRandom for security" });
    w.push(SastRule { name: "Java path traversal (File with user input)", severity: "HIGH", pattern: r"new\s+File\s*\(.*(?:request|getParameter|input|user)", extensions: vec![".java"], description: "File path from user input without validation allows path traversal" });
    w.push(SastRule { name: "Java LDAP injection", severity: "HIGH", pattern: r"(?:search|lookup)\s*\(.*(?:request|getParameter|input|user).*\+", extensions: vec![".java"], description: "LDAP query built with user input may allow LDAP injection" });
    w.push(SastRule { name: "Java hardcoded password", severity: "HIGH", pattern: r#"(?i)(?:password|passwd|secret|apikey)\s*=\s*"[^"]{4,}""#, extensions: vec![".java"], description: "Password or secret appears hardcoded; use secure configuration" });
    w.push(SastRule { name: "Java trust all certificates", severity: "HIGH", pattern: r"TrustAllCerts|X509TrustManager.*checkServerTrusted.*\{\s*\}|ALLOW_ALL_HOSTNAME_VERIFIER", extensions: vec![".java"], description: "Trusting all certificates disables TLS verification" });
    w.push(SastRule { name: "Java Spring CSRF disabled", severity: "MEDIUM", pattern: r"csrf\(\)\.disable\(\)", extensions: vec![".java"], description: "Disabling CSRF protection allows cross-site request forgery attacks" });
    w.push(SastRule { name: "Java unvalidated redirect", severity: "MEDIUM", pattern: r"response\.sendRedirect\s*\(.*(?:request|getParameter|input)", extensions: vec![".java"], description: "Redirect with user-controlled URL may allow open redirect attacks" });
    w.push(SastRule { name: "Java Log injection", severity: "MEDIUM", pattern: r"(?:log|logger)\.(?:info|warn|error|debug)\s*\(.*(?:request\.getParameter|getHeader)", extensions: vec![".java"], description: "Logging unsanitized user input may allow log injection/forging" });
    w.push(SastRule { name: "PHP eval()", severity: "HIGH", pattern: r"\beval\s*\(", extensions: vec![".php"], description: "eval() executes arbitrary PHP code and should be avoided" });
    w.push(SastRule { name: "PHP SQL injection (string concat)", severity: "HIGH", pattern: r#"(?:mysql_query|mysqli_query|pg_query)\s*\(.*\$_(?:GET|POST|REQUEST|COOKIE)"#, extensions: vec![".php"], description: "SQL query with unsanitized superglobal; use prepared statements" });
    proof {
        assert(rules_view(w@) =~~= rule_group_5());
    }
    v.append(&mut w);
    proof {
        assert(rules_view(v@) =~= rules_view(v0) + rule_group_5());
    }
}

/// Rules 76 to 86 of the table.
pub open spec fn rule_group_6() -> Seq<RuleView> {
    seq![
        ("PHP system/exec/passthru"@, "HIGH"@, r"\b(?:system|passthru|shell_exec|popen|proc_open)\s*\("@, seq![".php"@], "Shell execution function may allow command injection"@),
        ("PHP include with variable"@, "HIGH"@, r"\b(?:include|require|include_once|require_once)\s*\(\s*\$"@, seq![".php"@], "Dynamic include with user-controlled path allows local/remote file inclusion"@),
        ("PHP XSS (echo with superglobal)"@, "HIGH"@, r"echo\s+.*\$_(?:GET|POST|REQUEST|COOKIE)"@, seq![".php"@], "Echoing unsanitized superglobal allows XSS; use htmlspecialchars()"@),
        ("PHP extract() on user input"@, "HIGH"@, r"extract\s*\(\s*\$_(?:GET|POST|REQUEST)"@, seq![".php"@], "extract() on superglobals can overwrite arbitrary variables"@),
        ("PHP disable_functions bypass (preg_replace /e)"@, "HIGH"@, r#"preg_replace\s*\(\s*['"]/.*/e"#@, seq![".php"@], "preg_replace with /e modifier executes replacement as PHP code"@),
        ("Ruby system/exec/backtick injection"@, "HIGH"@, r"(?:system|exec|%x)\s*\(.*(?:params|request|input|user)"@, seq![".rb"@], "Shell execution with user input may allow command injection"@),
        ("Ruby send with user input"@, "HIGH"@, r"\.send\s*\(.*(?:params|request|input|user)"@, seq![".rb"@], "Dynamic method dispatch via send() with user input allows arbitrary method calls"@),
        ("Ruby ERB render from user input"@, "HIGH"@, r"ERB\.new\s*\(.*(?:params|request|input|user)"@, seq![".rb"@], "ERB template from user input allows server-side template injection"@),
        ("Ruby YAML.load (unsafe)"@, "HIGH"@, r"YAML\.load\s*\("@, seq![".rb"@], "YAML.load can deserialize arbitrary objects; use YAML.safe_load"@),
        ("Ruby Marshal.load (unsafe)"@, "HIGH"@, r"Marshal\.load\s*\("@, seq![".rb"@], "Marshal.load can execute arbitrary code from untrusted data"@),
        ("Ruby mass assignment (permit!)"@, "MEDIUM"@, r"\.permit!"@, seq![".rb"@], "permit! allows all parameters; use explicit permit(:field) instead"@),
    ]
}

fn push_rule_group_6(v: &mut Vec<SastRule>)
    ensures
        rules_view(final(v)@) == rules_view(old(v)@) + rule_group_6(),
{
    let ghost v0 = v@;
    let mut w: Vec<SastRule> = Vec::new();
    w.push(SastRule { name: "PHP system/exec/passthru", severity: "HIGH", pattern: r"\b(?:system|passthru|shell_exec|popen|proc_open)\s*\(", extensions: vec![".php"], description: "Shell execution function may allow command injection" });
    w.push(SastRule { name: "PHP include with variable", severity: "HIGH", pattern: r"\b(?:include|require|include_once|require_once)\s*\(\s*\$", extensions: vec![".php"], description: "Dynamic include with user-controlled path allows local/remote file inclusion" });
    w.push(SastRule { name: "PHP XSS (echo with superglobal)", severity: "HIGH", pattern: r"echo\s+.*\$_(?:GET|POST|REQUEST|COOKIE)", extensions: vec![".php"], description: "Echoing unsanitized superglobal allows XSS; use htmlspecialchars()" });
    w.push(SastRule { name: "PHP extract() on user input", severity: "HIGH", pattern: r"extract\s*\(\s*\$_(?:GET|POST|REQUEST)", extensions: vec![".php"], description: "extract() on superglobals can overwrite arbitrary variables" });
    w.push(SastRule { name: "PHP disable_functions bypass (preg_replace /e)", severity: "HIGH", pattern: r#"preg_replace\s*\(\s*['"]/.*/e"#, extensions: vec![".php"], description: "preg_replace with /e modifier executes replacement as PHP code" });
    w.push(SastRule { name: "Ruby system/exec/backtick injection", severity: "HIGH", pattern: r"(?:system|exec|%x)\s*\(.*(?:params|request|input|user)", extensions: vec![".rb"], description: "Shell execution with user input may allow command injection" });
    w.push(SastRule { name: "Ruby send with user input", severity: "HIGH", pattern: r"\.send\s*\(.*(?:params|request|input|user)", extensions: vec![".rb"], description: "Dynamic method dispatch via send() with user input allows arbitrary method calls" });
    w.push(SastRule { name: "Ruby ERB render from user input", severity: "HIGH", pattern: r"ERB\.new\s*\(.*(?:params|request|input|user)", extensions: vec![".rb"], description: "ERB template from user input allows server-side template injection" });
    w.push(SastRule { name: "Ruby YAML.load (unsafe)", severity: "HIGH", pattern: r"YAML\.load\s*\(", extensions: vec![".rb"], description: "YAML.load can deserialize arbitrary objects; use YAML.safe_load" });
    w.push(SastRule { name: "Ruby Marshal.load (unsafe)", severity: "HIGH", pattern: r"Marshal\.load\s*\(", extensions: vec![".rb"], description: "Marshal.load can execute arbitrary code from untrusted data" });
    w.push(SastRule { name: "Ruby mass assignment (permit!)", severity: "MEDIUM", pattern: r"\.permit!", extensions: vec![".rb"], description: "permit! allows all parameters; use explicit permit(:field) instead" });
    proof {
        assert(rules_view(w@) =~~= rule_group_6());
    }
    v.append(&mut w);
    proof {
        assert(rules_view(v@) =~= rules_view(v0) + rule_group_6());
    }
}

/// The rules of the scan, in order: name, severity, pattern, file extensions, description.
pub open spec fn sast_rule_table() -> Seq<RuleView> {
    rule_group_1() + rule_group_2() + rule_group_3() + rule_group_4() + rule_group_5() + rule_group_6()
}

/// The SAST rules: what each looks for and in which files.
pub fn sast_rules() -> (r: Vec<SastRule>)
    ensures
        rules_view(r@) == sast_rule_table(),
{
    let mut v: Vec<SastRule> = Vec::new();
    proof {
        assert(rules_view(v@) =~= Seq::<RuleView>::empty());
    }
    push_rule_group_1(&mut v);
    push_rule_group_2(&mut v);
    push_rule_group_3(&mut v);
    push_rule_group_4(&mut v);
    push_rule_group_5(&mut v);
    push_rule_group_6(&mut v);
    proof {
        assert(rules_view(v@) =~= sast_rule_table());
    }
    v
}

/// Every rule's pattern compiles.
pub open spec fn all_compile(rules: Seq<RuleView>) -> bool {
    forall|i: int| 0 <= i < rules.len() ==> regex_compiles(#[trigger] rules[i].2)
}

/// The compiled patterns of the rules, in order; `None` when one does not compile.
pub fn compile_rules(rules: &Vec<SastRule>) -> (r: Option<Vec<Pattern>>)
    ensures
        r is Some <==> all_compile(rules_view(rules@)),
        r matches Some(ps) ==> ps@.len() == rules@.len() && forall|i: int|
            0 <= i < ps@.len() ==> (#[trigger] ps@[i]).source() == rules@[i].pattern@,
{
    let ghost rv = rules_view(rules@);
    let mut ps: Vec<Pattern> = Vec::new();
    let mut i: usize = 0;
    while i < rules.len()
        invariant
            i <= rules@.len(),
            rv == rules_view(rules@),
            ps@.len() == i,
            forall|k: int| 0 <= k < i ==> (#[trigger] ps@[k]).source() == rules@[k].pattern@,
            forall|k: int| 0 <= k < i ==> regex_compiles(#[trigger] rv[k].2),
        decreases rules@.len() - i,
    {
        match Pattern::new(rules[i].pattern) {
            Some(p) => {
                ps.push(p);
            },
            None => {
                assert(rv[i as int].2 == rules@[i as int].pattern@);
                return None;
            },
        }
        i += 1;
    }
    Some(ps)
}

/// A path ends with one of the extensions.
pub open spec fn has_extension(path: Seq<char>, exts: Seq<Seq<char>>) -> bool {
    exists|i: int| 0 <= i < exts.len() && ends_with(path, #[trigger] exts[i])
}

/// Some rule applies to files with this path.
pub open spec fn any_rule_applies(rules: Seq<RuleView>, path: Seq<char>) -> bool {
    exists|i: int| 0 <= i < rules.len() && has_extension(path, #[trigger] rules[i].3)
}

/// A path of a test file: it holds "_test.", ".test.", "/test/" or "/tests/".
pub open spec fn is_test_path(p: Seq<char>) -> bool {
    contains(p, "_test."@) || contains(p, ".test."@) || contains(p, "/test/"@) || contains(p, "/tests/"@)
}

/// A trimmed line that starts a comment: "//", "#", "/*" or "*".
pub open spec fn is_comment_line(t: Seq<char>) -> bool {
    starts_with(t, "//"@) || starts_with(t, "#"@) || starts_with(t, "/*"@) || starts_with(t, "*"@)
}

/// Whether a rule flags a line of the file at `path`. With `safe_loader`, a
/// rule whose name mentions "yaml.load" does not flag a line that mentions
/// "SafeLoader".
pub open spec fn rule_hits(r: RuleView, path: Seq<char>, line: Seq<char>, safe_loader: bool) -> bool {
    &&& has_extension(path, r.3)
    &&& regex_is_match(r.2, line)
    &&& !(safe_loader && contains(r.0, "yaml.load"@) && contains(line, "SafeLoader"@))
}

/// The indices, among the first `n` rules, of those that flag the line, in order.
pub open spec fn hits_upto(rules: Seq<RuleView>, path: Seq<char>, line: Seq<char>, safe_loader: bool, n: int) -> Seq<nat>
    decreases n,
{
    if n <= 0 {
        Seq::empty()
    } else {
        let prev = hits_upto(rules, path, line, safe_loader, n - 1);
        if rule_hits(rules[n - 1], path, line, safe_loader) {
            prev.push((n - 1) as nat)
        } else {
            prev
        }
    }
}

/// The hits in the lines of a file: for each line that is not a comment, its
/// 1-based number with each rule that flags it, rules in order.
pub open spec fn file_hits(rules: Seq<RuleView>, path: Seq<char>, ls: Seq<Seq<char>>, safe_loader: bool) -> Seq<(nat, nat)>
    decreases ls.len(),
{
    if ls.len() == 0 {
        Seq::empty()
    } else {
        let prev = file_hits(rules, path, ls.drop_last(), safe_loader);
        let line = ls.last();
        if is_comment_line(trim(line)) {
            prev
        } else {
            let hs = hits_upto(rules, path, line, safe_loader, rules.len() as int);
            prev + Seq::new(hs.len(), |k: int| (ls.len(), hs[k]))
        }
    }
}

pub fn has_extension_exec(path: &[char], exts: &Vec<&'static str>) -> (r: bool)
    ensures
        r == has_extension(path@, strs_view(exts@)),
{
    let ghost ev = strs_view(exts@);
    let mut i: usize = 0;
    while i < exts.len()
        invariant
            i <= exts@.len(),
            ev == strs_view(exts@),
            forall|k: int| 0 <= k < i ==> !ends_with(path@, #[trigger] ev[k]),
        decreases exts@.len() - i,
    {
        if ends_with_str(path, exts[i]) {
            assert(ev[i as int] == exts@[i as int]@);
            return true;
        }
        i += 1;
    }
    false
}

/// Whether some rule applies to files with this path.
pub fn any_rule_applies_exec(rules: &Vec<SastRule>, path: &[char]) -> (r: bool)
    ensures
        r == any_rule_applies(rules_view(rules@), path@),
{
    let ghost rv = rules_view(rules@);
    let mut i: usize = 0;
    while i < rules.len()
        invariant
            i <= rules@.len(),
            rv == rules_view(rules@),
            forall|k: int| 0 <= k < i ==> !has_extension(path@, #[trigger] rv[k].3),
        decreases rules@.len() - i,
    {
        if has_extension_exec(path, &rules[i].extensions) {
            assert(rv[i as int].3 == strs_view(rules@[i as int].extensions@));
            return true;
        }
        i += 1;
    }
    false
}

/// Whether the path is that of a test file.
pub fn is_test_path_exec(p: &[char]) -> (r: bool)
    ensures
        r == is_test_path(p@),
{
    contains_str(p, "_test.") || contains_str(p, ".test.") || contains_str(p, "/test/") || contains_str(p, "/tests/")
}

fn is_comment_line_exec(t: &[char]) -> (r: bool)
    ensures
        r == is_comment_line(t@),
{
    starts_with_str(t, "//") || starts_with_str(t, "#") || starts_with_str(t, "/*") || starts_with_str(t, "*")
}

/// The indices of the rules that flag a line.
fn line_hits_exec(
    rules: &Vec<SastRule>,
    pats: &Vec<Pattern>,
    path: &[char],
    line: &Vec<char>,
    safe_loader: bool,
) -> (r: Vec<usize>)
    requires
        pats@.len() == rules@.len(),
        forall|i: int| 0 <= i < pats@.len() ==> (#[trigger] pats@[i]).source() == rules@[i].pattern@,
    ensures
        r@.len() == hits_upto(rules_view(rules@), path@, line@, safe_loader, rules@.len() as int).len(),
        forall|k: int| 0 <= k < r@.len() ==> r@[k] as nat == #[trigger] hits_upto(
            rules_view(rules@),
            path@,
            line@,
            safe_loader,
            rules@.len() as int,
        )[k],
{
    let ghost rv = rules_view(rules@);
    let text = string_of(line);
    let mut r: Vec<usize> = Vec::new();
    let mut i: usize = 0;
    while i < rules.len()
        invariant
            i <= rules@.len(),
            rv == rules_view(rules@),
            text@ == line@,
            pats@.len() == rules@.len(),
            forall|i: int| 0 <= i < pats@.len() ==> (#[trigger] pats@[i]).source() == rules@[i].pattern@,
            r@.len() == hits_upto(rv, path@, line@, safe_loader, i as int).len(),
            forall|k: int| 0 <= k < r@.len() ==> r@[k] as nat == #[trigger] hits_upto(
                rv,
                path@,
                line@,
                safe_loader,
                i as int,
            )[k],
        decreases rules@.len() - i,
    {
        let ghost prev = hits_upto(rv, path@, line@, safe_loader, i as int);
        let rule = &rules[i];
        assert(rv[i as int] == rule_view(*rule));
        let hit = if has_extension_exec(path, &rule.extensions) && pats[i].is_match(text.as_str()) {
            if safe_loader {
                let name = chars_of(rule.name);
                !(contains_str(&name, "yaml.load") && contains_str(line, "SafeLoader"))
            } else {
                true
            }
        } else {
            false
        };
        assert(hit == rule_hits(rv[i as int], path@, line@, safe_loader));
        if hit {
            let ghost before = r@;
            r.push(i);
            proof {
                assert forall|k: int| 0 <= k < r@.len() implies r@[k] as nat == #[trigger] hits_upto(
                    rv,
                    path@,
                    line@,
                    safe_loader,
                    i + 1,
                )[k] by {
                    if k < before.len() {
                        assert(r@[k] == before[k]);
                    }
                }
            }
        }
        i += 1;
    }
    r
}

/// The hits in a file's text: (line number, rule index) pairs.
pub fn file_hits_exec(
    rules: &Vec<SastRule>,
    pats: &Vec<Pattern>,
    path: &[char],
    content: &str,
    safe_loader: bool,
) -> (r: Vec<(usize, usize)>)
    requires
        pats@.len() == rules@.len(),
        forall|i: int| 0 <= i < pats@.len() ==> (#[trigger] pats@[i]).source() == rules@[i].pattern@,
    ensures
        r@.len() == file_hits(rules_view(rules@), path@, lines(content@), safe_loader).len(),
        forall|k: int| 0 <= k < r@.len() ==> (r@[k].0 as nat, r@[k].1 as nat) == #[trigger] file_hits(
            rules_view(rules@),
            path@,
            lines(content@),
            safe_loader,
        )[k],
{
    let ghost rv = rules_view(rules@);
    let ls = lines_of(content);
    let ghost lv = lines(content@);
    let mut r: Vec<(usize, usize)> = Vec::new();
    let n = ls.len();
    let mut i: usize = 0;
    proof {
        assert(lv.take(0) =~= Seq::<Seq<char>>::empty());
    }
    while i < n
        invariant
            n == ls@.len(),
            i <= ls@.len(),
            lv == lines(content@),
            views(ls@) == lv,
            rv == rules_view(rules@),
            pats@.len() == rules@.len(),
            forall|i: int| 0 <= i < pats@.len() ==> (#[trigger] pats@[i]).source() == rules@[i].pattern@,
            r@.len() == file_hits(rv, path@, lv.take(i as int), safe_loader).len(),
            forall|k: int| 0 <= k < r@.len() ==> (r@[k].0 as nat, r@[k].1 as nat) == #[trigger] file_hits(
                rv,
                path@,
                lv.take(i as int),
                safe_loader,
            )[k],
        decreases ls@.len() - i,
    {
        proof {
            assert(lv.take(i + 1).drop_last() =~= lv.take(i as int));
            assert(lv.take(i + 1).last() == ls@[i as int]@);
        }
        let ghost prev = file_hits(rv, path@, lv.take(i as int), safe_loader);
        let t = trim_exec(&ls[i]);
        if !is_comment_line_exec(&t) {
            let hs = line_hits_exec(rules, pats, path, &ls[i], safe_loader);
            let ghost hv = hits_upto(rv, path@, ls@[i as int]@, safe_loader, rules@.len() as int);
            let ghost added = Seq::new(hv.len(), |k: int| ((i + 1) as nat, hv[k]));
            let mut k: usize = 0;
            while k < hs.len()
                invariant
                    k <= hs@.len(),
                    hs@.len() == hv.len(),
                    forall|j: int| 0 <= j < hs@.len() ==> hs@[j] as nat == #[trigger] hv[j],
                    i < n,
                    added == Seq::new(hv.len(), |k: int| ((i + 1) as nat, hv[k])),
                    r@.len() == prev.len() + k,
                    forall|j: int| 0 <= j < prev.len() ==> (r@[j].0 as nat, r@[j].1 as nat) == #[trigger] prev[j],
                    forall|j: int| 0 <= j < k ==> (r@[prev.len() + j].0 as nat, r@[prev.len() + j].1 as nat)
                        == #[trigger] added[j],
                decreases hs@.len() - k,
            {
                let ghost before = r@;
                r.push((i + 1, hs[k]));
                proof {
                    assert forall|j: int| 0 <= j < prev.len() implies (r@[j].0 as nat, r@[j].1 as nat)
                        == #[trigger] prev[j] by {
                        assert(r@[j] == before[j]);
                    }
                    assert forall|j: int| 0 <= j < k + 1 implies (r@[prev.len() + j].0 as nat, r@[prev.len()
                        + j].1 as nat) == #[trigger] added[j] by {
                        if j < k {
                            assert(r@[prev.len() + j] == before[prev.len() + j]);
                        }
                    }
                }
                k += 1;
            }
            proof {
                let cur = file_hits(rv, path@, lv.take(i + 1), safe_loader);
                assert(lv.take(i + 1).len() == i + 1);
                assert(cur == prev + added);
                assert forall|j: int| 0 <= j < r@.len() implies (r@[j].0 as nat, r@[j].1 as nat)
                    == #[trigger] cur[j] by {
                    if j >= prev.len() {
                        assert(added[j - prev.len()] == cur[j]);
                    }
                }
            }
        } else {
            proof {
                assert(file_hits(rv, path@, lv.take(i + 1), safe_loader) == prev);
            }
        }
        i += 1;
    }
    proof {
        assert(lv.take(ls@.len() as int) =~= lv);
    }
    r
}

/// The source files the scan reads: outside skipped directories, not test
/// files, and with an extension some rule applies to; in walk order.
pub open spec fn sast_files(entries: Seq<TreeEntry>, ignore: Seq<Seq<char>>, rules: Seq<RuleView>) -> Seq<TreeEntry>
    decreases entries.len(),
{
    if entries.len() == 0 {
        Seq::empty()
    } else {
        let prev = sast_files(entries.drop_last(), ignore, rules);
        let e = entries.last();
        let p = entry_path(e);
        if !skipped(p, fix_skip_dirs(), ignore) && !is_test_path(p) && any_rule_applies(rules, p) {
            prev.push(e)
        } else {
            prev
        }
    }
}

/// A finding: file, line number, rule name, severity, description.
pub type FindingView = (Seq<char>, nat, Seq<char>, Seq<char>, Seq<char>);

/// The findings of hits in the file at `path`.
pub open spec fn hit_findings(rules: Seq<RuleView>, path: Seq<char>, hs: Seq<(nat, nat)>) -> Seq<FindingView> {
    Seq::new(
        hs.len(),
        |k: int| (path, hs[k].0, rules[hs[k].1 as int].0, rules[hs[k].1 as int].1, rules[hs[k].1 as int].4),
    )
}

/// The findings in a file of the tree (none when it cannot be read as text).
pub open spec fn entry_findings(rules: Seq<RuleView>, e: TreeEntry) -> Seq<FindingView> {
    match e.content {
        BlobContent::Text(c) => hit_findings(
            rules,
            entry_path(e),
            file_hits(rules, entry_path(e), lines(c@), true),
        ),
        _ => Seq::empty(),
    }
}

/// The findings in the files, in order.
pub open spec fn sast_findings(rules: Seq<RuleView>, files: Seq<TreeEntry>) -> Seq<FindingView>
    decreases files.len(),
{
    if files.len() == 0 {
        Seq::empty()
    } else {
        sast_findings(rules, files.drop_last()) + entry_findings(rules, files.last())
    }
}

/// A finding of the scan.
pub struct SastFinding {
    pub file: String,
    pub line: usize,
    pub name: &'static str,
    pub severity: &'static str,
    pub description: &'static str,
}

/// The texts of findings.
pub open spec fn findings_view(fs: Seq<SastFinding>) -> Seq<FindingView> {
    Seq::new(
        fs.len(),
        |i: int| (fs[i].file@, fs[i].line as nat, fs[i].name@, fs[i].severity@, fs[i].description@),
    )
}

/// The number of files scanned and the findings in them.
fn collect_sast(
    entries: &Vec<TreeEntry>,
    ignore_dirs: &Vec<String>,
    rules: &Vec<SastRule>,
    pats: &Vec<Pattern>,
) -> (r: (usize, Vec<SastFinding>))
    requires
        pats@.len() == rules@.len(),
        forall|i: int| 0 <= i < pats@.len() ==> (#[trigger] pats@[i]).source() == rules@[i].pattern@,
    ensures
        r.0 == sast_files(entries@, strings_view(ignore_dirs@), rules_view(rules@)).len(),
        findings_view(r.1@) == sast_findings(
            rules_view(rules@),
            sast_files(entries@, strings_view(ignore_dirs@), rules_view(rules@)),
        ),
{
    let ghost iv = strings_view(ignore_dirs@);
    let ghost rv = rules_view(rules@);
    let defaults: Vec<&str> = vec!["vendor/", "node_modules/", ".git/", "target/", "dist/", "build/"];
    proof {
        assert(strs_view(defaults@) =~= fix_skip_dirs());
    }
    let mut count: usize = 0;
    let mut fs: Vec<SastFinding> = Vec::new();
    let mut i: usize = 0;
    proof {
        assert(entries@.take(0) =~= Seq::<TreeEntry>::empty());
        assert(findings_view(fs@) =~= Seq::<FindingView>::empty());
    }
    while i < entries.len()
        invariant
            i <= entries@.len(),
            iv == strings_view(ignore_dirs@),
            rv == rules_view(rules@),
            strs_view(defaults@) == fix_skip_dirs(),
            pats@.len() == rules@.len(),
            forall|i: int| 0 <= i < pats@.len() ==> (#[trigger] pats@[i]).source() == rules@[i].pattern@,
            count == sast_files(entries@.take(i as int), iv, rv).len(),
            count <= i,
            findings_view(fs@) == sast_findings(rv, sast_files(entries@.take(i as int), iv, rv)),
        decreases entries@.len() - i,
    {
        let e = &entries[i];
        proof {
            assert(entries@.take(i + 1).drop_last() =~= entries@.take(i as int));
            assert(entries@.take(i + 1).last() == *e);
        }
        let ghost files = sast_files(entries@.take(i as int), iv, rv);
        let mut path = chars_of(e.dir.as_str());
        crate::text::extend_str(&mut path, e.name.as_str());
        assert(path@ == entry_path(*e));
        if !is_skipped(&path, defaults.as_slice(), ignore_dirs.as_slice()) && !is_test_path_exec(&path)
            && any_rule_applies_exec(rules, &path) {
            proof {
                assert(files.push(*e).drop_last() =~= files);
            }
            match &e.content {
                BlobContent::Text(c) => {
                    let hs = file_hits_exec(rules, pats, &path, c.as_str(), true);
                    let ghost hv = file_hits(rv, path@, lines(c@), true);
                    let ghost before = findings_view(fs@);
                    let mut k: usize = 0;
                    while k < hs.len()
                        invariant
                            k <= hs@.len(),
                            hs@.len() == hv.len(),
                            forall|j: int| 0 <= j < hs@.len() ==> (hs@[j].0 as nat, hs@[j].1 as nat) == #[trigger] hv[j],
                            hv == file_hits(rv, path@, lines(c@), true),
                            rv == rules_view(rules@),
                            findings_view(fs@) == before + hit_findings(rv, path@, hv.take(k as int)),
                        decreases hs@.len() - k,
                    {
                        let (ln, ri) = hs[k];
                        proof {
                            assert(hv[k as int] == (ln as nat, ri as nat));
                            lemma_hit_rule_index(rv, path@, lines(c@), true, k as int);
                        }
                        let rule = &rules[ri];
                        let ghost fv0 = findings_view(fs@);
                        fs.push(SastFinding {
                            file: string_of(&path),
                            line: ln,
                            name: rule.name,
                            severity: rule.severity,
                            description: rule.description,
                        });
                        proof {
                            assert(rv[ri as int] == rule_view(rules@[ri as int]));
                            let nf = findings_view(fs@)[fv0.len() as int];
                            assert(nf == hit_findings(rv, path@, hv.take(k + 1))[k as int]);
                            assert(hv.take(k + 1) =~= hv.take(k as int).push(hv[k as int]));
                            assert(findings_view(fs@) =~= fv0.push(nf));
                            assert(hit_findings(rv, path@, hv.take(k + 1)) =~= hit_findings(
                                rv,
                                path@,
                                hv.take(k as int),
                            ).push(nf));
                            assert(findings_view(fs@) =~= before + hit_findings(rv, path@, hv.take(k + 1)));
                        }
                        k += 1;
                    }
                    proof {
                        assert(hv.take(hs@.len() as int) =~= hv);
                    }
                },
                _ => {
                    proof {
                        assert(findings_view(fs@) =~= findings_view(fs@) + entry_findings(rv, *e));
                    }
                },
            }
            count += 1;
        }
        i += 1;
    }
    proof {
        assert(entries@.take(entries@.len() as int) =~= entries@);
    }
    (count, fs)
}

/// Every hit names a rule of the table.
pub proof fn lemma_hit_rule_index(rules: Seq<RuleView>, path: Seq<char>, ls: Seq<Seq<char>>, safe_loader: bool, k: int)
    requires
        0 <= k < file_hits(rules, path, ls, safe_loader).len(),
    ensures
        file_hits(rules, path, ls, safe_loader)[k].1 < rules.len(),
        1 <= file_hits(rules, path, ls, safe_loader)[k].0 <= ls.len(),
    decreases ls.len(),
{
    let prev = file_hits(rules, path, ls.drop_last(), safe_loader);
    if k < prev.len() {
        lemma_hit_rule_index(rules, path, ls.drop_last(), safe_loader, k);
        if !is_comment_line(trim(ls.last())) {
            let hs = hits_upto(rules, path, ls.last(), safe_loader, rules.len() as int);
            assert(file_hits(rules, path, ls, safe_loader) == prev + Seq::new(hs.len(), |j: int| (ls.len(), hs[j])));
        }
    } else {
        let hs = hits_upto(rules, path, ls.last(), safe_loader, rules.len() as int);
        lemma_hits_below(rules, path, ls.last(), safe_loader, rules.len() as int);
        assert(file_hits(rules, path, ls, safe_loader)[k] == (ls.len(), hs[k - prev.len()]));
    }
}

proof fn lemma_hits_below(rules: Seq<RuleView>, path: Seq<char>, line: Seq<char>, safe_loader: bool, n: int)
    requires
        n <= rules.len(),
    ensures
        forall|j: int| 0 <= j < hits_upto(rules, path, line, safe_loader, n).len() ==> #[trigger] hits_upto(
            rules,
            path,
            line,
            safe_loader,
            n,
        )[j] < n,
    decreases n,
{
    if n > 0 {
        lemma_hits_below(rules, path, line, safe_loader, n - 1);
        let prev = hits_upto(rules, path, line, safe_loader, n - 1);
        let cur = hits_upto(rules, path, line, safe_loader, n);
        assert forall|j: int| 0 <= j < cur.len() implies #[trigger] cur[j] < n by {
            if j < prev.len() {
                assert(prev[j] < n - 1);
            }
        }
    }
}

/// The findings of the given severity, in order.
pub open spec fn with_severity(fs: Seq<FindingView>, sev: Seq<char>) -> Seq<FindingView>
    decreases fs.len(),
{
    if fs.len() == 0 {
        Seq::empty()
    } else {
        let prev = with_severity(fs.drop_last(), sev);
        if fs.last().3 == sev {
            prev.push(fs.last())
        } else {
            prev
        }
    }
}

/// At most the first `n` findings.
pub open spec fn first_findings(fs: Seq<FindingView>, n: nat) -> Seq<FindingView> {
    if fs.len() <= n {
        fs
    } else {
        fs.take(n as int)
    }
}

/// Table rows of file, "L" and line number, and rule name.
pub open spec fn finding_rows(fs: Seq<FindingView>) -> Seq<Seq<Seq<char>>> {
    Seq::new(fs.len(), |i: int| seq![fs[i].0, "L"@ + decimal(fs[i].1), fs[i].2])
}

/// The headers of the findings tables.
pub open spec fn finding_headers() -> Seq<Seq<char>> {
    seq!["File"@, "Line"@, "Issue"@]
}

/// The table of the first 20 findings of a severity.
pub open spec fn severity_table(fs: Seq<FindingView>, sev: Seq<char>) -> Seq<Seq<char>> {
    table_lines_v(finding_headers(), finding_rows(first_findings(with_severity(fs, sev), 20)))
}

/// Lines `ls` when `c` holds, none otherwise.
pub open spec fn lines_if(c: bool, ls: Seq<Seq<char>>) -> Seq<Seq<char>> {
    if c {
        ls
    } else {
        Seq::empty()
    }
}

/// The report on the findings: counts by severity, then a table per severity.
pub open spec fn findings_summary(fs: Seq<FindingView>) -> Seq<Seq<char>> {
    let high = with_severity(fs, "HIGH"@).len();
    let medium = with_severity(fs, "MEDIUM"@).len();
    let info = with_severity(fs, "INFO"@).len();
    seq![""@, summary_stat_line("Total findings"@, decimal(fs.len()))]
        + lines_if(high > 0, seq![warning_line(decimal(high) + " HIGH severity issues"@)])
        + lines_if(medium > 0, seq!["    \x1b[33m⚠  "@ + decimal(medium) + " MEDIUM severity issues\x1b[0m"@])
        + lines_if(info > 0, seq![info_line(decimal(info) + " INFO severity issues"@)])
        + seq![""@]
        + lines_if(high > 0, seq!["    \x1b[1;31mHIGH Severity:\x1b[0m"@] + severity_table(fs, "HIGH"@))
        + lines_if(medium > 0, seq![""@, "    \x1b[1;33mMEDIUM Severity:\x1b[0m"@] + severity_table(fs, "MEDIUM"@))
        + lines_if(info > 0, seq![""@, "    \x1b[1;36mINFO:\x1b[0m"@] + severity_table(fs, "INFO"@))
}

/// The SAST report on `n` scanned files and their findings.
pub open spec fn sast_report_lines(n: nat, fs: Seq<FindingView>) -> Seq<Seq<char>> {
    sub_header_lines("Static Application Security Testing (SAST)"@) + seq![
        summary_stat_line("Files scanned"@, decimal(n)),
    ] + if fs.len() == 0 {
        seq![ok_line("No SAST issues detected"@)]
    } else {
        findings_summary(fs)
    }
}

/// Every findings table of the report can be printed.
pub open spec fn sast_printable(fs: Seq<FindingView>) -> bool {
    &&& cells_cuttable_v(finding_rows(first_findings(with_severity(fs, "HIGH"@), 20)))
    &&& cells_cuttable_v(finding_rows(first_findings(with_severity(fs, "MEDIUM"@), 20)))
    &&& cells_cuttable_v(finding_rows(first_findings(with_severity(fs, "INFO"@), 20)))
}

fn clone_finding(f: &SastFinding) -> (r: SastFinding)
    ensures
        findings_view(seq![r]) == findings_view(seq![*f]),
{
    let r = SastFinding {
        file: f.file.clone(),
        line: f.line,
        name: f.name,
        severity: f.severity,
        description: f.description,
    };
    proof {
        assert(findings_view(seq![r]) =~= findings_view(seq![*f]));
    }
    r
}

/// [`with_severity`].
fn with_severity_exec(fs: &Vec<SastFinding>, sev: &str) -> (r: Vec<SastFinding>)
    ensures
        findings_view(r@) == with_severity(findings_view(fs@), sev@),
{
    let ghost fv = findings_view(fs@);
    let sc = chars_of(sev);
    let mut r: Vec<SastFinding> = Vec::new();
    let mut i: usize = 0;
    proof {
        assert(fv.take(0) =~= Seq::<FindingView>::empty());
        assert(findings_view(r@) =~= Seq::<FindingView>::empty());
    }
    while i < fs.len()
        invariant
            i <= fs@.len(),
            fv == findings_view(fs@),
            sc@ == sev@,
            findings_view(r@) == with_severity(fv.take(i as int), sev@),
        decreases fs@.len() - i,
    {
        proof {
            assert(fv.take(i + 1).drop_last() =~= fv.take(i as int));
            assert(fv.take(i + 1).last() == fv[i as int]);
        }
        let x = chars_of(fs[i].severity);
        if crate::text::seq_eq(&x, &sc) {
            let c = clone_finding(&fs[i]);
            let ghost before = findings_view(r@);
            r.push(c);
            proof {
                assert(findings_view(seq![c])[0] == findings_view(seq![fs@[i as int]])[0]);
                assert(findings_view(r@) =~= before.push(fv[i as int]));
            }
        }
        i += 1;
    }
    proof {
        assert(fv.take(fs@.len() as int) =~= fv);
    }
    r
}

/// The rows of the first 20 findings.
fn finding_rows_exec(fs: &Vec<SastFinding>) -> (r: Vec<Vec<String>>)
    ensures
        crate::display::rows_view(r@) == finding_rows(first_findings(findings_view(fs@), 20)),
{
    let ghost fv = findings_view(fs@);
    let ghost shown = first_findings(fv, 20);
    let m: usize = if fs.len() <= 20 { fs.len() } else { 20 };
    assert(shown.len() == m);
    let mut r: Vec<Vec<String>> = Vec::new();
    let mut i: usize = 0;
    while i < m
        invariant
            i <= m,
            m <= fs@.len(),
            fv == findings_view(fs@),
            shown == first_findings(fv, 20),
            shown.len() == m,
            r@.len() == i,
            forall|k: int| 0 <= k < i ==> #[trigger] crate::display::rows_view(r@)[k] == finding_rows(shown)[k],
        decreases m - i,
    {
        assert(shown[i as int] == fv[i as int]);
        let mut row: Vec<String> = Vec::new();
        row.push(fs[i].file.clone());
        let mut l: Vec<char> = Vec::new();
        l.push('L');
        let d = decimal_exec(fs[i].line);
        crate::text::extend(&mut l, &d);
        row.push(string_of(&l));
        row.push(fs[i].name.to_string());
        let ghost before = r@;
        r.push(row);
        proof {
            assert(l@ =~= "L"@ + decimal(fs@[i as int].line as nat)) by {
                reveal_strlit("L");
            }
            assert forall|k: int| 0 <= k < i + 1 implies #[trigger] crate::display::rows_view(r@)[k]
                == finding_rows(shown)[k] by {
                if k < i {
                    assert(r@[k] == before[k]);
                    assert(crate::display::rows_view(r@)[k] == crate::display::rows_view(before)[k]);
                } else {
                    assert(crate::display::rows_view(r@)[k] =~= finding_rows(shown)[k]);
                }
            }
        }
        i += 1;
    }
    proof {
        assert(crate::display::rows_view(r@) =~= finding_rows(shown));
    }
    r
}

/// The table of a severity's first 20 findings; `None` when it cannot be printed.
fn severity_table_exec(fs: &Vec<SastFinding>, sev: &str) -> (r: (usize, Option<Vec<Vec<char>>>))
    ensures
        r.0 == with_severity(findings_view(fs@), sev@).len(),
        r.1 is Some <==> cells_cuttable_v(finding_rows(first_findings(with_severity(findings_view(fs@), sev@), 20))),
        r.1 matches Some(ls) ==> views(ls@) == severity_table(findings_view(fs@), sev@),
{
    let sel = with_severity_exec(fs, sev);
    let rows = finding_rows_exec(&sel);
    let ok = table_printable(rows.as_slice());
    proof {
        crate::display::lemma_table_view(Seq::<&str>::empty(), rows@);
    }
    if !ok {
        return (sel.len(), None);
    }
    let h: Vec<&str> = vec!["File", "Line", "Issue"];
    proof {
        assert(crate::display::headers_view(h@) =~= finding_headers());
    }
    (sel.len(), Some(table_lines_exec(h.as_slice(), rows.as_slice())))
}

/// The lines of [`findings_summary`], given the three severity tables.
fn findings_summary_exec(
    total: usize,
    high: usize,
    medium: usize,
    info: usize,
    th: Vec<Vec<char>>,
    tm: Vec<Vec<char>>,
    ti: Vec<Vec<char>>,
    Ghost(fs): Ghost<Seq<FindingView>>,
) -> (r: Vec<Vec<char>>)
    requires
        total == fs.len(),
        high == with_severity(fs, "HIGH"@).len(),
        medium == with_severity(fs, "MEDIUM"@).len(),
        info == with_severity(fs, "INFO"@).len(),
        views(th@) == severity_table(fs, "HIGH"@),
        views(tm@) == severity_table(fs, "MEDIUM"@),
        views(ti@) == severity_table(fs, "INFO"@),
    ensures
        views(r@) == findings_summary(fs),
{
    let mut r: Vec<Vec<char>> = Vec::new();
    push_line(&mut r, str_line(""));
    let t = decimal_exec(total);
    push_line(&mut r, summary_line_exec("Total findings", &t));
    let ghost a = views(r@);
    if high > 0 {
        let mut m = decimal_exec(high);
        crate::text::extend_str(&mut m, " HIGH severity issues");
        push_line(&mut r, warning_line_exec(&m));
    }
    let ghost b = views(r@);
    if medium > 0 {
        let mut m: Vec<char> = Vec::new();
        crate::text::extend_str(&mut m, "    \x1b[33m⚠  ");
        let d = decimal_exec(medium);
        crate::text::extend(&mut m, &d);
        crate::text::extend_str(&mut m, " MEDIUM severity issues\x1b[0m");
        push_line(&mut r, m);
    }
    let ghost c = views(r@);
    if info > 0 {
        let mut m = decimal_exec(info);
        crate::text::extend_str(&mut m, " INFO severity issues");
        push_line(&mut r, info_line_exec(&m));
    }
    push_line(&mut r, str_line(""));
    let ghost d = views(r@);
    if high > 0 {
        push_line(&mut r, str_line("    \x1b[1;31mHIGH Severity:\x1b[0m"));
        push_lines(&mut r, th);
    }
    let ghost e = views(r@);
    if medium > 0 {
        push_line(&mut r, str_line(""));
        push_line(&mut r, str_line("    \x1b[1;33mMEDIUM Severity:\x1b[0m"));
        push_lines(&mut r, tm);
    }
    let ghost f = views(r@);
    if info > 0 {
        push_line(&mut r, str_line(""));
        push_line(&mut r, str_line("    \x1b[1;36mINFO:\x1b[0m"));
        push_lines(&mut r, ti);
    }
    proof {
        let hs = with_severity(fs, "HIGH"@).len();
        let ms = with_severity(fs, "MEDIUM"@).len();
        let is = with_severity(fs, "INFO"@).len();
        assert(a =~= seq![""@, summary_stat_line("Total findings"@, decimal(fs.len()))]);
        assert(b =~= a + lines_if(hs > 0, seq![warning_line(decimal(hs) + " HIGH severity issues"@)]));
        assert(c =~= b + lines_if(ms > 0, seq!["    \x1b[33m⚠  "@ + decimal(ms) + " MEDIUM severity issues\x1b[0m"@]));
        assert(d =~= c + lines_if(is > 0, seq![info_line(decimal(is) + " INFO severity issues"@)]) + seq![""@]);
        assert(e =~= d + lines_if(hs > 0, seq!["    \x1b[1;31mHIGH Severity:\x1b[0m"@] + severity_table(fs, "HIGH"@)));
        assert(f =~= e + lines_if(ms > 0, seq![""@, "    \x1b[1;33mMEDIUM Severity:\x1b[0m"@] + severity_table(fs, "MEDIUM"@)));
        assert(views(r@) =~= f + lines_if(is > 0, seq![""@, "    \x1b[1;36mINFO:\x1b[0m"@] + severity_table(fs, "INFO"@)));
    }
    r
}

/// The SAST scan of the repository tree (its files as the walk hands them
/// over, in walk order), skipping `ignore_dirs`, vendored and build
/// directories, and test files: every non-comment line of a source file is
/// matched against the rules that apply to its extension.
///
/// Returns `false`, writing nothing, when a rule's pattern does not compile
/// or a findings table cannot be printed (a cell longer than 50 bytes that
/// cannot be cut at byte 49).
pub fn sast_scan(o: &mut Output, entries: &Vec<TreeEntry>, ignore_dirs: &Vec<String>) -> (ok: bool)
    ensures
        ({
            let rules = sast_rule_table();
            let files = sast_files(entries@, strings_view(ignore_dirs@), rules);
            let fs = sast_findings(rules, files);
            &&& ok == (all_compile(rules) && sast_printable(fs))
            &&& ok ==> final(o)@ == write_lines(old(o)@, sast_report_lines(files.len(), fs))
            &&& !ok ==> final(o)@ == old(o)@
        }),
{
    let ghost o0 = o@;
    let rules = sast_rules();
    let pats = match compile_rules(&rules) {
        Some(p) => p,
        None => return false,
    };
    let (n, fs) = collect_sast(entries, ignore_dirs, &rules, &pats);
    let ghost fv = findings_view(fs@);
    let (high, th) = severity_table_exec(&fs, "HIGH");
    let (medium, tm) = severity_table_exec(&fs, "MEDIUM");
    let (info, ti) = severity_table_exec(&fs, "INFO");
    let (th, tm, ti) = match (th, tm, ti) {
        (Some(a), Some(b), Some(c)) => (a, b, c),
        _ => return false,
    };
    let mut body: Vec<Vec<char>> = Vec::new();
    let c = decimal_exec(n);
    push_line(&mut body, summary_line_exec("Files scanned", &c));
    if fs.len() == 0 {
        push_line(&mut body, ok_line_exec("No SAST issues detected"));
    } else {
        let more = findings_summary_exec(fs.len(), high, medium, info, th, tm, ti, Ghost(fv));
        push_lines(&mut body, more);
    }
    proof {
        assert(views(body@) =~= seq![summary_stat_line("Files scanned"@, decimal(n as nat))] + if fv.len() == 0 {
            seq![ok_line("No SAST issues detected"@)]
        } else {
            findings_summary(fv)
        });
    }
    crate::display::print_sub_header(o, "Static Application Security Testing (SAST)");
    out_all(o, &body);
    proof {
        let title = "Static Application Security Testing (SAST)"@;
        crate::display::lemma_write_lines_append(o0, sub_header_lines(title), views(body@));
        assert(sast_report_lines(n as nat, fv) =~= sub_header_lines(title) + views(body@));
    }
    true
}

} // verus!
