//! License compliance: SPDX categories, normalization of license strings,
//! detection of a license from the text of a LICENSE/COPYING file, and the
//! dependency lists of manifests.
use vstd::prelude::*;
use crate::pattern::{Pattern, regex_capture, regex_compiles};
use crate::text::{
    chars_of, contains, contains_str, eq_str, has_char, lines, lines_of, lowercase, opt_view,
    split_ws, split_ws_exec, starts_with, starts_with_str, string_of, string_views, to_lower,
    to_upper, trim, trim_char, trim_char_exec, trim_exec, trim_str, uppercase,
};
use crate::value::{get, get_field, get_keys, get_keys_exec, get_str, get_str_exec, parse_json, parse_toml, json_parse, toml_parse, DocValue};

verus! {

/// The SPDX identifiers (upper-cased) of strong copyleft licenses.
pub open spec fn is_strong_copyleft_id(u: Seq<char>) -> bool {
    ||| u == "AGPL-3.0-ONLY"@
    ||| u == "AGPL-3.0-OR-LATER"@
    ||| u == "AGPL-3.0"@
    ||| u == "GPL-2.0-ONLY"@
    ||| u == "GPL-2.0-OR-LATER"@
    ||| u == "GPL-2.0"@
    ||| u == "GPL-3.0-ONLY"@
    ||| u == "GPL-3.0-OR-LATER"@
    ||| u == "GPL-3.0"@
}

/// The SPDX identifiers (upper-cased) of weak copyleft licenses.
pub open spec fn is_weak_copyleft_id(u: Seq<char>) -> bool {
    ||| u == "LGPL-2.1-ONLY"@
    ||| u == "LGPL-2.1-OR-LATER"@
    ||| u == "LGPL-2.1"@
    ||| u == "LGPL-3.0-ONLY"@
    ||| u == "LGPL-3.0-OR-LATER"@
    ||| u == "LGPL-3.0"@
    ||| u == "MPL-2.0"@
    ||| u == "EPL-1.0"@
    ||| u == "EPL-2.0"@
    ||| u == "CDDL-1.0"@
    ||| u == "CDDL-1.1"@
}

/// The SPDX identifiers (upper-cased) of permissive licenses.
pub open spec fn is_permissive_id(u: Seq<char>) -> bool {
    ||| u == "MIT"@
    ||| u == "ISC"@
    ||| u == "BSD-2-CLAUSE"@
    ||| u == "BSD-3-CLAUSE"@
    ||| u == "APACHE-2.0"@
    ||| u == "ZLIB"@
    ||| u == "UNLICENSE"@
    ||| u == "CC0-1.0"@
    ||| u == "BSL-1.0"@
    ||| u == "0BSD"@
    ||| u == "WTFPL"@
    ||| u == "ARTISTIC-2.0"@
}

/// The upper-cased identifiers of the licenses listed as supported.
pub open spec fn supported_ids() -> Seq<Seq<char>> {
    seq![
        "MIT"@, "APACHE-2.0"@, "GPL-2.0"@, "GPL-3.0"@, "AGPL-3.0"@, "LGPL-2.1"@, "LGPL-3.0"@,
        "BSD-2-CLAUSE"@, "BSD-3-CLAUSE"@, "MPL-2.0"@, "EPL-1.0"@, "EPL-2.0"@, "UNLICENSE"@,
        "CC0-1.0"@, "BSL-1.0"@, "ZLIB"@, "WTFPL"@, "ARTISTIC-2.0"@, "CDDL-1.0"@, "ISC"@, "0BSD"@
    ]
}

/// Every supported license is permissive, weak copyleft or strong copyleft.
pub proof fn lemma_supported_categorized(i: int)
    requires
        0 <= i < supported_ids().len(),
    ensures
        category_of(supported_ids()[i]) != "unknown"@,
{
    reveal_strlit("unknown");
    reveal_strlit("permissive");
    reveal_strlit("copyleft (weak)");
    reveal_strlit("copyleft (strong)");
    assert("unknown"@.len() != "permissive"@.len());
    assert("unknown"@.len() != "copyleft (weak)"@.len());
    assert("unknown"@.len() != "copyleft (strong)"@.len());
}

/// The category of an upper-cased SPDX identifier.
pub open spec fn category_of(u: Seq<char>) -> Seq<char> {
    if is_strong_copyleft_id(u) {
        "copyleft (strong)"@
    } else if is_weak_copyleft_id(u) {
        "copyleft (weak)"@
    } else if is_permissive_id(u) {
        "permissive"@
    } else {
        "unknown"@
    }
}

/// The category of a license identifier, compared case-insensitively.
pub open spec fn license_category_spec(spdx: Seq<char>) -> Seq<char> {
    category_of(uppercase(spdx))
}

/// Known SPDX license identifiers and their categories.
pub fn license_category(spdx: &str) -> (r: &'static str)
    ensures
        r@ == license_category_spec(spdx@),
{
    let us = to_upper(spdx);
    let u = chars_of(us.as_str());
    if eq_str(&u, "AGPL-3.0-ONLY") || eq_str(&u, "AGPL-3.0-OR-LATER") || eq_str(&u, "AGPL-3.0")
        || eq_str(&u, "GPL-2.0-ONLY") || eq_str(&u, "GPL-2.0-OR-LATER") || eq_str(&u, "GPL-2.0")
        || eq_str(&u, "GPL-3.0-ONLY") || eq_str(&u, "GPL-3.0-OR-LATER") || eq_str(&u, "GPL-3.0") {
        "copyleft (strong)"
    } else if eq_str(&u, "LGPL-2.1-ONLY") || eq_str(&u, "LGPL-2.1-OR-LATER") || eq_str(
        &u,
        "LGPL-2.1",
    ) || eq_str(&u, "LGPL-3.0-ONLY") || eq_str(&u, "LGPL-3.0-OR-LATER") || eq_str(&u, "LGPL-3.0")
        || eq_str(&u, "MPL-2.0") || eq_str(&u, "EPL-1.0") || eq_str(&u, "EPL-2.0") || eq_str(
        &u,
        "CDDL-1.0",
    ) || eq_str(&u, "CDDL-1.1") {
        "copyleft (weak)"
    } else if eq_str(&u, "MIT") || eq_str(&u, "ISC") || eq_str(&u, "BSD-2-CLAUSE") || eq_str(
        &u,
        "BSD-3-CLAUSE",
    ) || eq_str(&u, "APACHE-2.0") || eq_str(&u, "ZLIB") || eq_str(&u, "UNLICENSE") || eq_str(
        &u,
        "CC0-1.0",
    ) || eq_str(&u, "BSL-1.0") || eq_str(&u, "0BSD") || eq_str(&u, "WTFPL") || eq_str(&u, "ARTISTIC-2.0") {
        "permissive"
    } else {
        "unknown"
    }
}

/// A license is copyleft when its category starts with "copyleft".
pub open spec fn is_copyleft_spec(spdx: Seq<char>) -> bool {
    let u = uppercase(spdx);
    is_strong_copyleft_id(u) || is_weak_copyleft_id(u)
}

/// A license is permissive when its category is "permissive".
pub open spec fn is_permissive_spec(spdx: Seq<char>) -> bool {
    let u = uppercase(spdx);
    !is_strong_copyleft_id(u) && !is_weak_copyleft_id(u) && is_permissive_id(u)
}

/// No license is both copyleft and permissive.
pub proof fn lemma_license_classes_exclusive(spdx: Seq<char>)
    ensures
        !(is_copyleft_spec(spdx) && is_permissive_spec(spdx)),
{
}

/// A license is copyleft exactly when its category starts with "copyleft",
/// and permissive exactly when its category is "permissive".
pub proof fn lemma_license_classes_by_category(spdx: Seq<char>)
    ensures
        is_copyleft_spec(spdx) == starts_with(license_category_spec(spdx), "copyleft"@),
        is_permissive_spec(spdx) == (license_category_spec(spdx) == "permissive"@),
{
    reveal_strlit("copyleft (strong)");
    reveal_strlit("copyleft (weak)");
    reveal_strlit("permissive");
    reveal_strlit("unknown");
    reveal_strlit("copyleft");
    assert("copyleft (strong)"@.subrange(0, 8) =~= "copyleft"@);
    assert("copyleft (weak)"@.subrange(0, 8) =~= "copyleft"@);
    assert("permissive"@.subrange(0, 8) != "copyleft"@) by {
        assert("permissive"@.subrange(0, 8)[0] != "copyleft"@[0]);
    }
    assert("unknown"@.len() < 8);
    assert("copyleft (strong)"@.len() != "permissive"@.len());
    assert("copyleft (weak)"@.len() != "permissive"@.len());
    assert("unknown"@.len() != "permissive"@.len());
}

pub fn is_copyleft(spdx: &str) -> (r: bool)
    ensures
        r == is_copyleft_spec(spdx@),
{
    let cat = license_category(spdx);
    let c = chars_of(cat);
    let r = crate::text::starts_with_str(&c, "copyleft");
    proof {
        reveal_strlit("copyleft (strong)");
        reveal_strlit("copyleft (weak)");
        reveal_strlit("permissive");
        reveal_strlit("unknown");
        reveal_strlit("copyleft");
        assert("copyleft (strong)"@.subrange(0, 8) =~= "copyleft"@);
        assert("copyleft (weak)"@.subrange(0, 8) =~= "copyleft"@);
        assert("permissive"@.subrange(0, 8) != "copyleft"@) by {
            assert("permissive"@.subrange(0, 8)[0] != "copyleft"@[0]);
        }
        assert("unknown"@.len() < 8);
    }
    r
}

pub fn is_permissive(spdx: &str) -> (r: bool)
    ensures
        r == is_permissive_spec(spdx@),
{
    let cat = license_category(spdx);
    let c = chars_of(cat);
    let r = eq_str(&c, "permissive");
    proof {
        reveal_strlit("copyleft (strong)");
        reveal_strlit("copyleft (weak)");
        reveal_strlit("permissive");
        reveal_strlit("unknown");
        assert("copyleft (strong)"@ != "permissive"@) by {
            assert("copyleft (strong)"@[0] != "permissive"@[0]);
        }
        assert("copyleft (weak)"@ != "permissive"@) by {
            assert("copyleft (weak)"@[0] != "permissive"@[0]);
        }
        assert("unknown"@ != "permissive"@) by {
            assert("unknown"@[0] != "permissive"@[0]);
        }
    }
    r
}

/// The canonical spelling of an upper-cased license string, if it has one.
pub open spec fn canonical_license(u: Seq<char>) -> Option<Seq<char>> {
    if u == "MIT"@ {
        Some("MIT"@)
    } else if u == "ISC"@ {
        Some("ISC"@)
    } else if u == "APACHE-2.0"@ || u == "APACHE 2.0"@ || u == "APACHE2"@ {
        Some("Apache-2.0"@)
    } else if u == "BSD-2-CLAUSE"@ || u == "BSD2"@ {
        Some("BSD-2-Clause"@)
    } else if u == "BSD-3-CLAUSE"@ || u == "BSD3"@ {
        Some("BSD-3-Clause"@)
    } else if u == "GPL-2.0"@ || u == "GPL2"@ || u == "GPLV2"@ || u == "GPL-2.0-ONLY"@ {
        Some("GPL-2.0-only"@)
    } else if u == "GPL-3.0"@ || u == "GPL3"@ || u == "GPLV3"@ || u == "GPL-3.0-ONLY"@ {
        Some("GPL-3.0-only"@)
    } else if u == "AGPL-3.0"@ || u == "AGPL3"@ || u == "AGPLV3"@ || u == "AGPL-3.0-ONLY"@ {
        Some("AGPL-3.0-only"@)
    } else if u == "LGPL-2.1"@ || u == "LGPL-2.1-ONLY"@ {
        Some("LGPL-2.1-only"@)
    } else if u == "LGPL-3.0"@ || u == "LGPL-3.0-ONLY"@ {
        Some("LGPL-3.0-only"@)
    } else if u == "MPL-2.0"@ || u == "MPL2"@ {
        Some("MPL-2.0"@)
    } else if u == "UNLICENSE"@ {
        Some("Unlicense"@)
    } else if u == "CC0-1.0"@ || u == "CC0"@ {
        Some("CC0-1.0"@)
    } else if u == "BSL-1.0"@ {
        Some("BSL-1.0"@)
    } else {
        None
    }
}

/// A license string trimmed of whitespace, then of double quotes, then spelled
/// canonically when it is a known alias (compared case-insensitively).
pub open spec fn normalize_license_spec(raw: Seq<char>) -> Seq<char> {
    let t = trim_char(trim(raw), '"');
    match canonical_license(uppercase(t)) {
        Some(c) => c,
        None => t,
    }
}

proof fn lemma_trim_char_start_head(s: Seq<char>, c: char)
    ensures
        crate::text::trim_char_start(s, c).len() == 0 || crate::text::trim_char_start(s, c)[0] != c,
    decreases s.len(),
{
    if s.len() > 0 && s[0] == c {
        lemma_trim_char_start_head(s.drop_first(), c);
    }
}

proof fn lemma_trim_char_end_prefix(s: Seq<char>, c: char)
    ensures
        crate::text::trim_char_end(s, c).len() <= s.len(),
        crate::text::trim_char_end(s, c) == s.take(crate::text::trim_char_end(s, c).len() as int),
        crate::text::trim_char_end(s, c).len() == 0 || crate::text::trim_char_end(s, c).last() != c,
    decreases s.len(),
{
    if s.len() > 0 && s.last() == c {
        lemma_trim_char_end_prefix(s.drop_last(), c);
        let r = crate::text::trim_char_end(s.drop_last(), c);
        assert(s.drop_last().take(r.len() as int) =~= s.take(r.len() as int));
    } else {
        assert(s.take(s.len() as int) =~= s);
    }
}

/// A license name that is no known alias, and whose trimmed form has no
/// whitespace at either end, is left as it is by a second normalization.
pub proof fn lemma_normalize_idempotent_unknown(raw: Seq<char>)
    requires
        canonical_license(uppercase(trim_char(trim(raw), '"'))) is None,
        trim_char(trim(raw), '"').len() == 0 || (!crate::text::is_ws(trim_char(trim(raw), '"')[0]) && !crate::text::is_ws(
            trim_char(trim(raw), '"').last(),
        )),
    ensures
        normalize_license_spec(normalize_license_spec(raw)) == normalize_license_spec(raw),
{
    let t = trim_char(trim(raw), '"');
    let st = crate::text::trim_char_start(trim(raw), '"');
    lemma_trim_char_start_head(trim(raw), '"');
    lemma_trim_char_end_prefix(st, '"');
    assert(normalize_license_spec(raw) == t);
    // Trimming whitespace again changes nothing.
    assert(crate::text::trim_start(t) == t);
    assert(crate::text::trim_end(t) == t);
    assert(trim(t) == t);
    // Nor does trimming quotes again.
    if t.len() > 0 {
        assert(t[0] == st[0]);
        assert(t[0] != '"');
        assert(t.last() != '"');
    }
    assert(crate::text::trim_char_start(t, '"') == t);
    assert(crate::text::trim_char_end(t, '"') == t);
    assert(trim_char(t, '"') == t);
}

fn canonical_exec(u: &[char]) -> (r: Option<&'static str>)
    ensures
        r matches Some(c) ==> canonical_license(u@) == Some(c@),
        r is None ==> canonical_license(u@) is None,
{
    if eq_str(u, "MIT") {
        Some("MIT")
    } else if eq_str(u, "ISC") {
        Some("ISC")
    } else if eq_str(u, "APACHE-2.0") || eq_str(u, "APACHE 2.0") || eq_str(u, "APACHE2") {
        Some("Apache-2.0")
    } else if eq_str(u, "BSD-2-CLAUSE") || eq_str(u, "BSD2") {
        Some("BSD-2-Clause")
    } else if eq_str(u, "BSD-3-CLAUSE") || eq_str(u, "BSD3") {
        Some("BSD-3-Clause")
    } else if eq_str(u, "GPL-2.0") || eq_str(u, "GPL2") || eq_str(u, "GPLV2") || eq_str(
        u,
        "GPL-2.0-ONLY",
    ) {
        Some("GPL-2.0-only")
    } else if eq_str(u, "GPL-3.0") || eq_str(u, "GPL3") || eq_str(u, "GPLV3") || eq_str(
        u,
        "GPL-3.0-ONLY",
    ) {
        Some("GPL-3.0-only")
    } else if eq_str(u, "AGPL-3.0") || eq_str(u, "AGPL3") || eq_str(u, "AGPLV3") || eq_str(
        u,
        "AGPL-3.0-ONLY",
    ) {
        Some("AGPL-3.0-only")
    } else if eq_str(u, "LGPL-2.1") || eq_str(u, "LGPL-2.1-ONLY") {
        Some("LGPL-2.1-only")
    } else if eq_str(u, "LGPL-3.0") || eq_str(u, "LGPL-3.0-ONLY") {
        Some("LGPL-3.0-only")
    } else if eq_str(u, "MPL-2.0") || eq_str(u, "MPL2") {
        Some("MPL-2.0")
    } else if eq_str(u, "UNLICENSE") {
        Some("Unlicense")
    } else if eq_str(u, "CC0-1.0") || eq_str(u, "CC0") {
        Some("CC0-1.0")
    } else if eq_str(u, "BSL-1.0") {
        Some("BSL-1.0")
    } else {
        None
    }
}

/// Normalize common license strings to SPDX identifiers.
pub fn normalize_license(raw: &str) -> (r: String)
    ensures
        r@ == normalize_license_spec(raw@),
{
    let t0 = trim_str(raw);
    let t = trim_char_exec(&t0, '"');
    let ts = string_of(&t);
    let us = to_upper(ts.as_str());
    let u = chars_of(us.as_str());
    match canonical_exec(&u) {
        Some(c) => c.to_string(),
        None => ts,
    }
}


/// A license text signature: the SPDX identifier it indicates, phrases that
/// must all occur, and phrases of which none may occur (all lower-case).
pub struct LicenseSignature {
    pub spdx: &'static str,
    pub required: Vec<&'static str>,
    pub disqualified: Vec<&'static str>,
}

/// The views of string slices.
pub open spec fn str_views(v: Seq<&str>) -> Seq<Seq<char>> {
    Seq::new(v.len(), |i: int| v[i]@)
}

/// The view of a signature table.
pub open spec fn signatures_view(v: Seq<LicenseSignature>) -> Seq<(Seq<char>, Seq<Seq<char>>, Seq<Seq<char>>)> {
    Seq::new(v.len(), |i: int| (v[i].spdx@, str_views(v[i].required@), str_views(v[i].disqualified@)))
}

/// The license text signatures, most specific first. The GPL-3.0 and
/// AGPL-3.0 texts each name the other in their section 13 ("Use with the GNU
/// ... General Public License"), which is what tells them apart.
pub open spec fn signature_table() -> Seq<(Seq<char>, Seq<Seq<char>>, Seq<Seq<char>>)> {
    seq![
        ("AGPL-3.0"@, seq!["gnu affero general public license"@, "version 3"@], seq!["use with the gnu affero general public license"@]),
        ("GPL-3.0"@, seq!["gnu general public license"@, "version 3"@], seq!["this version of the gnu lesser general public license"@, "use with the gnu general public license"@]),
        ("GPL-2.0"@, seq!["gnu general public license"@, "version 2"@], seq!["lesser"@, "affero"@]),
        ("LGPL-3.0"@, seq!["gnu lesser general public license"@, "version 3"@], Seq::<Seq<char>>::empty()),
        ("LGPL-2.1"@, seq!["gnu lesser general public license"@, "version 2.1"@], Seq::<Seq<char>>::empty()),
        ("MPL-2.0"@, seq!["mozilla public license"@, "version 2.0"@], Seq::<Seq<char>>::empty()),
        ("EPL-2.0"@, seq!["eclipse public license"@, "version 2.0"@], Seq::<Seq<char>>::empty()),
        ("EPL-1.0"@, seq!["eclipse public license"@, "version 1.0"@], Seq::<Seq<char>>::empty()),
        ("Apache-2.0"@, seq!["apache license"@, "version 2.0"@], Seq::<Seq<char>>::empty()),
        ("MIT"@, seq!["permission is hereby granted, free of charge"@, "the above copyright notice and this permission notice"@], Seq::<Seq<char>>::empty()),
        ("ISC"@, seq!["permission to use, copy, modify, and/or distribute this software"@, "isc license"@], Seq::<Seq<char>>::empty()),
        ("BSD-2-Clause"@, seq!["redistribution and use in source and binary forms"@], seq!["neither the name"@]),
        ("BSD-3-Clause"@, seq!["redistribution and use in source and binary forms"@, "neither the name"@], Seq::<Seq<char>>::empty()),
        ("Unlicense"@, seq!["this is free and unencumbered software released into the public domain"@], Seq::<Seq<char>>::empty()),
        ("CC0-1.0"@, seq!["cc0 1.0 universal"@], Seq::<Seq<char>>::empty()),
        ("BSL-1.0"@, seq!["boost software license"@], Seq::<Seq<char>>::empty()),
        ("0BSD"@, seq!["permission to use, copy, modify, and/or distribute this software"@, "0-clause bsd"@], Seq::<Seq<char>>::empty()),
        ("Zlib"@, seq!["the origin of this software must not be misrepresented"@, "altered source versions must be plainly marked"@], Seq::<Seq<char>>::empty()),
        ("WTFPL"@, seq!["do what the fuck you want to public license"@], Seq::<Seq<char>>::empty()),
        ("Artistic-2.0"@, seq!["the artistic license 2.0"@], Seq::<Seq<char>>::empty()),
        ("CDDL-1.0"@, seq!["common development and distribution license"@], Seq::<Seq<char>>::empty())
    ]
}

/// The opening of the AGPL-3.0 text, lower-cased.
pub open spec fn text_agpl_3_0() -> Seq<char> {
    "gnu affero general public license\nversion 3, 19 november 2007\n\ncopyright (c) 2007 free software foundation, inc. <https://fsf.org/>\neveryone is permitted to copy and distribute verbatim copies\nof this license document, but changing it is not allowed.\n"@
}

/// The opening of the GPL-3.0 text, lower-cased.
pub open spec fn text_gpl_3_0() -> Seq<char> {
    "gnu general public license\nversion 3, 29 june 2007\n\ncopyright (c) 2007 free software foundation, inc. <https://fsf.org/>\neveryone is permitted to copy and distribute verbatim copies\nof this license document, but changing it is not allowed.\n"@
}

/// The opening of the GPL-2.0 text, lower-cased.
pub open spec fn text_gpl_2_0() -> Seq<char> {
    "gnu general public license\nversion 2, june 1991\n\ncopyright (c) 1989, 1991 free software foundation, inc.,\n51 franklin street, fifth floor, boston, ma 02110-1301 usa\neveryone is permitted to copy and distribute verbatim copies\nof this license document, but changing it is not allowed.\n"@
}

/// The opening of the LGPL-3.0 text, lower-cased.
pub open spec fn text_lgpl_3_0() -> Seq<char> {
    "gnu lesser general public license\nversion 3, 29 june 2007\n\ncopyright (c) 2007 free software foundation, inc. <https://fsf.org/>\neveryone is permitted to copy and distribute verbatim copies\nof this license document, but changing it is not allowed.\n"@
}

/// The opening of the LGPL-2.1 text, lower-cased.
pub open spec fn text_lgpl_2_1() -> Seq<char> {
    "gnu lesser general public license\nversion 2.1, february 1999\n\ncopyright (c) 1991, 1999 free software foundation, inc.\n51 franklin street, fifth floor, boston, ma 02110-1301 usa\neveryone is permitted to copy and distribute verbatim copies\nof this license document, but changing it is not allowed.\n"@
}

/// The opening of the MPL-2.0 text, lower-cased.
pub open spec fn text_mpl_2_0() -> Seq<char> {
    "mozilla public license version 2.0\n==================================\n\n1. definitions\n--------------\n"@
}

/// The opening of the Apache-2.0 text, lower-cased.
pub open spec fn text_apache_2_0() -> Seq<char> {
    "apache license\nversion 2.0, january 2004\nhttp://www.apache.org/licenses/\n\nterms and conditions for use, reproduction, and distribution\n"@
}

/// The opening of the MIT text, lower-cased.
pub open spec fn text_mit() -> Seq<char> {
    "mit license\n\ncopyright (c) 2024 jane doe\n\npermission is hereby granted, free of charge, to any person obtaining a copy\nof this software and associated documentation files (the \"software\"), to deal\nin the software without restriction, including without limitation the rights\nto use, copy, modify, merge, publish, distribute, sublicense, and/or sell\ncopies of the software, and to permit persons to whom the software is\nfurnished to do so, subject to the following conditions:\n\nthe above copyright notice and this permission notice shall be included in all\ncopies or substantial portions of the software.\n"@
}

/// The opening of the ISC text, lower-cased.
pub open spec fn text_isc() -> Seq<char> {
    "isc license\n\ncopyright (c) 2024, jane doe\n\npermission to use, copy, modify, and/or distribute this software for any\npurpose with or without fee is hereby granted, provided that the above\ncopyright notice and this permission notice appear in all copies.\n"@
}

/// The opening of the BSD-2-Clause text, lower-cased.
pub open spec fn text_bsd_2_clause() -> Seq<char> {
    "bsd 2-clause license\n\ncopyright (c) 2024, jane doe\n\nredistribution and use in source and binary forms, with or without\nmodification, are permitted provided that the following conditions are met:\n"@
}

/// The opening of the BSD-3-Clause text, lower-cased.
pub open spec fn text_bsd_3_clause() -> Seq<char> {
    "bsd 3-clause license\n\ncopyright (c) 2024, jane doe\n\nredistribution and use in source and binary forms, with or without\nmodification, are permitted provided that the following conditions are met:\n\n3. neither the name of the copyright holder nor the names of its\n   contributors may be used to endorse or promote products derived from\n   this software without specific prior written permission.\n"@
}

/// The opening of the Unlicense text, lower-cased.
pub open spec fn text_unlicense() -> Seq<char> {
    "this is free and unencumbered software released into the public domain.\n\nanyone is free to copy, modify, publish, use, compile, sell, or\ndistribute this software, either in source code form or as a compiled\nbinary, for any purpose, commercial or non-commercial, and by any\nmeans.\n"@
}

/// The opening of the CC0-1.0 text, lower-cased.
pub open spec fn text_cc0_1_0() -> Seq<char> {
    "creative commons legal code\n\ncc0 1.0 universal\n"@
}

/// The opening of the BSL-1.0 text, lower-cased.
pub open spec fn text_bsl_1_0() -> Seq<char> {
    "boost software license - version 1.0 - august 17th, 2003\n\npermission is hereby granted, free of charge, to any person or organization\n"@
}

/// The opening of the Zlib text, lower-cased.
pub open spec fn text_zlib() -> Seq<char> {
    "this software is provided 'as-is', without any express or implied\nwarranty.  in no event will the authors be held liable for any damages\narising from the use of this software.\n\n1. the origin of this software must not be misrepresented; you must not\n   claim that you wrote the original software.\n2. altered source versions must be plainly marked as such, and must not be\n   misrepresented as being the original software.\n"@
}

/// The opening of the WTFPL text, lower-cased.
pub open spec fn text_wtfpl() -> Seq<char> {
    "do what the fuck you want to public license\nversion 2, december 2004\n"@
}

/// The opening of the Artistic-2.0 text, lower-cased.
pub open spec fn text_artistic_2_0() -> Seq<char> {
    "the artistic license 2.0\n\ncopyright (c) 2000-2006, the perl foundation.\n"@
}

/// The opening of the CDDL-1.0 text, lower-cased.
pub open spec fn text_cddl_1_0() -> Seq<char> {
    "common development and distribution license (cddl)\nversion 1.0\n"@
}

/// The texts of the supported licenses known here, by identifier, as
/// detection reads them (lower-cased).
pub open spec fn license_texts() -> Seq<(Seq<char>, Seq<char>)> {
    seq![
        ("AGPL-3.0"@, text_agpl_3_0()),
        ("GPL-3.0"@, text_gpl_3_0()),
        ("GPL-2.0"@, text_gpl_2_0()),
        ("LGPL-3.0"@, text_lgpl_3_0()),
        ("LGPL-2.1"@, text_lgpl_2_1()),
        ("MPL-2.0"@, text_mpl_2_0()),
        ("Apache-2.0"@, text_apache_2_0()),
        ("MIT"@, text_mit()),
        ("ISC"@, text_isc()),
        ("BSD-2-Clause"@, text_bsd_2_clause()),
        ("BSD-3-Clause"@, text_bsd_3_clause()),
        ("Unlicense"@, text_unlicense()),
        ("CC0-1.0"@, text_cc0_1_0()),
        ("BSL-1.0"@, text_bsl_1_0()),
        ("Zlib"@, text_zlib()),
        ("WTFPL"@, text_wtfpl()),
        ("Artistic-2.0"@, text_artistic_2_0()),
        ("CDDL-1.0"@, text_cddl_1_0()),
    ]
}

proof fn lemma_text_agpl_3_0_phrases()
    ensures
        contains(text_agpl_3_0(), "gnu affero general public license"@),
        contains(text_agpl_3_0(), "version 3"@),
{
    reveal_strlit("gnu affero general public license\nversion 3, 19 november 2007\n\ncopyright (c) 2007 free software foundation, inc. <https://fsf.org/>\neveryone is permitted to copy and distribute verbatim copies\nof this license document, but changing it is not allowed.\n");
    reveal_strlit("gnu affero general public license");
    assert(text_agpl_3_0().subrange(0, 33) =~= "gnu affero general public license"@);
    assert(crate::text::matches_at(text_agpl_3_0(), "gnu affero general public license"@, 0));
    reveal_strlit("version 3");
    assert(text_agpl_3_0().subrange(34, 43) =~= "version 3"@);
    assert(crate::text::matches_at(text_agpl_3_0(), "version 3"@, 34));
}

proof fn lemma_text_gpl_3_0_phrases()
    ensures
        contains(text_gpl_3_0(), "gnu general public license"@),
        contains(text_gpl_3_0(), "version 3"@),
{
    reveal_strlit("gnu general public license\nversion 3, 29 june 2007\n\ncopyright (c) 2007 free software foundation, inc. <https://fsf.org/>\neveryone is permitted to copy and distribute verbatim copies\nof this license document, but changing it is not allowed.\n");
    reveal_strlit("gnu general public license");
    assert(text_gpl_3_0().subrange(0, 26) =~= "gnu general public license"@);
    assert(crate::text::matches_at(text_gpl_3_0(), "gnu general public license"@, 0));
    reveal_strlit("version 3");
    assert(text_gpl_3_0().subrange(27, 36) =~= "version 3"@);
    assert(crate::text::matches_at(text_gpl_3_0(), "version 3"@, 27));
}

proof fn lemma_text_gpl_2_0_phrases()
    ensures
        contains(text_gpl_2_0(), "gnu general public license"@),
        contains(text_gpl_2_0(), "version 2"@),
{
    reveal_strlit("gnu general public license\nversion 2, june 1991\n\ncopyright (c) 1989, 1991 free software foundation, inc.,\n51 franklin street, fifth floor, boston, ma 02110-1301 usa\neveryone is permitted to copy and distribute verbatim copies\nof this license document, but changing it is not allowed.\n");
    reveal_strlit("gnu general public license");
    assert(text_gpl_2_0().subrange(0, 26) =~= "gnu general public license"@);
    assert(crate::text::matches_at(text_gpl_2_0(), "gnu general public license"@, 0));
    reveal_strlit("version 2");
    assert(text_gpl_2_0().subrange(27, 36) =~= "version 2"@);
    assert(crate::text::matches_at(text_gpl_2_0(), "version 2"@, 27));
}

proof fn lemma_text_lgpl_3_0_phrases()
    ensures
        contains(text_lgpl_3_0(), "gnu lesser general public license"@),
        contains(text_lgpl_3_0(), "version 3"@),
{
    reveal_strlit("gnu lesser general public license\nversion 3, 29 june 2007\n\ncopyright (c) 2007 free software foundation, inc. <https://fsf.org/>\neveryone is permitted to copy and distribute verbatim copies\nof this license document, but changing it is not allowed.\n");
    reveal_strlit("gnu lesser general public license");
    assert(text_lgpl_3_0().subrange(0, 33) =~= "gnu lesser general public license"@);
    assert(crate::text::matches_at(text_lgpl_3_0(), "gnu lesser general public license"@, 0));
    reveal_strlit("version 3");
    assert(text_lgpl_3_0().subrange(34, 43) =~= "version 3"@);
    assert(crate::text::matches_at(text_lgpl_3_0(), "version 3"@, 34));
}

proof fn lemma_text_lgpl_2_1_phrases()
    ensures
        contains(text_lgpl_2_1(), "gnu lesser general public license"@),
        contains(text_lgpl_2_1(), "version 2.1"@),
{
    reveal_strlit("gnu lesser general public license\nversion 2.1, february 1999\n\ncopyright (c) 1991, 1999 free software foundation, inc.\n51 franklin street, fifth floor, boston, ma 02110-1301 usa\neveryone is permitted to copy and distribute verbatim copies\nof this license document, but changing it is not allowed.\n");
    reveal_strlit("gnu lesser general public license");
    assert(text_lgpl_2_1().subrange(0, 33) =~= "gnu lesser general public license"@);
    assert(crate::text::matches_at(text_lgpl_2_1(), "gnu lesser general public license"@, 0));
    reveal_strlit("version 2.1");
    assert(text_lgpl_2_1().subrange(34, 45) =~= "version 2.1"@);
    assert(crate::text::matches_at(text_lgpl_2_1(), "version 2.1"@, 34));
}

proof fn lemma_text_mpl_2_0_phrases()
    ensures
        contains(text_mpl_2_0(), "mozilla public license"@),
        contains(text_mpl_2_0(), "version 2.0"@),
{
    reveal_strlit("mozilla public license version 2.0\n==================================\n\n1. definitions\n--------------\n");
    reveal_strlit("mozilla public license");
    assert(text_mpl_2_0().subrange(0, 22) =~= "mozilla public license"@);
    assert(crate::text::matches_at(text_mpl_2_0(), "mozilla public license"@, 0));
    reveal_strlit("version 2.0");
    assert(text_mpl_2_0().subrange(23, 34) =~= "version 2.0"@);
    assert(crate::text::matches_at(text_mpl_2_0(), "version 2.0"@, 23));
}

proof fn lemma_text_apache_2_0_phrases()
    ensures
        contains(text_apache_2_0(), "apache license"@),
        contains(text_apache_2_0(), "version 2.0"@),
{
    reveal_strlit("apache license\nversion 2.0, january 2004\nhttp://www.apache.org/licenses/\n\nterms and conditions for use, reproduction, and distribution\n");
    reveal_strlit("apache license");
    assert(text_apache_2_0().subrange(0, 14) =~= "apache license"@);
    assert(crate::text::matches_at(text_apache_2_0(), "apache license"@, 0));
    reveal_strlit("version 2.0");
    assert(text_apache_2_0().subrange(15, 26) =~= "version 2.0"@);
    assert(crate::text::matches_at(text_apache_2_0(), "version 2.0"@, 15));
}

proof fn lemma_text_mit_phrases()
    ensures
        contains(text_mit(), "permission is hereby granted, free of charge"@),
        contains(text_mit(), "the above copyright notice and this permission notice"@),
{
    reveal_strlit("mit license\n\ncopyright (c) 2024 jane doe\n\npermission is hereby granted, free of charge, to any person obtaining a copy\nof this software and associated documentation files (the \"software\"), to deal\nin the software without restriction, including without limitation the rights\nto use, copy, modify, merge, publish, distribute, sublicense, and/or sell\ncopies of the software, and to permit persons to whom the software is\nfurnished to do so, subject to the following conditions:\n\nthe above copyright notice and this permission notice shall be included in all\ncopies or substantial portions of the software.\n");
    reveal_strlit("permission is hereby granted, free of charge");
    assert(text_mit().subrange(42, 86) =~= "permission is hereby granted, free of charge"@);
    assert(crate::text::matches_at(text_mit(), "permission is hereby granted, free of charge"@, 42));
    reveal_strlit("the above copyright notice and this permission notice");
    assert(text_mit().subrange(476, 529) =~= "the above copyright notice and this permission notice"@);
    assert(crate::text::matches_at(text_mit(), "the above copyright notice and this permission notice"@, 476));
}

proof fn lemma_text_isc_phrases()
    ensures
        contains(text_isc(), "permission to use, copy, modify, and/or distribute this software"@),
        contains(text_isc(), "isc license"@),
{
    reveal_strlit("isc license\n\ncopyright (c) 2024, jane doe\n\npermission to use, copy, modify, and/or distribute this software for any\npurpose with or without fee is hereby granted, provided that the above\ncopyright notice and this permission notice appear in all copies.\n");
    reveal_strlit("permission to use, copy, modify, and/or distribute this software");
    assert(text_isc().subrange(43, 107) =~= "permission to use, copy, modify, and/or distribute this software"@);
    assert(crate::text::matches_at(text_isc(), "permission to use, copy, modify, and/or distribute this software"@, 43));
    reveal_strlit("isc license");
    assert(text_isc().subrange(0, 11) =~= "isc license"@);
    assert(crate::text::matches_at(text_isc(), "isc license"@, 0));
}

proof fn lemma_text_bsd_2_clause_phrases()
    ensures
        contains(text_bsd_2_clause(), "redistribution and use in source and binary forms"@),
{
    reveal_strlit("bsd 2-clause license\n\ncopyright (c) 2024, jane doe\n\nredistribution and use in source and binary forms, with or without\nmodification, are permitted provided that the following conditions are met:\n");
    reveal_strlit("redistribution and use in source and binary forms");
    assert(text_bsd_2_clause().subrange(52, 101) =~= "redistribution and use in source and binary forms"@);
    assert(crate::text::matches_at(text_bsd_2_clause(), "redistribution and use in source and binary forms"@, 52));
}

proof fn lemma_text_bsd_3_clause_phrases()
    ensures
        contains(text_bsd_3_clause(), "redistribution and use in source and binary forms"@),
        contains(text_bsd_3_clause(), "neither the name"@),
{
    reveal_strlit("bsd 3-clause license\n\ncopyright (c) 2024, jane doe\n\nredistribution and use in source and binary forms, with or without\nmodification, are permitted provided that the following conditions are met:\n\n3. neither the name of the copyright holder nor the names of its\n   contributors may be used to endorse or promote products derived from\n   this software without specific prior written permission.\n");
    reveal_strlit("redistribution and use in source and binary forms");
    assert(text_bsd_3_clause().subrange(52, 101) =~= "redistribution and use in source and binary forms"@);
    assert(crate::text::matches_at(text_bsd_3_clause(), "redistribution and use in source and binary forms"@, 52));
    reveal_strlit("neither the name");
    assert(text_bsd_3_clause().subrange(199, 215) =~= "neither the name"@);
    assert(crate::text::matches_at(text_bsd_3_clause(), "neither the name"@, 199));
}

proof fn lemma_text_unlicense_phrases()
    ensures
        contains(text_unlicense(), "this is free and unencumbered software released into the public domain"@),
{
    reveal_strlit("this is free and unencumbered software released into the public domain.\n\nanyone is free to copy, modify, publish, use, compile, sell, or\ndistribute this software, either in source code form or as a compiled\nbinary, for any purpose, commercial or non-commercial, and by any\nmeans.\n");
    reveal_strlit("this is free and unencumbered software released into the public domain");
    assert(text_unlicense().subrange(0, 70) =~= "this is free and unencumbered software released into the public domain"@);
    assert(crate::text::matches_at(text_unlicense(), "this is free and unencumbered software released into the public domain"@, 0));
}

proof fn lemma_text_cc0_1_0_phrases()
    ensures
        contains(text_cc0_1_0(), "cc0 1.0 universal"@),
{
    reveal_strlit("creative commons legal code\n\ncc0 1.0 universal\n");
    reveal_strlit("cc0 1.0 universal");
    assert(text_cc0_1_0().subrange(29, 46) =~= "cc0 1.0 universal"@);
    assert(crate::text::matches_at(text_cc0_1_0(), "cc0 1.0 universal"@, 29));
}

proof fn lemma_text_bsl_1_0_phrases()
    ensures
        contains(text_bsl_1_0(), "boost software license"@),
{
    reveal_strlit("boost software license - version 1.0 - august 17th, 2003\n\npermission is hereby granted, free of charge, to any person or organization\n");
    reveal_strlit("boost software license");
    assert(text_bsl_1_0().subrange(0, 22) =~= "boost software license"@);
    assert(crate::text::matches_at(text_bsl_1_0(), "boost software license"@, 0));
}

proof fn lemma_text_zlib_phrases()
    ensures
        contains(text_zlib(), "the origin of this software must not be misrepresented"@),
        contains(text_zlib(), "altered source versions must be plainly marked"@),
{
    reveal_strlit("this software is provided 'as-is', without any express or implied\nwarranty.  in no event will the authors be held liable for any damages\narising from the use of this software.\n\n1. the origin of this software must not be misrepresented; you must not\n   claim that you wrote the original software.\n2. altered source versions must be plainly marked as such, and must not be\n   misrepresented as being the original software.\n");
    reveal_strlit("the origin of this software must not be misrepresented");
    assert(text_zlib().subrange(180, 234) =~= "the origin of this software must not be misrepresented"@);
    assert(crate::text::matches_at(text_zlib(), "the origin of this software must not be misrepresented"@, 180));
    reveal_strlit("altered source versions must be plainly marked");
    assert(text_zlib().subrange(299, 345) =~= "altered source versions must be plainly marked"@);
    assert(crate::text::matches_at(text_zlib(), "altered source versions must be plainly marked"@, 299));
}

proof fn lemma_text_wtfpl_phrases()
    ensures
        contains(text_wtfpl(), "do what the fuck you want to public license"@),
{
    reveal_strlit("do what the fuck you want to public license\nversion 2, december 2004\n");
    reveal_strlit("do what the fuck you want to public license");
    assert(text_wtfpl().subrange(0, 43) =~= "do what the fuck you want to public license"@);
    assert(crate::text::matches_at(text_wtfpl(), "do what the fuck you want to public license"@, 0));
}

proof fn lemma_text_artistic_2_0_phrases()
    ensures
        contains(text_artistic_2_0(), "the artistic license 2.0"@),
{
    reveal_strlit("the artistic license 2.0\n\ncopyright (c) 2000-2006, the perl foundation.\n");
    reveal_strlit("the artistic license 2.0");
    assert(text_artistic_2_0().subrange(0, 24) =~= "the artistic license 2.0"@);
    assert(crate::text::matches_at(text_artistic_2_0(), "the artistic license 2.0"@, 0));
}

proof fn lemma_text_cddl_1_0_phrases()
    ensures
        contains(text_cddl_1_0(), "common development and distribution license"@),
{
    reveal_strlit("common development and distribution license (cddl)\nversion 1.0\n");
    reveal_strlit("common development and distribution license");
    assert(text_cddl_1_0().subrange(0, 43) =~= "common development and distribution license"@);
    assert(crate::text::matches_at(text_cddl_1_0(), "common development and distribution license"@, 0));
}

/// Each signature's required phrases occur in the text of its own license:
/// for every license whose text is known here, the signature table holds an
/// entry with its identifier, and each phrase that entry requires occurs in
/// that text (so the text is detected as that license unless an earlier
/// entry claims it first).
pub proof fn lemma_signatures_match_license_texts()
    ensures
        forall|t: int|
            0 <= t < license_texts().len() ==> exists|i: int|
                0 <= i < signature_table().len() && signature_table()[i].0 == (#[trigger] license_texts()[t]).0
                    && forall|j: int| 0 <= j < signature_table()[i].1.len() ==> contains(license_texts()[t].1, #[trigger] signature_table()[i].1[j]),
{
    assert forall|t: int| 0 <= t < license_texts().len() implies exists|i: int|
        0 <= i < signature_table().len() && signature_table()[i].0 == (#[trigger] license_texts()[t]).0
            && forall|j: int| 0 <= j < signature_table()[i].1.len() ==> contains(license_texts()[t].1, #[trigger] signature_table()[i].1[j]) by {
        if t == 0 {
            lemma_text_agpl_3_0_phrases();
            let sig = signature_table()[0];
            assert(sig.0 == license_texts()[t].0);
            assert forall|j: int| 0 <= j < sig.1.len() implies contains(license_texts()[t].1, #[trigger] sig.1[j]) by {
                if j == 0 {
                    assert(sig.1[j] == "gnu affero general public license"@);
                } else if j == 1 {
                    assert(sig.1[j] == "version 3"@);
                }
            }
            assert(0 <= 0 < signature_table().len());
        } else if t == 1 {
            lemma_text_gpl_3_0_phrases();
            let sig = signature_table()[1];
            assert(sig.0 == license_texts()[t].0);
            assert forall|j: int| 0 <= j < sig.1.len() implies contains(license_texts()[t].1, #[trigger] sig.1[j]) by {
                if j == 0 {
                    assert(sig.1[j] == "gnu general public license"@);
                } else if j == 1 {
                    assert(sig.1[j] == "version 3"@);
                }
            }
            assert(0 <= 1 < signature_table().len());
        } else if t == 2 {
            lemma_text_gpl_2_0_phrases();
            let sig = signature_table()[2];
            assert(sig.0 == license_texts()[t].0);
            assert forall|j: int| 0 <= j < sig.1.len() implies contains(license_texts()[t].1, #[trigger] sig.1[j]) by {
                if j == 0 {
                    assert(sig.1[j] == "gnu general public license"@);
                } else if j == 1 {
                    assert(sig.1[j] == "version 2"@);
                }
            }
            assert(0 <= 2 < signature_table().len());
        } else if t == 3 {
            lemma_text_lgpl_3_0_phrases();
            let sig = signature_table()[3];
            assert(sig.0 == license_texts()[t].0);
            assert forall|j: int| 0 <= j < sig.1.len() implies contains(license_texts()[t].1, #[trigger] sig.1[j]) by {
                if j == 0 {
                    assert(sig.1[j] == "gnu lesser general public license"@);
                } else if j == 1 {
                    assert(sig.1[j] == "version 3"@);
                }
            }
            assert(0 <= 3 < signature_table().len());
        } else if t == 4 {
            lemma_text_lgpl_2_1_phrases();
            let sig = signature_table()[4];
            assert(sig.0 == license_texts()[t].0);
            assert forall|j: int| 0 <= j < sig.1.len() implies contains(license_texts()[t].1, #[trigger] sig.1[j]) by {
                if j == 0 {
                    assert(sig.1[j] == "gnu lesser general public license"@);
                } else if j == 1 {
                    assert(sig.1[j] == "version 2.1"@);
                }
            }
            assert(0 <= 4 < signature_table().len());
        } else if t == 5 {
            lemma_text_mpl_2_0_phrases();
            let sig = signature_table()[5];
            assert(sig.0 == license_texts()[t].0);
            assert forall|j: int| 0 <= j < sig.1.len() implies contains(license_texts()[t].1, #[trigger] sig.1[j]) by {
                if j == 0 {
                    assert(sig.1[j] == "mozilla public license"@);
                } else if j == 1 {
                    assert(sig.1[j] == "version 2.0"@);
                }
            }
            assert(0 <= 5 < signature_table().len());
        } else if t == 6 {
            lemma_text_apache_2_0_phrases();
            let sig = signature_table()[8];
            assert(sig.0 == license_texts()[t].0);
            assert forall|j: int| 0 <= j < sig.1.len() implies contains(license_texts()[t].1, #[trigger] sig.1[j]) by {
                if j == 0 {
                    assert(sig.1[j] == "apache license"@);
                } else if j == 1 {
                    assert(sig.1[j] == "version 2.0"@);
                }
            }
            assert(0 <= 8 < signature_table().len());
        } else if t == 7 {
            lemma_text_mit_phrases();
            let sig = signature_table()[9];
            assert(sig.0 == license_texts()[t].0);
            assert forall|j: int| 0 <= j < sig.1.len() implies contains(license_texts()[t].1, #[trigger] sig.1[j]) by {
                if j == 0 {
                    assert(sig.1[j] == "permission is hereby granted, free of charge"@);
                } else if j == 1 {
                    assert(sig.1[j] == "the above copyright notice and this permission notice"@);
                }
            }
            assert(0 <= 9 < signature_table().len());
        } else if t == 8 {
            lemma_text_isc_phrases();
            let sig = signature_table()[10];
            assert(sig.0 == license_texts()[t].0);
            assert forall|j: int| 0 <= j < sig.1.len() implies contains(license_texts()[t].1, #[trigger] sig.1[j]) by {
                if j == 0 {
                    assert(sig.1[j] == "permission to use, copy, modify, and/or distribute this software"@);
                } else if j == 1 {
                    assert(sig.1[j] == "isc license"@);
                }
            }
            assert(0 <= 10 < signature_table().len());
        } else if t == 9 {
            lemma_text_bsd_2_clause_phrases();
            let sig = signature_table()[11];
            assert(sig.0 == license_texts()[t].0);
            assert forall|j: int| 0 <= j < sig.1.len() implies contains(license_texts()[t].1, #[trigger] sig.1[j]) by {
                if j == 0 {
                    assert(sig.1[j] == "redistribution and use in source and binary forms"@);
                }
            }
            assert(0 <= 11 < signature_table().len());
        } else if t == 10 {
            lemma_text_bsd_3_clause_phrases();
            let sig = signature_table()[12];
            assert(sig.0 == license_texts()[t].0);
            assert forall|j: int| 0 <= j < sig.1.len() implies contains(license_texts()[t].1, #[trigger] sig.1[j]) by {
                if j == 0 {
                    assert(sig.1[j] == "redistribution and use in source and binary forms"@);
                } else if j == 1 {
                    assert(sig.1[j] == "neither the name"@);
                }
            }
            assert(0 <= 12 < signature_table().len());
        } else if t == 11 {
            lemma_text_unlicense_phrases();
            let sig = signature_table()[13];
            assert(sig.0 == license_texts()[t].0);
            assert forall|j: int| 0 <= j < sig.1.len() implies contains(license_texts()[t].1, #[trigger] sig.1[j]) by {
                if j == 0 {
                    assert(sig.1[j] == "this is free and unencumbered software released into the public domain"@);
                }
            }
            assert(0 <= 13 < signature_table().len());
        } else if t == 12 {
            lemma_text_cc0_1_0_phrases();
            let sig = signature_table()[14];
            assert(sig.0 == license_texts()[t].0);
            assert forall|j: int| 0 <= j < sig.1.len() implies contains(license_texts()[t].1, #[trigger] sig.1[j]) by {
                if j == 0 {
                    assert(sig.1[j] == "cc0 1.0 universal"@);
                }
            }
            assert(0 <= 14 < signature_table().len());
        } else if t == 13 {
            lemma_text_bsl_1_0_phrases();
            let sig = signature_table()[15];
            assert(sig.0 == license_texts()[t].0);
            assert forall|j: int| 0 <= j < sig.1.len() implies contains(license_texts()[t].1, #[trigger] sig.1[j]) by {
                if j == 0 {
                    assert(sig.1[j] == "boost software license"@);
                }
            }
            assert(0 <= 15 < signature_table().len());
        } else if t == 14 {
            lemma_text_zlib_phrases();
            let sig = signature_table()[17];
            assert(sig.0 == license_texts()[t].0);
            assert forall|j: int| 0 <= j < sig.1.len() implies contains(license_texts()[t].1, #[trigger] sig.1[j]) by {
                if j == 0 {
                    assert(sig.1[j] == "the origin of this software must not be misrepresented"@);
                } else if j == 1 {
                    assert(sig.1[j] == "altered source versions must be plainly marked"@);
                }
            }
            assert(0 <= 17 < signature_table().len());
        } else if t == 15 {
            lemma_text_wtfpl_phrases();
            let sig = signature_table()[18];
            assert(sig.0 == license_texts()[t].0);
            assert forall|j: int| 0 <= j < sig.1.len() implies contains(license_texts()[t].1, #[trigger] sig.1[j]) by {
                if j == 0 {
                    assert(sig.1[j] == "do what the fuck you want to public license"@);
                }
            }
            assert(0 <= 18 < signature_table().len());
        } else if t == 16 {
            lemma_text_artistic_2_0_phrases();
            let sig = signature_table()[19];
            assert(sig.0 == license_texts()[t].0);
            assert forall|j: int| 0 <= j < sig.1.len() implies contains(license_texts()[t].1, #[trigger] sig.1[j]) by {
                if j == 0 {
                    assert(sig.1[j] == "the artistic license 2.0"@);
                }
            }
            assert(0 <= 19 < signature_table().len());
        } else if t == 17 {
            lemma_text_cddl_1_0_phrases();
            let sig = signature_table()[20];
            assert(sig.0 == license_texts()[t].0);
            assert forall|j: int| 0 <= j < sig.1.len() implies contains(license_texts()[t].1, #[trigger] sig.1[j]) by {
                if j == 0 {
                    assert(sig.1[j] == "common development and distribution license"@);
                }
            }
            assert(0 <= 20 < signature_table().len());
        }
    }
}

/// The signature table.
pub fn license_signatures() -> (r: Vec<LicenseSignature>)
    ensures
        signatures_view(r@) == signature_table(),
{
    let mut v: Vec<LicenseSignature> = Vec::new();
    v.push(LicenseSignature { spdx: "AGPL-3.0", required: vec!["gnu affero general public license", "version 3"], disqualified: vec!["use with the gnu affero general public license"] });
    v.push(LicenseSignature {
        spdx: "GPL-3.0",
        required: vec!["gnu general public license", "version 3"],
        disqualified: vec!["this version of the gnu lesser general public license", "use with the gnu general public license"],
    });
    v.push(LicenseSignature { spdx: "GPL-2.0", required: vec!["gnu general public license", "version 2"], disqualified: vec!["lesser", "affero"] });
    v.push(LicenseSignature { spdx: "LGPL-3.0", required: vec!["gnu lesser general public license", "version 3"], disqualified: Vec::new() });
    v.push(LicenseSignature { spdx: "LGPL-2.1", required: vec!["gnu lesser general public license", "version 2.1"], disqualified: Vec::new() });
    v.push(LicenseSignature { spdx: "MPL-2.0", required: vec!["mozilla public license", "version 2.0"], disqualified: Vec::new() });
    v.push(LicenseSignature { spdx: "EPL-2.0", required: vec!["eclipse public license", "version 2.0"], disqualified: Vec::new() });
    v.push(LicenseSignature { spdx: "EPL-1.0", required: vec!["eclipse public license", "version 1.0"], disqualified: Vec::new() });
    v.push(LicenseSignature { spdx: "Apache-2.0", required: vec!["apache license", "version 2.0"], disqualified: Vec::new() });
    v.push(LicenseSignature { spdx: "MIT", required: vec!["permission is hereby granted, free of charge", "the above copyright notice and this permission notice"], disqualified: Vec::new() });
    v.push(LicenseSignature { spdx: "ISC", required: vec!["permission to use, copy, modify, and/or distribute this software", "isc license"], disqualified: Vec::new() });
    v.push(LicenseSignature { spdx: "BSD-2-Clause", required: vec!["redistribution and use in source and binary forms"], disqualified: vec!["neither the name"] });
    v.push(LicenseSignature { spdx: "BSD-3-Clause", required: vec!["redistribution and use in source and binary forms", "neither the name"], disqualified: Vec::new() });
    v.push(LicenseSignature { spdx: "Unlicense", required: vec!["this is free and unencumbered software released into the public domain"], disqualified: Vec::new() });
    v.push(LicenseSignature { spdx: "CC0-1.0", required: vec!["cc0 1.0 universal"], disqualified: Vec::new() });
    v.push(LicenseSignature { spdx: "BSL-1.0", required: vec!["boost software license"], disqualified: Vec::new() });
    v.push(LicenseSignature { spdx: "0BSD", required: vec!["permission to use, copy, modify, and/or distribute this software", "0-clause bsd"], disqualified: Vec::new() });
    v.push(LicenseSignature { spdx: "Zlib", required: vec!["the origin of this software must not be misrepresented", "altered source versions must be plainly marked"], disqualified: Vec::new() });
    v.push(LicenseSignature { spdx: "WTFPL", required: vec!["do what the fuck you want to public license"], disqualified: Vec::new() });
    v.push(LicenseSignature { spdx: "Artistic-2.0", required: vec!["the artistic license 2.0"], disqualified: Vec::new() });
    v.push(LicenseSignature { spdx: "CDDL-1.0", required: vec!["common development and distribution license"], disqualified: Vec::new() });
    proof {
        assert(signatures_view(v@) =~~= signature_table());
    }
    v
}

/// `text` holds every required phrase of the signature and no disqualifying one.
pub open spec fn signature_matches(text: Seq<char>, sig: (Seq<char>, Seq<Seq<char>>, Seq<Seq<char>>)) -> bool {
    &&& forall|i: int| 0 <= i < sig.1.len() ==> contains(text, #[trigger] sig.1[i])
    &&& forall|i: int| 0 <= i < sig.2.len() ==> !contains(text, #[trigger] sig.2[i])
}

/// The identifier of the first signature from index `i` on that `text` matches.
pub open spec fn first_signature(
    text: Seq<char>,
    table: Seq<(Seq<char>, Seq<Seq<char>>, Seq<Seq<char>>)>,
    i: int,
) -> Option<Seq<char>>
    decreases table.len() - i,
{
    if i < 0 || i >= table.len() {
        None
    } else if signature_matches(text, table[i]) {
        Some(table[i].0)
    } else {
        first_signature(text, table, i + 1)
    }
}

/// Keyword hints, tried in order when no signature matches.
pub open spec fn hint_table() -> Seq<(Seq<char>, Seq<char>)> {
    seq![
        ("mit license"@, "MIT"@),
        ("apache license"@, "Apache-2.0"@),
        ("bsd license"@, "BSD-3-Clause"@),
        ("gnu general public"@, "GPL"@),
        ("mozilla public"@, "MPL-2.0"@),
        ("public domain"@, "Public Domain"@)
    ]
}

fn license_hints() -> (r: Vec<(&'static str, &'static str)>)
    ensures
        Seq::new(r@.len(), |i: int| (r@[i].0@, r@[i].1@)) == hint_table(),
{
    let mut v: Vec<(&'static str, &'static str)> = Vec::new();
    v.push(("mit license", "MIT"));
    v.push(("apache license", "Apache-2.0"));
    v.push(("bsd license", "BSD-3-Clause"));
    v.push(("gnu general public", "GPL"));
    v.push(("mozilla public", "MPL-2.0"));
    v.push(("public domain", "Public Domain"));
    proof {
        assert(Seq::new(v@.len(), |i: int| (v@[i].0@, v@[i].1@)) =~= hint_table());
    }
    v
}

/// The identifier of the first hint from index `i` on whose keyword occurs in `text`.
pub open spec fn first_hint(text: Seq<char>, table: Seq<(Seq<char>, Seq<char>)>, i: int) -> Option<Seq<char>>
    decreases table.len() - i,
{
    if i < 0 || i >= table.len() {
        None
    } else if contains(text, table[i].0) {
        Some(table[i].1)
    } else {
        first_hint(text, table, i + 1)
    }
}

/// The pattern of an `SPDX-License-Identifier:` line; group 1 is the identifier.
pub const SPDX_IDENTIFIER_PATTERN: &'static str = "(?i)SPDX-License-Identifier:\\s*(.+)";

/// The license a LICENSE/COPYING text indicates, with a confidence: the first
/// matching signature of the lower-cased text ("high"); otherwise the
/// identifier of an `SPDX-License-Identifier:` line, normalized ("high");
/// otherwise the first keyword hint ("medium"); otherwise "Unknown" ("low").
pub open spec fn detect_license_spec(content: Seq<char>) -> (Seq<char>, Seq<char>) {
    let text = lowercase(content);
    let p = SPDX_IDENTIFIER_PATTERN@;
    match first_signature(text, signature_table(), 0) {
        Some(id) => (id, "high"@),
        None => if regex_compiles(p) && regex_capture(p, content, 1) is Some {
            (normalize_license_spec(trim(regex_capture(p, content, 1)->0)), "high"@)
        } else {
            match first_hint(text, hint_table(), 0) {
                Some(id) => (id, "medium"@),
                None => ("Unknown"@, "low"@),
            }
        },
    }
}

fn all_contained(text: &[char], phrases: &Vec<&'static str>) -> (r: bool)
    ensures
        r == forall|i: int| 0 <= i < phrases@.len() ==> contains(text@, #[trigger] str_views(phrases@)[i]),
{
    let mut i: usize = 0;
    while i < phrases.len()
        invariant
            i <= phrases@.len(),
            forall|j: int| 0 <= j < i ==> contains(text@, #[trigger] str_views(phrases@)[j]),
        decreases phrases@.len() - i,
    {
        if !contains_str(text, phrases[i]) {
            assert(str_views(phrases@)[i as int] == phrases@[i as int]@);
            return false;
        }
        i += 1;
    }
    true
}

fn none_contained(text: &[char], phrases: &Vec<&'static str>) -> (r: bool)
    ensures
        r == forall|i: int| 0 <= i < phrases@.len() ==> !contains(text@, #[trigger] str_views(phrases@)[i]),
{
    let mut i: usize = 0;
    while i < phrases.len()
        invariant
            i <= phrases@.len(),
            forall|j: int| 0 <= j < i ==> !contains(text@, #[trigger] str_views(phrases@)[j]),
        decreases phrases@.len() - i,
    {
        if contains_str(text, phrases[i]) {
            assert(str_views(phrases@)[i as int] == phrases@[i as int]@);
            return false;
        }
        i += 1;
    }
    true
}

/// The confidence of a detected license is "high", "medium" or "low", and it
/// is "low" only when the license is "Unknown".
pub proof fn lemma_confidence_levels(content: Seq<char>)
    ensures
        detect_license_spec(content).1 == "high"@ || detect_license_spec(content).1 == "medium"@
            || detect_license_spec(content).1 == "low"@,
        detect_license_spec(content).1 == "low"@ ==> detect_license_spec(content).0 == "Unknown"@,
{
    reveal_strlit("high");
    reveal_strlit("medium");
    reveal_strlit("low");
    assert("low"@.len() != "high"@.len());
    assert("low"@.len() != "medium"@.len());
}

/// Detect the license type from the text content of a LICENSE/COPYING file.
/// Returns (SPDX identifier, confidence).
pub fn detect_license_from_content(content: &str) -> (r: (String, &'static str))
    ensures
        (r.0@, r.1@) == detect_license_spec(content@),
{
    let lower = to_lower(content);
    let text = chars_of(lower.as_str());
    let sigs = license_signatures();
    let ghost table = signature_table();
    let mut i: usize = 0;
    while i < sigs.len()
        invariant
            i <= sigs@.len(),
            text@ == lowercase(content@),
            signatures_view(sigs@) == table,
            table == signature_table(),
            first_signature(text@, table, 0) == first_signature(text@, table, i as int),
        decreases sigs@.len() - i,
    {
        let sig = &sigs[i];
        let ok_req = all_contained(&text, &sig.required);
        let ok_dis = none_contained(&text, &sig.disqualified);
        proof {
            assert(table[i as int] == (sig.spdx@, str_views(sig.required@), str_views(sig.disqualified@)));
            let req = str_views(sig.required@);
            let dis = str_views(sig.disqualified@);
            assert(req.len() == sig.required@.len());
            assert(dis.len() == sig.disqualified@.len());
            assert(ok_req == forall|j: int| 0 <= j < req.len() ==> contains(text@, #[trigger] req[j]));
            assert(ok_dis == forall|j: int| 0 <= j < dis.len() ==> !contains(text@, #[trigger] dis[j]));
            assert(table[i as int].1 == req);
            assert(table[i as int].2 == dis);
            assert(signature_matches(text@, (sig.spdx@, req, dis)) == (ok_req && ok_dis));
            assert(signature_matches(text@, table[i as int]) == (ok_req && ok_dis));
        }
        if ok_req && ok_dis {
            return (sig.spdx.to_string(), "high");
        }
        i += 1;
    }
    match Pattern::new(SPDX_IDENTIFIER_PATTERN) {
        Some(p) => match p.capture(content, 1) {
            Some(id) => {
                let t = trim_str(id.as_str());
                let ts = string_of(&t);
                return (normalize_license(ts.as_str()), "high");
            },
            None => {},
        },
        None => {},
    }
    let hints = license_hints();
    let ghost p = SPDX_IDENTIFIER_PATTERN@;
    let mut k: usize = 0;
    while k < hints.len()
        invariant
            k <= hints@.len(),
            text@ == lowercase(content@),
            p == SPDX_IDENTIFIER_PATTERN@,
            first_signature(text@, signature_table(), 0) is None,
            !(regex_compiles(p) && regex_capture(p, content@, 1) is Some),
            Seq::new(hints@.len(), |i: int| (hints@[i].0@, hints@[i].1@)) == hint_table(),
            first_hint(text@, hint_table(), 0) == first_hint(text@, hint_table(), k as int),
        decreases hints@.len() - k,
    {
        proof {
            assert(hint_table()[k as int] == (hints@[k as int].0@, hints@[k as int].1@));
        }
        if contains_str(&text, hints[k].0) {
            return (hints[k].1.to_string(), "medium");
        }
        k += 1;
    }
    ("Unknown".to_string(), "low")
}


/// A dependency manifest: where it is, the license it declares (normalized)
/// and its dependencies, each with a license where one is known.
pub struct ManifestInfo {
    pub path: String,
    pub project_license: Option<String>,
    pub dependencies: Vec<(String, Option<String>)>,
}

/// The names of a dependency list.
pub open spec fn dep_names(deps: Seq<(String, Option<String>)>) -> Seq<Seq<char>> {
    Seq::new(deps.len(), |i: int| deps[i].0@)
}

/// No dependency of the list carries a license.
pub open spec fn no_dep_licenses(deps: Seq<(String, Option<String>)>) -> bool {
    forall|i: int| 0 <= i < deps.len() ==> (#[trigger] deps[i]).1 is None
}

/// The keys found, or none.
pub open spec fn keys_or_empty(k: Option<Seq<Seq<char>>>) -> Seq<Seq<char>> {
    match k {
        Some(ks) => ks,
        None => Seq::empty(),
    }
}

/// The license a parsed Cargo manifest declares under `[package]`, normalized.
pub open spec fn cargo_license(doc: Option<DocValue>) -> Option<Seq<char>> {
    match doc {
        Some(v) => match get(v, "package"@) {
            Some(pkg) => match get_str(pkg, "license"@) {
                Some(l) => Some(normalize_license_spec(l)),
                None => None,
            },
            None => None,
        },
        None => None,
    }
}

/// The dependency names of a parsed Cargo manifest: the keys of
/// `[dependencies]`, `[dev-dependencies]` and `[build-dependencies]`, in that order.
pub open spec fn cargo_dep_names(doc: Option<DocValue>) -> Seq<Seq<char>> {
    match doc {
        Some(v) => keys_or_empty(get_keys(v, "dependencies"@)) + keys_or_empty(
            get_keys(v, "dev-dependencies"@),
        ) + keys_or_empty(get_keys(v, "build-dependencies"@)),
        None => Seq::empty(),
    }
}

/// The license a parsed package.json declares, normalized.
pub open spec fn npm_license(doc: Option<DocValue>) -> Option<Seq<char>> {
    match doc {
        Some(v) => match get_str(v, "license"@) {
            Some(l) => Some(normalize_license_spec(l)),
            None => None,
        },
        None => None,
    }
}

/// The dependency names of a parsed package.json: the keys of
/// `dependencies`, `devDependencies` and `peerDependencies`, in that order.
pub open spec fn npm_dep_names(doc: Option<DocValue>) -> Seq<Seq<char>> {
    match doc {
        Some(v) => keys_or_empty(get_keys(v, "dependencies"@)) + keys_or_empty(
            get_keys(v, "devDependencies"@),
        ) + keys_or_empty(get_keys(v, "peerDependencies"@)),
        None => Seq::empty(),
    }
}

/// Appends each key (if any) as a dependency without a license.
fn append_names(deps: &mut Vec<(String, Option<String>)>, names: Option<Vec<String>>)
    ensures
        dep_names(final(deps)@) == dep_names(old(deps)@) + keys_or_empty(
            match names {
                Some(n) => Some(string_views(n@)),
                None => None,
            },
        ),
        no_dep_licenses(old(deps)@) ==> no_dep_licenses(final(deps)@),
{
    match names {
        Some(n) => {
            let ghost d0 = dep_names(deps@);
            let mut i: usize = 0;
            while i < n.len()
                invariant
                    i <= n@.len(),
                    dep_names(deps@) == d0 + string_views(n@).take(i as int),
                    no_dep_licenses(old(deps)@) ==> no_dep_licenses(deps@),
                decreases n@.len() - i,
            {
                let ghost before = deps@;
                deps.push((n[i].clone(), None));
                proof {
                    assert(string_views(n@).take(i + 1) =~= string_views(n@).take(i as int).push(n@[i as int]@));
                    assert(dep_names(deps@) =~= dep_names(before).push(n@[i as int]@));
                    if no_dep_licenses(old(deps)@) {
                        assert forall|j: int| 0 <= j < deps@.len() implies (#[trigger] deps@[j]).1 is None by {
                            if j < before.len() {
                                assert(deps@[j] == before[j]);
                            }
                        }
                    }
                }
                i += 1;
            }
            proof {
                assert(string_views(n@).take(n@.len() as int) =~= string_views(n@));
            }
        },
        None => {
            proof {
                assert(dep_names(deps@) + Seq::<Seq<char>>::empty() =~= dep_names(deps@));
            }
        },
    }
}

/// The manifest information of a parsed Cargo.toml (`None`: it did not parse).
pub fn cargo_manifest_from(doc: &Option<DocValue>) -> (r: ManifestInfo)
    ensures
        r.path@ == Seq::<char>::empty(),
        opt_view(r.project_license) == cargo_license(*doc),
        dep_names(r.dependencies@) == cargo_dep_names(*doc),
        no_dep_licenses(r.dependencies@),
{
    let mut project_license: Option<String> = None;
    let mut dependencies: Vec<(String, Option<String>)> = Vec::new();
    match doc {
        Some(v) => {
            match get_field(v, "package") {
                Some(pkg) => match get_str_exec(pkg, "license") {
                    Some(l) => {
                        project_license = Some(normalize_license(l.as_str()));
                    },
                    None => {},
                },
                None => {},
            }
            proof {
                assert(dep_names(dependencies@) =~= Seq::<Seq<char>>::empty());
            }
            append_names(&mut dependencies, get_keys_exec(v, "dependencies"));
            append_names(&mut dependencies, get_keys_exec(v, "dev-dependencies"));
            append_names(&mut dependencies, get_keys_exec(v, "build-dependencies"));
        },
        None => {
            proof {
                assert(dep_names(dependencies@) =~= Seq::<Seq<char>>::empty());
            }
        },
    }
    ManifestInfo { path: String::new(), project_license, dependencies }
}

/// Parse a Cargo.toml to extract license and dependency names.
pub fn parse_cargo_toml(content: &str) -> (r: ManifestInfo)
    ensures
        r.path@ == Seq::<char>::empty(),
        opt_view(r.project_license) == cargo_license(toml_parse(content@)),
        dep_names(r.dependencies@) == cargo_dep_names(toml_parse(content@)),
        no_dep_licenses(r.dependencies@),
{
    let doc = parse_toml(content);
    cargo_manifest_from(&doc)
}

/// The manifest information of a parsed package.json (`None`: it did not parse).
pub fn npm_manifest_from(doc: &Option<DocValue>) -> (r: ManifestInfo)
    ensures
        r.path@ == Seq::<char>::empty(),
        opt_view(r.project_license) == npm_license(*doc),
        dep_names(r.dependencies@) == npm_dep_names(*doc),
        no_dep_licenses(r.dependencies@),
{
    let mut project_license: Option<String> = None;
    let mut dependencies: Vec<(String, Option<String>)> = Vec::new();
    match doc {
        Some(v) => {
            match get_str_exec(v, "license") {
                Some(l) => {
                    project_license = Some(normalize_license(l.as_str()));
                },
                None => {},
            }
            proof {
                assert(dep_names(dependencies@) =~= Seq::<Seq<char>>::empty());
            }
            append_names(&mut dependencies, get_keys_exec(v, "dependencies"));
            append_names(&mut dependencies, get_keys_exec(v, "devDependencies"));
            append_names(&mut dependencies, get_keys_exec(v, "peerDependencies"));
        },
        None => {
            proof {
                assert(dep_names(dependencies@) =~= Seq::<Seq<char>>::empty());
            }
        },
    }
    ManifestInfo { path: String::new(), project_license, dependencies }
}

/// Parse a package.json to extract license and dependency names.
pub fn parse_package_json(content: &str) -> (r: ManifestInfo)
    ensures
        r.path@ == Seq::<char>::empty(),
        opt_view(r.project_license) == npm_license(json_parse(content@)),
        dep_names(r.dependencies@) == npm_dep_names(json_parse(content@)),
        no_dep_licenses(r.dependencies@),
{
    let doc = parse_json(content);
    npm_manifest_from(&doc)
}

/// One line of a go.mod, read in the given `require (` block state: the new
/// state and the module names the line contributes.
pub open spec fn go_mod_step(line: Seq<char>, in_require: bool) -> (bool, Seq<Seq<char>>) {
    let t = trim(line);
    if starts_with(t, "require ("@) {
        (true, Seq::empty())
    } else if t == ")"@ {
        (false, Seq::empty())
    } else {
        let parts = split_ws(t);
        let block: Seq<Seq<char>> = if in_require && parts.len() > 0 && !starts_with(parts[0], "//"@) {
            seq![parts[0]]
        } else {
            Seq::empty()
        };
        let single: Seq<Seq<char>> = if starts_with(t, "require "@) && !t.contains('(')
            && parts.len() >= 2 {
            seq![parts[1]]
        } else {
            Seq::empty()
        };
        (in_require, block + single)
    }
}

/// The block state and module names after reading the given lines of a go.mod.
pub open spec fn go_mod_scan(lines: Seq<Seq<char>>) -> (bool, Seq<Seq<char>>)
    decreases lines.len(),
{
    if lines.len() == 0 {
        (false, Seq::empty())
    } else {
        let prev = go_mod_scan(lines.drop_last());
        let step = go_mod_step(lines.last(), prev.0);
        (step.0, prev.1 + step.1)
    }
}

/// Parse a go.mod to extract module name and dependencies.
pub fn parse_go_mod(content: &str) -> (r: ManifestInfo)
    ensures
        r.path@ == Seq::<char>::empty(),
        r.project_license is None,
        dep_names(r.dependencies@) == go_mod_scan(lines(content@)).1,
        no_dep_licenses(r.dependencies@),
{
    let ls = lines_of(content);
    let ghost lv = lines(content@);
    let mut dependencies: Vec<(String, Option<String>)> = Vec::new();
    let mut in_require = false;
    let mut i: usize = 0;
    proof {
        assert(lv.take(0) =~= Seq::<Seq<char>>::empty());
        assert(dep_names(dependencies@) =~= Seq::<Seq<char>>::empty());
    }
    while i < ls.len()
        invariant
            i <= ls@.len(),
            ls@.len() == lv.len(),
            forall|j: int| 0 <= j < lv.len() ==> #[trigger] ls@[j]@ == lv[j],
            (in_require, dep_names(dependencies@)) == go_mod_scan(lv.take(i as int)),
            no_dep_licenses(dependencies@),
        decreases ls@.len() - i,
    {
        let ghost d0 = dependencies@;
        let ghost st0 = in_require;
        proof {
            assert(lv.take(i + 1).drop_last() =~= lv.take(i as int));
            assert(lv.take(i + 1).last() == ls@[i as int]@);
        }
        let t = trim_exec(&ls[i]);
        let ghost step = go_mod_step(ls@[i as int]@, st0);
        if starts_with_str(&t, "require (") {
            in_require = true;
        } else if eq_str(&t, ")") {
            in_require = false;
        } else {
            let parts = split_ws_exec(&t);
            if in_require && parts.len() > 0 && !starts_with_str(&parts[0], "//") {
                dependencies.push((string_of(&parts[0]), None));
            }
            if starts_with_str(&t, "require ") && !has_char(&t, '(') && parts.len() >= 2 {
                dependencies.push((string_of(&parts[1]), None));
            }
            proof {
                assert(dep_names(dependencies@) =~= dep_names(d0) + step.1);
            }
        }
        proof {
            assert(no_dep_licenses(dependencies@));
        }
        i += 1;
    }
    proof {
        assert(lv.take(ls@.len() as int) =~= lv);
    }
    ManifestInfo { path: String::new(), project_license: None, dependencies }
}

} // verus!
