//! Reading a plain-text report back into structured elements (for the HTML,
//! PDF and Markdown renderings), and escaping text for HTML.
use vstd::prelude::*;
use crate::autofix::{digit_value, digits_value, is_ascii_digit};
use crate::pattern::{regex_compiles, regex_remove_all, Pattern};
use crate::text::{
    byte_prefix_exec, chars_of, contains, contains_exec, contains_str, ends_with, ends_with_str,
    eq_str, extend, extend_str, find, find_exec, has_char, is_boundary, is_boundary_exec, is_ws,
    lines, lines_of, prefix_chars, slice, split_ws, split_ws_exec, starts_with, starts_with_str,
    string_of, trim, trim_end_matches, trim_end_matches_str, trim_exec, trim_start,
    trim_start_matches, trim_start_matches_str, utf8_len, utf8_len_capped_exec, views,
    char_width, char_width_exec, lemma_utf8_len_split, leading_ws, utf8_len_exec,
};

verus! {

/// `str::parse::<usize>`: an optional '+' then at least one ASCII digit,
/// the number fitting in a `usize`.
pub open spec fn parse_usize(s: Seq<char>) -> Option<nat> {
    let d = unsigned_digits(s);
    if d.len() > 0 && all_digits(d) && digits_value(d) <= usize::MAX {
        Some(digits_value(d))
    } else {
        None
    }
}

/// The digits of an unsigned number: without a leading '+'.
pub open spec fn unsigned_digits(s: Seq<char>) -> Seq<char> {
    if s.len() > 0 && s[0] == '+' {
        s.drop_first()
    } else {
        s
    }
}

/// Every character is an ASCII digit.
pub open spec fn all_digits(d: Seq<char>) -> bool {
    forall|i: int| 0 <= i < d.len() ==> is_ascii_digit(#[trigger] d[i])
}

pub fn parse_usize_exec(s: &[char]) -> (r: Option<usize>)
    ensures
        r matches Some(n) ==> parse_usize(s@) == Some(n as nat),
        r is None ==> parse_usize(s@) is None,
{
    let start: usize = if s.len() > 0 && s[0] == '+' {
        1
    } else {
        0
    };
    let ghost d = if s@.len() > 0 && s@[0] == '+' {
        s@.drop_first()
    } else {
        s@
    };
    proof {
        assert(d =~= s@.skip(start as int));
    }
    if start >= s.len() {
        return None;
    }
    let mut i: usize = start;
    let mut val: usize = 0;
    let mut overflow = false;
    proof {
        assert(d.take(0) =~= Seq::<char>::empty());
    }
    while i < s.len()
        invariant
            start <= i <= s@.len(),
            d == s@.skip(start as int),
            d == (if s@.len() > 0 && s@[0] == '+' {
                s@.drop_first()
            } else {
                s@
            }),
            forall|j: int| 0 <= j < i - start ==> is_ascii_digit(#[trigger] d[j]),
            overflow == (digits_value(d.take(i - start)) > usize::MAX),
            !overflow ==> val == digits_value(d.take(i - start)),
        decreases s@.len() - i,
    {
        let c = s[i];
        assert(d[i - start] == c);
        if !('0' <= c && c <= '9') {
            assert(!is_ascii_digit(d[i - start]));
            assert(!all_digits(d));
            assert(d == unsigned_digits(s@));
            return None;
        }
        let dv: usize = (c as u32 - '0' as u32) as usize;
        proof {
            assert(d.take(i - start + 1).drop_last() =~= d.take(i - start));
            assert(d.take(i - start + 1).last() == c);
            assert(dv == digit_value(c));
        }
        if !overflow {
            if val > (usize::MAX - dv) / 10 {
                overflow = true;
                assert(val * 10 + dv > usize::MAX) by (nonlinear_arith)
                    requires
                        val > (usize::MAX - dv) / 10,
                        dv <= 9,
                ;
            } else {
                assert(val * 10 + dv <= usize::MAX) by (nonlinear_arith)
                    requires
                        val <= (usize::MAX - dv) / 10,
                        dv <= 9,
                ;
                val = val * 10 + dv;
            }
        }
        i += 1;
    }
    proof {
        assert(d.take(s@.len() - start) =~= d);
    }
    if overflow {
        None
    } else {
        Some(val)
    }
}

/// The index of the last occurrence of `c`, or -1.
pub open spec fn last_index_of(s: Seq<char>, c: char) -> int
    decreases s.len(),
{
    if s.len() == 0 {
        -1
    } else if s.last() == c {
        s.len() - 1
    } else {
        last_index_of(s.drop_last(), c)
    }
}

fn last_index_of_exec(s: &[char], c: char) -> (r: Option<usize>)
    ensures
        r matches Some(k) ==> last_index_of(s@, c) == k && k < s@.len(),
        r is None ==> last_index_of(s@, c) == -1,
{
    let mut i: usize = s.len();
    proof {
        assert(s@.take(s@.len() as int) =~= s@);
    }
    while i > 0
        invariant
            i <= s@.len(),
            last_index_of(s@, c) == last_index_of(s@.take(i as int), c),
        decreases i,
    {
        proof {
            assert(s@.take(i as int).last() == s@[i - 1]);
            assert(s@.take(i as int).drop_last() =~= s@.take(i - 1));
        }
        if s[i - 1] == c {
            return Some(i - 1);
        }
        i -= 1;
    }
    None
}

/// A bar chart line "label  ████ 42": the label before the bar and the
/// number that ends the line.
pub open spec fn parse_bar_chart_line_spec(line: Seq<char>) -> Option<(Seq<char>, nat)> {
    match find(line, seq!['█']) {
        Some(start) => {
            let label = trim(line.take(start));
            let after = line.skip(start);
            let rest = trim(after.skip(last_index_of(after, '█') + 1));
            let words = split_ws(rest);
            if words.len() > 0 {
                match parse_usize(words.last()) {
                    Some(v) => Some((label, v)),
                    None => None,
                }
            } else {
                None
            }
        },
        None => None,
    }
}

/// Parse a bar chart line like "label  ████████ 42".
pub fn parse_bar_chart_line(line: &str) -> (r: Option<(String, usize)>)
    ensures
        r matches Some(x) ==> parse_bar_chart_line_spec(line@) == Some((x.0@, x.1 as nat)),
        r is None ==> parse_bar_chart_line_spec(line@) is None,
{
    let l = chars_of(line);
    let mut bar: Vec<char> = Vec::new();
    bar.push('█');
    proof {
        assert(bar@ =~= seq!['█']);
    }
    match find_exec(&l, &bar) {
        Some(start) => {
            proof {
                crate::text::lemma_find(l@, bar@);
            }
            let head = slice(&l, 0, start);
            let label = trim_exec(&head);
            let ll = l.len();
            let after = slice(&l, start, ll);
            assert(after@ == l@.skip(start as int));
            assert(after@[0] == '█');
            let e = match last_index_of_exec(&after, '█') {
                Some(k) => k,
                None => {
                    proof {
                        assert(after@.len() > 0);
                        assert(after@.last() == '█' || last_index_of(after@.drop_last(), '█') >= 0) by {
                            lemma_last_index_found(after@, '█', 0);
                        }
                    }
                    0
                },
            };
            let al = after.len();
            let tail = slice(&after, e + 1, al);
            let rest = trim_exec(&tail);
            let words = split_ws_exec(&rest);
            if words.len() > 0 {
                proof {
                    assert(views(words@).last() == words@[words@.len() - 1]@);
                }
                match parse_usize_exec(&words[words.len() - 1]) {
                    Some(v) => Some((string_of(&label), v)),
                    None => None,
                }
            } else {
                None
            }
        },
        None => None,
    }
}

proof fn lemma_last_index_found(s: Seq<char>, c: char, k: int)
    requires
        0 <= k < s.len(),
        s[k] == c,
    ensures
        last_index_of(s, c) >= k,
    decreases s.len(),
{
    if s.last() != c {
        assert(s.drop_last()[k] == c);
        lemma_last_index_found(s.drop_last(), c, k);
    }
}

/// A bar chart line as the chart prints it, without its color codes: the
/// label padded to `width`, `bars` blocks and the value.
pub open spec fn plain_bar_line(label: Seq<char>, value: nat, width: nat, bars: nat) -> Seq<char> {
    "    "@ + crate::text::pad_right(label, width) + " "@ + crate::text::repeat('█', bars) + " "@
        + crate::text::decimal(value)
}

/// Every character is whitespace.
spec fn all_ws(s: Seq<char>) -> bool {
    forall|i: int| 0 <= i < s.len() ==> is_ws(#[trigger] s[i])
}

proof fn lemma_trim_start_ws_prefix(a: Seq<char>, x: Seq<char>)
    requires
        all_ws(a),
    ensures
        trim_start(a + x) == trim_start(x),
    decreases a.len(),
{
    if a.len() > 0 {
        assert((a + x)[0] == a[0]);
        assert((a + x).drop_first() =~= a.drop_first() + x);
        lemma_trim_start_ws_prefix(a.drop_first(), x);
    } else {
        assert(a + x =~= x);
    }
}

proof fn lemma_trim_end_ws_suffix(x: Seq<char>, b: Seq<char>)
    requires
        all_ws(b),
    ensures
        crate::text::trim_end(x + b) == crate::text::trim_end(x),
    decreases b.len(),
{
    if b.len() > 0 {
        assert((x + b).last() == b.last());
        assert((x + b).drop_last() =~= x + b.drop_last());
        lemma_trim_end_ws_suffix(x, b.drop_last());
    } else {
        assert(x + b =~= x);
    }
}

/// Trimming whitespace around a text that starts and ends with other
/// characters gives the text.
proof fn lemma_trim_around(a: Seq<char>, x: Seq<char>, b: Seq<char>)
    requires
        all_ws(a),
        all_ws(b),
        x.len() > 0,
        !is_ws(x[0]),
        !is_ws(x.last()),
    ensures
        trim(a + x + b) == x,
{
    assert(a + x + b =~= a + (x + b));
    lemma_trim_start_ws_prefix(a, x + b);
    assert((x + b)[0] == x[0]);
    assert(trim_start(x + b) == x + b);
    lemma_trim_end_ws_suffix(x, b);
    assert(crate::text::trim_end(x) == x);
}

/// The digits of a number are ASCII digits, not whitespace, and spell it.
proof fn lemma_decimal_digits(n: nat)
    ensures
        crate::text::decimal(n).len() > 0,
        all_digits(crate::text::decimal(n)),
        forall|i: int| 0 <= i < crate::text::decimal(n).len() ==> !is_ws(#[trigger] crate::text::decimal(n)[i]) && crate::text::decimal(n)[i] != '█',
        digits_value(crate::text::decimal(n)) == n,
    decreases n,
{
    let d = crate::text::decimal(n);
    if n < 10 {
        assert(d =~= seq![crate::text::digit_char(n)]);
        assert(d.drop_last() =~= Seq::<char>::empty());
        assert(digits_value(d.drop_last()) == 0);
    } else {
        lemma_decimal_digits(n / 10);
        let p = crate::text::decimal(n / 10);
        assert(d == p.push(crate::text::digit_char(n % 10)));
        assert(d.drop_last() =~= p);
        assert forall|i: int| 0 <= i < d.len() implies is_ascii_digit(#[trigger] d[i]) by {
            if i < p.len() {
                assert(d[i] == p[i]);
            }
        }
        assert forall|i: int| 0 <= i < d.len() implies !is_ws(#[trigger] d[i]) && d[i] != '█' by {
            if i < p.len() {
                assert(d[i] == p[i]);
            }
        }
        assert(n == (n / 10) * 10 + n % 10);
    }
}

/// A number's digits are one word.
proof fn lemma_split_ws_word(s: Seq<char>)
    requires
        s.len() > 0,
        forall|i: int| 0 <= i < s.len() ==> !is_ws(#[trigger] s[i]),
    ensures
        split_ws(s) == seq![s],
    decreases s.len(),
{
    if s.len() == 1 {
        assert(s.drop_last() =~= Seq::<char>::empty());
        assert(split_ws(s.drop_last()) =~= Seq::<Seq<char>>::empty());
        assert(seq![s.last()] =~= s);
    } else {
        assert forall|i: int| 0 <= i < s.drop_last().len() implies !is_ws(#[trigger] s.drop_last()[i]) by {
            assert(s.drop_last()[i] == s[i]);
        }
        lemma_split_ws_word(s.drop_last());
        assert(!is_ws(s[s.len() - 2]));
        assert(!is_ws(s.last()));
        assert(s.drop_last().push(s.last()) =~= s);
    }
}

proof fn lemma_last_index_suffix(r: Seq<char>, t: Seq<char>, c: char)
    requires
        r.len() > 0,
        r.last() == c,
        forall|i: int| 0 <= i < t.len() ==> #[trigger] t[i] != c,
    ensures
        last_index_of(r + t, c) == r.len() - 1,
    decreases t.len(),
{
    if t.len() == 0 {
        assert(r + t =~= r);
    } else {
        assert((r + t).last() == t.last());
        assert((r + t).drop_last() =~= r + t.drop_last());
        assert forall|i: int| 0 <= i < t.drop_last().len() implies #[trigger] t.drop_last()[i] != c by {
            assert(t.drop_last()[i] == t[i]);
        }
        lemma_last_index_suffix(r, t.drop_last(), c);
    }
}

/// A bar chart line, without its color codes, reads back as its label and
/// value: the label without the padding and the value the line ends with.
pub proof fn lemma_bar_line_round_trip(label: Seq<char>, value: nat, width: nat, bars: nat)
    requires
        label.len() > 0,
        !is_ws(label[0]),
        !is_ws(label.last()),
        !label.contains('█'),
        bars > 0,
        value <= usize::MAX,
    ensures
        parse_bar_chart_line_spec(plain_bar_line(label, value, width, bars)) == Some((label, value)),
{
    reveal_strlit("    ");
    reveal_strlit(" ");
    let pad = crate::text::pad_right(label, width);
    let spaces: Seq<char> = if label.len() < width {
        crate::text::repeat(' ', (width - label.len()) as nat)
    } else {
        Seq::empty()
    };
    assert(pad =~= label + spaces);
    let head = "    "@ + pad + " "@;
    let bar = crate::text::repeat('█', bars);
    let d = crate::text::decimal(value);
    let tail = " "@ + d;
    let line = plain_bar_line(label, value, width, bars);
    assert(line =~= head + (bar + tail));
    lemma_decimal_digits(value);
    let k = head.len() as int;
    // The first block is where the bar starts.
    let blk = seq!['█'];
    assert(line[k] == '█');
    assert(line.subrange(k, k + 1) =~= blk);
    assert(crate::text::matches_at(line, blk, k));
    crate::text::lemma_find(line, blk);
    assert forall|j: int| 0 <= j < k implies !crate::text::matches_at(line, blk, j) by {
        assert(line[j] == head[j]);
        if j < 4 {
        } else if j < 4 + pad.len() {
            assert(head[j] == pad[j - 4]);
            if j - 4 < label.len() {
                assert(pad[j - 4] == label[j - 4]);
            } else {
                assert(pad[j - 4] == spaces[j - 4 - label.len()]);
            }
        }
        if crate::text::matches_at(line, blk, j) {
            assert(line.subrange(j, j + 1)[0] == line[j]);
        }
    }
    assert(crate::text::contains(line, blk));
    assert(find(line, blk) == Some(k));
    // The label.
    let lead = "    "@;
    let trail = spaces + " "@;
    assert(all_ws(lead));
    assert forall|i: int| 0 <= i < trail.len() implies is_ws(#[trigger] trail[i]) by {
        if i < spaces.len() {
        }
    }
    assert(line.take(k) =~= lead + label + trail);
    lemma_trim_around(lead, label, trail);
    // After the bar: the value.
    let after = line.skip(k);
    assert(after =~= bar + tail);
    assert forall|i: int| 0 <= i < tail.len() implies #[trigger] tail[i] != '█' by {
        if i > 0 {
            assert(tail[i] == d[i - 1]);
        }
    }
    lemma_last_index_suffix(bar, tail, '█');
    assert(after.skip(bars as int) =~= tail);
    assert(all_ws(" "@));
    assert(all_ws(Seq::<char>::empty()));
    assert(" "@ + d + Seq::<char>::empty() =~= tail);
    lemma_trim_around(" "@, d, Seq::<char>::empty());
    lemma_split_ws_word(d);
    assert(unsigned_digits(d) == d);
}

/// The bars the chart prints for an item, without their color codes, read
/// back as the item: for a label of at most 30 bytes with no surrounding
/// whitespace and no block character, and a value whose bar is at least one
/// block long (a fortieth of the largest value or more).
pub proof fn lemma_printed_bar_round_trip(label: Seq<char>, value: nat, max: nat, width: nat)
    requires
        label.len() > 0,
        !is_ws(label[0]),
        !is_ws(label.last()),
        !label.contains('█'),
        crate::text::utf8_len(label) <= 30,
        0 < max,
        value <= max,
        value * 40 >= max,
        value <= usize::MAX,
    ensures
        parse_bar_chart_line_spec(
            plain_bar_line(
                crate::display::truncate_label(label, 30),
                value,
                width,
                crate::display::bar_width(value, max),
            ),
        ) == Some((label, value)),
{
    assert(crate::display::truncate_label(label, 30) == label);
    let p: int = (value * 40) as int;
    let m: int = max as int;
    assert(p / m >= 1) by (nonlinear_arith)
        requires
            p >= m,
            m > 0,
    ;
    assert(crate::display::bar_width(value, max) > 0);
    lemma_bar_line_round_trip(label, value, width, crate::display::bar_width(value, max));
}

/// A stat line "Label: Value": both non-empty, the label at most 40 bytes,
/// neither a path-like label (with '/' or '.') nor a value holding "──".
pub open spec fn parse_stat_line_spec(line: Seq<char>) -> Option<(Seq<char>, Seq<char>)> {
    match find(line, seq![':']) {
        Some(p) => {
            let label = trim(line.take(p));
            let value = trim(line.skip(p + 1));
            if label.len() == 0 || value.len() == 0 || utf8_len(label) > 40 {
                None
            } else if label.contains('/') || label.contains('.') || contains(value, "──"@) {
                None
            } else {
                Some((label, value))
            }
        },
        None => None,
    }
}

/// Parse a stat line like "Label: Value" or "Label:  Value".
pub fn parse_stat_line(line: &str) -> (r: Option<(String, String)>)
    ensures
        r matches Some(x) ==> parse_stat_line_spec(line@) == Some((x.0@, x.1@)),
        r is None ==> parse_stat_line_spec(line@) is None,
{
    let l = chars_of(line);
    let mut colon: Vec<char> = Vec::new();
    colon.push(':');
    proof {
        assert(colon@ =~= seq![':']);
    }
    match find_exec(&l, &colon) {
        Some(p) => {
            proof {
                crate::text::lemma_find(l@, colon@);
            }
            let head = slice(&l, 0, p);
            let label = trim_exec(&head);
            let ll = l.len();
            let tail = slice(&l, p + 1, ll);
            let value = trim_exec(&tail);
            if label.len() == 0 || value.len() == 0 || utf8_len_capped_exec(&label, 41) > 40 {
                return None;
            }
            if has_char(&label, '/') || has_char(&label, '.') || contains_str(&value, "──") {
                return None;
            }
            Some((string_of(&label), string_of(&value)))
        },
        None => None,
    }
}

/// The column names of a header from character `s` on, given the name being
/// read and how many spaces (up to two) follow it: names are separated by
/// runs of two or more spaces, a single space stays inside a name, and
/// spaces before the first name or after the last one are dropped.
pub open spec fn names_from(s: Seq<char>, cur: Seq<char>, spaces: nat) -> Seq<Seq<char>>
    decreases s.len(),
{
    if s.len() == 0 {
        if cur.len() > 0 {
            seq![cur]
        } else {
            Seq::empty()
        }
    } else if s[0] == ' ' {
        names_from(s.drop_first(), cur, if spaces >= 2 { 2 } else { spaces + 1 })
    } else if cur.len() == 0 {
        names_from(s.drop_first(), seq![s[0]], 0)
    } else if spaces >= 2 {
        seq![cur] + names_from(s.drop_first(), seq![s[0]], 0)
    } else if spaces == 1 {
        names_from(s.drop_first(), cur.push(' ').push(s[0]), 0)
    } else {
        names_from(s.drop_first(), cur.push(s[0]), 0)
    }
}

/// The column names of a table header line: the text between runs of two or
/// more spaces, as `detect_column_positions` places the columns.
pub open spec fn column_names(line: Seq<char>) -> Seq<Seq<char>> {
    names_from(line, Seq::empty(), 0)
}

/// Split a table header line into column names.
pub fn parse_table_columns(line: &str) -> (r: Vec<String>)
    ensures
        Seq::new(r@.len(), |i: int| r@[i]@) == column_names(line@),
{
    let l = chars_of(line);
    let mut r: Vec<String> = Vec::new();
    let mut cur: Vec<char> = Vec::new();
    let mut spaces: usize = 0;
    let mut i: usize = 0;
    proof {
        assert(l@.skip(0) =~= l@);
        assert(Seq::new(r@.len(), |k: int| r@[k]@) + names_from(l@.skip(0), cur@, spaces as nat) =~= column_names(line@));
    }
    while i < l.len()
        invariant
            i <= l@.len(),
            spaces <= 2,
            l@ == line@,
            Seq::new(r@.len(), |k: int| r@[k]@) + names_from(l@.skip(i as int), cur@, spaces as nat) == column_names(line@),
        decreases l@.len() - i,
    {
        let c = l[i];
        let ghost rv = Seq::new(r@.len(), |k: int| r@[k]@);
        let ghost cur0 = cur@;
        let ghost sp0 = spaces as nat;
        let ghost rest = l@.skip(i as int);
        proof {
            assert(rest[0] == c);
            assert(rest.drop_first() =~= l@.skip(i + 1));
        }
        if c == ' ' {
            if spaces < 2 {
                spaces = spaces + 1;
            }
            proof {
                assert(names_from(rest, cur0, sp0) == names_from(l@.skip(i + 1), cur@, spaces as nat));
            }
        } else if cur.len() == 0 {
            cur.push(c);
            spaces = 0;
            proof {
                assert(cur@ =~= seq![c]);
                assert(names_from(rest, cur0, sp0) == names_from(l@.skip(i + 1), cur@, spaces as nat));
            }
        } else if spaces >= 2 {
            r.push(string_of(&cur));
            cur = Vec::new();
            cur.push(c);
            spaces = 0;
            proof {
                assert(Seq::new(r@.len(), |k: int| r@[k]@) =~= rv.push(cur0));
                assert(cur@ =~= seq![c]);
                assert(names_from(rest, cur0, sp0) == seq![cur0] + names_from(l@.skip(i + 1), cur@, 0));
                assert(rv + (seq![cur0] + names_from(l@.skip(i + 1), cur@, 0)) =~= rv.push(cur0) + names_from(l@.skip(i + 1), cur@, 0));
            }
        } else if spaces == 1 {
            cur.push(' ');
            cur.push(c);
            spaces = 0;
            proof {
                assert(cur@ =~= cur0.push(' ').push(c));
                assert(names_from(rest, cur0, sp0) == names_from(l@.skip(i + 1), cur@, spaces as nat));
            }
        } else {
            cur.push(c);
            proof {
                assert(cur@ =~= cur0.push(c));
                assert(names_from(rest, cur0, sp0) == names_from(l@.skip(i + 1), cur@, spaces as nat));
            }
        }
        i += 1;
    }
    let ghost rv = Seq::new(r@.len(), |k: int| r@[k]@);
    proof {
        assert(l@.skip(i as int).len() == 0);
    }
    if cur.len() > 0 {
        r.push(string_of(&cur));
        proof {
            assert(Seq::new(r@.len(), |k: int| r@[k]@) =~= rv + seq![cur@]);
        }
    } else {
        proof {
            assert(rv + Seq::<Seq<char>>::empty() =~= rv);
        }
    }
    r
}

/// The byte offset of character `k` of `s`.
pub open spec fn byte_pos(s: Seq<char>, k: int) -> nat {
    utf8_len(s.take(k))
}

/// Column starts found from character `k` on: the byte offset of each
/// character that follows a run of at least two spaces.
pub open spec fn column_starts_from(s: Seq<char>, k: int, in_space: bool, count: nat) -> Seq<nat>
    decreases s.len() - k,
{
    if k < 0 || k >= s.len() {
        Seq::empty()
    } else if s[k] == ' ' {
        column_starts_from(s, k + 1, true, count + 1)
    } else {
        let here: Seq<nat> = if in_space && count >= 2 {
            seq![byte_pos(s, k)]
        } else {
            Seq::empty()
        };
        here + column_starts_from(s, k + 1, false, 0)
    }
}

/// The column positions of a header: the byte length of its leading
/// whitespace, then the start of each column after a gap of two or more
/// spaces (scanning from the character whose index is that byte length).
pub open spec fn column_positions(header: Seq<char>) -> Seq<nat> {
    let offset = (utf8_len(header) - utf8_len(trim_start(header))) as nat;
    let first = if offset < header.len() {
        offset as int
    } else {
        header.len() as int
    };
    seq![offset] + column_starts_from(header, first, false, 0)
}


proof fn lemma_utf8_len_take_step(s: Seq<char>, k: int)
    requires
        0 <= k < s.len(),
    ensures
        utf8_len(s.take(k + 1)) == utf8_len(s.take(k)) + char_width(s[k]),
{
    assert(s.take(k + 1).drop_last() =~= s.take(k));
    assert(s.take(k + 1).last() == s[k]);
}

proof fn lemma_utf8_len_take_le(s: Seq<char>, k: int)
    requires
        0 <= k <= s.len(),
    ensures
        utf8_len(s.take(k)) <= utf8_len(s),
{
    lemma_utf8_len_split(s, k);
}

/// Detect column start positions (byte offsets) from a header line based on multi-space gaps.
pub fn detect_column_positions(header: &str) -> (r: Vec<usize>)
    requires
        utf8_len(header@) <= isize::MAX,
    ensures
        r@.len() == column_positions(header@).len(),
        forall|i: int| 0 <= i < r@.len() ==> r@[i] as nat == #[trigger] column_positions(header@)[i],
{
    let h = chars_of(header);
    let k0 = leading_ws(&h);
    let pre = slice(&h, 0, k0);
    proof {
        lemma_utf8_len_split(h@, k0 as int);
        lemma_utf8_len_take_le(h@, k0 as int);
        assert(pre@ == h@.take(k0 as int));
        assert(h@.subrange(k0 as int, h@.len() as int) == h@.skip(k0 as int));
    }
    let offset = utf8_len_exec(&pre);
    assert(offset as nat == (utf8_len(header@) - utf8_len(trim_start(header@))) as nat);
    let first: usize = if offset < h.len() {
        offset
    } else {
        h.len()
    };
    let mut r: Vec<usize> = Vec::new();
    r.push(offset);
    let ghost spec = column_positions(header@);
    let fp = slice(&h, 0, first);
    proof {
        lemma_utf8_len_take_le(h@, first as int);
        assert(fp@ == h@.take(first as int));
    }
    let mut bp = utf8_len_exec(&fp);
    let mut k: usize = first;
    let mut in_space = false;
    let mut count: usize = 0;
    proof {
        assert(Seq::new(r@.len(), |i: int| r@[i] as nat) =~= seq![offset as nat]);
    }
    while k < h.len()
        invariant
            first <= k <= h@.len(),
            h@ == header@,
            spec == column_positions(header@),
            count <= k,
            bp == utf8_len(h@.take(k as int)),
            utf8_len(h@) <= isize::MAX,
            spec == Seq::new(r@.len(), |i: int| r@[i] as nat) + column_starts_from(h@, k as int, in_space, count as nat),
        decreases h@.len() - k,
    {
        let ghost before = Seq::new(r@.len(), |i: int| r@[i] as nat);
        proof {
            lemma_utf8_len_take_step(h@, k as int);
            lemma_utf8_len_take_le(h@, k + 1);
        }
        if h[k] == ' ' {
            count = count + 1;
            in_space = true;
        } else {
            if in_space && count >= 2 {
                r.push(bp);
                proof {
                    assert(Seq::new(r@.len(), |i: int| r@[i] as nat) =~= before + seq![bp as nat]);
                }
            }
            in_space = false;
            count = 0;
        }
        bp = bp + char_width_exec(h[k]);
        k += 1;
    }
    proof {
        assert(Seq::new(r@.len(), |i: int| r@[i] as nat) + column_starts_from(h@, k as int, in_space, count as nat) =~= Seq::new(r@.len(), |i: int| r@[i] as nat));
        assert forall|i: int| 0 <= i < r@.len() implies r@[i] as nat == #[trigger] spec[i] by {
            assert(Seq::new(r@.len(), |i: int| r@[i] as nat)[i] == r@[i] as nat);
        }
    }
    r
}

/// `&s[a..b]` for byte offsets: `None` where Rust would panic (not
/// character boundaries, or `a > b`).
pub open spec fn slice_bytes(s: Seq<char>, a: nat, b: nat) -> Option<Seq<char>> {
    if a <= b && is_boundary(s, a as int) && is_boundary(s, b as int) {
        Some(s.subrange(prefix_chars(s, a as int) as int, prefix_chars(s, b as int) as int))
    } else {
        None
    }
}

/// The cells of a row cut at the column positions from `k` on, each trimmed
/// (`None` where a cut would not fall on a character boundary).
pub open spec fn position_columns(line: Seq<char>, pos: Seq<nat>, k: int) -> Option<Seq<Seq<char>>>
    decreases pos.len() - k,
{
    if k < 0 || k >= pos.len() {
        Some(Seq::empty())
    } else {
        let len = utf8_len(line);
        let start = pos[k];
        let end = if k + 1 < pos.len() {
            pos[k + 1]
        } else {
            len
        };
        let cell: Option<Seq<char>> = if start < len {
            let ae = if end < len {
                end
            } else {
                len
            };
            match slice_bytes(line, start, ae) {
                Some(x) => Some(trim(x)),
                None => None,
            }
        } else {
            Some(Seq::empty())
        };
        match (cell, position_columns(line, pos, k + 1)) {
            (Some(c), Some(rest)) => Some(seq![c] + rest),
            _ => None,
        }
    }
}

/// A row split at the column positions; by whitespace when there are fewer
/// than two positions or fewer cells than expected (`None`: Rust would panic).
pub open spec fn split_by_positions_spec(line: Seq<char>, pos: Seq<nat>, expected: nat) -> Option<Seq<Seq<char>>> {
    if pos.len() < 2 {
        Some(split_ws(line))
    } else {
        match position_columns(line, pos, 0) {
            Some(cols) => if cols.len() < expected {
                Some(split_ws(line))
            } else {
                Some(cols)
            },
            None => None,
        }
    }
}

pub open spec fn usizes_view(v: Seq<usize>) -> Seq<nat> {
    Seq::new(v.len(), |i: int| v[i] as nat)
}

fn slice_bytes_exec(s: &[char], a: usize, b: usize) -> (r: Option<Vec<char>>)
    requires
        b <= utf8_len(s@),
        utf8_len(s@) <= isize::MAX,
    ensures
        r matches Some(x) ==> slice_bytes(s@, a as nat, b as nat) == Some(x@),
        r is None ==> slice_bytes(s@, a as nat, b as nat) is None,
{
    if a > b {
        return None;
    }
    if !is_boundary_exec(s, a) || !is_boundary_exec(s, b) {
        return None;
    }
    let pa = byte_prefix_exec(s, a);
    let pb = byte_prefix_exec(s, b);
    proof {
        crate::text::lemma_prefix_chars_bound(s@, a as int);
        crate::text::lemma_prefix_chars_bound(s@, b as int);
        crate::text::lemma_prefix_chars_mono(s@, a as int, b as int);
    }
    Some(slice(s, pa.len(), pb.len()))
}

fn position_columns_exec(line: &[char], pos: &[usize]) -> (r: Option<Vec<Vec<char>>>)
    requires
        utf8_len(line@) <= isize::MAX,
    ensures
        r matches Some(x) ==> position_columns(line@, usizes_view(pos@), 0) == Some(views(x@)),
        r is None ==> position_columns(line@, usizes_view(pos@), 0) is None,
{
    let ghost pv = usizes_view(pos@);
    let len = utf8_len_exec(line);
    let mut cols: Vec<Vec<char>> = Vec::new();
    let mut k: usize = 0;
    proof {
        assert(views(cols@) =~= Seq::<Seq<char>>::empty());
    }
    while k < pos.len()
        invariant
            k <= pos@.len(),
            pv == usizes_view(pos@),
            len == utf8_len(line@),
            utf8_len(line@) <= isize::MAX,
            position_columns(line@, pv, 0) == match position_columns(line@, pv, k as int) {
                Some(rest) => Some(views(cols@) + rest),
                None => None,
            },
        decreases pos@.len() - k,
    {
        let start = pos[k];
        let end = if k + 1 < pos.len() {
            pos[k + 1]
        } else {
            len
        };
        let ghost before = views(cols@);
        if start < len {
            let ae = if end < len {
                end
            } else {
                len
            };
            match slice_bytes_exec(line, start, ae) {
                Some(x) => {
                    let c = trim_exec(&x);
                    cols.push(c);
                    proof {
                        assert(views(cols@) =~= before.push(trim(x@)));
                        match position_columns(line@, pv, k + 1) {
                            Some(rest) => {
                                assert(views(cols@) + rest =~= before + (seq![trim(x@)] + rest));
                            },
                            None => {},
                        }
                    }
                },
                None => {
                    return None;
                },
            }
        } else {
            cols.push(Vec::new());
            proof {
                assert(views(cols@) =~= before.push(Seq::<char>::empty()));
                match position_columns(line@, pv, k + 1) {
                    Some(rest) => {
                        assert(views(cols@) + rest =~= before + (seq![Seq::<char>::empty()] + rest));
                    },
                    None => {},
                }
            }
        }
        k += 1;
    }
    proof {
        assert(views(cols@) + Seq::<Seq<char>>::empty() =~= views(cols@));
    }
    Some(cols)
}

/// Split a row, or `None` where Rust's byte slicing would panic.
pub fn try_split_by_positions(line: &[char], positions: &[usize], expected_cols: usize) -> (r: Option<Vec<Vec<char>>>)
    requires
        utf8_len(line@) <= isize::MAX,
    ensures
        r matches Some(x) ==> split_by_positions_spec(line@, usizes_view(positions@), expected_cols as nat) == Some(views(x@)),
        r is None ==> split_by_positions_spec(line@, usizes_view(positions@), expected_cols as nat) is None,
{
    if positions.len() < 2 {
        return Some(split_ws_exec(line));
    }
    match position_columns_exec(line, positions) {
        Some(cols) => {
            if cols.len() < expected_cols {
                Some(split_ws_exec(line))
            } else {
                Some(cols)
            }
        },
        None => None,
    }
}

/// Split a row line based on detected column positions.
pub fn split_by_positions(line: &str, positions: &[usize], expected_cols: usize) -> (r: Vec<String>)
    requires
        utf8_len(line@) <= isize::MAX,
        split_by_positions_spec(line@, usizes_view(positions@), expected_cols as nat) is Some,
    ensures
        split_by_positions_spec(line@, usizes_view(positions@), expected_cols as nat) == Some(
            Seq::new(r@.len(), |i: int| r@[i]@),
        ),
{
    let l = chars_of(line);
    match try_split_by_positions(&l, positions, expected_cols) {
        Some(cols) => {
            let mut r: Vec<String> = Vec::new();
            let mut i: usize = 0;
            while i < cols.len()
                invariant
                    i <= cols@.len(),
                    r@.len() == i,
                    forall|k: int| 0 <= k < i ==> #[trigger] r@[k]@ == cols@[k]@,
                decreases cols@.len() - i,
            {
                r.push(string_of(&cols[i]));
                i += 1;
            }
            proof {
                assert(Seq::new(r@.len(), |i: int| r@[i]@) =~= views(cols@));
            }
            r
        },
        None => Vec::new(),
    }
}


/// HTML text for a character: `&`, `<`, `>` and `"` as entities.
pub open spec fn html_escape_char(c: char) -> Seq<char> {
    if c == '&' {
        "&amp;"@
    } else if c == '<' {
        "&lt;"@
    } else if c == '>' {
        "&gt;"@
    } else if c == '"' {
        "&quot;"@
    } else {
        seq![c]
    }
}

/// Escapes text for HTML (as replacing `&`, then `<`, `>` and `"`, by their entities).
pub open spec fn html_escape_spec(s: Seq<char>) -> Seq<char>
    decreases s.len(),
{
    if s.len() == 0 {
        Seq::empty()
    } else {
        html_escape_spec(s.drop_last()) + html_escape_char(s.last())
    }
}

/// Escaped text holds no `<`, `>` or `"`: markup cannot be injected through it.
pub proof fn lemma_html_escape_safe(s: Seq<char>)
    ensures
        forall|i: int|
            0 <= i < html_escape_spec(s).len() ==> {
                let c = #[trigger] html_escape_spec(s)[i];
                c != '<' && c != '>' && c != '"'
            },
    decreases s.len(),
{
    if s.len() > 0 {
        lemma_html_escape_safe(s.drop_last());
        let p = html_escape_spec(s.drop_last());
        let e = html_escape_char(s.last());
        reveal_strlit("&amp;");
        reveal_strlit("&lt;");
        reveal_strlit("&gt;");
        reveal_strlit("&quot;");
        assert forall|i: int| 0 <= i < (p + e).len() implies {
            let c = #[trigger] (p + e)[i];
            c != '<' && c != '>' && c != '"'
        } by {
            if i >= p.len() {
                assert((p + e)[i] == e[i - p.len()]);
            } else {
                assert((p + e)[i] == p[i]);
            }
        }
    }
}

/// Decodes the entities that escaping writes (`&amp;`, `&lt;`, `&gt;`,
/// `&quot;`), reading from the front; other text is kept.
pub open spec fn html_unescape_spec(t: Seq<char>) -> Seq<char>
    decreases t.len(),
{
    if t.len() == 0 {
        Seq::empty()
    } else if t.len() >= 5 && t.take(5) == "&amp;"@ {
        seq!['&'] + html_unescape_spec(t.skip(5))
    } else if t.len() >= 4 && t.take(4) == "&lt;"@ {
        seq!['<'] + html_unescape_spec(t.skip(4))
    } else if t.len() >= 4 && t.take(4) == "&gt;"@ {
        seq!['>'] + html_unescape_spec(t.skip(4))
    } else if t.len() >= 6 && t.take(6) == "&quot;"@ {
        seq!['"'] + html_unescape_spec(t.skip(6))
    } else {
        seq![t[0]] + html_unescape_spec(t.drop_first())
    }
}

/// Escaping the first character and then the rest.
proof fn lemma_html_escape_front(s: Seq<char>)
    requires
        s.len() > 0,
    ensures
        html_escape_spec(s) == html_escape_char(s[0]) + html_escape_spec(s.drop_first()),
    decreases s.len(),
{
    if s.len() == 1 {
        assert(s.drop_last() =~= Seq::<char>::empty());
        assert(s.drop_first() =~= Seq::<char>::empty());
        assert(html_escape_spec(s.drop_last()) =~= Seq::<char>::empty());
        assert(s.last() == s[0]);
        assert(html_escape_spec(s) =~= html_escape_char(s[0]));
    } else {
        lemma_html_escape_front(s.drop_last());
        assert(s.drop_last().drop_first() =~= s.drop_first().drop_last());
        assert(s.drop_first().last() == s.last());
        assert(s.drop_last()[0] == s[0]);
        assert(html_escape_char(s[0]) + html_escape_spec(s.drop_last().drop_first()) + html_escape_char(s.last())
            =~= html_escape_char(s[0]) + (html_escape_spec(s.drop_first().drop_last()) + html_escape_char(s.drop_first().last())));
    }
}

/// Unescaping what escaping wrote gives the text back.
pub proof fn lemma_html_escape_round_trip(s: Seq<char>)
    ensures
        html_unescape_spec(html_escape_spec(s)) == s,
    decreases s.len(),
{
    reveal_strlit("&amp;");
    reveal_strlit("&lt;");
    reveal_strlit("&gt;");
    reveal_strlit("&quot;");
    if s.len() == 0 {
        assert(html_escape_spec(s) =~= Seq::<char>::empty());
    } else {
        lemma_html_escape_front(s);
        lemma_html_escape_round_trip(s.drop_first());
        let c = s[0];
        let e = html_escape_char(c);
        let rest = html_escape_spec(s.drop_first());
        let t = e + rest;
        assert(t.skip(e.len() as int) =~= rest);
        assert(t.take(e.len() as int) =~= e);
        assert("&amp;"@[1] == 'a' && "&lt;"@[1] == 'l' && "&gt;"@[1] == 'g' && "&quot;"@[1] == 'q');
        assert(t.len() >= 5 ==> t.take(5)[0] == t[0] && t.take(5)[1] == t[1]);
        assert(t.len() >= 4 ==> t.take(4)[0] == t[0] && t.take(4)[1] == t[1]);
        assert(t.len() >= 6 ==> t.take(6)[0] == t[0] && t.take(6)[1] == t[1]);
        if c == '&' {
            assert(t.take(5) =~= "&amp;"@);
        } else if c == '<' {
            assert(t.take(4) =~= "&lt;"@);
            assert(t[1] == 'l');
        } else if c == '>' {
            assert(t.take(4) =~= "&gt;"@);
            assert(t[1] == 'g');
        } else if c == '"' {
            assert(t.take(6) =~= "&quot;"@);
            assert(t[1] == 'q');
        } else {
            assert(t[0] == c);
            assert(t.drop_first() =~= rest);
        }
        assert(seq![c] + s.drop_first() =~= s);
    }
}

/// Text without `&`, `<`, `>` or `"` is left as it is.
pub proof fn lemma_html_escape_plain(s: Seq<char>)
    requires
        forall|i: int| 0 <= i < s.len() ==> #[trigger] s[i] != '&' && s[i] != '<' && s[i] != '>' && s[i] != '"',
    ensures
        html_escape_spec(s) == s,
    decreases s.len(),
{
    if s.len() > 0 {
        lemma_html_escape_plain(s.drop_last());
        assert(s[s.len() - 1] == s.last());
        assert(s.drop_last().push(s.last()) =~= s);
    }
}

/// A character that escaping replaces.
pub open spec fn is_html_special(c: char) -> bool {
    c == '&' || c == '<' || c == '>' || c == '"'
}

/// Escaping never shortens the text, and lengthens it whenever the text
/// holds a character it replaces.
proof fn lemma_html_escape_len(s: Seq<char>)
    ensures
        html_escape_spec(s).len() >= s.len(),
        (exists|i: int| 0 <= i < s.len() && is_html_special(#[trigger] s[i])) ==> html_escape_spec(s).len() > s.len(),
    decreases s.len(),
{
    reveal_strlit("&amp;");
    reveal_strlit("&lt;");
    reveal_strlit("&gt;");
    reveal_strlit("&quot;");
    if s.len() > 0 {
        lemma_html_escape_len(s.drop_last());
        if exists|i: int| 0 <= i < s.len() && is_html_special(#[trigger] s[i]) {
            let i = choose|i: int| 0 <= i < s.len() && is_html_special(#[trigger] s[i]);
            if i < s.len() - 1 {
                assert(s.drop_last()[i] == s[i]);
            }
        }
    }
}

/// Escaping leaves a text as it is exactly when it holds no `&`, `<`, `>`
/// or `"`.
pub proof fn lemma_html_escape_unchanged_iff(s: Seq<char>)
    ensures
        html_escape_spec(s) == s <==> forall|i: int| 0 <= i < s.len() ==> !is_html_special(#[trigger] s[i]),
{
    lemma_html_escape_len(s);
    if forall|i: int| 0 <= i < s.len() ==> !is_html_special(#[trigger] s[i]) {
        lemma_html_escape_plain(s);
    }
}

pub fn html_escape(input: &str) -> (r: String)
    ensures
        r@ == html_escape_spec(input@),
{
    let s = chars_of(input);
    let mut r: Vec<char> = Vec::new();
    let mut i: usize = 0;
    proof {
        assert(s@.take(0) =~= Seq::<char>::empty());
    }
    while i < s.len()
        invariant
            i <= s@.len(),
            r@ == html_escape_spec(s@.take(i as int)),
        decreases s@.len() - i,
    {
        let c = s[i];
        let ghost before = r@;
        if c == '&' {
            extend_str(&mut r, "&amp;");
        } else if c == '<' {
            extend_str(&mut r, "&lt;");
        } else if c == '>' {
            extend_str(&mut r, "&gt;");
        } else if c == '"' {
            extend_str(&mut r, "&quot;");
        } else {
            r.push(c);
        }
        proof {
            assert(s@.take(i + 1).drop_last() =~= s@.take(i as int));
            assert(s@.take(i + 1).last() == c);
            assert(r@ =~= before + html_escape_char(c));
        }
        i += 1;
    }
    proof {
        assert(s@.take(s@.len() as int) =~= s@);
    }
    string_of(&r)
}

/// The pattern of an ANSI color escape sequence.
pub const ANSI_ESCAPE_PATTERN: &'static str = "\x1b\\[[0-9;]*m";

/// The text with its ANSI color sequences removed.
pub open spec fn strip_ansi_spec(input: Seq<char>) -> Seq<char> {
    if regex_compiles(ANSI_ESCAPE_PATTERN@) {
        regex_remove_all(ANSI_ESCAPE_PATTERN@, input)
    } else {
        input
    }
}

/// Removes ANSI color escape sequences.
pub fn strip_ansi(input: &str) -> (r: String)
    ensures
        r@ == strip_ansi_spec(input@),
{
    match Pattern::new(ANSI_ESCAPE_PATTERN) {
        Some(p) => p.remove_all(input),
        None => string_of(&chars_of(input)),
    }
}

/// A parsed report element.
pub enum Element {
    SectionHeader(String),
    SubHeader(String),
    BarChart(Vec<(String, usize)>),
    Table { headers: Vec<String>, rows: Vec<Vec<String>> },
    Stat(String, String),
    Warning(String),
    Passed(String),
    Info(String),
}

/// A parsed report element, as text.
pub enum ElementV {
    SectionHeader(Seq<char>),
    SubHeader(Seq<char>),
    BarChart(Seq<(Seq<char>, nat)>),
    Table(Seq<Seq<char>>, Seq<Seq<Seq<char>>>),
    Stat(Seq<char>, Seq<char>),
    Warning(Seq<char>),
    Passed(Seq<char>),
    Info(Seq<char>),
}

pub open spec fn strings_v(v: Seq<String>) -> Seq<Seq<char>> {
    Seq::new(v.len(), |i: int| v[i]@)
}

pub open spec fn items_v(v: Seq<(String, usize)>) -> Seq<(Seq<char>, nat)> {
    Seq::new(v.len(), |i: int| (v[i].0@, v[i].1 as nat))
}

pub open spec fn rows_v(v: Seq<Vec<String>>) -> Seq<Seq<Seq<char>>> {
    Seq::new(v.len(), |i: int| strings_v(v[i]@))
}

pub open spec fn element_view(e: Element) -> ElementV {
    match e {
        Element::SectionHeader(t) => ElementV::SectionHeader(t@),
        Element::SubHeader(t) => ElementV::SubHeader(t@),
        Element::BarChart(items) => ElementV::BarChart(items_v(items@)),
        Element::Table { headers, rows } => ElementV::Table(strings_v(headers@), rows_v(rows@)),
        Element::Stat(a, b) => ElementV::Stat(a@, b@),
        Element::Warning(t) => ElementV::Warning(t@),
        Element::Passed(t) => ElementV::Passed(t@),
        Element::Info(t) => ElementV::Info(t@),
    }
}

pub open spec fn elements_view(v: Seq<Element>) -> Seq<ElementV> {
    Seq::new(v.len(), |i: int| element_view(v[i]))
}

/// A line made of box-drawing separators only.
pub open spec fn is_separator(t: Seq<char>) -> bool {
    forall|i: int| 0 <= i < t.len() ==> (#[trigger] t[i] == '─' || t[i] == '═')
}

/// A line of sparkline bars.
pub open spec fn has_spark(t: Seq<char>) -> bool {
    t.contains('▁') || t.contains('▂') || t.contains('▃') || t.contains('▄') || t.contains('▅')
        || t.contains('▆') || t.contains('▇')
}

/// A line that ends a table.
pub open spec fn ends_table(r: Seq<char>) -> bool {
    r.len() == 0 || starts_with(r, "▸"@) || starts_with(r, "╔"@) || starts_with(r, "⚠"@)
        || starts_with(r, "✓"@) || starts_with(r, "•"@)
}

/// The bar chart lines from `k` on: where they end and the items they give.
pub open spec fn bar_scan(ls: Seq<Seq<char>>, k: int) -> (int, Seq<(Seq<char>, nat)>)
    decreases ls.len() - k,
{
    if k < 0 || k >= ls.len() {
        (ls.len() as int, Seq::empty())
    } else {
        let l = trim(ls[k]);
        if l.len() == 0 || !l.contains('█') {
            (k, Seq::empty())
        } else {
            let rest = bar_scan(ls, k + 1);
            let here: Seq<(Seq<char>, nat)> = match parse_bar_chart_line_spec(l) {
                Some(item) => seq![item],
                None => Seq::empty(),
            };
            (rest.0, here + rest.1)
        }
    }
}

/// The table rows from `k` on: where they end and the rows they give
/// (`None` where splitting a row would panic).
pub open spec fn table_scan(ls: Seq<Seq<char>>, k: int, pos: Seq<nat>, ncols: nat) -> Option<(int, Seq<Seq<Seq<char>>>)>
    decreases ls.len() - k,
{
    if k < 0 || k >= ls.len() {
        Some((ls.len() as int, Seq::empty()))
    } else {
        let r = trim(ls[k]);
        if ends_table(r) {
            Some((k, Seq::empty()))
        } else if starts_with(r, "─"@) {
            table_scan(ls, k + 1, pos, ncols)
        } else {
            match split_by_positions_spec(r, pos, ncols) {
                Some(cols) => match table_scan(ls, k + 1, pos, ncols) {
                    Some(rest) => Some((rest.0, seq![cols] + rest.1)),
                    None => None,
                },
                None => None,
            }
        }
    }
}

/// `pre` followed by the elements of `r`, if any.
pub open spec fn prepend(pre: Seq<ElementV>, r: Option<Seq<ElementV>>) -> Option<Seq<ElementV>> {
    match r {
        Some(s) => Some(pre + s),
        None => None,
    }
}

/// The elements of the report lines from `i` on (`None` where the parse
/// would panic on a table row).
pub open spec fn parse_from(ls: Seq<Seq<char>>, i: int) -> Option<Seq<ElementV>>
    decreases ls.len() - i, 
{
    if i < 0 || i >= ls.len() {
        Some(Seq::empty())
    } else {
        let t = trim(ls[i]);
        if t.len() == 0 {
            parse_from(ls, i + 1)
        } else if starts_with(t, "╔"@) && ends_with(t, "╗"@) {
            if i + 2 < ls.len() && starts_with(trim(ls[i + 1]), "║"@) && ends_with(trim(ls[i + 1]), "║"@) {
                let title = trim(trim_end_matches(trim_start_matches(trim(ls[i + 1]), "║"@), "║"@));
                prepend(seq![ElementV::SectionHeader(title)], parse_from(ls, i + 3))
            } else {
                parse_from(ls, i + 1)
            }
        } else if starts_with(t, "▸"@) {
            let title = trim(trim_start_matches(t, "▸"@));
            let next = if i + 1 < ls.len() && starts_with(trim(ls[i + 1]), "─"@) {
                i + 2
            } else {
                i + 1
            };
            prepend(seq![ElementV::SubHeader(title)], parse_from(ls, next))
        } else if is_separator(t) {
            parse_from(ls, i + 1)
        } else if starts_with(t, "⚠"@) {
            prepend(seq![ElementV::Warning(trim(trim_start_matches(t, "⚠"@)))], parse_from(ls, i + 1))
        } else if starts_with(t, "✓"@) {
            prepend(seq![ElementV::Passed(trim(trim_start_matches(t, "✓"@)))], parse_from(ls, i + 1))
        } else if t.contains('█') {
            let b = bar_scan(ls, i);
            if i < b.0 <= ls.len() {
                let pre: Seq<ElementV> = if b.1.len() > 0 {
                    seq![ElementV::BarChart(b.1)]
                } else {
                    Seq::empty()
                };
                prepend(pre, parse_from(ls, b.0))
            } else {
                None
            }
        } else if has_spark(t) {
            parse_from(ls, if i + 1 < ls.len() { i + 2 } else { i + 1 })
        } else if parse_stat_line_spec(t) is Some {
            let st = parse_stat_line_spec(t)->0;
            prepend(seq![ElementV::Stat(st.0, st.1)], parse_from(ls, i + 1))
        } else if i + 1 < ls.len() && starts_with(trim(ls[i + 1]), "─"@) && utf8_len(trim(ls[i + 1])) > 5 {
            let headers = column_names(t);
            let pos = column_positions(t);
            match table_scan(ls, i + 2, pos, headers.len()) {
                Some(tb) => if i < tb.0 <= ls.len() {
                    prepend(seq![ElementV::Table(headers, tb.1)], parse_from(ls, tb.0))
                } else {
                    None
                },
                None => None,
            }
        } else if starts_with(t, "•"@) {
            prepend(seq![ElementV::Warning(trim(trim_start_matches(t, "•"@)))], parse_from(ls, i + 1))
        } else if t == "(no data)"@ {
            prepend(seq![ElementV::Info("No data available"@)], parse_from(ls, i + 1))
        } else {
            prepend(seq![ElementV::Info(t)], parse_from(ls, i + 1))
        }
    }
}


fn is_separator_exec(t: &[char]) -> (r: bool)
    ensures
        r == is_separator(t@),
{
    let mut i: usize = 0;
    while i < t.len()
        invariant
            i <= t@.len(),
            forall|k: int| 0 <= k < i ==> (#[trigger] t@[k] == '─' || t@[k] == '═'),
        decreases t@.len() - i,
    {
        if !(t[i] == '─' || t[i] == '═') {
            return false;
        }
        i += 1;
    }
    true
}

fn has_spark_exec(t: &[char]) -> (r: bool)
    ensures
        r == has_spark(t@),
{
    has_char(t, '▁') || has_char(t, '▂') || has_char(t, '▃') || has_char(t, '▄') || has_char(t, '▅')
        || has_char(t, '▆') || has_char(t, '▇')
}

fn ends_table_exec(r: &[char]) -> (b: bool)
    ensures
        b == ends_table(r@),
{
    r.len() == 0 || starts_with_str(r, "▸") || starts_with_str(r, "╔") || starts_with_str(r, "⚠")
        || starts_with_str(r, "✓") || starts_with_str(r, "•")
}

fn scan_bars(ls: &Vec<Vec<char>>, i: usize) -> (r: (usize, Vec<(String, usize)>))
    requires
        i <= ls@.len(),
    ensures
        r.0 as int == bar_scan(views(ls@), i as int).0,
        items_v(r.1@) == bar_scan(views(ls@), i as int).1,
        i <= r.0 <= ls@.len(),
{
    let ghost lv = views(ls@);
    let mut items: Vec<(String, usize)> = Vec::new();
    let mut k: usize = i;
    proof {
        assert(items_v(items@) =~= Seq::<(Seq<char>, nat)>::empty());
        assert(bar_scan(lv, i as int).1 =~= items_v(items@) + bar_scan(lv, k as int).1);
    }
    loop
        invariant
            i <= k <= ls@.len(),
            lv == views(ls@),
            bar_scan(lv, i as int).0 == bar_scan(lv, k as int).0,
            bar_scan(lv, i as int).1 == items_v(items@) + bar_scan(lv, k as int).1,
        decreases ls@.len() - k,
    {
        if k >= ls.len() {
            proof {
                assert(items_v(items@) + bar_scan(lv, k as int).1 =~= items_v(items@));
            }
            return (k, items);
        }
        let l = trim_exec(&ls[k]);
        assert(lv[k as int] == ls@[k as int]@);
        if l.len() == 0 || !has_char(&l, '█') {
            proof {
                assert(items_v(items@) + bar_scan(lv, k as int).1 =~= items_v(items@));
            }
            return (k, items);
        }
        let ghost before = items_v(items@);
        let ls_str = string_of(&l);
        match parse_bar_chart_line(ls_str.as_str()) {
            Some(item) => {
                let ghost iv = (item.0@, item.1 as nat);
                items.push(item);
                proof {
                    assert(items_v(items@) =~= before.push(iv));
                    assert(items_v(items@) + bar_scan(lv, k + 1).1 =~= before + (seq![iv] + bar_scan(lv, k + 1).1));
                }
            },
            None => {
                proof {
                    assert(Seq::<(Seq<char>, nat)>::empty() + bar_scan(lv, k + 1).1 =~= bar_scan(lv, k + 1).1);
                }
            },
        }
        k += 1;
    }
}

fn scan_table(ls: &Vec<Vec<char>>, k0: usize, pos: &Vec<usize>, ncols: usize) -> (r: Option<(usize, Vec<Vec<String>>)>)
    requires
        k0 <= ls@.len(),
        forall|j: int| 0 <= j < ls@.len() ==> utf8_len(trim(#[trigger] views(ls@)[j])) <= isize::MAX,
    ensures
        r matches Some(x) ==> table_scan(views(ls@), k0 as int, usizes_view(pos@), ncols as nat) == Some((x.0 as int, rows_v(x.1@))) && k0 <= x.0 <= ls@.len(),
        r is None ==> table_scan(views(ls@), k0 as int, usizes_view(pos@), ncols as nat) is None,
{
    let ghost lv = views(ls@);
    let ghost pv = usizes_view(pos@);
    let mut rows: Vec<Vec<String>> = Vec::new();
    let mut k: usize = k0;
    proof {
        assert(rows_v(rows@) =~= Seq::<Seq<Seq<char>>>::empty());
    }
    loop
        invariant
            k0 <= k <= ls@.len(),
            lv == views(ls@),
            pv == usizes_view(pos@),
            forall|j: int| 0 <= j < ls@.len() ==> utf8_len(trim(#[trigger] views(ls@)[j])) <= isize::MAX,
            table_scan(lv, k0 as int, pv, ncols as nat) == match table_scan(lv, k as int, pv, ncols as nat) {
                Some(t) => Some((t.0, rows_v(rows@) + t.1)),
                None => None,
            },
        decreases ls@.len() - k,
    {
        if k >= ls.len() {
            proof {
                assert(rows_v(rows@) + Seq::<Seq<Seq<char>>>::empty() =~= rows_v(rows@));
            }
            return Some((k, rows));
        }
        let r = trim_exec(&ls[k]);
        assert(lv[k as int] == ls@[k as int]@);
        if ends_table_exec(&r) {
            proof {
                assert(rows_v(rows@) + Seq::<Seq<Seq<char>>>::empty() =~= rows_v(rows@));
            }
            return Some((k, rows));
        }
        if !starts_with_str(&r, "─") {
            match try_split_by_positions(&r, pos.as_slice(), ncols) {
                Some(cols) => {
                    let mut row: Vec<String> = Vec::new();
                    let mut c: usize = 0;
                    while c < cols.len()
                        invariant
                            c <= cols@.len(),
                            row@.len() == c,
                            forall|q: int| 0 <= q < c ==> #[trigger] row@[q]@ == cols@[q]@,
                        decreases cols@.len() - c,
                    {
                        row.push(string_of(&cols[c]));
                        c += 1;
                    }
                    let ghost before = rows_v(rows@);
                    proof {
                        assert(strings_v(row@) =~= views(cols@));
                    }
                    rows.push(row);
                    proof {
                        assert(rows_v(rows@) =~= before.push(views(cols@)));
                        match table_scan(lv, k + 1, pv, ncols as nat) {
                            Some(t) => {
                                assert(rows_v(rows@) + t.1 =~= before + (seq![views(cols@)] + t.1));
                            },
                            None => {},
                        }
                    }
                },
                None => {
                    return None;
                },
            }
        }
        k += 1;
    }
}

pub open spec fn opt_elem(e: Option<Element>) -> Seq<ElementV> {
    match e {
        Some(x) => seq![element_view(x)],
        None => Seq::empty(),
    }
}

/// Reads the element starting at line `i` (there may be none): the next line
/// to read and the element (`None` where the parse would panic).
#[verifier::rlimit(40)]
fn parse_one(ls: &Vec<Vec<char>>, i: usize, Ghost(plain): Ghost<Seq<char>>) -> (r: Option<(usize, Option<Element>)>)
    requires
        i < ls@.len(),
        forall|j: int| 0 <= j < ls@.len() ==> utf8_len(trim(#[trigger] views(ls@)[j])) <= utf8_len(plain),
        utf8_len(plain) <= isize::MAX,
    ensures
        r matches Some(x) ==> i < x.0 <= ls@.len() && parse_from(views(ls@), i as int) == prepend(opt_elem(x.1), parse_from(views(ls@), x.0 as int)),
        r is None ==> parse_from(views(ls@), i as int) is None,
{
    let ghost lv = views(ls@);
    let n = ls.len();
    let t = trim_exec(&ls[i]);
    assert(lv[i as int] == ls@[i as int]@);
    if t.len() == 0 {
        proof {
            lemma_prepend_empty(parse_from(lv, i + 1));
        }
        return Some((i + 1, None));
    }
    if starts_with_str(&t, "╔") && ends_with_str(&t, "╗") {
        return parse_box(ls, i);
    }
    if starts_with_str(&t, "▸") {
        let a = trim_start_matches_str(&t, "▸");
        let title = trim_exec(&a);
        let next: usize = if next_starts_with_rule(ls, i) {
            i + 2
        } else {
            i + 1
        };
        return Some((next, Some(Element::SubHeader(string_of(&title)))));
    }
    if is_separator_exec(&t) {
        proof {
            lemma_prepend_empty(parse_from(lv, i + 1));
        }
        return Some((i + 1, None));
    }
    if starts_with_str(&t, "⚠") {
        let a = trim_start_matches_str(&t, "⚠");
        let msg = trim_exec(&a);
        return Some((i + 1, Some(Element::Warning(string_of(&msg)))));
    }
    if starts_with_str(&t, "✓") {
        let a = trim_start_matches_str(&t, "✓");
        let msg = trim_exec(&a);
        return Some((i + 1, Some(Element::Passed(string_of(&msg)))));
    }
    if has_char(&t, '█') {
        let (end, items) = scan_bars(ls, i);
        proof {
            assert(bar_scan(lv, i as int).0 > i) by {
                assert(trim(lv[i as int]).contains('█'));
                assert(trim(lv[i as int]).len() > 0);
                lemma_bar_scan_ge(lv, i + 1);
                assert(bar_scan(lv, i as int).0 == bar_scan(lv, i + 1).0);
            }
        }
        if items.len() > 0 {
            return Some((end, Some(Element::BarChart(items))));
        } else {
            proof {
                lemma_prepend_empty(parse_from(lv, end as int));
            }
            return Some((end, None));
        }
    }
    if has_spark_exec(&t) {
        let next = if i + 1 < n {
            i + 2
        } else {
            i + 1
        };
        proof {
            lemma_prepend_empty(parse_from(lv, next as int));
        }
        return Some((next, None));
    }
    match parse_stat_line(string_of(&t).as_str()) {
        Some((a, b)) => {
            return Some((i + 1, Some(Element::Stat(a, b))));
        },
        None => {},
    }
    if next_is_table_sep(ls, i) {
        return parse_table_at(ls, i, &t, Ghost(plain));
    }
    if starts_with_str(&t, "•") {
        let a = trim_start_matches_str(&t, "•");
        let msg = trim_exec(&a);
        return Some((i + 1, Some(Element::Warning(string_of(&msg)))));
    }
    let info = if eq_str(&t, "(no data)") {
        chars_of("No data available")
    } else {
        slice(&t, 0, t.len())
    };
    proof {
        assert(t@.subrange(0, t@.len() as int) =~= t@);
    }
    Some((i + 1, Some(Element::Info(string_of(&info)))))
}

fn parse_box(ls: &Vec<Vec<char>>, i: usize) -> (r: Option<(usize, Option<Element>)>)
    requires
        i < ls@.len(),
        starts_with(trim(views(ls@)[i as int]), "╔"@) && ends_with(trim(views(ls@)[i as int]), "╗"@),
    ensures
        r matches Some(x) ==> i < x.0 <= ls@.len() && prepend(
            opt_elem(x.1),
            parse_from(views(ls@), x.0 as int),
        ) == (if i + 2 < ls@.len() && starts_with(trim(views(ls@)[i + 1]), "║"@) && ends_with(
            trim(views(ls@)[i + 1]),
            "║"@,
        ) {
            prepend(
                seq![ElementV::SectionHeader(trim(trim_end_matches(trim_start_matches(trim(views(ls@)[i + 1]), "║"@), "║"@)))],
                parse_from(views(ls@), i + 3),
            )
        } else {
            parse_from(views(ls@), i + 1)
        }),
        r is Some,
{
    let ghost lv = views(ls@);
    let n = ls.len();
    if n >= 3 && i < n - 2 {
        let tl = trim_exec(&ls[i + 1]);
        assert(lv[i + 1] == ls@[i + 1]@);
        if starts_with_str(&tl, "║") && ends_with_str(&tl, "║") {
            let a = trim_start_matches_str(&tl, "║");
            let b = trim_end_matches_str(&a, "║");
            let title = trim_exec(&b);
            return Some((i + 3, Some(Element::SectionHeader(string_of(&title)))));
        }
    }
    proof {
        lemma_prepend_empty(parse_from(lv, i + 1));
    }
    Some((i + 1, None))
}

fn next_starts_with_rule(ls: &Vec<Vec<char>>, i: usize) -> (r: bool)
    requires
        i < ls@.len(),
    ensures
        r == (i + 1 < ls@.len() && starts_with(trim(views(ls@)[i + 1]), "─"@)),
{
    if i < ls.len() - 1 {
        let n = trim_exec(&ls[i + 1]);
        assert(views(ls@)[i + 1] == ls@[i + 1]@);
        starts_with_str(&n, "─")
    } else {
        false
    }
}

fn parse_table_at(ls: &Vec<Vec<char>>, i: usize, t: &Vec<char>, Ghost(plain): Ghost<Seq<char>>) -> (r: Option<(usize, Option<Element>)>)
    requires
        i + 1 < ls@.len(),
        t@ == trim(views(ls@)[i as int]),
        forall|j: int| 0 <= j < ls@.len() ==> utf8_len(trim(#[trigger] views(ls@)[j])) <= utf8_len(plain),
        utf8_len(plain) <= isize::MAX,
    ensures
        r matches Some(x) ==> i < x.0 <= ls@.len() && prepend(opt_elem(x.1), parse_from(views(ls@), x.0 as int))
            == match table_scan(views(ls@), i + 2, column_positions(t@), column_names(t@).len()) {
            Some(tb) => if i < tb.0 <= ls@.len() {
                prepend(seq![ElementV::Table(column_names(t@), tb.1)], parse_from(views(ls@), tb.0))
            } else {
                None
            },
            None => None,
        },
        r is None ==> match table_scan(views(ls@), i + 2, column_positions(t@), column_names(t@).len()) {
            Some(tb) => !(i < tb.0 <= ls@.len()),
            None => true,
        },
{
    let ghost lv = views(ls@);
    let n = ls.len();
    assert(i + 2 <= n);
    let ts = string_of(t);
    let headers = parse_table_columns(ts.as_str());
    proof {
        assert(utf8_len(trim(lv[i as int])) <= utf8_len(plain));
    }
    let pos = detect_column_positions(ts.as_str());
    proof {
        assert(usizes_view(pos@) =~= column_positions(t@));
        assert(strings_v(headers@) =~= column_names(t@));
    }
    match scan_table(ls, i + 2, &pos, headers.len()) {
        Some((end, rows)) => {
            Some((end, Some(Element::Table { headers, rows })))
        },
        None => None,
    }
}

proof fn lemma_bar_scan_ge(ls: Seq<Seq<char>>, k: int)
    requires
        0 <= k <= ls.len(),
    ensures
        bar_scan(ls, k).0 >= k,
    decreases ls.len() - k,
{
    if k < ls.len() {
        lemma_bar_scan_ge(ls, k + 1);
    }
}

proof fn lemma_prepend_empty(r: Option<Seq<ElementV>>)
    ensures
        prepend(Seq::empty(), r) == r,
{
    match r {
        Some(s) => {
            assert(Seq::<ElementV>::empty() + s =~= s);
        },
        None => {},
    }
}

/// Parse ANSI-free report text into structured elements (`None` where
/// splitting a table row at the header's column positions would cut a character).
pub fn parse_plain_report(plain: &str) -> (r: Option<Vec<Element>>)
    requires
        utf8_len(plain@) <= isize::MAX,
    ensures
        r matches Some(es) ==> parse_from(lines(plain@), 0) == Some(elements_view(es@)),
        r is None ==> parse_from(lines(plain@), 0) is None,
{
    let ls = lines_of(plain);
    let ghost lv = lines(plain@);
    proof {
        crate::text::lemma_lines_bytes(plain@);
    }
    let mut out: Vec<Element> = Vec::new();
    let mut i: usize = 0;
    proof {
        assert(elements_view(out@) =~= Seq::<ElementV>::empty());
        lemma_prepend_empty(parse_from(lv, 0));
    }
    while i < ls.len()
        invariant
            i <= ls@.len(),
            lv == views(ls@),
            lv == lines(plain@),
            forall|j: int| 0 <= j < ls@.len() ==> utf8_len(trim(#[trigger] views(ls@)[j])) <= utf8_len(plain@),
            utf8_len(plain@) <= isize::MAX,
            parse_from(lv, 0) == prepend(elements_view(out@), parse_from(lv, i as int)),
        decreases ls@.len() - i,
    {
        let ghost ov = elements_view(out@);
        match parse_one(&ls, i, Ghost(plain@)) {
            Some((next, e)) => {
                let ghost pre = opt_elem(e);
                match e {
                    Some(x) => {
                        out.push(x);
                    },
                    None => {},
                }
                proof {
                    assert(elements_view(out@) =~= ov + pre);
                    lemma_prepend_concat(ov, pre, parse_from(lv, next as int));
                }
                i = next;
            },
            None => {
                return None;
            },
        }
    }
    proof {
        assert(elements_view(out@) + Seq::<ElementV>::empty() =~= elements_view(out@));
    }
    Some(out)
}

/// The line after `i` is a table header separator: it starts with '─' and is over 5 bytes.
fn next_is_table_sep(ls: &Vec<Vec<char>>, i: usize) -> (r: bool)
    requires
        i < ls@.len(),
    ensures
        r == (i + 1 < ls@.len() && starts_with(trim(views(ls@)[i + 1]), "─"@) && utf8_len(trim(views(ls@)[i + 1])) > 5),
{
    if i < ls.len() - 1 {
        let n = trim_exec(&ls[i + 1]);
        assert(views(ls@)[i + 1] == ls@[i + 1]@);
        starts_with_str(&n, "─") && utf8_len_capped_exec(&n, 6) > 5
    } else {
        false
    }
}

proof fn lemma_prepend_concat(ov: Seq<ElementV>, pre: Seq<ElementV>, r: Option<Seq<ElementV>>)
    ensures
        prepend(ov, prepend(pre, r)) == prepend(ov + pre, r),
{
    match r {
        Some(s) => {
            assert(ov + (pre + s) =~= (ov + pre) + s);
        },
        None => {},
    }
}

/// Parse the report output (with its ANSI colors) into structured elements
/// (`None` where a table row cannot be split, or where the text without its
/// colors would be longer than `isize::MAX` bytes).
pub fn parse_report(content: &str) -> (r: Option<Vec<Element>>)
    ensures
        r matches Some(es) ==> parse_from(lines(strip_ansi_spec(content@)), 0) == Some(elements_view(es@)),
        r is None <==> (utf8_len(strip_ansi_spec(content@)) > isize::MAX || parse_from(
            lines(strip_ansi_spec(content@)),
            0,
        ) is None),
{
    let plain = strip_ansi(content);
    let pc = chars_of(plain.as_str());
    let cap: usize = (isize::MAX as usize) + 1;
    if utf8_len_capped_exec(&pc, cap) > isize::MAX as usize {
        return None;
    }
    parse_plain_report(plain.as_str())
}


/// A finding of a report section.
pub enum Finding {
    Warning(String),
    Passed(String),
    Stat(String, String),
    Info(String),
}

/// A report section: its title and findings.
pub struct Section {
    pub title: String,
    pub findings: Vec<Finding>,
}

/// A finding, as text: kind (0 warning, 1 ok, 2 stat, 3 info) and its texts.
pub type FindingV = (nat, Seq<char>, Seq<char>);

pub open spec fn finding_view(f: Finding) -> FindingV {
    match f {
        Finding::Warning(m) => (0, m@, Seq::empty()),
        Finding::Passed(m) => (1, m@, Seq::empty()),
        Finding::Stat(l, v) => (2, l@, v@),
        Finding::Info(m) => (3, m@, Seq::empty()),
    }
}

pub open spec fn findings_view(v: Seq<Finding>) -> Seq<FindingV> {
    Seq::new(v.len(), |i: int| finding_view(v[i]))
}

pub open spec fn sections_view(v: Seq<Section>) -> Seq<(Seq<char>, Seq<FindingV>)> {
    Seq::new(v.len(), |i: int| (v[i].title@, findings_view(v[i].findings@)))
}

/// The finding a trimmed line (not a section title) gives, if any.
pub open spec fn finding_of(t: Seq<char>) -> Option<FindingV> {
    if starts_with(t, "╔"@) || starts_with(t, "╚"@) || starts_with(t, "─"@) || starts_with(t, "═"@) {
        None
    } else if starts_with(t, "⚠"@) {
        Some((0, trim(trim_start_matches(t, "⚠"@)), Seq::empty()))
    } else if starts_with(t, "✓"@) {
        Some((1, trim(trim_start_matches(t, "✓"@)), Seq::empty()))
    } else if find(t, seq![':']) is Some && {
        let p = find(t, seq![':'])->0;
        let label = trim(t.take(p));
        let value = trim(t.skip(p + 1));
        label.len() > 0 && value.len() > 0 && utf8_len(label) <= 40 && !label.contains('/') && !label.contains('.')
    } {
        let p = find(t, seq![':'])->0;
        Some((2, trim(t.take(p)), trim(t.skip(p + 1))))
    } else if t.len() > 0 && !starts_with(t, "▸"@) && !is_separator(t) {
        Some((3, t, Seq::empty()))
    } else {
        None
    }
}

/// The state of the section reader: current title, its findings, and the sections closed so far.
pub type SectionState = (Seq<char>, Seq<FindingV>, Seq<(Seq<char>, Seq<FindingV>)>);

/// One line of the report.
pub open spec fn sections_step(line: Seq<char>, st: SectionState) -> SectionState {
    let t = trim(line);
    if starts_with(t, "║"@) && ends_with(t, "║"@) {
        (
            trim(trim_end_matches(trim_start_matches(t, "║"@), "║"@)),
            Seq::empty(),
            if st.0.len() > 0 {
                st.2.push((st.0, st.1))
            } else {
                st.2
            },
        )
    } else {
        match finding_of(t) {
            Some(f) => (st.0, st.1.push(f), st.2),
            None => st,
        }
    }
}

pub open spec fn sections_scan(ls: Seq<Seq<char>>) -> SectionState
    decreases ls.len(),
{
    if ls.len() == 0 {
        (Seq::empty(), Seq::empty(), Seq::empty())
    } else {
        sections_step(ls.last(), sections_scan(ls.drop_last()))
    }
}

/// The sections of a report: each titled box with the findings after it.
pub open spec fn parse_sections_spec(content: Seq<char>) -> Seq<(Seq<char>, Seq<FindingV>)> {
    let st = sections_scan(lines(content));
    if st.0.len() > 0 {
        st.2.push((st.0, st.1))
    } else {
        st.2
    }
}

fn finding_of_exec(t: &[char]) -> (r: Option<Finding>)
    requires
        utf8_len(t@) <= isize::MAX,
    ensures
        r matches Some(f) ==> finding_of(t@) == Some(finding_view(f)),
        r is None ==> finding_of(t@) is None,
{
    if starts_with_str(t, "╔") || starts_with_str(t, "╚") || starts_with_str(t, "─") || starts_with_str(t, "═") {
        return None;
    }
    if starts_with_str(t, "⚠") {
        let a = trim_start_matches_str(t, "⚠");
        let m = trim_exec(&a);
        return Some(Finding::Warning(string_of(&m)));
    }
    if starts_with_str(t, "✓") {
        let a = trim_start_matches_str(t, "✓");
        let m = trim_exec(&a);
        return Some(Finding::Passed(string_of(&m)));
    }
    let mut colon: Vec<char> = Vec::new();
    colon.push(':');
    proof {
        assert(colon@ =~= seq![':']);
    }
    match find_exec(t, &colon) {
        Some(p) => {
            proof {
                crate::text::lemma_find(t@, colon@);
            }
            let head = slice(t, 0, p);
            let label = trim_exec(&head);
            let tl = t.len();
            let tail = slice(t, p + 1, tl);
            let value = trim_exec(&tail);
            if label.len() > 0 && value.len() > 0 && utf8_len_capped_exec(&label, 41) <= 40 && !has_char(&label, '/') && !has_char(&label, '.') {
                return Some(Finding::Stat(string_of(&label), string_of(&value)));
            }
        },
        None => {},
    }
    if t.len() > 0 && !starts_with_str(t, "▸") && !is_separator_exec(t) {
        return Some(Finding::Info(string_of(&slice(t, 0, t.len()))));
    }
    None
}

/// Parse the report content into structured sections.
pub fn parse_sections(content: &str) -> (r: Vec<Section>)
    requires
        utf8_len(content@) <= isize::MAX,
    ensures
        sections_view(r@) == parse_sections_spec(content@),
{
    let ls = lines_of(content);
    let ghost lv = lines(content@);
    proof {
        crate::text::lemma_lines_bytes(content@);
    }
    let mut sections: Vec<Section> = Vec::new();
    let mut title: Vec<char> = Vec::new();
    let mut findings: Vec<Finding> = Vec::new();
    let mut i: usize = 0;
    proof {
        assert(lv.take(0) =~= Seq::<Seq<char>>::empty());
        assert(sections_view(sections@) =~= Seq::<(Seq<char>, Seq<FindingV>)>::empty());
        assert(findings_view(findings@) =~= Seq::<FindingV>::empty());
    }
    while i < ls.len()
        invariant
            i <= ls@.len(),
            lv == views(ls@),
            lv == lines(content@),
            forall|j: int| 0 <= j < lv.len() ==> utf8_len(trim(#[trigger] lv[j])) <= utf8_len(content@),
            utf8_len(content@) <= isize::MAX,
            sections_scan(lv.take(i as int)) == (title@, findings_view(findings@), sections_view(sections@)),
        decreases ls@.len() - i,
    {
        proof {
            assert(lv.take(i + 1).drop_last() =~= lv.take(i as int));
            assert(lv.take(i + 1).last() == ls@[i as int]@);
            assert(utf8_len(trim(lv[i as int])) <= utf8_len(content@));
        }
        let t = trim_exec(&ls[i]);
        if starts_with_str(&t, "║") && ends_with_str(&t, "║") {
            if title.len() > 0 {
                let ghost sv = sections_view(sections@);
                let ghost fv = findings_view(findings@);
                let mut old_findings: Vec<Finding> = Vec::new();
                std::mem::swap(&mut old_findings, &mut findings);
                sections.push(Section { title: string_of(&title), findings: old_findings });
                proof {
                    assert(sections_view(sections@) =~= sv.push((title@, fv)));
                }
            } else {
                findings = Vec::new();
            }
            let a = trim_start_matches_str(&t, "║");
            let b = trim_end_matches_str(&a, "║");
            title = trim_exec(&b);
            proof {
                assert(findings_view(findings@) =~= Seq::<FindingV>::empty());
            }
        } else {
            match finding_of_exec(&t) {
                Some(f) => {
                    let ghost fv = findings_view(findings@);
                    let ghost one = finding_view(f);
                    findings.push(f);
                    proof {
                        assert(findings_view(findings@) =~= fv.push(one));
                    }
                },
                None => {},
            }
        }
        i += 1;
    }
    proof {
        assert(lv.take(ls@.len() as int) =~= lv);
    }
    if title.len() > 0 {
        let ghost sv = sections_view(sections@);
        let ghost fv = findings_view(findings@);
        sections.push(Section { title: string_of(&title), findings });
        proof {
            assert(sections_view(sections@) =~= sv.push((title@, fv)));
        }
    }
    sections
}

} // verus!
