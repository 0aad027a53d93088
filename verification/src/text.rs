//! Character-sequence utilities: the string operations that the scanners
//! use (trimming, line splitting, searching), each stated over `Seq<char>`.
use vstd::prelude::*;

verus! {

/// Appends one character to a string.
///
/// Trusted: calls `String::push`, whose documentation says that it appends
/// the given `char` to the end of the string.
#[verifier::external_body]
pub(crate) fn push_char(s: &mut String, c: char)
    ensures
        final(s)@ == old(s)@.push(c),
{
    s.push(c);
}

/// The characters of a string slice, in order.
pub fn chars_of(s: &str) -> (r: Vec<char>)
    ensures
        r@ == s@,
{
    let mut r: Vec<char> = Vec::new();
    for c in it: s.chars()
        invariant
            r@ == it.seq().take(it.index() as int),
    {
        r.push(c);
    }
    r
}

/// A string holding exactly the given characters.
pub fn string_of(v: &[char]) -> (s: String)
    ensures
        s@ == v@,
{
    let mut s = String::new();
    let mut i: usize = 0;
    while i < v.len()
        invariant
            i <= v@.len(),
            s@ == v@.take(i as int),
        decreases v@.len() - i,
    {
        push_char(&mut s, v[i]);
        proof {
            assert(v@.take(i as int + 1) == v@.take(i as int).push(v@[i as int]));
        }
        i += 1;
    }
    proof {
        assert(v@.take(v@.len() as int) == v@);
    }
    s
}

/// Appends all characters of `t` to `v`.
pub fn extend(v: &mut Vec<char>, t: &[char])
    ensures
        final(v)@ == old(v)@ + t@,
{
    let ghost v0 = v@;
    let mut i: usize = 0;
    while i < t.len()
        invariant
            i <= t@.len(),
            v@ == v0 + t@.take(i as int),
        decreases t@.len() - i,
    {
        v.push(t[i]);
        proof {
            assert(t@.take(i as int + 1) == t@.take(i as int).push(t@[i as int]));
        }
        i += 1;
    }
    proof {
        assert(t@.take(t@.len() as int) == t@);
    }
}

/// Appends all characters of the string slice `t` to `v`.
pub fn extend_str(v: &mut Vec<char>, t: &str)
    ensures
        final(v)@ == old(v)@ + t@,
{
    let c = chars_of(t);
    extend(v, &c);
}

/// Whether two character sequences are equal.
pub fn seq_eq(a: &[char], b: &[char]) -> (r: bool)
    ensures
        r == (a@ == b@),
{
    if a.len() != b.len() {
        return false;
    }
    let mut i: usize = 0;
    while i < a.len()
        invariant
            a@.len() == b@.len(),
            i <= a@.len(),
            forall|j: int| 0 <= j < i ==> a@[j] == b@[j],
        decreases a@.len() - i,
    {
        if a[i] != b[i] {
            return false;
        }
        i += 1;
    }
    proof {
        assert(a@ =~= b@);
    }
    true
}

/// Whether a character sequence equals a string slice.
pub fn eq_str(a: &[char], b: &str) -> (r: bool)
    ensures
        r == (a@ == b@),
{
    let bc = chars_of(b);
    seq_eq(a, &bc)
}

/// `char::is_whitespace`: the characters with the Unicode `White_Space` property.
pub open spec fn is_ws(c: char) -> bool {
    ||| ('\t' <= c && c <= '\r')
    ||| c == ' '
    ||| c == '\u{85}'
    ||| c == '\u{A0}'
    ||| c == '\u{1680}'
    ||| ('\u{2000}' <= c && c <= '\u{200A}')
    ||| c == '\u{2028}'
    ||| c == '\u{2029}'
    ||| c == '\u{202F}'
    ||| c == '\u{205F}'
    ||| c == '\u{3000}'
}

pub fn is_ws_exec(c: char) -> (r: bool)
    ensures
        r == is_ws(c),
{
    ('\t' <= c && c <= '\r') || c == ' ' || c == '\u{85}' || c == '\u{A0}' || c == '\u{1680}' || (
    '\u{2000}' <= c && c <= '\u{200A}') || c == '\u{2028}' || c == '\u{2029}' || c == '\u{202F}'
        || c == '\u{205F}' || c == '\u{3000}'
}

/// `str::trim_start`: drops leading whitespace.
pub open spec fn trim_start(s: Seq<char>) -> Seq<char>
    decreases s.len(),
{
    if s.len() > 0 && is_ws(s[0]) {
        trim_start(s.drop_first())
    } else {
        s
    }
}

/// `str::trim_end`: drops trailing whitespace.
pub open spec fn trim_end(s: Seq<char>) -> Seq<char>
    decreases s.len(),
{
    if s.len() > 0 && is_ws(s.last()) {
        trim_end(s.drop_last())
    } else {
        s
    }
}

/// `str::trim`: drops leading and trailing whitespace.
pub open spec fn trim(s: Seq<char>) -> Seq<char> {
    trim_end(trim_start(s))
}

proof fn lemma_trim_start_step(s: Seq<char>, i: int)
    requires
        0 <= i < s.len(),
        is_ws(s[i]),
    ensures
        trim_start(s.subrange(i, s.len() as int)) == trim_start(s.subrange(i + 1, s.len() as int)),
{
    assert(s.subrange(i, s.len() as int).drop_first() == s.subrange(i + 1, s.len() as int));
}

proof fn lemma_trim_end_step(s: Seq<char>, j: int)
    requires
        0 < j <= s.len(),
        is_ws(s[j - 1]),
    ensures
        trim_end(s.subrange(0, j)) == trim_end(s.subrange(0, j - 1)),
{
    assert(s.subrange(0, j).drop_last() == s.subrange(0, j - 1));
}

/// Number of leading whitespace characters.
pub fn leading_ws(v: &[char]) -> (k: usize)
    ensures
        k <= v@.len(),
        trim_start(v@) == v@.subrange(k as int, v@.len() as int),
        forall|j: int| 0 <= j < k ==> is_ws(#[trigger] v@[j]),
{
    let mut i: usize = 0;
    proof {
        assert(v@.subrange(0, v@.len() as int) == v@);
    }
    while i < v.len() && is_ws_exec(v[i])
        invariant
            i <= v@.len(),
            trim_start(v@) == trim_start(v@.subrange(i as int, v@.len() as int)),
            forall|j: int| 0 <= j < i ==> is_ws(#[trigger] v@[j]),
        decreases v@.len() - i,
    {
        proof {
            lemma_trim_start_step(v@, i as int);
        }
        i += 1;
    }
    i
}

/// `str::trim`.
pub fn trim_exec(v: &[char]) -> (r: Vec<char>)
    ensures
        r@ == trim(v@),
{
    let lo = leading_ws(v);
    let mut hi: usize = v.len();
    let ghost t = v@.subrange(lo as int, v@.len() as int);
    proof {
        assert(t.subrange(0, t.len() as int) == t);
    }
    while hi > lo && is_ws_exec(v[hi - 1])
        invariant
            lo <= hi <= v@.len(),
            t == v@.subrange(lo as int, v@.len() as int),
            trim_start(v@) == t,
            trim_end(t) == trim_end(t.subrange(0, hi - lo)),
        decreases hi,
    {
        proof {
            lemma_trim_end_step(t, hi - lo);
        }
        hi -= 1;
    }
    let mut r: Vec<char> = Vec::new();
    let mut i: usize = lo;
    while i < hi
        invariant
            lo <= i <= hi <= v@.len(),
            r@ == v@.subrange(lo as int, i as int),
        decreases hi - i,
    {
        r.push(v[i]);
        proof {
            assert(v@.subrange(lo as int, i + 1) == v@.subrange(lo as int, i as int).push(v@[i as int]));
        }
        i += 1;
    }
    proof {
        assert(t.subrange(0, hi - lo) == v@.subrange(lo as int, hi as int));
        if hi > lo {
            assert(!is_ws(t.subrange(0, hi - lo).last()));
        }
    }
    r
}

/// Trims a string slice into a character vector.
pub fn trim_str(s: &str) -> (r: Vec<char>)
    ensures
        r@ == trim(s@),
{
    let v = chars_of(s);
    trim_exec(&v)
}

/// Characters `i .. j` of `v`.
pub fn slice(v: &[char], i: usize, j: usize) -> (r: Vec<char>)
    requires
        i <= j <= v@.len(),
    ensures
        r@ == v@.subrange(i as int, j as int),
{
    let mut r: Vec<char> = Vec::new();
    let mut k: usize = i;
    while k < j
        invariant
            i <= k <= j <= v@.len(),
            r@ == v@.subrange(i as int, k as int),
        decreases j - k,
    {
        r.push(v[k]);
        proof {
            assert(v@.subrange(i as int, k + 1) == v@.subrange(i as int, k as int).push(v@[k as int]));
        }
        k += 1;
    }
    r
}

/// `p` occurs in `s` at index `i`.
pub open spec fn matches_at(s: Seq<char>, p: Seq<char>, i: int) -> bool {
    0 <= i && i + p.len() <= s.len() && s.subrange(i, i + p.len()) == p
}

/// `str::starts_with`.
pub open spec fn starts_with(s: Seq<char>, p: Seq<char>) -> bool {
    matches_at(s, p, 0)
}

/// `str::ends_with`.
pub open spec fn ends_with(s: Seq<char>, p: Seq<char>) -> bool {
    matches_at(s, p, s.len() - p.len())
}

/// `str::contains`: `p` occurs somewhere in `s`.
pub open spec fn contains(s: Seq<char>, p: Seq<char>) -> bool {
    exists|i: int| matches_at(s, p, i)
}

/// The first index at or after `i` where `p` occurs in `s`.
pub open spec fn find_from(s: Seq<char>, p: Seq<char>, i: int) -> Option<int>
    decreases s.len() + 1 - i,
{
    if i < 0 || i + p.len() > s.len() {
        None
    } else if matches_at(s, p, i) {
        Some(i)
    } else {
        find_from(s, p, i + 1)
    }
}

/// `str::find`: the first index where `p` occurs in `s`.
pub open spec fn find(s: Seq<char>, p: Seq<char>) -> Option<int> {
    find_from(s, p, 0)
}

proof fn lemma_find_from(s: Seq<char>, p: Seq<char>, i: int)
    requires
        0 <= i,
    ensures
        find_from(s, p, i) matches Some(k) ==> i <= k && matches_at(s, p, k) && forall|j: int|
            i <= j < k ==> !matches_at(s, p, j),
        find_from(s, p, i) is None ==> forall|j: int| i <= j ==> !matches_at(s, p, j),
    decreases s.len() + 1 - i,
{
    if i + p.len() > s.len() {
    } else if matches_at(s, p, i) {
    } else {
        lemma_find_from(s, p, i + 1);
    }
}

/// The first occurrence is the least index where `p` occurs.
pub proof fn lemma_find(s: Seq<char>, p: Seq<char>)
    ensures
        find(s, p) matches Some(k) ==> matches_at(s, p, k) && forall|j: int|
            0 <= j < k ==> !matches_at(s, p, j),
        find(s, p) is None <==> !contains(s, p),
{
    lemma_find_from(s, p, 0);
    if find(s, p) is None {
        assert forall|j: int| !matches_at(s, p, j) by {
            if j >= 0 {
            }
        }
    }
}

/// Whether `p` occurs in `s` at index `i`.
pub fn matches_at_exec(s: &[char], p: &[char], i: usize) -> (r: bool)
    ensures
        r == matches_at(s@, p@, i as int),
{
    if i > s.len() || p.len() > s.len() - i {
        return false;
    }
    let n = s.len();
    let mut k: usize = 0;
    while k < p.len()
        invariant
            n == s@.len(),
            i + p@.len() <= s@.len(),
            k <= p@.len(),
            forall|j: int| 0 <= j < k ==> s@[i + j] == p@[j],
        decreases p@.len() - k,
    {
        assert(i + k < s@.len());
        if s[i + k] != p[k] {
            proof {
                assert(s@.subrange(i as int, i + p@.len())[k as int] != p@[k as int]);
            }
            return false;
        }
        k += 1;
    }
    proof {
        assert(s@.subrange(i as int, i + p@.len()) =~= p@);
    }
    true
}

/// `str::find`.
pub fn find_exec(s: &[char], p: &[char]) -> (r: Option<usize>)
    ensures
        r matches Some(k) ==> find(s@, p@) == Some(k as int),
        r is None ==> find(s@, p@) is None,
{
    if p.len() > s.len() {
        return None;
    }
    let lim = s.len() - p.len();
    let mut i: usize = 0;
    loop
        invariant
            p@.len() <= s@.len(),
            lim == s@.len() - p@.len(),
            i <= lim,
            find(s@, p@) == find_from(s@, p@, i as int),
        decreases lim - i,
    {
        if matches_at_exec(s, p, i) {
            return Some(i);
        }
        if i == lim {
            proof {
                assert(find_from(s@, p@, i + 1) is None);
            }
            return None;
        }
        i += 1;
    }
}

/// `str::contains`.
pub fn contains_exec(s: &[char], p: &[char]) -> (r: bool)
    ensures
        r == contains(s@, p@),
{
    proof {
        lemma_find(s@, p@);
    }
    find_exec(s, p).is_some()
}

/// `str::contains` with a string-slice pattern.
pub fn contains_str(s: &[char], p: &str) -> (r: bool)
    ensures
        r == contains(s@, p@),
{
    let pc = chars_of(p);
    contains_exec(s, &pc)
}

/// `str::starts_with`.
pub fn starts_with_exec(s: &[char], p: &[char]) -> (r: bool)
    ensures
        r == starts_with(s@, p@),
{
    matches_at_exec(s, p, 0)
}

/// `str::starts_with` with a string-slice pattern.
pub fn starts_with_str(s: &[char], p: &str) -> (r: bool)
    ensures
        r == starts_with(s@, p@),
{
    let pc = chars_of(p);
    starts_with_exec(s, &pc)
}

/// `str::ends_with`.
pub fn ends_with_exec(s: &[char], p: &[char]) -> (r: bool)
    ensures
        r == ends_with(s@, p@),
{
    if p.len() > s.len() {
        return false;
    }
    matches_at_exec(s, p, s.len() - p.len())
}

/// `str::ends_with` with a string-slice pattern.
pub fn ends_with_str(s: &[char], p: &str) -> (r: bool)
    ensures
        r == ends_with(s@, p@),
{
    let pc = chars_of(p);
    ends_with_exec(s, &pc)
}

/// Whether the character `c` occurs in `s`.
pub fn has_char(s: &[char], c: char) -> (r: bool)
    ensures
        r == s@.contains(c),
{
    let mut i: usize = 0;
    while i < s.len()
        invariant
            i <= s@.len(),
            forall|j: int| 0 <= j < i ==> s@[j] != c,
        decreases s@.len() - i,
    {
        if s[i] == c {
            proof {
                assert(s@[i as int] == c);
            }
            return true;
        }
        i += 1;
    }
    false
}

/// `str::strip_prefix`.
pub open spec fn strip_prefix(s: Seq<char>, p: Seq<char>) -> Option<Seq<char>> {
    if starts_with(s, p) {
        Some(s.subrange(p.len() as int, s.len() as int))
    } else {
        None
    }
}

pub fn strip_prefix_str(s: &[char], p: &str) -> (r: Option<Vec<char>>)
    ensures
        r matches Some(v) ==> strip_prefix(s@, p@) == Some(v@),
        r is None ==> strip_prefix(s@, p@) is None,
{
    let pc = chars_of(p);
    if starts_with_exec(s, &pc) {
        Some(slice(s, pc.len(), s.len()))
    } else {
        None
    }
}

/// `str::trim_matches(c)` for a single character: drops every leading and
/// trailing occurrence of `c`.
pub open spec fn trim_char_start(s: Seq<char>, c: char) -> Seq<char>
    decreases s.len(),
{
    if s.len() > 0 && s[0] == c {
        trim_char_start(s.drop_first(), c)
    } else {
        s
    }
}

pub open spec fn trim_char_end(s: Seq<char>, c: char) -> Seq<char>
    decreases s.len(),
{
    if s.len() > 0 && s.last() == c {
        trim_char_end(s.drop_last(), c)
    } else {
        s
    }
}

pub open spec fn trim_char(s: Seq<char>, c: char) -> Seq<char> {
    trim_char_end(trim_char_start(s, c), c)
}

pub fn trim_char_exec(v: &[char], c: char) -> (r: Vec<char>)
    ensures
        r@ == trim_char(v@, c),
{
    let mut lo: usize = 0;
    proof {
        assert(v@.subrange(0, v@.len() as int) == v@);
    }
    while lo < v.len() && v[lo] == c
        invariant
            lo <= v@.len(),
            trim_char_start(v@, c) == trim_char_start(v@.subrange(lo as int, v@.len() as int), c),
        decreases v@.len() - lo,
    {
        proof {
            assert(v@.subrange(lo as int, v@.len() as int).drop_first() == v@.subrange(
                lo + 1,
                v@.len() as int,
            ));
        }
        lo += 1;
    }
    let ghost t = v@.subrange(lo as int, v@.len() as int);
    let mut hi: usize = v.len();
    proof {
        assert(t.subrange(0, t.len() as int) == t);
    }
    while hi > lo && v[hi - 1] == c
        invariant
            lo <= hi <= v@.len(),
            t == v@.subrange(lo as int, v@.len() as int),
            trim_char_start(v@, c) == t,
            trim_char_end(t, c) == trim_char_end(t.subrange(0, hi - lo), c),
        decreases hi,
    {
        proof {
            assert(t.subrange(0, hi - lo).drop_last() == t.subrange(0, hi - lo - 1));
        }
        hi -= 1;
    }
    proof {
        assert(t.subrange(0, hi - lo) == v@.subrange(lo as int, hi as int));
    }
    slice(v, lo, hi)
}

/// `str::trim_end_matches(p)`: drops trailing occurrences of `p`, repeatedly.
pub open spec fn trim_end_matches(s: Seq<char>, p: Seq<char>) -> Seq<char>
    decreases s.len(),
{
    if p.len() > 0 && ends_with(s, p) {
        trim_end_matches(s.subrange(0, s.len() - p.len()), p)
    } else {
        s
    }
}

pub fn trim_end_matches_str(v: &[char], p: &str) -> (r: Vec<char>)
    ensures
        r@ == trim_end_matches(v@, p@),
{
    let pc = chars_of(p);
    let mut cur: Vec<char> = slice(v, 0, v.len());
    proof {
        assert(v@.subrange(0, v@.len() as int) == v@);
    }
    while pc.len() > 0 && ends_with_exec(&cur, &pc)
        invariant
            pc@ == p@,
            trim_end_matches(v@, p@) == trim_end_matches(cur@, p@),
        decreases cur@.len(),
    {
        cur = slice(&cur, 0, cur.len() - pc.len());
    }
    cur
}

/// `str::trim_start_matches(p)`: drops leading occurrences of `p`, repeatedly.
pub open spec fn trim_start_matches(s: Seq<char>, p: Seq<char>) -> Seq<char>
    decreases s.len(),
{
    if p.len() > 0 && starts_with(s, p) {
        trim_start_matches(s.subrange(p.len() as int, s.len() as int), p)
    } else {
        s
    }
}

pub fn trim_start_matches_str(v: &[char], p: &str) -> (r: Vec<char>)
    ensures
        r@ == trim_start_matches(v@, p@),
{
    let pc = chars_of(p);
    let mut cur: Vec<char> = slice(v, 0, v.len());
    proof {
        assert(v@.subrange(0, v@.len() as int) == v@);
    }
    while pc.len() > 0 && starts_with_exec(&cur, &pc)
        invariant
            pc@ == p@,
            trim_start_matches(v@, p@) == trim_start_matches(cur@, p@),
        decreases cur@.len(),
    {
        cur = slice(&cur, pc.len(), cur.len());
    }
    cur
}


/// The views of a sequence of character vectors.
pub open spec fn views(v: Seq<Vec<char>>) -> Seq<Seq<char>> {
    Seq::new(v.len(), |i: int| v[i]@)
}

/// The pieces of `s` between occurrences of `c` (`str::split(c)`); never empty.
pub open spec fn split_char(s: Seq<char>, c: char) -> Seq<Seq<char>>
    decreases s.len(),
{
    if s.len() == 0 {
        seq![Seq::<char>::empty()]
    } else {
        let p = split_char(s.drop_last(), c);
        if s.last() == c {
            p.push(Seq::<char>::empty())
        } else {
            p.update(p.len() - 1, p.last().push(s.last()))
        }
    }
}

pub proof fn lemma_split_char_len(s: Seq<char>, c: char)
    ensures
        split_char(s, c).len() >= 1,
    decreases s.len(),
{
    if s.len() > 0 {
        lemma_split_char_len(s.drop_last(), c);
    }
}

/// Drops one trailing carriage return.
pub open spec fn strip_cr(l: Seq<char>) -> Seq<char> {
    if l.len() > 0 && l.last() == '\r' {
        l.drop_last()
    } else {
        l
    }
}

/// `str::lines`: the lines of `s`, split at `\n`; a line that ended in `\r\n`
/// loses its `\r`; a final empty piece after the last `\n` is not a line.
pub open spec fn lines(s: Seq<char>) -> Seq<Seq<char>> {
    let p = split_char(s, '\n');
    let body = p.drop_last().map_values(|l: Seq<char>| strip_cr(l));
    if p.last().len() == 0 {
        body
    } else {
        body.push(p.last())
    }
}

fn strip_cr_exec(l: Vec<char>) -> (r: Vec<char>)
    ensures
        r@ == strip_cr(l@),
{
    let mut l = l;
    if l.len() > 0 && l[l.len() - 1] == '\r' {
        l.pop();
    }
    l
}

/// `str::lines`.
pub fn lines_exec(v: &[char]) -> (r: Vec<Vec<char>>)
    ensures
        views(r@) == lines(v@),
{
    let mut done: Vec<Vec<char>> = Vec::new();
    let mut cur: Vec<char> = Vec::new();
    let mut i: usize = 0;
    proof {
        assert(v@.take(0) =~= Seq::<char>::empty());
    }
    while i < v.len()
        invariant
            i <= v@.len(),
            split_char(v@.take(i as int), '\n').len() >= 1,
            views(done@) == split_char(v@.take(i as int), '\n').drop_last().map_values(
                |l: Seq<char>| strip_cr(l),
            ),
            cur@ == split_char(v@.take(i as int), '\n').last(),
        decreases v@.len() - i,
    {
        let ghost old_split = split_char(v@.take(i as int), '\n');
        let ghost old_done = done@;
        proof {
            assert(v@.take(i + 1).drop_last() == v@.take(i as int));
            assert(v@.take(i + 1).last() == v@[i as int]);
        }
        let c = v[i];
        if c == '\n' {
            let line = strip_cr_exec(cur);
            done.push(line);
            cur = Vec::new();
            proof {
                let ns = split_char(v@.take(i + 1), '\n');
                assert(ns == old_split.push(Seq::<char>::empty()));
                assert(ns.drop_last() == old_split);
                assert(old_split == old_split.drop_last().push(old_split.last()));
                assert(views(done@) =~= views(old_done).push(strip_cr(old_split.last())));
                assert(views(done@) =~= old_split.map_values(|l: Seq<char>| strip_cr(l)));
            }
        } else {
            cur.push(c);
            proof {
                let ns = split_char(v@.take(i + 1), '\n');
                assert(ns.drop_last() =~= old_split.drop_last());
            }
        }
        i += 1;
    }
    proof {
        assert(v@.take(v@.len() as int) == v@);
    }
    if cur.len() > 0 {
        done.push(cur);
        proof {
            assert(views(done@) =~= lines(v@));
        }
    }
    done
}

/// `str::lines` of a string slice, as character vectors.
pub fn lines_of(s: &str) -> (r: Vec<Vec<char>>)
    ensures
        views(r@) == lines(s@),
{
    let v = chars_of(s);
    lines_exec(&v)
}

/// `str::split_whitespace`: the maximal runs of non-whitespace characters.
pub open spec fn split_ws(s: Seq<char>) -> Seq<Seq<char>>
    decreases s.len(),
{
    if s.len() == 0 {
        Seq::empty()
    } else {
        let p = split_ws(s.drop_last());
        let c = s.last();
        if is_ws(c) {
            p
        } else if s.len() >= 2 && !is_ws(s[s.len() - 2]) {
            p.update(p.len() - 1, p.last().push(c))
        } else {
            p.push(seq![c])
        }
    }
}

proof fn lemma_split_ws_nonempty(s: Seq<char>)
    requires
        s.len() > 0,
        !is_ws(s.last()),
    ensures
        split_ws(s).len() > 0,
    decreases s.len(),
{
    if s.len() >= 2 && !is_ws(s[s.len() - 2]) {
        lemma_split_ws_nonempty(s.drop_last());
    }
}

/// `str::split_whitespace`.
pub fn split_ws_exec(v: &[char]) -> (r: Vec<Vec<char>>)
    ensures
        views(r@) == split_ws(v@),
{
    let mut r: Vec<Vec<char>> = Vec::new();
    let mut i: usize = 0;
    proof {
        assert(v@.take(0) =~= Seq::<char>::empty());
        assert(views(r@) =~= Seq::<Seq<char>>::empty());
    }
    while i < v.len()
        invariant
            i <= v@.len(),
            views(r@) == split_ws(v@.take(i as int)),
        decreases v@.len() - i,
    {
        let ghost old_r = views(r@);
        proof {
            assert(v@.take(i + 1).drop_last() == v@.take(i as int));
            assert(v@.take(i + 1).last() == v@[i as int]);
        }
        let c = v[i];
        if is_ws_exec(c) {
        } else if i >= 1 && !is_ws_exec(v[i - 1]) {
            proof {
                assert(v@.take(i as int).last() == v@[i - 1]);
                lemma_split_ws_nonempty(v@.take(i as int));
                assert(v@.take(i + 1)[i - 1] == v@[i - 1]);
            }
            let k = r.len() - 1;
            let mut w = r.remove(k);
            w.push(c);
            r.push(w);
            proof {
                assert(views(r@) =~= old_r.update(k as int, old_r.last().push(c)));
            }
        } else {
            let mut w: Vec<char> = Vec::new();
            w.push(c);
            r.push(w);
            proof {
                if i >= 1 {
                    assert(v@.take(i + 1)[i - 1] == v@[i - 1]);
                }
                assert(views(r@) =~= old_r.push(seq![c]));
            }
        }
        i += 1;
    }
    proof {
        assert(v@.take(v@.len() as int) == v@);
    }
    r
}

/// The decimal digit character for `d < 10`.
pub open spec fn digit_char(d: nat) -> char {
    if d == 0 {
        '0'
    } else if d == 1 {
        '1'
    } else if d == 2 {
        '2'
    } else if d == 3 {
        '3'
    } else if d == 4 {
        '4'
    } else if d == 5 {
        '5'
    } else if d == 6 {
        '6'
    } else if d == 7 {
        '7'
    } else if d == 8 {
        '8'
    } else {
        '9'
    }
}

/// The decimal representation of `n` (as `Display` prints an unsigned integer).
pub open spec fn decimal(n: nat) -> Seq<char>
    decreases n,
{
    if n < 10 {
        seq![digit_char(n)]
    } else {
        decimal(n / 10).push(digit_char(n % 10))
    }
}

fn digit_exec(d: usize) -> (c: char)
    requires
        d < 10,
    ensures
        c == digit_char(d as nat),
{
    if d == 0 {
        '0'
    } else if d == 1 {
        '1'
    } else if d == 2 {
        '2'
    } else if d == 3 {
        '3'
    } else if d == 4 {
        '4'
    } else if d == 5 {
        '5'
    } else if d == 6 {
        '6'
    } else if d == 7 {
        '7'
    } else if d == 8 {
        '8'
    } else {
        '9'
    }
}

/// The decimal representation of `n`.
pub fn decimal_exec(n: usize) -> (r: Vec<char>)
    ensures
        r@ == decimal(n as nat),
    decreases n,
{
    if n < 10 {
        let mut r: Vec<char> = Vec::new();
        r.push(digit_exec(n));
        proof {
            assert(r@ =~= seq![digit_char(n as nat)]);
        }
        r
    } else {
        let mut r = decimal_exec(n / 10);
        r.push(digit_exec(n % 10));
        r
    }
}

/// The decimal representation of a wide unsigned integer.
pub fn decimal_wide_exec(n: u128) -> (r: Vec<char>)
    ensures
        r@ == decimal(n as nat),
    decreases n,
{
    if n < 10 {
        let mut r: Vec<char> = Vec::new();
        r.push(digit_exec(n as usize));
        proof {
            assert(r@ =~= seq![digit_char(n as nat)]);
        }
        r
    } else {
        let mut r = decimal_wide_exec(n / 10);
        r.push(digit_exec((n % 10) as usize));
        r
    }
}

/// `c` repeated `n` times (`str::repeat` of a one-character string).
pub open spec fn repeat(c: char, n: nat) -> Seq<char> {
    Seq::new(n, |i: int| c)
}

pub fn repeat_exec(v: &mut Vec<char>, c: char, n: usize)
    ensures
        final(v)@ == old(v)@ + repeat(c, n as nat),
{
    let ghost v0 = v@;
    let mut i: usize = 0;
    while i < n
        invariant
            i <= n,
            v@ == v0 + repeat(c, i as nat),
        decreases n - i,
    {
        v.push(c);
        proof {
            assert(repeat(c, (i + 1) as nat) =~= repeat(c, i as nat).push(c));
        }
        i += 1;
    }
}

/// `format!("{:<w$}", s)`: `s` padded on the right with spaces to `w` characters.
pub open spec fn pad_right(s: Seq<char>, w: nat) -> Seq<char> {
    if s.len() < w {
        s + repeat(' ', (w - s.len()) as nat)
    } else {
        s
    }
}

pub fn pad_right_exec(v: &mut Vec<char>, s: &[char], w: usize)
    ensures
        final(v)@ == old(v)@ + pad_right(s@, w as nat),
{
    let ghost v0 = v@;
    extend(v, s);
    if s.len() < w {
        repeat_exec(v, ' ', w - s.len());
        proof {
            assert(v@ =~= v0 + pad_right(s@, w as nat));
        }
    }
}


/// Bytes that `c` takes in UTF-8.
pub open spec fn char_width(c: char) -> nat {
    if c <= '\u{7F}' {
        1
    } else if c <= '\u{7FF}' {
        2
    } else if c <= '\u{FFFF}' {
        3
    } else {
        4
    }
}

pub fn char_width_exec(c: char) -> (w: usize)
    ensures
        w == char_width(c),
{
    if c <= '\u{7F}' {
        1
    } else if c <= '\u{7FF}' {
        2
    } else if c <= '\u{FFFF}' {
        3
    } else {
        4
    }
}

/// `str::len`: the length of `s` in UTF-8 bytes.
pub open spec fn utf8_len(s: Seq<char>) -> nat
    decreases s.len(),
{
    if s.len() == 0 {
        0
    } else {
        utf8_len(s.drop_last()) + char_width(s.last())
    }
}

/// `min(utf8_len(s), cap)`.
pub open spec fn utf8_len_capped(s: Seq<char>, cap: nat) -> nat {
    if utf8_len(s) < cap {
        utf8_len(s)
    } else {
        cap
    }
}

pub proof fn lemma_utf8_len_take_mono(s: Seq<char>, i: int, j: int)
    requires
        0 <= i <= j <= s.len(),
    ensures
        utf8_len(s.take(i)) <= utf8_len(s.take(j)),
    decreases j - i,
{
    if i < j {
        assert(s.take(j).drop_last() == s.take(j - 1));
        lemma_utf8_len_take_mono(s, i, j - 1);
    }
}

/// The UTF-8 byte length of `s`, capped at `cap`.
pub fn utf8_len_capped_exec(s: &[char], cap: usize) -> (r: usize)
    requires
        cap <= usize::MAX - 4,
    ensures
        r == utf8_len_capped(s@, cap as nat),
{
    let mut acc: usize = 0;
    let mut i: usize = 0;
    proof {
        assert(s@.take(0) =~= Seq::<char>::empty());
    }
    while i < s.len() && acc < cap
        invariant
            i <= s@.len(),
            cap <= usize::MAX - 4,
            acc == utf8_len(s@.take(i as int)),
            i > 0 ==> acc < cap + 4,
        decreases s@.len() - i,
    {
        proof {
            assert(s@.take(i + 1).drop_last() == s@.take(i as int));
        }
        acc = acc + char_width_exec(s[i]);
        i += 1;
    }
    proof {
        if i == s@.len() {
            assert(s@.take(i as int) == s@);
        } else {
            lemma_utf8_len_take_mono(s@, i as int, s@.len() as int);
            assert(s@.take(s@.len() as int) == s@);
        }
    }
    if acc < cap {
        acc
    } else {
        cap
    }
}

/// The number of leading characters of `s` that fit in `n` bytes.
pub open spec fn prefix_chars(s: Seq<char>, n: int) -> nat
    decreases s.len(),
{
    if s.len() == 0 || char_width(s[0]) > n {
        0
    } else {
        1 + prefix_chars(s.drop_first(), n - char_width(s[0]))
    }
}

/// Byte offset `n` falls on a character boundary of `s` (`str::is_char_boundary`).
pub open spec fn is_boundary(s: Seq<char>, n: int) -> bool {
    utf8_len(s.take(prefix_chars(s, n) as int)) == n
}

/// `&s[..n]` for a byte offset `n` on a character boundary.
pub open spec fn byte_prefix(s: Seq<char>, n: int) -> Seq<char> {
    s.take(prefix_chars(s, n) as int)
}

pub proof fn lemma_prefix_chars_bound(s: Seq<char>, n: int)
    ensures
        prefix_chars(s, n) <= s.len(),
    decreases s.len(),
{
    if s.len() > 0 && char_width(s[0]) <= n {
        lemma_prefix_chars_bound(s.drop_first(), n - char_width(s[0]));
    }
}

/// The characters of `s` that fit in its first `n` bytes.
pub fn byte_prefix_exec(s: &[char], n: usize) -> (r: Vec<char>)
    ensures
        r@ == byte_prefix(s@, n as int),
        (r@ == s@.take(r@.len() as int)),
{
    let mut acc: usize = 0;
    let mut i: usize = 0;
    proof {
        assert(s@.skip(0) == s@);
    }
    while i < s.len() && char_width_exec(s[i]) <= n - acc
        invariant
            i <= s@.len(),
            acc <= n,
            prefix_chars(s@, n as int) == i + prefix_chars(s@.skip(i as int), n - acc),
        decreases s@.len() - i,
    {
        proof {
            assert(s@.skip(i as int).drop_first() == s@.skip(i + 1));
            assert(s@.skip(i as int)[0] == s@[i as int]);
        }
        acc = acc + char_width_exec(s[i]);
        i += 1;
    }
    proof {
        if i < s@.len() {
            assert(s@.skip(i as int)[0] == s@[i as int]);
        }
    }
    slice(s, 0, i)
}


/// The concatenation of all parts.
pub open spec fn concat(parts: Seq<Seq<char>>) -> Seq<char>
    decreases parts.len(),
{
    if parts.len() == 0 {
        Seq::empty()
    } else {
        concat(parts.drop_last()) + parts.last()
    }
}

/// `slice::join`: the parts with `sep` between consecutive ones.
pub open spec fn join(parts: Seq<Seq<char>>, sep: Seq<char>) -> Seq<char>
    decreases parts.len(),
{
    if parts.len() == 0 {
        Seq::empty()
    } else if parts.len() == 1 {
        parts[0]
    } else {
        join(parts.drop_last(), sep) + sep + parts.last()
    }
}

/// Concatenating one more part.
pub proof fn lemma_concat_take(parts: Seq<Seq<char>>, i: int)
    requires
        0 <= i < parts.len(),
    ensures
        concat(parts.take(i + 1)) == concat(parts.take(i)) + parts[i],
{
    assert(parts.take(i + 1).drop_last() == parts.take(i));
}

/// Joining one more part.
pub proof fn lemma_join_take(parts: Seq<Seq<char>>, sep: Seq<char>, i: int)
    requires
        0 <= i < parts.len(),
    ensures
        join(parts.take(i + 1), sep) == if i == 0 {
            parts[0]
        } else {
            join(parts.take(i), sep) + sep + parts[i]
        },
{
    assert(parts.take(i + 1).drop_last() == parts.take(i));
}


/// What `str::to_uppercase` gives for `s`.
pub uninterp spec fn uppercase(s: Seq<char>) -> Seq<char>;

/// What `str::to_lowercase` gives for `s`.
pub uninterp spec fn lowercase(s: Seq<char>) -> Seq<char>;

/// Trusted: calls `str::to_uppercase` (Unicode upper-casing); the result is named [`uppercase`].
#[verifier::external_body]
pub(crate) fn to_upper(s: &str) -> (r: String)
    ensures
        r@ == uppercase(s@),
{
    s.to_uppercase()
}

/// Trusted: calls `str::to_lowercase` (Unicode lower-casing); the result is named [`lowercase`].
#[verifier::external_body]
pub(crate) fn to_lower(s: &str) -> (r: String)
    ensures
        r@ == lowercase(s@),
{
    s.to_lowercase()
}

/// `str::replace(from, to)` for single characters.
pub open spec fn replace_char(s: Seq<char>, from: char, to: char) -> Seq<char> {
    Seq::new(s.len(), |i: int| if s[i] == from { to } else { s[i] })
}

pub fn replace_char_exec(v: &[char], from: char, to: char) -> (r: Vec<char>)
    ensures
        r@ == replace_char(v@, from, to),
{
    let mut r: Vec<char> = Vec::new();
    let mut i: usize = 0;
    while i < v.len()
        invariant
            i <= v@.len(),
            r@.len() == i,
            forall|j: int| 0 <= j < i ==> r@[j] == (if v@[j] == from { to } else { v@[j] }),
        decreases v@.len() - i,
    {
        if v[i] == from {
            r.push(to);
        } else {
            r.push(v[i]);
        }
        i += 1;
    }
    proof {
        assert(r@ =~= replace_char(v@, from, to));
    }
    r
}


/// `str::split(p)` for a non-empty pattern: the pieces of `s` between
/// successive non-overlapping occurrences of `p`, found left to right.
pub open spec fn split_str(s: Seq<char>, p: Seq<char>) -> Seq<Seq<char>>
    decreases s.len(),
{
    if p.len() == 0 {
        seq![s]
    } else {
        match find(s, p) {
            Some(i) => if 0 <= i && i + p.len() <= s.len() {
                seq![s.take(i)] + split_str(s.skip(i + p.len()), p)
            } else {
                seq![s]
            },
            None => seq![s],
        }
    }
}

/// `str::split` with a non-empty string-slice pattern.
pub fn split_str_exec(s: &[char], p: &str) -> (r: Vec<Vec<char>>)
    requires
        p@.len() > 0,
    ensures
        views(r@) == split_str(s@, p@),
{
    let pc = chars_of(p);
    let mut out: Vec<Vec<char>> = Vec::new();
    let mut rest: Vec<char> = slice(s, 0, s.len());
    proof {
        assert(rest@ =~= s@);
        assert(views(out@) + split_str(rest@, p@) =~= split_str(s@, p@));
    }
    loop
        invariant
            pc@ == p@,
            p@.len() > 0,
            views(out@) + split_str(rest@, p@) == split_str(s@, p@),
        decreases rest@.len(),
    {
        let ghost out0 = views(out@);
        match find_exec(&rest, &pc) {
            Some(i) => {
                proof {
                    lemma_find(rest@, p@);
                    assert(find(rest@, p@) == Some(i as int));
                    assert(matches_at(rest@, p@, i as int));
                }
                let head = slice(&rest, 0, i);
                let plen = pc.len();
                let rlen = rest.len();
                assert(i + plen <= rlen);
                let tail = slice(&rest, i + plen, rlen);
                proof {
                    assert(head@ == rest@.take(i as int));
                    assert(tail@ == rest@.skip(i + p@.len()));
                    assert(split_str(rest@, p@) == seq![head@] + split_str(tail@, p@));
                }
                out.push(head);
                proof {
                    assert(views(out@) =~= out0.push(head@));
                    assert(views(out@) + split_str(tail@, p@) =~= out0 + split_str(rest@, p@));
                }
                rest = tail;
            },
            None => {
                let ghost rv = rest@;
                out.push(rest);
                proof {
                    assert(split_str(rv, p@) == seq![rv]);
                    assert(views(out@) =~= out0 + seq![rv]);
                }
                return out;
            },
        }
    }
}


/// The views of a sequence of strings.
pub open spec fn string_views(v: Seq<String>) -> Seq<Seq<char>> {
    Seq::new(v.len(), |i: int| v[i]@)
}

/// The view of an optional string.
pub open spec fn opt_view(o: Option<String>) -> Option<Seq<char>> {
    match o {
        Some(s) => Some(s@),
        None => None,
    }
}


/// `str::is_char_boundary(n)`.
pub fn is_boundary_exec(s: &[char], n: usize) -> (r: bool)
    requires
        n <= usize::MAX - 5,
    ensures
        r == is_boundary(s@, n as int),
{
    let p = byte_prefix_exec(s, n);
    utf8_len_capped_exec(&p, n + 1) == n
}


/// The views of string slices.
pub open spec fn str_seq_view(v: Seq<&str>) -> Seq<Seq<char>> {
    Seq::new(v.len(), |i: int| v[i]@)
}

/// `slice::join` of string slices.
pub fn join_strs(parts: &Vec<&str>, sep: &str) -> (r: Vec<char>)
    ensures
        r@ == join(str_seq_view(parts@), sep@),
{
    let ghost pv = str_seq_view(parts@);
    let mut r: Vec<char> = Vec::new();
    let mut i: usize = 0;
    proof {
        assert(pv.take(0) =~= Seq::<Seq<char>>::empty());
    }
    while i < parts.len()
        invariant
            i <= parts@.len(),
            pv == str_seq_view(parts@),
            r@ == join(pv.take(i as int), sep@),
        decreases parts@.len() - i,
    {
        let ghost before = r@;
        if i > 0 {
            extend_str(&mut r, sep);
        }
        extend_str(&mut r, parts[i]);
        proof {
            lemma_join_take(pv, sep@, i as int);
            if i == 0 {
                assert(r@ =~= pv[0]);
            } else {
                assert(r@ =~= before + sep@ + pv[i as int]);
            }
        }
        i += 1;
    }
    proof {
        assert(pv.take(parts@.len() as int) =~= pv);
    }
    r
}


/// `split_str` never gives an empty list of pieces.
pub proof fn lemma_split_str_nonempty(s: Seq<char>, p: Seq<char>)
    ensures
        split_str(s, p).len() >= 1,
    decreases s.len(),
{
    if p.len() > 0 {
        match find(s, p) {
            Some(i) => {
                if 0 <= i && i + p.len() <= s.len() {
                    lemma_split_str_nonempty(s.skip(i + p.len()), p);
                }
            },
            None => {},
        }
    }
}


/// A double quote or a comma.
pub open spec fn is_quote_or_comma(c: char) -> bool {
    c == '"' || c == ','
}

pub open spec fn trim_qc_start(s: Seq<char>) -> Seq<char>
    decreases s.len(),
{
    if s.len() > 0 && is_quote_or_comma(s[0]) {
        trim_qc_start(s.drop_first())
    } else {
        s
    }
}

pub open spec fn trim_qc_end(s: Seq<char>) -> Seq<char>
    decreases s.len(),
{
    if s.len() > 0 && is_quote_or_comma(s.last()) {
        trim_qc_end(s.drop_last())
    } else {
        s
    }
}

/// `str::trim_matches(|c| c == '"' || c == ',')`.
pub open spec fn trim_qc(s: Seq<char>) -> Seq<char> {
    trim_qc_end(trim_qc_start(s))
}

pub fn trim_qc_exec(v: &[char]) -> (r: Vec<char>)
    ensures
        r@ == trim_qc(v@),
{
    let mut lo: usize = 0;
    proof {
        assert(v@.subrange(0, v@.len() as int) == v@);
    }
    while lo < v.len() && (v[lo] == '"' || v[lo] == ',')
        invariant
            lo <= v@.len(),
            trim_qc_start(v@) == trim_qc_start(v@.subrange(lo as int, v@.len() as int)),
        decreases v@.len() - lo,
    {
        proof {
            assert(v@.subrange(lo as int, v@.len() as int).drop_first() == v@.subrange(
                lo + 1,
                v@.len() as int,
            ));
        }
        lo += 1;
    }
    let ghost t = v@.subrange(lo as int, v@.len() as int);
    let mut hi: usize = v.len();
    proof {
        assert(t.subrange(0, t.len() as int) == t);
    }
    while hi > lo && (v[hi - 1] == '"' || v[hi - 1] == ',')
        invariant
            lo <= hi <= v@.len(),
            t == v@.subrange(lo as int, v@.len() as int),
            trim_qc_start(v@) == t,
            trim_qc_end(t) == trim_qc_end(t.subrange(0, hi - lo)),
        decreases hi,
    {
        proof {
            assert(t.subrange(0, hi - lo).drop_last() == t.subrange(0, hi - lo - 1));
        }
        hi -= 1;
    }
    proof {
        assert(t.subrange(0, hi - lo) == v@.subrange(lo as int, hi as int));
    }
    slice(v, lo, hi)
}


/// The byte length of a sequence is that of a prefix plus that of the rest.
pub proof fn lemma_utf8_len_split(s: Seq<char>, k: int)
    requires
        0 <= k <= s.len(),
    ensures
        utf8_len(s) == utf8_len(s.take(k)) + utf8_len(s.skip(k)),
    decreases s.len(),
{
    if s.len() == k {
        assert(s.take(k) =~= s);
        assert(s.skip(k) =~= Seq::<char>::empty());
    } else {
        lemma_utf8_len_split(s.drop_last(), k);
        assert(s.drop_last().take(k) =~= s.take(k));
        assert(s.skip(k).drop_last() =~= s.drop_last().skip(k));
        assert(s.skip(k).last() == s.last());
    }
}

/// The exact UTF-8 byte length of a sequence known to be at most half the address space.
pub fn utf8_len_exec(s: &[char]) -> (r: usize)
    requires
        utf8_len(s@) <= isize::MAX,
    ensures
        r == utf8_len(s@),
{
    utf8_len_capped_exec(s, usize::MAX - 4)
}


/// More bytes hold at least as many characters.
pub proof fn lemma_prefix_chars_mono(s: Seq<char>, a: int, b: int)
    requires
        a <= b,
    ensures
        prefix_chars(s, a) <= prefix_chars(s, b),
    decreases s.len(),
{
    if s.len() > 0 && char_width(s[0]) <= a {
        lemma_prefix_chars_mono(s.drop_first(), a - char_width(s[0]), b - char_width(s[0]));
    }
}


pub proof fn lemma_utf8_len_trim(s: Seq<char>)
    ensures
        utf8_len(trim(s)) <= utf8_len(s),
{
    lemma_utf8_len_trim_start(s);
    lemma_utf8_len_trim_end(trim_start(s));
}

proof fn lemma_utf8_len_trim_start(s: Seq<char>)
    ensures
        utf8_len(trim_start(s)) <= utf8_len(s),
    decreases s.len(),
{
    if s.len() > 0 && is_ws(s[0]) {
        lemma_utf8_len_split(s, 1);
        assert(s.skip(1) =~= s.drop_first());
        lemma_utf8_len_trim_start(s.drop_first());
    }
}

proof fn lemma_utf8_len_trim_end(s: Seq<char>)
    ensures
        utf8_len(trim_end(s)) <= utf8_len(s),
    decreases s.len(),
{
    if s.len() > 0 && is_ws(s.last()) {
        lemma_utf8_len_trim_end(s.drop_last());
    }
}

proof fn lemma_split_char_pieces(s: Seq<char>, c: char)
    ensures
        forall|i: int| 0 <= i < split_char(s, c).len() ==> utf8_len(#[trigger] split_char(s, c)[i]) <= utf8_len(s),
    decreases s.len(),
{
    lemma_split_char_len(s, c);
    if s.len() > 0 {
        lemma_split_char_pieces(s.drop_last(), c);
        lemma_split_char_len(s.drop_last(), c);
        let p = split_char(s.drop_last(), c);
        assert(utf8_len(s) == utf8_len(s.drop_last()) + char_width(s.last()));
        if s.last() != c {
            let q = p.update(p.len() - 1, p.last().push(s.last()));
            assert forall|i: int| 0 <= i < q.len() implies utf8_len(#[trigger] q[i]) <= utf8_len(s) by {
                if i == p.len() - 1 {
                    assert(p.last().push(s.last()).drop_last() =~= p.last());
                    assert(utf8_len(p[p.len() - 1]) <= utf8_len(s.drop_last()));
                } else {
                    assert(utf8_len(p[i]) <= utf8_len(s.drop_last()));
                }
            }
        } else {
            let q = p.push(Seq::<char>::empty());
            assert forall|i: int| 0 <= i < q.len() implies utf8_len(#[trigger] q[i]) <= utf8_len(s) by {
                if i < p.len() {
                    assert(utf8_len(p[i]) <= utf8_len(s.drop_last()));
                }
            }
        }
    }
}

/// No line of a text is longer than the text, in bytes.
pub proof fn lemma_lines_bytes(s: Seq<char>)
    ensures
        forall|i: int| 0 <= i < lines(s).len() ==> utf8_len(trim(#[trigger] lines(s)[i])) <= utf8_len(s),
{
    lemma_split_char_pieces(s, '\n');
    lemma_split_char_len(s, '\n');
    let p = split_char(s, '\n');
    let body = p.drop_last().map_values(|l: Seq<char>| strip_cr(l));
    assert forall|i: int| 0 <= i < lines(s).len() implies utf8_len(trim(#[trigger] lines(s)[i])) <= utf8_len(s) by {
        let l = lines(s)[i];
        lemma_utf8_len_trim(l);
        if i < body.len() {
            assert(l == strip_cr(p[i]));
            assert(utf8_len(p[i]) <= utf8_len(s));
            if p[i].len() > 0 && p[i].last() == '\r' {
                assert(utf8_len(p[i]) == utf8_len(p[i].drop_last()) + char_width(p[i].last()));
            }
        } else {
            assert(l == p.last());
            assert(utf8_len(p[p.len() - 1]) <= utf8_len(s));
        }
    }
}


/// The total number of characters of the pieces.
pub open spec fn total_len(ls: Seq<Seq<char>>) -> nat
    decreases ls.len(),
{
    if ls.len() == 0 {
        0
    } else {
        total_len(ls.drop_last()) + ls.last().len()
    }
}

/// A run of consecutive pieces holds no more characters than all of them.
pub proof fn lemma_total_len_subrange(ls: Seq<Seq<char>>, a: int, b: int)
    requires
        0 <= a <= b <= ls.len(),
    ensures
        total_len(ls.subrange(a, b)) <= total_len(ls),
    decreases ls.len(),
{
    if b == a {
        assert(ls.subrange(a, b) =~= Seq::<Seq<char>>::empty());
    } else if b == ls.len() {
        if a == 0 {
            assert(ls.subrange(a, b) =~= ls);
        } else {
            lemma_total_len_subrange(ls.drop_last(), a, b - 1);
            assert(ls.subrange(a, b).drop_last() =~= ls.drop_last().subrange(a, b - 1));
        }
    } else {
        lemma_total_len_subrange(ls.drop_last(), a, b);
        assert(ls.drop_last().subrange(a, b) =~= ls.subrange(a, b));
    }
}

proof fn lemma_total_len_split_char(s: Seq<char>, c: char)
    ensures
        total_len(split_char(s, c)) <= s.len(),
    decreases s.len(),
{
    lemma_split_char_len(s, c);
    if s.len() == 0 {
        let p = split_char(s, c);
        assert(p == seq![Seq::<char>::empty()]);
        assert(p.drop_last() =~= Seq::<Seq<char>>::empty());
        assert(total_len(p.drop_last()) == 0);
        assert(p.last().len() == 0);
    } else {
        lemma_total_len_split_char(s.drop_last(), c);
        lemma_split_char_len(s.drop_last(), c);
        let p = split_char(s.drop_last(), c);
        if s.last() == c {
            assert(p.push(Seq::<char>::empty()).drop_last() =~= p);
        } else {
            let q = p.update(p.len() - 1, p.last().push(s.last()));
            assert(q.drop_last() =~= p.drop_last());
            assert(q.last() == p.last().push(s.last()));
            assert(total_len(p) == total_len(p.drop_last()) + p.last().len());
            assert(total_len(q) == total_len(q.drop_last()) + q.last().len());
        }
    }
}

proof fn lemma_total_len_strip_cr(q: Seq<Seq<char>>)
    ensures
        total_len(q.map_values(|l: Seq<char>| strip_cr(l))) <= total_len(q),
    decreases q.len(),
{
    if q.len() > 0 {
        lemma_total_len_strip_cr(q.drop_last());
        assert(q.map_values(|l: Seq<char>| strip_cr(l)).drop_last() =~= q.drop_last().map_values(
            |l: Seq<char>| strip_cr(l),
        ));
    }
}

/// The lines of a text hold no more characters than the text.
pub proof fn lemma_lines_total_len(s: Seq<char>)
    ensures
        total_len(lines(s)) <= s.len(),
{
    lemma_split_char_len(s, '\n');
    lemma_total_len_split_char(s, '\n');
    let p = split_char(s, '\n');
    let body = p.drop_last().map_values(|l: Seq<char>| strip_cr(l));
    lemma_total_len_strip_cr(p.drop_last());
    assert(total_len(p) == total_len(p.drop_last()) + p.last().len());
    if p.last().len() != 0 {
        assert(body.push(p.last()).drop_last() =~= body);
    }
}

} // verus!
