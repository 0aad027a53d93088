//! Counting how often each key occurs, and ranking counted keys.
use vstd::prelude::*;
use crate::display::series_view;
use crate::text::{chars_of, seq_eq, string_views};

verus! {

/// A key with its count.
pub type Counted = (Seq<char>, nat);

/// The first position, from `i` on, holding the key `k`.
pub open spec fn find_key(t: Seq<Counted>, k: Seq<char>, i: int) -> Option<int>
    decreases t.len() - i,
{
    if i < 0 || i >= t.len() {
        None
    } else if t[i].0 == k {
        Some(i)
    } else {
        find_key(t, k, i + 1)
    }
}

/// One more occurrence of `k`: its count goes up by one, or it is added,
/// counted once, after the keys already there.
pub open spec fn bump(t: Seq<Counted>, k: Seq<char>) -> Seq<Counted> {
    match find_key(t, k, 0) {
        Some(j) => t.update(j, (k, t[j].1 + 1)),
        None => t.push((k, 1)),
    }
}

/// The distinct keys in the order they first occur, each with how often it occurs.
pub open spec fn tally(ks: Seq<Seq<char>>) -> Seq<Counted>
    decreases ks.len(),
{
    if ks.len() == 0 {
        Seq::empty()
    } else {
        bump(tally(ks.drop_last()), ks.last())
    }
}

/// How often `k` occurs.
pub open spec fn count_of(ks: Seq<Seq<char>>, k: Seq<char>) -> nat
    decreases ks.len(),
{
    if ks.len() == 0 {
        0
    } else {
        count_of(ks.drop_last(), k) + if ks.last() == k {
            1nat
        } else {
            0nat
        }
    }
}

/// Where a count `c` goes among counts sorted from high to low: after every
/// count at least as high.
pub open spec fn rank_pos(s: Seq<Counted>, c: nat) -> int
    decreases s.len(),
{
    if s.len() == 0 {
        0
    } else if s.last().1 >= c {
        s.len() as int
    } else {
        rank_pos(s.drop_last(), c)
    }
}

/// The counted keys from the highest count to the lowest, equal counts in
/// the order they came in (a stable sort).
pub open spec fn rank_desc(s: Seq<Counted>) -> Seq<Counted>
    decreases s.len(),
{
    if s.len() == 0 {
        Seq::empty()
    } else {
        let t = rank_desc(s.drop_last());
        t.insert(rank_pos(t, s.last().1), s.last())
    }
}

/// The first `n` items, or all of them when there are fewer.
pub open spec fn top<T>(s: Seq<T>, n: nat) -> Seq<T> {
    if n < s.len() {
        s.take(n as int)
    } else {
        s
    }
}

/// Counts from high to low.
pub open spec fn ranked(s: Seq<Counted>) -> bool {
    forall|i: int, j: int| 0 <= i < j < s.len() ==> (#[trigger] s[i]).1 >= (#[trigger] s[j]).1
}

/// No key twice.
pub open spec fn distinct_keys(t: Seq<Counted>) -> bool {
    forall|i: int, j: int| 0 <= i < j < t.len() ==> (#[trigger] t[i]).0 != (#[trigger] t[j]).0
}

proof fn lemma_find_key(t: Seq<Counted>, k: Seq<char>, i: int)
    requires
        0 <= i,
    ensures
        find_key(t, k, i) matches Some(j) ==> i <= j < t.len() && t[j].0 == k,
        find_key(t, k, i) is None ==> forall|m: int| i <= m < t.len() ==> (#[trigger] t[m]).0 != k,
    decreases t.len() - i,
{
    if i < t.len() && t[i].0 != k {
        lemma_find_key(t, k, i + 1);
    }
}

proof fn lemma_count_of_le(ks: Seq<Seq<char>>, k: Seq<char>)
    ensures
        count_of(ks, k) <= ks.len(),
    decreases ks.len(),
{
    if ks.len() > 0 {
        lemma_count_of_le(ks.drop_last(), k);
    }
}

proof fn lemma_count_of_pos(ks: Seq<Seq<char>>, k: Seq<char>)
    requires
        count_of(ks, k) > 0,
    ensures
        exists|m: int| 0 <= m < ks.len() && ks[m] == k,
    decreases ks.len(),
{
    if ks.last() != k {
        lemma_count_of_pos(ks.drop_last(), k);
        let m = choose|m: int| 0 <= m < ks.drop_last().len() && ks.drop_last()[m] == k;
        assert(ks[m] == k);
    } else {
        assert(ks[ks.len() - 1] == k);
    }
}

/// What the tally holds: every key once, each with the number of times it
/// occurs, and every occurring key among them.
pub proof fn lemma_tally(ks: Seq<Seq<char>>)
    ensures
        distinct_keys(tally(ks)),
        forall|i: int| 0 <= i < tally(ks).len() ==> (#[trigger] tally(ks)[i]).1 == count_of(ks, tally(ks)[i].0),
        forall|m: int|
            0 <= m < ks.len() ==> exists|i: int|
                0 <= i < tally(ks).len() && (#[trigger] tally(ks)[i]).0 == #[trigger] ks[m],
        forall|i: int| 0 <= i < tally(ks).len() ==> ks.contains((#[trigger] tally(ks)[i]).0),
    decreases ks.len(),
{
    if ks.len() > 0 {
        let p = ks.drop_last();
        let k = ks.last();
        let t0 = tally(p);
        let t = tally(ks);
        lemma_tally(p);
        lemma_find_key(t0, k, 0);
        match find_key(t0, k, 0) {
            Some(j) => {
                assert(t == t0.update(j, (k, t0[j].1 + 1)));
                assert forall|i: int| 0 <= i < t.len() implies (#[trigger] t[i]).1 == count_of(ks, t[i].0) by {
                    if i != j {
                        assert(t0[i].0 != t0[j].0 || i == j);
                        assert(t[i] == t0[i]);
                    }
                }
                assert forall|m: int| 0 <= m < ks.len() implies exists|i: int|
                    0 <= i < t.len() && (#[trigger] t[i]).0 == #[trigger] ks[m] by {
                    if m < p.len() {
                        assert(p[m] == ks[m]);
                        let i = choose|i: int| 0 <= i < t0.len() && (#[trigger] t0[i]).0 == p[m];
                        assert(t[i].0 == ks[m]);
                    } else {
                        assert(t[j].0 == ks[m]);
                    }
                }
                assert forall|i: int| 0 <= i < t.len() implies ks.contains((#[trigger] t[i]).0) by {
                    if i == j {
                        assert(ks[ks.len() - 1] == k);
                    } else {
                        assert(t[i] == t0[i]);
                        assert(p.contains(t0[i].0));
                        let m = choose|m: int| 0 <= m < p.len() && p[m] == t0[i].0;
                        assert(ks[m] == p[m]);
                    }
                }
            },
            None => {
                assert(t == t0.push((k, 1)));
                if count_of(p, k) > 0 {
                    lemma_count_of_pos(p, k);
                    let m = choose|m: int| 0 <= m < p.len() && p[m] == k;
                    let i = choose|i: int| 0 <= i < t0.len() && (#[trigger] t0[i]).0 == p[m];
                    assert(t0[i].0 == k);
                }
                assert forall|i: int| 0 <= i < t.len() implies (#[trigger] t[i]).1 == count_of(ks, t[i].0) by {
                    if i < t0.len() {
                        assert(t[i] == t0[i]);
                    }
                }
                assert forall|m: int| 0 <= m < ks.len() implies exists|i: int|
                    0 <= i < t.len() && (#[trigger] t[i]).0 == #[trigger] ks[m] by {
                    if m < p.len() {
                        assert(p[m] == ks[m]);
                        let i = choose|i: int| 0 <= i < t0.len() && (#[trigger] t0[i]).0 == p[m];
                        assert(t[i].0 == ks[m]);
                    } else {
                        assert(t[t0.len() as int].0 == ks[m]);
                    }
                }
                assert forall|i: int| 0 <= i < t.len() implies ks.contains((#[trigger] t[i]).0) by {
                    if i == t0.len() {
                        assert(ks[ks.len() - 1] == k);
                    } else {
                        assert(t[i] == t0[i]);
                        assert(p.contains(t0[i].0));
                        let m = choose|m: int| 0 <= m < p.len() && p[m] == t0[i].0;
                        assert(ks[m] == p[m]);
                    }
                }
            },
        }
    }
}

proof fn lemma_rank_pos(s: Seq<Counted>, c: nat)
    requires
        ranked(s),
    ensures
        0 <= rank_pos(s, c) <= s.len(),
        forall|i: int| 0 <= i < rank_pos(s, c) ==> (#[trigger] s[i]).1 >= c,
        forall|i: int| rank_pos(s, c) <= i < s.len() ==> (#[trigger] s[i]).1 < c,
    decreases s.len(),
{
    if s.len() > 0 {
        if s.last().1 >= c {
            assert forall|i: int| 0 <= i < s.len() implies (#[trigger] s[i]).1 >= c by {
                if i < s.len() - 1 {
                    assert(s[i].1 >= s[s.len() - 1].1);
                }
            }
        } else {
            let d = s.drop_last();
            assert(ranked(d)) by {
                assert forall|i: int, j: int| 0 <= i < j < d.len() implies (#[trigger] d[i]).1 >= (
                #[trigger] d[j]).1 by {
                    assert(d[i] == s[i] && d[j] == s[j]);
                }
            }
            lemma_rank_pos(d, c);
            assert forall|i: int| 0 <= i < rank_pos(s, c) implies (#[trigger] s[i]).1 >= c by {
                assert(d[i] == s[i]);
            }
            assert forall|i: int| rank_pos(s, c) <= i < s.len() implies (#[trigger] s[i]).1 < c by {
                if i < d.len() {
                    assert(d[i] == s[i]);
                }
            }
        }
    }
}

/// Ranking puts counts from high to low and keeps every counted key: it is a
/// reordering of what it was given.
pub proof fn lemma_rank_desc(s: Seq<Counted>)
    ensures
        ranked(rank_desc(s)),
        rank_desc(s).to_multiset() == s.to_multiset(),
        rank_desc(s).len() == s.len(),
    decreases s.len(),
{
    broadcast use vstd::seq_lib::to_multiset_build, vstd::seq_lib::to_multiset_insert;

    if s.len() == 0 {
        assert(s =~= Seq::<Counted>::empty());
        assert(rank_desc(s) =~= s);
    } else {
        let t = rank_desc(s.drop_last());
        let x = s.last();
        lemma_rank_desc(s.drop_last());
        lemma_rank_pos(t, x.1);
        let p = rank_pos(t, x.1);
        let r = t.insert(p, x);
        assert(r == rank_desc(s));
        assert forall|i: int, j: int| 0 <= i < j < r.len() implies (#[trigger] r[i]).1 >= (#[trigger] r[j]).1 by {
            if j < p {
                assert(r[i] == t[i] && r[j] == t[j]);
            } else if j == p {
                assert(r[i] == t[i]);
            } else if i < p {
                assert(r[i] == t[i] && r[j] == t[j - 1]);
            } else if i == p {
                assert(r[j] == t[j - 1]);
            } else {
                assert(r[i] == t[i - 1] && r[j] == t[j - 1]);
            }
        }
        assert(s.drop_last().push(x) == s);
    }
}

/// Counts each key (see [`tally`]): the distinct keys in the order they first
/// occur, each with the number of times it occurs.
pub fn tally_keys(keys: &Vec<String>) -> (r: Vec<(String, usize)>)
    ensures
        series_view(r@) == tally(string_views(keys@)),
{
    let ghost kv = string_views(keys@);
    let mut r: Vec<(String, usize)> = Vec::new();
    let mut i: usize = 0;
    proof {
        assert(kv.take(0) =~= Seq::<Seq<char>>::empty());
        assert(series_view(r@) =~= Seq::<Counted>::empty());
    }
    while i < keys.len()
        invariant
            i <= keys@.len(),
            kv == string_views(keys@),
            series_view(r@) == tally(kv.take(i as int)),
            forall|m: int| 0 <= m < r@.len() ==> (#[trigger] r@[m]).1 <= i,
        decreases keys@.len() - i,
    {
        let ghost t = series_view(r@);
        let ghost k = kv[i as int];
        proof {
            assert(kv.take(i + 1).drop_last() =~= kv.take(i as int));
            assert(kv.take(i + 1).last() == k);
        }
        let kc = chars_of(keys[i].as_str());
        let mut j: usize = 0;
        let mut found = false;
        while j < r.len() && !found
            invariant
                j <= r@.len(),
                t == series_view(r@),
                kc@ == k,
                found ==> j < r@.len() && find_key(t, k, 0) == Some(j as int),
                !found ==> find_key(t, k, 0) == find_key(t, k, j as int),
            decreases r@.len() - j + if found { 0int } else { 1int },
        {
            let rc = chars_of(r[j].0.as_str());
            proof {
                assert(t[j as int].0 == rc@);
            }
            if seq_eq(&rc, &kc) {
                found = true;
            } else {
                j += 1;
            }
        }
        proof {
            lemma_find_key(t, k, 0);
        }
        if found {
            let c = r[j].1;
            let name = r[j].0.clone();
            r.set(j, (name, c + 1));
            proof {
                assert(series_view(r@) =~= t.update(j as int, (k, t[j as int].1 + 1)));
            }
        } else {
            r.push((keys[i].clone(), 1));
            proof {
                assert(find_key(t, k, j as int) is None);
                assert(series_view(r@) =~= t.push((k, 1)));
            }
        }
        i += 1;
    }
    proof {
        assert(kv.take(keys@.len() as int) =~= kv);
    }
    r
}

/// Ranks counted keys from the highest count to the lowest, equal counts in
/// the order they came in.
pub fn rank_by_count(items: &Vec<(String, usize)>) -> (r: Vec<(String, usize)>)
    ensures
        series_view(r@) == rank_desc(series_view(items@)),
{
    let ghost sv = series_view(items@);
    let mut r: Vec<(String, usize)> = Vec::new();
    let mut i: usize = 0;
    proof {
        assert(sv.take(0) =~= Seq::<Counted>::empty());
        assert(series_view(r@) =~= Seq::<Counted>::empty());
    }
    while i < items.len()
        invariant
            i <= items@.len(),
            sv == series_view(items@),
            series_view(r@) == rank_desc(sv.take(i as int)),
        decreases items@.len() - i,
    {
        proof {
            assert(sv.take(i + 1).drop_last() =~= sv.take(i as int));
            assert(sv.take(i + 1).last() == sv[i as int]);
        }
        let ghost t = series_view(r@);
        let c = items[i].1;
        let mut j: usize = r.len();
        proof {
            assert(t.take(j as int) =~= t);
        }
        while j > 0 && r[j - 1].1 < c
            invariant
                j <= r@.len(),
                t == series_view(r@),
                rank_pos(t, c as nat) == rank_pos(t.take(j as int), c as nat),
            decreases j,
        {
            proof {
                assert(t.take(j as int).drop_last() =~= t.take(j - 1));
                assert(t.take(j as int).last() == t[j - 1]);
            }
            j -= 1;
        }
        proof {
            if j > 0 {
                assert(t.take(j as int).last() == t[j - 1]);
            } else {
                assert(t.take(0) =~= Seq::<Counted>::empty());
            }
        }
        r.insert(j, (items[i].0.clone(), c));
        proof {
            assert(series_view(r@) =~= t.insert(j as int, sv[i as int]));
        }
        i += 1;
    }
    proof {
        assert(sv.take(items@.len() as int) =~= sv);
    }
    r
}

/// The keys counted and ranked from the most frequent to the least (keys
/// equally frequent in the order they first occur), the first `limit` of them.
pub fn top_keys(keys: &Vec<String>, limit: usize) -> (r: Vec<(String, usize)>)
    ensures
        series_view(r@) == top(rank_desc(tally(string_views(keys@))), limit as nat),
{
    let t = tally_keys(keys);
    let mut r = rank_by_count(&t);
    let ghost before = series_view(r@);
    r.truncate(limit);
    proof {
        if (limit as nat) < before.len() {
            assert(series_view(r@) =~= before.take(limit as int));
        } else {
            assert(series_view(r@) =~= before);
        }
    }
    r
}

/// The order of strings by their characters' code points, a proper prefix
/// first (the order of their UTF-8 bytes).
pub open spec fn lex_lt(a: Seq<char>, b: Seq<char>) -> bool
    decreases a.len(),
{
    if a.len() == 0 {
        b.len() > 0
    } else if b.len() == 0 {
        false
    } else if a[0] != b[0] {
        (a[0] as int) < (b[0] as int)
    } else {
        lex_lt(a.drop_first(), b.drop_first())
    }
}

/// No string comes before itself.
pub proof fn lemma_lex_irreflexive(a: Seq<char>)
    ensures
        !lex_lt(a, a),
    decreases a.len(),
{
    if a.len() > 0 {
        lemma_lex_irreflexive(a.drop_first());
    }
}

/// Of two different strings, one comes first, and not both.
pub proof fn lemma_lex_total(a: Seq<char>, b: Seq<char>)
    ensures
        a != b ==> (lex_lt(a, b) || lex_lt(b, a)),
        !(lex_lt(a, b) && lex_lt(b, a)),
    decreases a.len(),
{
    if a.len() > 0 && b.len() > 0 {
        if a[0] == b[0] {
            lemma_lex_total(a.drop_first(), b.drop_first());
            if a != b {
                assert(a =~= seq![a[0]] + a.drop_first());
                assert(b =~= seq![b[0]] + b.drop_first());
            }
        } else {
            assert((a[0] as int) != (b[0] as int));
        }
    } else if a.len() == 0 && b.len() == 0 {
        assert(a =~= b);
    }
}

/// The order is transitive.
pub proof fn lemma_lex_transitive(a: Seq<char>, b: Seq<char>, c: Seq<char>)
    requires
        lex_lt(a, b),
        lex_lt(b, c),
    ensures
        lex_lt(a, c),
    decreases a.len(),
{
    if a.len() > 0 && a[0] == b[0] && b[0] == c[0] {
        lemma_lex_transitive(a.drop_first(), b.drop_first(), c.drop_first());
    }
}

/// Where a key goes among keys sorted in ascending order: after every key
/// not above it.
pub open spec fn key_pos(s: Seq<Counted>, k: Seq<char>) -> int
    decreases s.len(),
{
    if s.len() == 0 {
        0
    } else if !lex_lt(k, s.last().0) {
        s.len() as int
    } else {
        key_pos(s.drop_last(), k)
    }
}

/// The counted keys in ascending order of key (a stable sort).
pub open spec fn sort_by_key(s: Seq<Counted>) -> Seq<Counted>
    decreases s.len(),
{
    if s.len() == 0 {
        Seq::empty()
    } else {
        let t = sort_by_key(s.drop_last());
        t.insert(key_pos(t, s.last().0), s.last())
    }
}

/// Keys in ascending order.
pub open spec fn keys_ascending(s: Seq<Counted>) -> bool {
    forall|i: int, j: int| 0 <= i < j < s.len() ==> !lex_lt((#[trigger] s[j]).0, (#[trigger] s[i]).0)
}

proof fn lemma_key_pos(s: Seq<Counted>, k: Seq<char>)
    requires
        keys_ascending(s),
    ensures
        0 <= key_pos(s, k) <= s.len(),
        forall|i: int| 0 <= i < key_pos(s, k) ==> !lex_lt(k, (#[trigger] s[i]).0),
        forall|i: int| key_pos(s, k) <= i < s.len() ==> lex_lt(k, (#[trigger] s[i]).0),
    decreases s.len(),
{
    if s.len() > 0 {
        let n = s.len() - 1;
        if !lex_lt(k, s.last().0) {
            assert forall|i: int| 0 <= i < s.len() implies !lex_lt(k, (#[trigger] s[i]).0) by {
                if i < n && lex_lt(k, s[i].0) {
                    lemma_lex_total(s[i].0, s[n].0);
                    if s[i].0 == s[n].0 {
                    } else if lex_lt(s[i].0, s[n].0) {
                        lemma_lex_transitive(k, s[i].0, s[n].0);
                    }
                }
            }
        } else {
            let d = s.drop_last();
            assert(keys_ascending(d)) by {
                assert forall|i: int, j: int| 0 <= i < j < d.len() implies !lex_lt((#[trigger] d[j]).0, (
                #[trigger] d[i]).0) by {
                    assert(d[i] == s[i] && d[j] == s[j]);
                }
            }
            lemma_key_pos(d, k);
            assert forall|i: int| 0 <= i < key_pos(s, k) implies !lex_lt(k, (#[trigger] s[i]).0) by {
                assert(d[i] == s[i]);
            }
            assert forall|i: int| key_pos(s, k) <= i < s.len() implies lex_lt(k, (#[trigger] s[i]).0) by {
                if i < d.len() {
                    assert(d[i] == s[i]);
                }
            }
        }
    }
}

/// Sorting by key puts the keys in ascending order and keeps every counted
/// key: it is a reordering of what it was given.
pub proof fn lemma_sort_by_key(s: Seq<Counted>)
    ensures
        keys_ascending(sort_by_key(s)),
        sort_by_key(s).to_multiset() == s.to_multiset(),
        sort_by_key(s).len() == s.len(),
    decreases s.len(),
{
    broadcast use vstd::seq_lib::to_multiset_build, vstd::seq_lib::to_multiset_insert;

    if s.len() == 0 {
        assert(s =~= Seq::<Counted>::empty());
        assert(sort_by_key(s) =~= s);
    } else {
        let t = sort_by_key(s.drop_last());
        let x = s.last();
        lemma_sort_by_key(s.drop_last());
        lemma_key_pos(t, x.0);
        let p = key_pos(t, x.0);
        let r = t.insert(p, x);
        assert(r == sort_by_key(s));
        assert forall|i: int, j: int| 0 <= i < j < r.len() implies !lex_lt((#[trigger] r[j]).0, (
        #[trigger] r[i]).0) by {
            if j < p {
                assert(r[i] == t[i] && r[j] == t[j]);
            } else if j == p {
                assert(r[i] == t[i]);
            } else if i < p {
                assert(r[i] == t[i] && r[j] == t[j - 1]);
                if lex_lt(t[j - 1].0, t[i].0) {
                    lemma_lex_transitive(x.0, t[j - 1].0, t[i].0);
                }
            } else if i == p {
                assert(r[j] == t[j - 1]);
                lemma_lex_total(x.0, t[j - 1].0);
            } else {
                assert(r[i] == t[i - 1] && r[j] == t[j - 1]);
            }
        }
        assert(s.drop_last().push(x) == s);
    }
}

fn lex_lt_exec(a: &[char], b: &[char]) -> (r: bool)
    ensures
        r == lex_lt(a@, b@),
{
    let mut i: usize = 0;
    proof {
        assert(a@.skip(0) =~= a@);
        assert(b@.skip(0) =~= b@);
    }
    while i < a.len() && i < b.len() && a[i] == b[i]
        invariant
            i <= a@.len(),
            i <= b@.len(),
            lex_lt(a@, b@) == lex_lt(a@.skip(i as int), b@.skip(i as int)),
        decreases a@.len() - i,
    {
        proof {
            assert(a@.skip(i as int).drop_first() =~= a@.skip(i + 1));
            assert(b@.skip(i as int).drop_first() =~= b@.skip(i + 1));
        }
        i += 1;
    }
    if i == a.len() {
        i < b.len()
    } else if i == b.len() {
        false
    } else {
        proof {
            assert(a@.skip(i as int)[0] == a@[i as int]);
            assert(b@.skip(i as int)[0] == b@[i as int]);
        }
        a[i] < b[i]
    }
}

/// Sorts counted keys in ascending order of key, keeping equal keys in order.
pub fn sort_by_key_exec(items: &Vec<(String, usize)>) -> (r: Vec<(String, usize)>)
    ensures
        series_view(r@) == sort_by_key(series_view(items@)),
{
    let ghost sv = series_view(items@);
    let mut r: Vec<(String, usize)> = Vec::new();
    let mut i: usize = 0;
    proof {
        assert(sv.take(0) =~= Seq::<Counted>::empty());
        assert(series_view(r@) =~= Seq::<Counted>::empty());
    }
    while i < items.len()
        invariant
            i <= items@.len(),
            sv == series_view(items@),
            series_view(r@) == sort_by_key(sv.take(i as int)),
        decreases items@.len() - i,
    {
        proof {
            assert(sv.take(i + 1).drop_last() =~= sv.take(i as int));
            assert(sv.take(i + 1).last() == sv[i as int]);
        }
        let ghost t = series_view(r@);
        let kc = chars_of(items[i].0.as_str());
        let mut j: usize = r.len();
        proof {
            assert(t.take(j as int) =~= t);
        }
        while j > 0 && lex_lt_exec(&kc, &chars_of(r[j - 1].0.as_str()))
            invariant
                j <= r@.len(),
                t == series_view(r@),
                kc@ == sv[i as int].0,
                key_pos(t, kc@) == key_pos(t.take(j as int), kc@),
            decreases j,
        {
            proof {
                assert(t.take(j as int).drop_last() =~= t.take(j - 1));
                assert(t.take(j as int).last() == t[j - 1]);
            }
            j -= 1;
        }
        proof {
            if j > 0 {
                assert(t.take(j as int).last() == t[j - 1]);
            } else {
                assert(t.take(0) =~= Seq::<Counted>::empty());
            }
        }
        r.insert(j, (items[i].0.clone(), items[i].1));
        proof {
            assert(series_view(r@) =~= t.insert(j as int, sv[i as int]));
        }
        i += 1;
    }
    proof {
        assert(sv.take(items@.len() as int) =~= sv);
    }
    r
}

/// Whether key `a` may stand before key `b`: not lower when ordering from
/// high to low (`desc`), not higher otherwise.
pub open spec fn key_before(a: int, b: int, desc: bool) -> bool {
    if desc {
        a >= b
    } else {
        a <= b
    }
}

/// Where an index with key `c` goes among ordered indices: after every index
/// whose key may stand before it.
pub open spec fn order_pos(t: Seq<int>, keys: Seq<int>, c: int, desc: bool) -> int
    decreases t.len(),
{
    if t.len() == 0 {
        0
    } else if key_before(keys[t.last()], c, desc) {
        t.len() as int
    } else {
        order_pos(t.drop_last(), keys, c, desc)
    }
}

/// The indices below `n` ordered by their keys (from high to low when
/// `desc`, from low to high otherwise), equal keys in index order.
pub open spec fn order_by(keys: Seq<int>, desc: bool, n: nat) -> Seq<int>
    decreases n,
{
    if n == 0 {
        Seq::empty()
    } else {
        let t = order_by(keys, desc, (n - 1) as nat);
        t.insert(order_pos(t, keys, keys[n - 1], desc), n - 1)
    }
}

/// Wide integer keys as integers.
pub open spec fn wide_keys(v: Seq<i128>) -> Seq<int> {
    Seq::new(v.len(), |i: int| v[i] as int)
}

proof fn lemma_order_pos_bounds(t: Seq<int>, keys: Seq<int>, c: int, desc: bool)
    ensures
        0 <= order_pos(t, keys, c, desc) <= t.len(),
    decreases t.len(),
{
    if t.len() > 0 && !key_before(keys[t.last()], c, desc) {
        lemma_order_pos_bounds(t.drop_last(), keys, c, desc);
    }
}

proof fn lemma_order_pos(t: Seq<int>, keys: Seq<int>, c: int, desc: bool)
    requires
        forall|i: int, j: int| 0 <= i < j < t.len() ==> key_before(keys[#[trigger] t[i]], keys[#[trigger] t[j]], desc),
    ensures
        0 <= order_pos(t, keys, c, desc) <= t.len(),
        forall|i: int| 0 <= i < order_pos(t, keys, c, desc) ==> key_before(keys[#[trigger] t[i]], c, desc),
        forall|i: int| order_pos(t, keys, c, desc) <= i < t.len() ==> !key_before(keys[#[trigger] t[i]], c, desc),
    decreases t.len(),
{
    if t.len() > 0 {
        let n = t.len() - 1;
        if !key_before(keys[t.last()], c, desc) {
            let d = t.drop_last();
            assert forall|i: int, j: int| 0 <= i < j < d.len() implies key_before(keys[#[trigger] d[i]], keys[#[trigger] d[j]], desc) by {
                assert(d[i] == t[i] && d[j] == t[j]);
            }
            lemma_order_pos(d, keys, c, desc);
            assert forall|i: int| 0 <= i < order_pos(t, keys, c, desc) implies key_before(keys[#[trigger] t[i]], c, desc) by {
                assert(d[i] == t[i]);
            }
            assert forall|i: int| order_pos(t, keys, c, desc) <= i < t.len() implies !key_before(keys[#[trigger] t[i]], c, desc) by {
                if i < n {
                    assert(d[i] == t[i]);
                }
            }
        } else {
            assert forall|i: int| 0 <= i < t.len() implies key_before(keys[#[trigger] t[i]], c, desc) by {
                if i < n {
                    assert(key_before(keys[t[i]], keys[t[n]], desc));
                }
            }
        }
    }
}

/// The ordered indices are the indices below `n`, each once, in the order
/// of their keys.
pub proof fn lemma_order_by(keys: Seq<int>, desc: bool, n: nat)
    ensures
        order_by(keys, desc, n).len() == n,
        forall|k: int| 0 <= k < n ==> 0 <= #[trigger] order_by(keys, desc, n)[k] < n,
        forall|i: int, j: int|
            0 <= i < j < n ==> (#[trigger] order_by(keys, desc, n)[i]) != (#[trigger] order_by(keys, desc, n)[j]),
        forall|i: int, j: int|
            0 <= i < j < n ==> key_before(
                keys[#[trigger] order_by(keys, desc, n)[i]],
                keys[#[trigger] order_by(keys, desc, n)[j]],
                desc,
            ),
    decreases n,
{
    if n > 0 {
        let m = (n - 1) as nat;
        let t = order_by(keys, desc, m);
        lemma_order_by(keys, desc, m);
        let c = keys[n - 1];
        lemma_order_pos(t, keys, c, desc);
        let p = order_pos(t, keys, c, desc);
        let r = t.insert(p, n - 1);
        assert(r == order_by(keys, desc, n));
        assert forall|k: int| 0 <= k < n implies 0 <= #[trigger] r[k] < n by {
            if k < p {
                assert(r[k] == t[k]);
            } else if k > p {
                assert(r[k] == t[k - 1]);
            }
        }
        assert forall|i: int, j: int| 0 <= i < j < n implies (#[trigger] r[i]) != (#[trigger] r[j]) by {
            if j < p {
                assert(r[i] == t[i] && r[j] == t[j]);
            } else if j == p {
                assert(r[i] == t[i]);
            } else if i < p {
                assert(r[i] == t[i] && r[j] == t[j - 1]);
            } else if i == p {
                assert(r[j] == t[j - 1]);
            } else {
                assert(r[i] == t[i - 1] && r[j] == t[j - 1]);
            }
        }
        assert forall|i: int, j: int| 0 <= i < j < n implies key_before(keys[#[trigger] r[i]], keys[#[trigger] r[j]], desc) by {
            if j < p {
                assert(r[i] == t[i] && r[j] == t[j]);
            } else if j == p {
                assert(r[i] == t[i]);
            } else if i < p {
                assert(r[i] == t[i] && r[j] == t[j - 1]);
            } else if i == p {
                assert(r[j] == t[j - 1]);
            } else {
                assert(r[i] == t[i - 1] && r[j] == t[j - 1]);
            }
        }
    }
}

/// Orders the indices of the keys by key (from high to low when `desc`, from
/// low to high otherwise), equal keys in index order.
pub fn order_by_exec(keys: &Vec<i128>, desc: bool) -> (r: Vec<usize>)
    ensures
        r@.len() == keys@.len(),
        forall|k: int| 0 <= k < r@.len() ==> r@[k] as int == #[trigger] order_by(wide_keys(keys@), desc, keys@.len() as nat)[k],
        forall|k: int| 0 <= k < r@.len() ==> #[trigger] r@[k] < keys@.len(),
{
    let ghost kv = wide_keys(keys@);
    let mut r: Vec<usize> = Vec::new();
    let mut i: usize = 0;
    while i < keys.len()
        invariant
            i <= keys@.len(),
            kv == wide_keys(keys@),
            r@.len() == i,
            forall|k: int| 0 <= k < i ==> r@[k] as int == #[trigger] order_by(kv, desc, i as nat)[k],
        decreases keys@.len() - i,
    {
        let ghost t = order_by(kv, desc, i as nat);
        proof {
            lemma_order_by(kv, desc, i as nat);
        }
        let c = keys[i];
        let mut j: usize = r.len();
        proof {
            assert(t.take(j as int) =~= t);
        }
        while j > 0 && !((desc && keys[r[j - 1]] >= c) || (!desc && keys[r[j - 1]] <= c))
            invariant
                j <= r@.len(),
                r@.len() == i,
                i < keys@.len(),
                kv == wide_keys(keys@),
                t == order_by(kv, desc, i as nat),
                t.len() == i,
                forall|k: int| 0 <= k < i ==> r@[k] as int == #[trigger] t[k],
                forall|k: int| 0 <= k < i ==> 0 <= #[trigger] t[k] < i,
                order_pos(t, kv, c as int, desc) == order_pos(t.take(j as int), kv, c as int, desc),
            decreases j,
        {
            proof {
                assert(t.take(j as int).drop_last() =~= t.take(j - 1));
                assert(t.take(j as int).last() == t[j - 1]);
            }
            j -= 1;
        }
        proof {
            if j > 0 {
                assert(t.take(j as int).last() == t[j - 1]);
            } else {
                assert(t.take(0) =~= Seq::<int>::empty());
            }
            assert(kv[i as int] == c as int);
        }
        let ghost before = r@;
        r.insert(j, i);
        proof {
            let nt = t.insert(j as int, i as int);
            assert(nt == order_by(kv, desc, (i + 1) as nat));
            assert forall|k: int| 0 <= k < i + 1 implies r@[k] as int == #[trigger] nt[k] by {
                if k < j {
                    assert(r@[k] == before[k]);
                } else if k > j {
                    assert(r@[k] == before[k - 1]);
                }
            }
        }
        i += 1;
    }
    proof {
        lemma_order_by(kv, desc, keys@.len() as nat);
        let t = order_by(kv, desc, keys@.len() as nat);
        assert forall|k: int| 0 <= k < r@.len() implies #[trigger] r@[k] < keys@.len() by {
            assert(r@[k] as int == t[k]);
        }
    }
    r
}

} // verus!
