//! The files of a repository tree as a walk hands them over, and which of
//! them a scan skips.
use vstd::prelude::*;
use crate::text::{chars_of, ends_with, extend_str, push_char, starts_with, starts_with_exec};

verus! {

/// The content of a file of the tree.
pub enum BlobContent {
    /// The blob, valid UTF-8.
    Text(String),
    /// The blob is not valid UTF-8.
    Binary,
    /// The blob could not be read.
    Unreadable,
}

/// A file of the tree, in walk order: the directory prefix the walk gives
/// (empty at the root, otherwise ending in `/`) and the file name.
pub struct TreeEntry {
    pub dir: String,
    pub name: String,
    pub content: BlobContent,
}

/// The path of an entry: its directory prefix followed by its name.
pub open spec fn entry_path(e: TreeEntry) -> Seq<char> {
    e.dir@ + e.name@
}

/// An ignored directory as a path prefix: with a trailing `/` added when it lacks one.
pub open spec fn dir_prefix(d: Seq<char>) -> Seq<char> {
    if ends_with(d, "/"@) {
        d
    } else {
        d.push('/')
    }
}

/// `path` lies under one of the default prefixes or one of the ignored directories.
pub open spec fn skipped(path: Seq<char>, defaults: Seq<Seq<char>>, ignore: Seq<Seq<char>>) -> bool {
    ||| exists|i: int| 0 <= i < defaults.len() && starts_with(path, #[trigger] defaults[i])
    ||| exists|i: int| 0 <= i < ignore.len() && starts_with(path, dir_prefix(#[trigger] ignore[i]))
}

/// The views of string slices.
pub open spec fn strs_view(v: Seq<&str>) -> Seq<Seq<char>> {
    Seq::new(v.len(), |i: int| v[i]@)
}

/// The views of strings.
pub open spec fn strings_view(v: Seq<String>) -> Seq<Seq<char>> {
    Seq::new(v.len(), |i: int| v[i]@)
}

/// A path under one of the default prefixes is skipped whatever directories
/// are ignored.
pub proof fn lemma_defaults_always_skipped(path: Seq<char>, defaults: Seq<Seq<char>>, ignore: Seq<Seq<char>>, i: int)
    requires
        0 <= i < defaults.len(),
        starts_with(path, defaults[i]),
    ensures
        skipped(path, defaults, ignore),
{
}

/// Ignoring more directories only skips more: a path skipped with `fewer`
/// ignored directories is skipped with `more` of them.
pub proof fn lemma_ignoring_adds_skips(
    path: Seq<char>,
    defaults: Seq<Seq<char>>,
    fewer: Seq<Seq<char>>,
    more: Seq<Seq<char>>,
)
    requires
        forall|i: int| 0 <= i < fewer.len() ==> more.contains(#[trigger] fewer[i]),
        skipped(path, defaults, fewer),
    ensures
        skipped(path, defaults, more),
{
    if !(exists|i: int| 0 <= i < defaults.len() && starts_with(path, #[trigger] defaults[i])) {
        let i = choose|i: int| 0 <= i < fewer.len() && starts_with(path, dir_prefix(#[trigger] fewer[i]));
        assert(more.contains(fewer[i]));
        let j = choose|j: int| 0 <= j < more.len() && more[j] == fewer[i];
        assert(starts_with(path, dir_prefix(more[j])));
    }
}

/// Whether a scan skips `path`.
pub fn is_skipped(path: &[char], defaults: &[&str], ignore: &[String]) -> (r: bool)
    ensures
        r == skipped(path@, strs_view(defaults@), strings_view(ignore@)),
{
    let ghost dv = strs_view(defaults@);
    let ghost iv = strings_view(ignore@);
    let mut i: usize = 0;
    while i < defaults.len()
        invariant
            i <= defaults@.len(),
            dv == strs_view(defaults@),
            forall|k: int| 0 <= k < i ==> !starts_with(path@, #[trigger] dv[k]),
        decreases defaults@.len() - i,
    {
        let d = chars_of(defaults[i]);
        if starts_with_exec(path, &d) {
            assert(dv[i as int] == d@);
            return true;
        }
        i += 1;
    }
    let mut k: usize = 0;
    while k < ignore.len()
        invariant
            k <= ignore@.len(),
            iv == strings_view(ignore@),
            forall|m: int| 0 <= m < dv.len() ==> !starts_with(path@, #[trigger] dv[m]),
            forall|m: int| 0 <= m < k ==> !starts_with(path@, dir_prefix(#[trigger] iv[m])),
        decreases ignore@.len() - k,
    {
        let mut d = chars_of(ignore[k].as_str());
        let ends = d.len() > 0 && d[d.len() - 1] == '/';
        proof {
            reveal_strlit("/");
            let sl = "/"@;
            assert(sl.len() == 1);
            assert(sl[0] == '/');
            if d@.len() > 0 {
                let sub = d@.subrange(d@.len() - 1, d@.len() as int);
                assert(sub.len() == 1);
                assert(sub[0] == d@[d@.len() - 1]);
                if ends {
                    assert(sub =~= sl);
                } else {
                    assert(sub != sl);
                }
            }
            assert(ends == ends_with(d@, "/"@));
        }
        if !ends {
            push_char_vec(&mut d, '/');
        }
        assert(d@ == dir_prefix(iv[k as int]));
        if starts_with_exec(path, &d) {
            return true;
        }
        k += 1;
    }
    false
}

fn push_char_vec(v: &mut Vec<char>, c: char)
    ensures
        final(v)@ == old(v)@.push(c),
{
    v.push(c);
}

} // verus!
