//! Path helpers for recognising a directory move among added and deleted files.

use vstd::prelude::*;

verus! {

/// Number of leading characters that `a` and `b` have in common.
pub open spec fn common_prefix_len(a: Seq<char>, b: Seq<char>) -> nat
    decreases a.len(),
{
    if a.len() > 0 && b.len() > 0 && a[0] == b[0] {
        1 + common_prefix_len(a.drop_first(), b.drop_first())
    } else {
        0
    }
}

/// Number of trailing characters that `a` and `b` have in common.
pub open spec fn common_suffix_len(a: Seq<char>, b: Seq<char>) -> nat
    decreases a.len(),
{
    if a.len() > 0 && b.len() > 0 && a.last() == b.last() {
        1 + common_suffix_len(a.drop_last(), b.drop_last())
    } else {
        0
    }
}

/// What is left of `a` and `b` once their common prefix, and then the common
/// suffix of the remainders, are taken off.
pub open spec fn stripped_pair(a: Seq<char>, b: Seq<char>) -> (Seq<char>, Seq<char>) {
    let p = common_prefix_len(a, b) as int;
    let ra = a.subrange(p, a.len() as int);
    let rb = b.subrange(p, b.len() as int);
    let s = common_suffix_len(ra, rb) as int;
    (ra.subrange(0, ra.len() - s), rb.subrange(0, rb.len() - s))
}

proof fn lemma_common_prefix_len(a: Seq<char>, b: Seq<char>, k: int)
    requires
        0 <= k <= a.len(),
        k <= b.len(),
        forall|i: int| 0 <= i < k ==> a[i] == b[i],
        k == a.len() || k == b.len() || a[k] != b[k],
    ensures
        common_prefix_len(a, b) == k,
    decreases k,
{
    if k > 0 {
        assert(a[0] == b[0]);
        let a1 = a.drop_first();
        let b1 = b.drop_first();
        assert forall|i: int| 0 <= i < k - 1 implies a1[i] == b1[i] by {
            assert(a[i + 1] == b[i + 1]);
        }
        if k < a.len() && k < b.len() {
            assert(a1[k - 1] == a[k] && b1[k - 1] == b[k]);
        }
        lemma_common_prefix_len(a1, b1, k - 1);
    }
}

proof fn lemma_common_suffix_len(a: Seq<char>, b: Seq<char>, k: int)
    requires
        0 <= k <= a.len(),
        k <= b.len(),
        forall|i: int| 0 <= i < k ==> #[trigger] a[a.len() - 1 - i] == b[b.len() - 1 - i],
        k == a.len() || k == b.len() || a[a.len() - 1 - k] != b[b.len() - 1 - k],
    ensures
        common_suffix_len(a, b) == k,
    decreases k,
{
    if k > 0 {
        assert(a[a.len() - 1 - 0] == b[b.len() - 1 - 0]);
        let a1 = a.drop_last();
        let b1 = b.drop_last();
        assert forall|i: int| 0 <= i < k - 1 implies #[trigger] a1[a1.len() - 1 - i] == b1[b1.len() - 1
            - i] by {
            assert(a[a.len() - 1 - (i + 1)] == b[b.len() - 1 - (i + 1)]);
        }
        if k < a.len() && k < b.len() {
            assert(a1[a1.len() - 1 - (k - 1)] == a[a.len() - 1 - k]);
            assert(b1[b1.len() - 1 - (k - 1)] == b[b.len() - 1 - k]);
        }
        lemma_common_suffix_len(a1, b1, k - 1);
    }
}

fn chars_of(s: &str) -> (r: Vec<char>)
    ensures
        r@ == s@,
{
    let n = s.unicode_len();
    let mut r: Vec<char> = Vec::new();
    let mut i: usize = 0;
    while i < n
        invariant
            n == s@.len(),
            i <= n,
            r@ == s@.subrange(0, i as int),
        decreases n - i,
    {
        r.push(s.get_char(i));
        i = i + 1;
    }
    r
}

/// Removes the longest common prefix of `s1` and `s2`, and then the longest
/// common suffix of what remains, returning the two middle parts.
pub fn strip_common_prefix_and_suffix(s1: &str, s2: &str) -> (r: (String, String))
    ensures
        (r.0@, r.1@) == stripped_pair(s1@, s2@),
{
    let a = chars_of(s1);
    let b = chars_of(s2);
    let la = a.len();
    let lb = b.len();

    let mut start: usize = 0;
    while start < la && start < lb && a[start] == b[start]
        invariant
            la == a@.len(),
            lb == b@.len(),
            start <= la,
            start <= lb,
            forall|i: int| 0 <= i < start ==> a@[i] == b@[i],
        decreases la - start,
    {
        start = start + 1;
    }
    proof {
        lemma_common_prefix_len(a@, b@, start as int);
    }

    let mut end: usize = 0;
    while end < la - start && end < lb - start && a[la - 1 - end] == b[lb - 1 - end]
        invariant
            la == a@.len(),
            lb == b@.len(),
            start <= la,
            start <= lb,
            end <= la - start,
            end <= lb - start,
            forall|i: int| 0 <= i < end ==> #[trigger] a@[la - 1 - i] == b@[lb - 1 - i],
        decreases la - end,
    {
        end = end + 1;
    }
    proof {
        let ra = a@.subrange(start as int, la as int);
        let rb = b@.subrange(start as int, lb as int);
        assert forall|i: int| 0 <= i < end implies #[trigger] ra[ra.len() - 1 - i] == rb[rb.len() - 1
            - i] by {
            assert(ra[ra.len() - 1 - i] == a@[la - 1 - i]);
            assert(rb[rb.len() - 1 - i] == b@[lb - 1 - i]);
        }
        lemma_common_suffix_len(ra, rb, end as int);
    }

    let r1 = s1.substring_char(start, la - end).to_owned();
    let r2 = s2.substring_char(start, lb - end).to_owned();
    proof {
        let ra = a@.subrange(start as int, la as int);
        let rb = b@.subrange(start as int, lb as int);
        assert(r1@ =~= ra.subrange(0, ra.len() - end));
        assert(r2@ =~= rb.subrange(0, rb.len() - end));
    }
    (r1, r2)
}

/// A file in a commit: its path and the id of its content.
#[derive(Clone, Debug, PartialEq, Eq, Hash)]
pub struct Key {
    pub path: String,
    pub hgid: [u8; 20],
}

impl Key {
    /// A copy of this key.
    pub fn duplicate(&self) -> (r: Key)
        ensures
            r == *self,
    {
        Key { path: self.path.clone(), hgid: self.hgid }
    }
}

/// `a` comes strictly before `b` in lexicographic order of code points.
pub open spec fn path_lt(a: Seq<char>, b: Seq<char>) -> bool
    decreases a.len(),
{
    if a.len() == 0 {
        b.len() > 0
    } else if b.len() == 0 {
        false
    } else if a[0] != b[0] {
        (a[0] as u32) < (b[0] as u32)
    } else {
        path_lt(a.drop_first(), b.drop_first())
    }
}

/// The keys are in non-decreasing order of path.
pub open spec fn sorted_by_path(s: Seq<Key>) -> bool {
    forall|i: int, j: int| 0 <= i < j < s.len() ==> !path_lt(#[trigger] s[j].path@, #[trigger] s[i].path@)
}

/// Relies on slice::sort_unstable_by with String's `Ord` on the paths, which
/// orders UTF-8 text by code point: the keys are rearranged, unchanged, into
/// non-decreasing path order.
#[verifier::external_body]
fn sort_keys_by_path(v: &mut Vec<Key>)
    ensures
        final(v)@.to_multiset() == old(v)@.to_multiset(),
        final(v)@.len() == old(v)@.len(),
        sorted_by_path(final(v)@),
{
    v.sort_unstable_by(|a, b| a.path.cmp(&b.path));
}

/// Every pair of same-position paths differs in the same way, once common
/// prefixes and suffixes are taken off: the pairs look like one directory move.
pub open spec fn same_move(added: Seq<Key>, deleted: Seq<Key>) -> bool {
    forall|i: int|
        0 <= i < added.len() ==> #[trigger] stripped_pair(added[i].path@, deleted[i].path@)
            == stripped_pair(added[0].path@, deleted[0].path@)
}

/// Recognises a batch move: with as many added as deleted files, both lists
/// are sorted by path, and if every pair at the same position differs in the
/// same way the pairs `(added, deleted)` are returned; otherwise none.
pub fn detect_batch_move(added_files: &mut Vec<Key>, deleted_files: &mut Vec<Key>) -> (r: Vec<
    (Key, Key),
>)
    ensures
        old(added_files)@.len() != old(deleted_files)@.len() ==> {
            &&& r@.len() == 0
            &&& final(added_files)@ == old(added_files)@
            &&& final(deleted_files)@ == old(deleted_files)@
        },
        old(added_files)@.len() == old(deleted_files)@.len() ==> {
            &&& final(added_files)@.to_multiset() == old(added_files)@.to_multiset()
            &&& final(deleted_files)@.to_multiset() == old(deleted_files)@.to_multiset()
            &&& final(added_files)@.len() == old(added_files)@.len()
            &&& final(deleted_files)@.len() == old(deleted_files)@.len()
            &&& sorted_by_path(final(added_files)@)
            &&& sorted_by_path(final(deleted_files)@)
            &&& if same_move(final(added_files)@, final(deleted_files)@) {
                &&& r@.len() == final(added_files)@.len()
                &&& forall|i: int|
                    0 <= i < r@.len() ==> #[trigger] r@[i] == (
                        final(added_files)@[i],
                        final(deleted_files)@[i],
                    )
            } else {
                r@.len() == 0
            }
        },
{
    if added_files.len() != deleted_files.len() {
        return Vec::new();
    }
    sort_keys_by_path(added_files);
    sort_keys_by_path(deleted_files);
    let n = added_files.len();
    if n == 0 {
        return Vec::new();
    }
    let first = strip_common_prefix_and_suffix(
        added_files[0].path.as_str(),
        deleted_files[0].path.as_str(),
    );
    let mut i: usize = 1;
    while i < n
        invariant
            n == added_files@.len(),
            n == deleted_files@.len(),
            1 <= i <= n,
            old(added_files)@.len() == old(deleted_files)@.len(),
            added_files@.to_multiset() == old(added_files)@.to_multiset(),
            deleted_files@.to_multiset() == old(deleted_files)@.to_multiset(),
            added_files@.len() == old(added_files)@.len(),
            deleted_files@.len() == old(deleted_files)@.len(),
            sorted_by_path(added_files@),
            sorted_by_path(deleted_files@),
            (first.0@, first.1@) == stripped_pair(added_files@[0].path@, deleted_files@[0].path@),
            forall|j: int|
                0 <= j < i ==> #[trigger] stripped_pair(added_files@[j].path@, deleted_files@[j].path@)
                    == stripped_pair(added_files@[0].path@, deleted_files@[0].path@),
        decreases n - i,
    {
        let pair = strip_common_prefix_and_suffix(
            added_files[i].path.as_str(),
            deleted_files[i].path.as_str(),
        );
        if !(pair.0 == first.0 && pair.1 == first.1) {
            proof {
                assert(stripped_pair(added_files@[i as int].path@, deleted_files@[i as int].path@)
                    != stripped_pair(added_files@[0].path@, deleted_files@[0].path@));
            }
            return Vec::new();
        }
        i = i + 1;
    }
    assert(same_move(added_files@, deleted_files@));
    let mut out: Vec<(Key, Key)> = Vec::new();
    let mut k: usize = 0;
    while k < n
        invariant
            n == added_files@.len(),
            n == deleted_files@.len(),
            k <= n,
            out@.len() == k,
            same_move(added_files@, deleted_files@),
            old(added_files)@.len() == old(deleted_files)@.len(),
            added_files@.to_multiset() == old(added_files)@.to_multiset(),
            deleted_files@.to_multiset() == old(deleted_files)@.to_multiset(),
            added_files@.len() == old(added_files)@.len(),
            deleted_files@.len() == old(deleted_files)@.len(),
            sorted_by_path(added_files@),
            sorted_by_path(deleted_files@),

            forall|j: int| 0 <= j < k ==> #[trigger] out@[j] == (added_files@[j], deleted_files@[j]),
        decreases n - k,
    {
        out.push((added_files[k].duplicate(), deleted_files[k].duplicate()));
        k = k + 1;
    }
    out
}

} // verus!
