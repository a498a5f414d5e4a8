//! The insertion-ordered record of which foreign commit became which changeset.

use vstd::prelude::*;
use linked_hash_map::LinkedHashMap;
use crate::ids::{ObjectId, ChangesetId};

verus! {

#[verifier::external_type_specification]
#[verifier::external_body]
#[verifier::reject_recursive_types(K)]
#[verifier::reject_recursive_types(V)]
#[verifier::reject_recursive_types(S)]
pub struct ExLinkedHashMap<K, V, S>(LinkedHashMap<K, V, S>);

/// The entries of a linked hash map, oldest first.
pub uninterp spec fn linked_entries(m: LinkedHashMap<ObjectId, ChangesetId>) -> Seq<
    (ObjectId, ChangesetId),
>;

/// `s` without the entry, if any, whose key is `k`.
pub open spec fn without_key(s: Seq<(ObjectId, ChangesetId)>, k: ObjectId) -> Seq<
    (ObjectId, ChangesetId),
>
    decreases s.len(),
{
    if s.len() == 0 {
        s
    } else {
        let rest = without_key(s.drop_last(), k);
        if s.last().0 == k {
            rest
        } else {
            rest.push(s.last())
        }
    }
}

/// The value recorded under `k` in `s`.
pub open spec fn lookup(s: Seq<(ObjectId, ChangesetId)>, k: ObjectId) -> Option<ChangesetId>
    decreases s.len(),
{
    if s.len() == 0 {
        None
    } else if s.last().0 == k {
        Some(s.last().1)
    } else {
        lookup(s.drop_last(), k)
    }
}

/// No key occurs twice in `s`.
pub open spec fn keys_distinct(s: Seq<(ObjectId, ChangesetId)>) -> bool {
    forall|i: int, j: int| 0 <= i < j < s.len() ==> #[trigger] s[i].0 != #[trigger] s[j].0
}

/// Relies on LinkedHashMap::new: the map starts empty.
#[verifier::external_body]
fn linked_new() -> (r: LinkedHashMap<ObjectId, ChangesetId>)
    ensures
        linked_entries(r) == Seq::<(ObjectId, ChangesetId)>::empty(),
{
    LinkedHashMap::new()
}

/// Relies on LinkedHashMap::len: the number of entries.
#[verifier::external_body]
fn linked_len(m: &LinkedHashMap<ObjectId, ChangesetId>) -> (r: usize)
    ensures
        r == linked_entries(*m).len(),
{
    m.len()
}

/// Relies on LinkedHashMap::insert: an entry already under the key is replaced
/// and the key moves to the newest position; otherwise the entry is appended.
#[verifier::external_body]
fn linked_insert(m: &mut LinkedHashMap<ObjectId, ChangesetId>, k: ObjectId, v: ChangesetId)
    ensures
        linked_entries(*final(m)) == without_key(linked_entries(*old(m)), k).push((k, v)),
{
    m.insert(k, v);
}

/// Relies on LinkedHashMap::get: the value stored under the key.
#[verifier::external_body]
fn linked_get(m: &LinkedHashMap<ObjectId, ChangesetId>, k: &ObjectId) -> (r: Option<ChangesetId>)
    ensures
        r == lookup(linked_entries(*m), *k),
{
    m.get(k).copied()
}

proof fn lemma_without_key(s: Seq<(ObjectId, ChangesetId)>, k: ObjectId)
    requires
        keys_distinct(s),
    ensures
        keys_distinct(without_key(s, k)),
        forall|i: int|
            0 <= i < without_key(s, k).len() ==> #[trigger] without_key(s, k)[i].0 != k,
        forall|i: int|
            0 <= i < without_key(s, k).len() ==> s.contains(#[trigger] without_key(s, k)[i]),
        forall|x: ObjectId| x != k ==> lookup(#[trigger] without_key(s, k), x) == lookup(s, x),
    decreases s.len(),
{
    if s.len() > 0 {
        let s0 = s.drop_last();
        assert(keys_distinct(s0)) by {
            assert forall|i: int, j: int| 0 <= i < j < s0.len() implies #[trigger] s0[i].0
                != #[trigger] s0[j].0 by {
                assert(s0[i] == s[i] && s0[j] == s[j]);
            }
        }
        lemma_without_key(s0, k);
        let r = without_key(s0, k);
        assert forall|i: int| 0 <= i < r.len() implies s.contains(#[trigger] r[i]) by {
            let j = choose|j: int| 0 <= j < s0.len() && s0[j] == r[i];
            assert(s[j] == r[i]);
        }
        if s.last().0 != k {
            let w = r.push(s.last());
            assert forall|i: int, j: int| 0 <= i < j < w.len() implies #[trigger] w[i].0
                != #[trigger] w[j].0 by {
                if j == r.len() {
                    let m = choose|m: int| 0 <= m < s0.len() && s0[m] == r[i];
                    assert(s[m] == r[i]);
                    assert(s[s.len() - 1] == s.last());
                }
            }
            assert forall|i: int| 0 <= i < w.len() implies s.contains(#[trigger] w[i]) by {
                if i == r.len() {
                    assert(s[s.len() - 1] == w[i]);
                } else {
                    assert(w[i] == r[i]);
                }
            }
            assert(w.drop_last() =~= r);
            assert(without_key(s, k) == w);
            assert forall|x: ObjectId| x != k implies lookup(#[trigger] without_key(s, k), x)
                == lookup(s, x) by {
                assert(lookup(r, x) == lookup(s0, x));
            }
        } else {
            assert(without_key(s, k) == r);
            assert forall|x: ObjectId| x != k implies lookup(#[trigger] without_key(s, k), x)
                == lookup(s, x) by {
                assert(lookup(r, x) == lookup(s0, x));
            }
        }
    }
}

/// The insertion-ordered mapping from foreign commit ids to the changesets
/// that they were imported as.
pub struct GitimportAccumulator {
    inner: LinkedHashMap<ObjectId, ChangesetId>,
}

impl View for GitimportAccumulator {
    type V = Seq<(ObjectId, ChangesetId)>;

    closed spec fn view(&self) -> Seq<(ObjectId, ChangesetId)> {
        linked_entries(self.inner)
    }
}

impl GitimportAccumulator {
    /// Each foreign id is recorded at most once.
    pub open spec fn wf(&self) -> bool {
        keys_distinct(self@)
    }

    /// The changeset recorded for `oid`, if any.
    pub open spec fn spec_get(&self, oid: ObjectId) -> Option<ChangesetId> {
        lookup(self@, oid)
    }

    pub fn new() -> (r: Self)
        ensures
            r@ == Seq::<(ObjectId, ChangesetId)>::empty(),
            r.wf(),
    {
        GitimportAccumulator { inner: linked_new() }
    }

    pub fn len(&self) -> (r: usize)
        ensures
            r == self@.len(),
    {
        linked_len(&self.inner)
    }

    pub fn is_empty(&self) -> (r: bool)
        ensures
            r == (self@.len() == 0),
    {
        linked_len(&self.inner) == 0
    }

    /// Records that `oid` was imported as `cs_id`; a previous record of `oid`
    /// is replaced, and `oid` becomes the newest entry.
    pub fn insert(&mut self, oid: ObjectId, cs_id: ChangesetId)
        requires
            old(self).wf(),
        ensures
            final(self)@ == without_key(old(self)@, oid).push((oid, cs_id)),
            final(self).wf(),
            final(self).spec_get(oid) == Some(cs_id),
            forall|x: ObjectId| x != oid ==> #[trigger] final(self).spec_get(x) == old(self).spec_get(x),
    {
        proof {
            lemma_without_key(self@, oid);
        }
        linked_insert(&mut self.inner, oid, cs_id);
        proof {
            let w = without_key(old(self)@, oid);
            let s = self@;
            assert forall|i: int, j: int| 0 <= i < j < s.len() implies #[trigger] s[i].0
                != #[trigger] s[j].0 by {
                if j == w.len() {
                    assert(w[i].0 != oid);
                } else {
                    assert(s[i] == w[i] && s[j] == w[j]);
                }
            }
            assert(s.drop_last() =~= w);
        }
    }

    pub fn get(&self, oid: &ObjectId) -> (r: Option<ChangesetId>)
        ensures
            r == self.spec_get(*oid),
    {
        linked_get(&self.inner, oid)
    }

    /// The underlying map, holding the same entries in the same order.
    pub fn into_inner(self) -> (r: LinkedHashMap<ObjectId, ChangesetId>)
        ensures
            linked_entries(r) == self@,
    {
        self.inner
    }
}

} // verus!
