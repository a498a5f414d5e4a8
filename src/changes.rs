//! Turning the per-path records of a tree diff into a commit's change map.

use vstd::prelude::*;
use sorted_vector_map::SortedVectorMap;
use crate::ids::ObjectId;
use crate::refs::ObjectKind;

verus! {

#[verifier::external_type_specification]
#[verifier::external_body]
#[verifier::reject_recursive_types(K)]
#[verifier::reject_recursive_types(V)]
pub struct ExSortedVectorMap<K, V>(SortedVectorMap<K, V>);

/// How a file is stored in a tree.
#[derive(Clone, Copy, PartialEq, Eq, Debug)]
pub enum FileType {
    Regular,
    Executable,
    Symlink,
    GitSubmodule,
}

/// A file's content as the target store recorded it.
#[derive(Clone, Copy, PartialEq, Eq, Debug)]
pub struct UploadedFile {
    pub content_id: [u8; 32],
    pub file_type: FileType,
    pub size: u64,
}

/// What happened to one path in a commit.
#[derive(Clone, Copy, PartialEq, Eq, Debug)]
pub enum FileChange {
    Deleted,
    Uploaded(UploadedFile),
}

/// One record of the tree diff between a commit and its parents.
#[derive(Debug, PartialEq, Eq)]
pub enum DiffEntry {
    /// The path has new content, the blob `oid`.
    Changed { path: Vec<u8>, file_type: FileType, oid: ObjectId },
    /// The path has content identical to a parent's, the blob `oid`.
    ChangedReusedId { path: Vec<u8>, file_type: FileType, oid: ObjectId },
    /// The path is gone.
    Deleted { path: Vec<u8> },
}

/// What one diff record asks for.
#[derive(Debug, PartialEq, Eq)]
pub enum FileAction {
    /// Fetch blob `oid` and upload it for `path`.
    Upload { path: Vec<u8>, file_type: FileType, oid: ObjectId },
    /// Record `change` for `path`; nothing to upload.
    Record { path: Vec<u8>, change: FileChange },
}

/// Why a commit's change set could not be built.
#[derive(Clone, Copy, PartialEq, Eq, Debug)]
pub enum ChangeError {
    /// The object that a changed path names is not a blob.
    NotABlob(ObjectId),
}

/// The action for one diff record.
pub open spec fn action_of(e: DiffEntry) -> FileAction {
    match e {
        DiffEntry::Changed { path, file_type, oid } => FileAction::Upload { path, file_type, oid },
        DiffEntry::ChangedReusedId { path, file_type, oid } => FileAction::Upload {
            path,
            file_type,
            oid,
        },
        DiffEntry::Deleted { path } => FileAction::Record { path, change: FileChange::Deleted },
    }
}

/// Decides what a diff record needs: changed content is uploaded, a deleted
/// path is recorded as deleted with no upload.
pub fn plan_file_change(e: DiffEntry) -> (r: FileAction)
    ensures
        r == action_of(e),
{
    match e {
        DiffEntry::Changed { path, file_type, oid } => FileAction::Upload { path, file_type, oid },
        DiffEntry::ChangedReusedId { path, file_type, oid } => FileAction::Upload {
            path,
            file_type,
            oid,
        },
        DiffEntry::Deleted { path } => FileAction::Record { path, change: FileChange::Deleted },
    }
}

/// Checks that the object fetched for a changed path is file content.
pub fn expect_blob(oid: ObjectId, kind: ObjectKind) -> (r: Result<(), ChangeError>)
    ensures
        r is Ok <==> kind is Blob,
        r is Err ==> r == Err::<(), ChangeError>(ChangeError::NotABlob(oid)),
{
    match kind {
        ObjectKind::Blob => Ok(()),
        _ => Err(ChangeError::NotABlob(oid)),
    }
}

/// A map from paths to their changes, ordered by path.
pub type PathMap = SortedVectorMap<Vec<u8>, FileChange>;

/// The contents of a change map, by path.
pub uninterp spec fn change_entries(m: PathMap) -> Map<
    Seq<u8>,
    FileChange,
>;

/// The map with no paths.
pub open spec fn no_changes() -> Map<Seq<u8>, FileChange> {
    Map::empty()
}

/// Relies on SortedVectorMap::new: the map starts empty.
#[verifier::external_body]
fn change_map_new() -> (r: PathMap)
    ensures
        change_entries(r) == no_changes(),
{
    SortedVectorMap::new()
}

/// Relies on SortedVectorMap::insert: the value under the key is set,
/// replacing any earlier one; other keys keep theirs.
#[verifier::external_body]
fn change_map_insert(m: &mut PathMap, k: Vec<u8>, v: FileChange)
    ensures
        change_entries(*final(m)) == change_entries(*old(m)).insert(k@, v),
{
    m.insert(k, v);
}

/// Relies on SortedVectorMap::get: the value stored under the key.
#[verifier::external_body]
fn change_map_get(m: &PathMap, k: &Vec<u8>) -> (r: Option<FileChange>)
    ensures
        r == (if change_entries(*m).contains_key(k@) {
            Some(change_entries(*m)[k@])
        } else {
            None
        }),
{
    m.get(k).copied()
}

/// Relies on SortedVectorMap::len: the number of keys.
#[verifier::external_body]
fn change_map_len(m: &PathMap) -> (r: usize)
    ensures
        r == change_entries(*m).len(),
{
    m.len()
}

/// The change map made of the first `n` resolved paths.
pub open spec fn changes_of(resolved: Seq<(Vec<u8>, FileChange)>, n: nat) -> Map<Seq<u8>, FileChange>
    decreases n,
{
    if n == 0 {
        Map::empty()
    } else {
        changes_of(resolved, (n - 1) as nat).insert(resolved[n - 1].0@, resolved[n - 1].1)
    }
}

/// The paths of the first `n` resolved entries are pairwise distinct.
pub open spec fn paths_distinct(resolved: Seq<(Vec<u8>, FileChange)>) -> bool {
    forall|i: int, j: int|
        0 <= i < j < resolved.len() ==> #[trigger] resolved[i].0@ != #[trigger] resolved[j].0@
}

/// Change-set correctness: when every path occurs once, the change map
/// holds exactly the resolved paths, each with its own change.
pub proof fn lemma_change_set_exact(resolved: Seq<(Vec<u8>, FileChange)>, n: nat)
    requires
        n <= resolved.len(),
        paths_distinct(resolved),
    ensures
        forall|p: Seq<u8>|
            #[trigger] changes_of(resolved, n).contains_key(p) <==> exists|i: int|
                0 <= i < n && resolved[i].0@ == p,
        forall|i: int| 0 <= i < n ==> changes_of(resolved, n)[#[trigger] resolved[i].0@] == resolved[i].1,
        changes_of(resolved, n).dom().finite(),
        changes_of(resolved, n).len() == n,
    decreases n,
{
    if n > 0 {
        let m = (n - 1) as nat;
        lemma_change_set_exact(resolved, m);
        let prev = changes_of(resolved, m);
        let k = resolved[m as int].0@;
        assert(!prev.contains_key(k)) by {
            if prev.contains_key(k) {
                let i = choose|i: int| 0 <= i < m && resolved[i].0@ == k;
                assert(resolved[i].0@ != resolved[m as int].0@);
            }
        }
        assert forall|p: Seq<u8>| #[trigger] changes_of(resolved, n).contains_key(p) <==> exists|
            i: int,
        | 0 <= i < n && resolved[i].0@ == p by {
            if p != k && changes_of(resolved, n).contains_key(p) {
                assert(prev.contains_key(p));
            }
            if exists|i: int| 0 <= i < n && resolved[i].0@ == p {
                let i = choose|i: int| 0 <= i < n && resolved[i].0@ == p;
                if i < m {
                    assert(prev.contains_key(p));
                }
            }
        }
        assert(changes_of(resolved, n).dom() =~= prev.dom().insert(k));
        assert forall|i: int| 0 <= i < n implies changes_of(resolved, n)[#[trigger] resolved[
            i
        ].0@] == resolved[i].1 by {
            if i < m {
                assert(resolved[i].0@ != k);
            }
        }
    }
}

/// A commit's per-path changes, ordered by path.
pub struct ChangeSet {
    inner: PathMap,
}

impl View for ChangeSet {
    type V = Map<Seq<u8>, FileChange>;

    closed spec fn view(&self) -> Map<Seq<u8>, FileChange> {
        change_entries(self.inner)
    }
}

impl ChangeSet {
    /// Collects resolved paths into a change set.
    pub fn collect(resolved: Vec<(Vec<u8>, FileChange)>) -> (r: ChangeSet)
        ensures
            r@ == changes_of(resolved@, resolved@.len()),
    {
        let mut inner = change_map_new();
        let ghost all = resolved@;
        let mut source = resolved;
        let mut reversed: Vec<(Vec<u8>, FileChange)> = Vec::new();
        while source.len() > 0
            invariant
                source@ + reversed@.reverse() == all,
            decreases source.len(),
        {
            let item = source.pop().unwrap();
            proof {
                assert(source@ + reversed@.push(item).reverse() =~= all) by {
                    assert(reversed@.push(item).reverse() =~= seq![item] + reversed@.reverse());
                }
            }
            reversed.push(item);
        }
        proof {
            assert(reversed@.reverse() =~= all);
        }
        let ghost mut i: nat = 0;
        while reversed.len() > 0
            invariant
                i + reversed@.len() == all.len(),
                reversed@.reverse() == all.skip(i as int),
                change_entries(inner) == changes_of(all, i),
            decreases reversed.len(),
        {
            let ghost before = reversed@;
            let (path, change) = reversed.pop().unwrap();
            proof {
                assert(all.skip(i as int)[0] == before.reverse()[0]);
                assert(before.reverse()[0] == before.last());
                assert(reversed@.reverse() =~= all.skip((i + 1) as int)) by {
                    assert forall|j: int| 0 <= j < reversed@.len() implies reversed@.reverse()[j]
                        == all.skip((i + 1) as int)[j] by {
                        assert(reversed@.reverse()[j] == before.reverse()[j + 1]);
                        assert(all.skip(i as int)[j + 1] == all.skip((i + 1) as int)[j]);
                    }
                }
            }
            change_map_insert(&mut inner, path, change);
            proof {
                i = i + 1;
            }
        }
        ChangeSet { inner }
    }

    pub fn get(&self, path: &Vec<u8>) -> (r: Option<FileChange>)
        ensures
            r == (if self@.contains_key(path@) {
                Some(self@[path@])
            } else {
                None
            }),
    {
        change_map_get(&self.inner, path)
    }

    pub fn len(&self) -> (r: usize)
        ensures
            r == self@.len(),
    {
        change_map_len(&self.inner)
    }

    /// The underlying map.
    pub fn into_inner(self) -> (r: PathMap)
        ensures
            change_entries(r) == self@,
    {
        self.inner
    }
}

} // verus!
