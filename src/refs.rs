//! Resolution of named references: parsing the listing of refs and peeling
//! annotated tags down to the commit they name.

use vstd::prelude::*;
use crate::ids::{ObjectId, decode_hex_id, parse_object_id};

verus! {

/// How many objects a ref may pass through before resolution gives up.
pub const MAX_PEEL_STEPS: usize = 64;

/// A named reference. `maybe_tag_id` holds the outermost annotated tag when
/// the ref names a tag that leads to a commit.
#[derive(Debug, Hash, PartialEq, Eq, PartialOrd, Ord)]
pub struct GitRef {
    pub name: Vec<u8>,
    pub maybe_tag_id: Option<ObjectId>,
}

impl GitRef {
    pub fn new(name: Vec<u8>) -> (r: Self)
        ensures
            r.name == name,
            r.maybe_tag_id is None,
    {
        GitRef { name, maybe_tag_id: None }
    }
}

/// The kind of a fetched object, with the target of a tag.
#[derive(Clone, Copy, PartialEq, Eq, Debug)]
pub enum ObjectKind {
    Tree,
    Blob,
    Commit,
    Tag { target: ObjectId },
}

/// Why a ref could not be resolved.
#[derive(Debug, PartialEq, Eq)]
pub enum RefError {
    /// The ref leads to file content.
    PointsToBlob { name: Vec<u8> },
    /// The ref passes through more objects than `MAX_PEEL_STEPS`.
    TagChainTooLong { name: Vec<u8> },
    /// A listed ref does not start with a 40-digit object id.
    BadObjectId { line: Vec<u8> },
}

/// Where resolution of one ref stands: the ref as built so far, the object to
/// fetch next, and how many objects have been looked at.
pub struct TagPeeler {
    pub git_ref: GitRef,
    pub next: ObjectId,
    pub steps: usize,
}

/// What to do after looking at an object.
pub enum PeelStep {
    /// Fetch `next` of the new state and look at it.
    Fetch(TagPeeler),
    /// The ref names this commit.
    Resolved(GitRef, ObjectId),
    /// The ref names a tree: resolved, with no commit to record.
    NoCommit,
    Failed(RefError),
}

/// The step taken when the object that `p` fetched has kind `kind`.
pub open spec fn peel_spec(p: TagPeeler, kind: ObjectKind) -> PeelStep {
    match kind {
        ObjectKind::Tree => PeelStep::NoCommit,
        ObjectKind::Blob => PeelStep::Failed(RefError::PointsToBlob { name: p.git_ref.name }),
        ObjectKind::Commit => PeelStep::Resolved(p.git_ref, p.next),
        ObjectKind::Tag { target } => if p.steps + 1 >= MAX_PEEL_STEPS {
            PeelStep::Failed(RefError::TagChainTooLong { name: p.git_ref.name })
        } else {
            PeelStep::Fetch(
                TagPeeler {
                    git_ref: GitRef {
                        name: p.git_ref.name,
                        maybe_tag_id: if p.git_ref.maybe_tag_id is None {
                            Some(p.next)
                        } else {
                            p.git_ref.maybe_tag_id
                        },
                    },
                    next: target,
                    steps: (p.steps + 1) as usize,
                },
            )
        },
    }
}

impl TagPeeler {
    /// Starts resolving the ref `name`, which the listing says points at `oid`.
    pub fn new(name: Vec<u8>, oid: ObjectId) -> (r: Self)
        ensures
            r.git_ref.name == name,
            r.git_ref.maybe_tag_id is None,
            r.next == oid,
            r.steps == 0,
    {
        TagPeeler { git_ref: GitRef::new(name), next: oid, steps: 0 }
    }

    /// Looks at the object fetched for `self.next`.
    pub fn observe(self, kind: ObjectKind) -> (r: PeelStep)
        ensures
            r == peel_spec(self, kind),
    {
        match kind {
            ObjectKind::Tree => PeelStep::NoCommit,
            ObjectKind::Blob => PeelStep::Failed(RefError::PointsToBlob { name: self.git_ref.name }),
            ObjectKind::Commit => PeelStep::Resolved(self.git_ref, self.next),
            ObjectKind::Tag { target } => {
                if self.steps >= MAX_PEEL_STEPS - 1 {
                    PeelStep::Failed(RefError::TagChainTooLong { name: self.git_ref.name })
                } else {
                    let tag = match self.git_ref.maybe_tag_id {
                        None => Some(self.next),
                        Some(t) => Some(t),
                    };
                    PeelStep::Fetch(
                        TagPeeler {
                            git_ref: GitRef { name: self.git_ref.name, maybe_tag_id: tag },
                            next: target,
                            steps: self.steps + 1,
                        },
                    )
                }
            },
        }
    }
}

/// Tag peeling: a ref whose chain is tag `t1`, then tag `t2`, then commit `c`
/// resolves to `c` with `t1`, the outermost tag, as its tag id; a ref that
/// points at a blob fails naming the ref; one that points at a tree resolves
/// with no commit.
pub proof fn lemma_tag_peeling(name: Vec<u8>, t1: ObjectId, t2: ObjectId, c: ObjectId)
    ensures
        ({
            let p0 = TagPeeler { git_ref: GitRef { name, maybe_tag_id: None }, next: t1, steps: 0 };
            &&& match peel_spec(p0, ObjectKind::Tag { target: t2 }) {
                PeelStep::Fetch(p1) => match peel_spec(p1, ObjectKind::Tag { target: c }) {
                    PeelStep::Fetch(p2) => peel_spec(p2, ObjectKind::Commit) == PeelStep::Resolved(
                        GitRef { name, maybe_tag_id: Some(t1) },
                        c,
                    ),
                    _ => false,
                },
                _ => false,
            }
            &&& peel_spec(p0, ObjectKind::Blob) == PeelStep::Failed(
                RefError::PointsToBlob { name },
            )
            &&& peel_spec(p0, ObjectKind::Tree) == PeelStep::NoCommit
        }),
{
}

/// Index of the first space in `line`, if there is one.
pub open spec fn first_space(line: Seq<u8>) -> Option<int> {
    if exists|k: int| 0 <= k < line.len() && line[k] == 0x20 {
        Some(choose|k: int| 0 <= k < line.len() && line[k] == 0x20 && forall|j: int| 0 <= j < k ==> line[j] != 0x20)
    } else {
        None
    }
}

/// Splits one line of the ref listing, `<object id> <ref name>`, at its first
/// space. A line without a space lists nothing (`None`).
pub fn parse_ref_line(line: &[u8]) -> (r: Option<Result<(ObjectId, Vec<u8>), RefError>>)
    ensures
        r is None <==> first_space(line@) is None,
        match r {
            None => true,
            Some(Ok((id, name))) => {
                let k = first_space(line@)->0;
                &&& decode_hex_id(line@.take(k)) == Some(id.bytes@)
                &&& name@ == line@.skip(k + 1)
            },
            Some(Err(e)) => {
                let k = first_space(line@)->0;
                &&& decode_hex_id(line@.take(k)) is None
                &&& e is BadObjectId
                &&& e->BadObjectId_line@ == line@
            },
        },
{
    let n = line.len();
    let mut k: usize = 0;
    while k < n && line[k] != 0x20
        invariant
            n == line@.len(),
            k <= n,
            forall|j: int| 0 <= j < k ==> line@[j] != 0x20,
        decreases n - k,
    {
        k = k + 1;
    }
    if k == n {
        return None;
    }
    proof {
        assert(line@[k as int] == 0x20);
        let f = first_space(line@)->0;
        assert(f == k) by {
            if f < k {
                assert(line@[f] != 0x20);
            } else if f > k {
                assert(line@[k as int] != 0x20);
            }
        }
    }
    let mut head: Vec<u8> = Vec::new();
    let mut i: usize = 0;
    while i < k
        invariant
            k < n,
            n == line@.len(),
            i <= k,
            head@ == line@.take(i as int),
        decreases k - i,
    {
        head.push(line[i]);
        i = i + 1;
    }
    let mut name: Vec<u8> = Vec::new();
    let mut j: usize = k + 1;
    while j < n
        invariant
            k < n,
            n == line@.len(),
            k + 1 <= j <= n,
            name@ == line@.subrange(k + 1, j as int),
        decreases n - j,
    {
        name.push(line[j]);
        j = j + 1;
    }
    proof {
        assert(name@ =~= line@.skip(k + 1));
    }
    match parse_object_id(head.as_slice()) {
        Ok(id) => Some(Ok((id, name))),
        Err(_) => {
            let mut whole: Vec<u8> = Vec::new();
            let mut m: usize = 0;
            while m < n
                invariant
                    n == line@.len(),
                    m <= n,
                    whole@ == line@.take(m as int),
                decreases n - m,
            {
                whole.push(line[m]);
                m = m + 1;
            }
            proof {
                assert(whole@ =~= line@);
            }
            Some(Err(RefError::BadObjectId { line: whole }))
        },
    }
}

} // verus!
