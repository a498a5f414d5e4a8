//! Decisions of the import run: which commits still need work, what each
//! parent resolves to, the order of finalization, and how finalized commits
//! are grouped into batches for the target store.

use vstd::prelude::*;
use crate::ids::{ObjectId, ChangesetId};
use crate::accumulator::{GitimportAccumulator, without_key, lookup, keys_distinct};

verus! {

/// Errors that stop an import run.
#[derive(Clone, Copy, PartialEq, Eq, Debug)]
pub enum ImportError {
    /// A parent of `commit` has no known changeset: the enumeration order of
    /// the commits was not topological.
    MissingParent { parent: ObjectId, commit: ObjectId },
    /// A commit reached finalization out of submission order; `expected` is
    /// the one whose turn it was, if any.
    OutOfOrder { expected: Option<ObjectId>, got: ObjectId },
}

// ---------------------------------------------------------------------------
// Resume filter
// ---------------------------------------------------------------------------

/// The entries after probing `oid`, which the store reports as `uploaded`.
pub open spec fn probe_entries(
    acc: Seq<(ObjectId, ChangesetId)>,
    oid: ObjectId,
    uploaded: Option<ChangesetId>,
) -> Seq<(ObjectId, ChangesetId)> {
    match uploaded {
        Some(cs) => without_key(acc, oid).push((oid, cs)),
        None => acc,
    }
}

/// The entries after probing the first `n` ids in order.
pub open spec fn filter_entries(
    acc: Seq<(ObjectId, ChangesetId)>,
    ids: Seq<ObjectId>,
    uploaded: Seq<Option<ChangesetId>>,
    n: nat,
) -> Seq<(ObjectId, ChangesetId)>
    decreases n,
{
    if n == 0 {
        acc
    } else {
        probe_entries(
            filter_entries(acc, ids, uploaded, (n - 1) as nat),
            ids[n - 1],
            uploaded[n - 1],
        )
    }
}

/// The ids among the first `n` that the store does not know, in order.
pub open spec fn still_pending(ids: Seq<ObjectId>, uploaded: Seq<Option<ChangesetId>>, n: nat) -> Seq<
    ObjectId,
>
    decreases n,
{
    if n == 0 {
        Seq::empty()
    } else {
        let rest = still_pending(ids, uploaded, (n - 1) as nat);
        if uploaded[n - 1] is None {
            rest.push(ids[n - 1])
        } else {
            rest
        }
    }
}

/// Handles the store's answer for one enumerated commit: a commit that it
/// already holds is recorded and needs no further work (`false`); any other
/// must be imported (`true`).
pub fn resume_probe(acc: &mut GitimportAccumulator, oid: ObjectId, uploaded: Option<ChangesetId>) -> (needs_import: bool)
    requires
        old(acc).wf(),
    ensures
        final(acc).wf(),
        final(acc)@ == probe_entries(old(acc)@, oid, uploaded),
        needs_import == (uploaded is None),
{
    match uploaded {
        Some(cs_id) => {
            acc.insert(oid, cs_id);
            false
        },
        None => true,
    }
}

/// Runs the resume filter over enumerated commits, where `uploaded[i]` is the
/// store's answer for `ids[i]`, and returns those that still need importing.
pub fn resume_filter(
    acc: &mut GitimportAccumulator,
    ids: &Vec<ObjectId>,
    uploaded: &Vec<Option<ChangesetId>>,
) -> (pending: Vec<ObjectId>)
    requires
        old(acc).wf(),
        ids.len() == uploaded.len(),
    ensures
        final(acc).wf(),
        final(acc)@ == filter_entries(old(acc)@, ids@, uploaded@, ids.len() as nat),
        pending@ == still_pending(ids@, uploaded@, ids.len() as nat),
{
    let mut pending: Vec<ObjectId> = Vec::new();
    let mut i: usize = 0;
    while i < ids.len()
        invariant
            ids.len() == uploaded.len(),
            i <= ids.len(),
            acc.wf(),
            acc@ == filter_entries(old(acc)@, ids@, uploaded@, i as nat),
            pending@ == still_pending(ids@, uploaded@, i as nat),
        decreases ids.len() - i,
    {
        if resume_probe(acc, ids[i], uploaded[i]) {
            pending.push(ids[i]);
        }
        i = i + 1;
    }
    pending
}

proof fn lemma_without_absent_key(s: Seq<(ObjectId, ChangesetId)>, k: ObjectId)
    requires
        forall|i: int| 0 <= i < s.len() ==> #[trigger] s[i].0 != k,
    ensures
        without_key(s, k) == s,
    decreases s.len(),
{
    if s.len() > 0 {
        lemma_without_absent_key(s.drop_last(), k);
        assert(s.drop_last().push(s.last()) =~= s);
    }
}

/// Resuming is idempotent: when the store reports every enumerated commit as
/// imported, with the mapping `m` that an earlier run produced in enumeration
/// order, the filter rebuilds exactly `m` and leaves nothing to import.
pub proof fn lemma_resume_is_idempotent(
    m: Seq<(ObjectId, ChangesetId)>,
    ids: Seq<ObjectId>,
    uploaded: Seq<Option<ChangesetId>>,
)
    requires
        keys_distinct(m),
        ids.len() == m.len(),
        uploaded.len() == m.len(),
        forall|i: int| 0 <= i < m.len() ==> #[trigger] ids[i] == m[i].0,
        forall|i: int| 0 <= i < m.len() ==> #[trigger] uploaded[i] == Some(m[i].1),
    ensures
        filter_entries(Seq::empty(), ids, uploaded, m.len()) == m,
        still_pending(ids, uploaded, m.len()) == Seq::<ObjectId>::empty(),
{
    lemma_resume_prefix(m, ids, uploaded, m.len());
    assert(m.take(m.len() as int) =~= m);
}

proof fn lemma_resume_prefix(
    m: Seq<(ObjectId, ChangesetId)>,
    ids: Seq<ObjectId>,
    uploaded: Seq<Option<ChangesetId>>,
    n: nat,
)
    requires
        keys_distinct(m),
        n <= m.len(),
        ids.len() == m.len(),
        uploaded.len() == m.len(),
        forall|i: int| 0 <= i < m.len() ==> #[trigger] ids[i] == m[i].0,
        forall|i: int| 0 <= i < m.len() ==> #[trigger] uploaded[i] == Some(m[i].1),
    ensures
        filter_entries(Seq::empty(), ids, uploaded, n) == m.take(n as int),
        still_pending(ids, uploaded, n) == Seq::<ObjectId>::empty(),
    decreases n,
{
    if n == 0 {
        assert(m.take(0) =~= Seq::<(ObjectId, ChangesetId)>::empty());
    } else {
        lemma_resume_prefix(m, ids, uploaded, (n - 1) as nat);
        let prev = m.take(n - 1);
        let k = m[n - 1].0;
        assert forall|i: int| 0 <= i < prev.len() implies #[trigger] prev[i].0 != k by {
            assert(prev[i] == m[i]);
        }
        lemma_without_absent_key(prev, k);
        assert(uploaded[n - 1] == Some(m[n - 1].1));
        assert(prev.push((k, m[n - 1].1)) =~= m.take(n as int));
    }
}

// ---------------------------------------------------------------------------
// Parent resolution
// ---------------------------------------------------------------------------

/// The changeset of parent `p`: the pre-supplied roots first, then what this
/// run has recorded.
pub open spec fn parent_target(
    roots: Seq<(ObjectId, ChangesetId)>,
    acc: Seq<(ObjectId, ChangesetId)>,
    p: ObjectId,
) -> Option<ChangesetId> {
    match lookup(roots, p) {
        Some(cs) => Some(cs),
        None => lookup(acc, p),
    }
}

/// Every parent in `parents` has a known changeset.
pub open spec fn parents_known(
    roots: Seq<(ObjectId, ChangesetId)>,
    acc: Seq<(ObjectId, ChangesetId)>,
    parents: Seq<ObjectId>,
) -> bool {
    forall|i: int| 0 <= i < parents.len() ==> (#[trigger] parent_target(roots, acc, parents[i])) is Some
}

proof fn lemma_recorded_key_found(s: Seq<(ObjectId, ChangesetId)>, k: ObjectId, j: int)
    requires
        0 <= j < s.len(),
        s[j].0 == k,
    ensures
        lookup(s, k) is Some,
    decreases s.len(),
{
    if s.last().0 != k {
        assert(s.drop_last()[j] == s[j]);
        lemma_recorded_key_found(s.drop_last(), k, j);
    }
}

/// Topological soundness: when every parent of a commit is a root or was
/// recorded earlier in the run, each parent resolves to a changeset.
pub proof fn lemma_recorded_parents_resolve(
    roots: Seq<(ObjectId, ChangesetId)>,
    acc: Seq<(ObjectId, ChangesetId)>,
    parents: Seq<ObjectId>,
)
    requires
        forall|i: int|
            0 <= i < parents.len() ==> (#[trigger] lookup(roots, parents[i])) is Some || exists|j: int|
                0 <= j < acc.len() && acc[j].0 == parents[i],
    ensures
        parents_known(roots, acc, parents),
{
    assert forall|i: int| 0 <= i < parents.len() implies (#[trigger] parent_target(
        roots,
        acc,
        parents[i],
    )) is Some by {
        if lookup(roots, parents[i]) is None {
            let j = choose|j: int| 0 <= j < acc.len() && acc[j].0 == parents[i];
            lemma_recorded_key_found(acc, parents[i], j);
        }
    }
}

/// Resolves the parents of `commit`, in their order, to changesets. The run
/// fails with the first parent that neither the roots nor the accumulator
/// know.
pub fn resolve_parents(
    roots: &GitimportAccumulator,
    acc: &GitimportAccumulator,
    commit: ObjectId,
    parents: &Vec<ObjectId>,
) -> (r: Result<Vec<ChangesetId>, ImportError>)
    ensures
        r is Ok <==> parents_known(roots@, acc@, parents@),
        match r {
            Ok(v) => v@.len() == parents@.len() && forall|i: int|
                0 <= i < parents@.len() ==> parent_target(roots@, acc@, parents@[i]) == Some(
                    #[trigger] v@[i],
                ),
            Err(e) => exists|k: int|
                0 <= k < parents@.len() && parents_known(roots@, acc@, parents@.take(k))
                    && parent_target(roots@, acc@, parents@[k]) is None && e
                    == (ImportError::MissingParent { parent: parents@[k], commit }),
        },
{
    let mut out: Vec<ChangesetId> = Vec::new();
    let mut i: usize = 0;
    while i < parents.len()
        invariant
            i <= parents.len(),
            out@.len() == i,
            forall|j: int|
                0 <= j < i ==> parent_target(roots@, acc@, parents@[j]) == Some(#[trigger] out@[j]),
        decreases parents.len() - i,
    {
        let p = parents[i];
        let found = match roots.get(&p) {
            Some(cs) => Some(cs),
            None => acc.get(&p),
        };
        match found {
            Some(cs) => {
                out.push(cs);
            },
            None => {
                proof {
                    let pre = parents@.take(i as int);
                    assert forall|j: int| 0 <= j < pre.len() implies (#[trigger] parent_target(
                        roots@,
                        acc@,
                        pre[j],
                    )) is Some by {
                        assert(pre[j] == parents@[j]);
                        assert(parent_target(roots@, acc@, parents@[j]) == Some(out@[j]));
                    }
                    assert(parent_target(roots@, acc@, parents@[i as int]) is None);
                    assert(!parents_known(roots@, acc@, parents@));
                }
                return Err(ImportError::MissingParent { parent: p, commit });
            },
        }
        i = i + 1;
    }
    proof {
        assert forall|j: int| 0 <= j < parents@.len() implies (#[trigger] parent_target(
            roots@,
            acc@,
            parents@[j],
        )) is Some by {
            assert(parent_target(roots@, acc@, parents@[j]) == Some(out@[j]));
        }
    }
    Ok(out)
}

// ---------------------------------------------------------------------------
// Finalization order
// ---------------------------------------------------------------------------

/// One finalization attempt on (submitted ids, number finalized): it is
/// accepted only for the next submitted id not yet finalized.
pub open spec fn finalize_step(s: (Seq<ObjectId>, nat), oid: ObjectId) -> (
    (Seq<ObjectId>, nat),
    Result<(), ImportError>,
) {
    if s.1 < s.0.len() && s.0[s.1 as int] == oid {
        ((s.0, s.1 + 1), Ok(()))
    } else {
        (
            s,
            Err(
                ImportError::OutOfOrder {
                    expected: if s.1 < s.0.len() {
                        Some(s.0[s.1 as int])
                    } else {
                        None
                    },
                    got: oid,
                },
            ),
        )
    }
}

/// The state after a sequence of finalizations, if every one was accepted.
pub open spec fn finalize_all(s: (Seq<ObjectId>, nat), events: Seq<ObjectId>) -> Option<
    (Seq<ObjectId>, nat),
>
    decreases events.len(),
{
    if events.len() == 0 {
        Some(s)
    } else {
        match finalize_all(s, events.drop_last()) {
            Some(t) => {
                let (u, r) = finalize_step(t, events.last());
                if r is Ok {
                    Some(u)
                } else {
                    None
                }
            },
            None => None,
        }
    }
}

/// Finalization follows submission: whatever order extraction finishes in,
/// the finalizations that are accepted after submitting `submitted` are
/// exactly its first commits, in the order they were submitted.
pub proof fn lemma_finalize_in_submission_order(submitted: Seq<ObjectId>, events: Seq<ObjectId>)
    requires
        finalize_all((submitted, 0), events) is Some,
    ensures
        events.len() <= submitted.len(),
        events == submitted.take(events.len() as int),
        finalize_all((submitted, 0), events) == Some((submitted, events.len())),
    decreases events.len(),
{
    if events.len() > 0 {
        let prev = events.drop_last();
        lemma_finalize_in_submission_order(submitted, prev);
        assert(events =~= submitted.take(events.len() as int));
    }
}

/// The commits submitted for extraction and how many of them, from the
/// first, have been finalized.
pub struct FinalizeOrder {
    submitted: Vec<ObjectId>,
    finalized: usize,
}

impl View for FinalizeOrder {
    type V = (Seq<ObjectId>, nat);

    closed spec fn view(&self) -> (Seq<ObjectId>, nat) {
        (self.submitted@, self.finalized as nat)
    }
}

impl FinalizeOrder {
    pub open spec fn wf(&self) -> bool {
        self@.1 <= self@.0.len()
    }

    pub fn new() -> (r: Self)
        ensures
            r@ == (Seq::<ObjectId>::empty(), 0nat),
            r.wf(),
    {
        FinalizeOrder { submitted: Vec::new(), finalized: 0 }
    }

    /// Records that `oid` was handed to extraction, after all earlier ones.
    pub fn submit(&mut self, oid: ObjectId)
        requires
            old(self).wf(),
        ensures
            final(self)@ == (old(self)@.0.push(oid), old(self)@.1),
            final(self).wf(),
    {
        self.submitted.push(oid);
    }

    /// Accepts `oid` for finalization if it is the next submitted commit.
    pub fn finalize(&mut self, oid: ObjectId) -> (r: Result<(), ImportError>)
        requires
            old(self).wf(),
        ensures
            (final(self)@, r) == finalize_step(old(self)@, oid),
            final(self).wf(),
    {
        if self.finalized < self.submitted.len() {
            let expected = self.submitted[self.finalized];
            if expected.same_as(&oid) {
                self.finalized = self.finalized + 1;
                Ok(())
            } else {
                Err(ImportError::OutOfOrder { expected: Some(expected), got: oid })
            }
        } else {
            Err(ImportError::OutOfOrder { expected: None, got: oid })
        }
    }

    /// Whether every submitted commit has been finalized.
    pub fn is_drained(&self) -> (r: bool)
        requires
            self.wf(),
        ensures
            r == (self@.1 == self@.0.len()),
    {
        self.finalized == self.submitted.len()
    }
}

// ---------------------------------------------------------------------------
// Batching
// ---------------------------------------------------------------------------

/// One finalization outcome on (batch size, pending items, aborted): `Some`
/// is a finalized commit, `None` a failure. A failure drops what is pending
/// and stops all batching; a full batch is handed out.
pub open spec fn batch_step<T>(s: (nat, Seq<T>, bool), item: Option<T>) -> (
    (nat, Seq<T>, bool),
    Option<Seq<T>>,
) {
    if s.2 {
        (s, None)
    } else {
        match item {
            None => ((s.0, Seq::empty(), true), None),
            Some(x) => if s.1.len() + 1 >= s.0 {
                ((s.0, Seq::empty(), false), Some(s.1.push(x)))
            } else {
                ((s.0, s.1.push(x), false), None)
            },
        }
    }
}

/// The last, possibly short, batch at the end of a run that did not fail.
pub open spec fn batch_rest<T>(s: (nat, Seq<T>, bool)) -> Option<Seq<T>> {
    if !s.2 && s.1.len() > 0 {
        Some(s.1)
    } else {
        None
    }
}

/// The state after a sequence of outcomes, and the batches handed out.
pub open spec fn batch_run<T>(s: (nat, Seq<T>, bool), items: Seq<Option<T>>) -> (
    (nat, Seq<T>, bool),
    Seq<Seq<T>>,
)
    decreases items.len(),
{
    if items.len() == 0 {
        (s, Seq::empty())
    } else {
        let (t, done) = batch_run(s, items.drop_last());
        let (u, out) = batch_step(t, items.last());
        (
            u,
            match out {
                Some(b) => done.push(b),
                None => done,
            },
        )
    }
}

/// Once a failure has been seen, no outcome that follows hands out a batch,
/// and nothing is left to hand out at the end.
pub proof fn lemma_no_batch_after_failure<T>(s: (nat, Seq<T>, bool), items: Seq<Option<T>>)
    requires
        s.2,
    ensures
        batch_run(s, items) == (s, Seq::<Seq<T>>::empty()),
        batch_rest(s) is None,
    decreases items.len(),
{
    if items.len() > 0 {
        lemma_no_batch_after_failure(s, items.drop_last());
    }
}

/// Batches are atomic: when the second of three finalized commits fails, no
/// batch holding anything from the chunk that it falls in is handed out; only
/// a batch completed before it (with batches of one, the first commit) is.
pub proof fn lemma_batch_atomicity<T>(size: nat, a: T, b: T)
    requires
        size >= 1,
    ensures
        ({
            let (end, batches) = batch_run((size, Seq::empty(), false), seq![Some(a), None, Some(b)]);
            &&& batches == if size == 1 {
                seq![seq![a]]
            } else {
                Seq::<Seq<T>>::empty()
            }
            &&& batch_rest(end) is None
        }),
{
    let items = seq![Some(a), None, Some(b)];
    let s0 = (size, Seq::<T>::empty(), false);
    assert(items.drop_last().drop_last().drop_last() =~= Seq::<Option<T>>::empty());
    assert(items.drop_last().drop_last() =~= seq![Some(a)]);
    assert(items.drop_last() =~= seq![Some(a), None]);
    assert(seq![Some(a)].drop_last() =~= Seq::<Option<T>>::empty());
    assert(batch_run(s0, Seq::<Option<T>>::empty()) == (s0, Seq::<Seq<T>>::empty()));
    let (s1, d1) = batch_run(s0, seq![Some(a)]);
    assert((s1, d1) == (batch_step(s0, Some(a)).0, match batch_step(s0, Some(a)).1 {
        Some(x) => Seq::<Seq<T>>::empty().push(x),
        None => Seq::<Seq<T>>::empty(),
    }));
    assert(s1.2 == false);
    let (s2, d2) = batch_run(s0, seq![Some(a), None]);
    assert(s2.2);
    assert(d2 == d1);
    if size == 1 {
        assert(s1.1.len() == 0);
        assert(seq![a] =~= Seq::<T>::empty().push(a));
        assert(d1 == seq![seq![a]]);
    } else {
        assert(d1 =~= Seq::<Seq<T>>::empty());
    }
}

/// Groups finalized commits into batches of a fixed size, handed out in
/// order; a failure drops the incomplete batch and ends batching.
pub struct BatchQueue<T> {
    size: usize,
    pending: Vec<T>,
    aborted: bool,
}

impl<T> View for BatchQueue<T> {
    type V = (nat, Seq<T>, bool);

    closed spec fn view(&self) -> (nat, Seq<T>, bool) {
        (self.size as nat, self.pending@, self.aborted)
    }
}

impl<T> BatchQueue<T> {
    pub fn new(size: usize) -> (r: Self)
        requires
            size >= 1,
        ensures
            r@ == (size as nat, Seq::<T>::empty(), false),
    {
        BatchQueue { size, pending: Vec::new(), aborted: false }
    }

    /// Adds a finalized commit; returns the batch that it completes, if any.
    pub fn push(&mut self, item: T) -> (r: Option<Vec<T>>)
        ensures
            final(self)@ == batch_step(old(self)@, Some(item)).0,
            match r {
                Some(v) => batch_step(old(self)@, Some(item)).1 == Some(v@),
                None => batch_step(old(self)@, Some(item)).1 is None,
            },
    {
        if self.aborted {
            return None;
        }
        if self.size <= self.pending.len() || self.size - self.pending.len() <= 1 {
            let mut batch: Vec<T> = Vec::new();
            std::mem::swap(&mut batch, &mut self.pending);
            batch.push(item);
            Some(batch)
        } else {
            self.pending.push(item);
            None
        }
    }

    /// Records that a commit failed: the incomplete batch is dropped and no
    /// batch is handed out any more.
    pub fn fail(&mut self)
        ensures
            final(self)@ == batch_step(old(self)@, None::<T>).0,
    {
        if !self.aborted {
            self.pending = Vec::new();
            self.aborted = true;
        }
    }

    /// Ends the run, returning the last incomplete batch, if any.
    pub fn finish(self) -> (r: Option<Vec<T>>)
        ensures
            match r {
                Some(v) => batch_rest(self@) == Some(v@),
                None => batch_rest(self@) is None,
            },
    {
        if !self.aborted && self.pending.len() > 0 {
            Some(self.pending)
        } else {
            None
        }
    }
}

} // verus!
