use import_tools::accumulator::GitimportAccumulator;
use import_tools::changes::{
    expect_blob, plan_file_change, ChangeError, ChangeSet, DiffEntry, FileAction, FileChange,
    FileType, UploadedFile,
};
use import_tools::ids::{parse_object_id, ChangesetId, IdParseError, ObjectId};
use import_tools::refs::{
    parse_ref_line, GitRef, ObjectKind, PeelStep, RefError, TagPeeler, MAX_PEEL_STEPS,
};
use import_tools::scheduler::{
    resolve_parents, resume_filter, resume_probe, BatchQueue, FinalizeOrder, ImportError,
};

fn oid(n: u8) -> ObjectId {
    ObjectId { bytes: [n; 20] }
}

fn cs(n: u8) -> ChangesetId {
    ChangesetId { bytes: [n; 32] }
}

fn uploaded(n: u8) -> FileChange {
    FileChange::Uploaded(UploadedFile {
        content_id: [n; 32],
        file_type: FileType::Regular,
        size: n as u64,
    })
}

#[test]
fn accumulator_keeps_insertion_order_and_replaces() {
    let mut acc = GitimportAccumulator::new();
    assert!(acc.is_empty());
    acc.insert(oid(1), cs(1));
    acc.insert(oid(2), cs(2));
    acc.insert(oid(1), cs(3));
    assert_eq!(acc.len(), 2);
    assert!(!acc.is_empty());
    assert_eq!(acc.get(&oid(1)), Some(cs(3)));
    assert_eq!(acc.get(&oid(2)), Some(cs(2)));
    assert_eq!(acc.get(&oid(9)), None);
    let order: Vec<ObjectId> = acc.into_inner().keys().copied().collect();
    assert_eq!(order, vec![oid(2), oid(1)]);
}

#[test]
fn resume_probe_records_known_commit() {
    let mut acc = GitimportAccumulator::new();
    assert!(!resume_probe(&mut acc, oid(1), Some(cs(7))));
    assert!(resume_probe(&mut acc, oid(2), None));
    assert_eq!(acc.len(), 1);
    assert_eq!(acc.get(&oid(1)), Some(cs(7)));
    assert_eq!(acc.get(&oid(2)), None);
}

#[test]
fn resume_twice_gives_same_mapping_and_no_work() {
    // First run: commits 1 and 3 were already known, 2 was imported as cs(20).
    let ids = vec![oid(1), oid(2), oid(3)];
    let mut first = GitimportAccumulator::new();
    let pending = resume_filter(&mut first, &ids, &vec![Some(cs(10)), None, Some(cs(30))]);
    assert_eq!(pending, vec![oid(2)]);
    first.insert(oid(2), cs(20));
    assert_eq!(first.len(), 3);

    // Second run: the store now reports every commit.
    let mut second = GitimportAccumulator::new();
    let reports = vec![Some(cs(10)), Some(cs(20)), Some(cs(30))];
    let pending = resume_filter(&mut second, &ids, &reports);
    assert!(pending.is_empty());
    for id in &ids {
        assert_eq!(second.get(id), first.get(id));
    }
    assert_eq!(second.len(), first.len());
}

#[test]
fn zero_commits_give_empty_mapping() {
    let mut acc = GitimportAccumulator::new();
    let pending = resume_filter(&mut acc, &vec![], &vec![]);
    assert!(pending.is_empty());
    assert!(acc.is_empty());
    let order = FinalizeOrder::new();
    assert!(order.is_drained());
    let batches: BatchQueue<u8> = BatchQueue::new(4);
    assert_eq!(batches.finish(), None);
}

#[test]
fn parents_resolve_from_roots_then_accumulator() {
    let mut roots = GitimportAccumulator::new();
    roots.insert(oid(1), cs(1));
    let mut acc = GitimportAccumulator::new();
    acc.insert(oid(2), cs(2));
    acc.insert(oid(1), cs(99));
    let r = resolve_parents(&roots, &acc, oid(5), &vec![oid(2), oid(1)]);
    assert_eq!(r, Ok(vec![cs(2), cs(1)]));
    assert_eq!(resolve_parents(&roots, &acc, oid(5), &vec![]), Ok(vec![]));
}

#[test]
fn missing_parent_names_parent_and_commit() {
    let roots = GitimportAccumulator::new();
    let mut acc = GitimportAccumulator::new();
    acc.insert(oid(2), cs(2));
    let r = resolve_parents(&roots, &acc, oid(5), &vec![oid(2), oid(3), oid(4)]);
    assert_eq!(
        r,
        Err(ImportError::MissingParent {
            parent: oid(3),
            commit: oid(5)
        })
    );
}

#[test]
fn finalization_follows_submission_order() {
    let mut order = FinalizeOrder::new();
    for n in 1..=4 {
        order.submit(oid(n));
    }
    // Extraction of 3 finished first: it still has to wait for 1 and 2.
    assert_eq!(
        order.finalize(oid(3)),
        Err(ImportError::OutOfOrder {
            expected: Some(oid(1)),
            got: oid(3)
        })
    );
    assert_eq!(order.finalize(oid(1)), Ok(()));
    assert_eq!(order.finalize(oid(2)), Ok(()));
    assert_eq!(order.finalize(oid(3)), Ok(()));
    assert!(!order.is_drained());
    assert_eq!(order.finalize(oid(4)), Ok(()));
    assert!(order.is_drained());
    assert_eq!(
        order.finalize(oid(5)),
        Err(ImportError::OutOfOrder {
            expected: None,
            got: oid(5)
        })
    );
}

#[test]
fn batches_fill_to_size_and_flush_rest() {
    let mut q = BatchQueue::new(2);
    assert_eq!(q.push(1), None);
    assert_eq!(q.push(2), Some(vec![1, 2]));
    assert_eq!(q.push(3), None);
    assert_eq!(q.finish(), Some(vec![3]));
}

#[test]
fn failed_commit_is_never_batched() {
    let mut q = BatchQueue::new(3);
    assert_eq!(q.push(1), None);
    q.fail();
    assert_eq!(q.push(3), None);
    assert_eq!(q.finish(), None);
}

#[test]
fn batch_before_failure_stays_submitted() {
    let mut q = BatchQueue::new(1);
    assert_eq!(q.push(1), Some(vec![1]));
    q.fail();
    assert_eq!(q.push(3), None);
    assert_eq!(q.finish(), None);
}

#[test]
fn tag_chain_resolves_to_commit_with_outer_tag() {
    let p = TagPeeler::new(b"refs/tags/v1".to_vec(), oid(1));
    let p = match p.observe(ObjectKind::Tag { target: oid(2) }) {
        PeelStep::Fetch(p) => p,
        _ => panic!("expected to fetch the inner tag"),
    };
    assert_eq!(p.next, oid(2));
    let p = match p.observe(ObjectKind::Tag { target: oid(3) }) {
        PeelStep::Fetch(p) => p,
        _ => panic!("expected to fetch the commit"),
    };
    match p.observe(ObjectKind::Commit) {
        PeelStep::Resolved(r, c) => {
            assert_eq!(
                r,
                GitRef {
                    name: b"refs/tags/v1".to_vec(),
                    maybe_tag_id: Some(oid(1))
                }
            );
            assert_eq!(c, oid(3));
        }
        _ => panic!("expected a commit"),
    }
}

#[test]
fn branch_resolves_without_tag() {
    let p = TagPeeler::new(b"refs/heads/main".to_vec(), oid(4));
    match p.observe(ObjectKind::Commit) {
        PeelStep::Resolved(r, c) => {
            assert_eq!(r, GitRef::new(b"refs/heads/main".to_vec()));
            assert_eq!(c, oid(4));
        }
        _ => panic!("expected a commit"),
    }
}

#[test]
fn ref_to_blob_fails() {
    let p = TagPeeler::new(b"refs/heads/x".to_vec(), oid(1));
    match p.observe(ObjectKind::Blob) {
        PeelStep::Failed(e) => assert_eq!(
            e,
            RefError::PointsToBlob {
                name: b"refs/heads/x".to_vec()
            }
        ),
        _ => panic!("expected a failure"),
    }
}

#[test]
fn ref_to_tree_records_nothing() {
    let p = TagPeeler::new(b"refs/tags/tree".to_vec(), oid(1));
    assert!(matches!(p.observe(ObjectKind::Tree), PeelStep::NoCommit));
}

#[test]
fn endless_tag_chain_fails() {
    let mut p = TagPeeler::new(b"refs/tags/loop".to_vec(), oid(1));
    let mut fetched = 0;
    loop {
        match p.observe(ObjectKind::Tag { target: oid(1) }) {
            PeelStep::Fetch(next) => {
                fetched += 1;
                p = next;
            }
            PeelStep::Failed(e) => {
                assert_eq!(
                    e,
                    RefError::TagChainTooLong {
                        name: b"refs/tags/loop".to_vec()
                    }
                );
                break;
            }
            _ => panic!("unexpected step"),
        }
    }
    assert_eq!(fetched, MAX_PEEL_STEPS - 1);
}

#[test]
fn parse_object_id_decodes_hex() {
    let text = b"0123456789abcdefABCDEF0123456789abcdef01";
    let id = parse_object_id(text).unwrap();
    assert_eq!(
        id.bytes,
        [
            0x01, 0x23, 0x45, 0x67, 0x89, 0xab, 0xcd, 0xef, 0xab, 0xcd, 0xef, 0x01, 0x23, 0x45,
            0x67, 0x89, 0xab, 0xcd, 0xef, 0x01
        ]
    );
    assert_eq!(parse_object_id(b"0123"), Err(IdParseError::NotHexId));
    assert_eq!(
        parse_object_id(b"g123456789abcdefABCDEF0123456789abcdef01"),
        Err(IdParseError::NotHexId)
    );
}

#[test]
fn ref_line_splits_at_first_space() {
    let line = b"1111111111111111111111111111111111111111 refs/heads/my branch";
    match parse_ref_line(line) {
        Some(Ok((id, name))) => {
            assert_eq!(id, oid(0x11));
            assert_eq!(name, b"refs/heads/my branch".to_vec());
        }
        other => panic!("unexpected {:?}", other),
    }
    assert_eq!(parse_ref_line(b"no-space-here"), None);
    assert_eq!(
        parse_ref_line(b"xyz refs/heads/main"),
        Some(Err(RefError::BadObjectId {
            line: b"xyz refs/heads/main".to_vec()
        }))
    );
}

#[test]
fn ids_compare_by_bytes() {
    assert!(oid(1).same_as(&oid(1)));
    let mut other = oid(1);
    other.bytes[19] = 2;
    assert!(!oid(1).same_as(&other));
}

#[test]
fn diff_records_plan_upload_or_deletion() {
    assert_eq!(
        plan_file_change(DiffEntry::Changed {
            path: b"a".to_vec(),
            file_type: FileType::Executable,
            oid: oid(1)
        }),
        FileAction::Upload {
            path: b"a".to_vec(),
            file_type: FileType::Executable,
            oid: oid(1)
        }
    );
    assert_eq!(
        plan_file_change(DiffEntry::ChangedReusedId {
            path: b"c".to_vec(),
            file_type: FileType::Regular,
            oid: oid(3)
        }),
        FileAction::Upload {
            path: b"c".to_vec(),
            file_type: FileType::Regular,
            oid: oid(3)
        }
    );
    assert_eq!(
        plan_file_change(DiffEntry::Deleted {
            path: b"b".to_vec()
        }),
        FileAction::Record {
            path: b"b".to_vec(),
            change: FileChange::Deleted
        }
    );
}

#[test]
fn non_blob_content_is_rejected() {
    assert_eq!(expect_blob(oid(1), ObjectKind::Blob), Ok(()));
    assert_eq!(
        expect_blob(oid(1), ObjectKind::Tree),
        Err(ChangeError::NotABlob(oid(1)))
    );
}

#[test]
fn change_set_holds_exactly_added_deleted_modified() {
    let set = ChangeSet::collect(vec![
        (b"c".to_vec(), uploaded(3)),
        (b"a".to_vec(), uploaded(1)),
        (b"b".to_vec(), FileChange::Deleted),
    ]);
    assert_eq!(set.len(), 3);
    assert_eq!(set.get(&b"a".to_vec()), Some(uploaded(1)));
    assert_eq!(set.get(&b"b".to_vec()), Some(FileChange::Deleted));
    assert_eq!(set.get(&b"c".to_vec()), Some(uploaded(3)));
    assert_eq!(set.get(&b"d".to_vec()), None);
    let paths: Vec<Vec<u8>> = set.into_inner().keys().cloned().collect();
    assert_eq!(paths, vec![b"a".to_vec(), b"b".to_vec(), b"c".to_vec()]);
}

#[test]
fn change_set_later_record_wins() {
    let set = ChangeSet::collect(vec![
        (b"a".to_vec(), uploaded(1)),
        (b"a".to_vec(), FileChange::Deleted),
    ]);
    assert_eq!(set.len(), 1);
    assert_eq!(set.get(&b"a".to_vec()), Some(FileChange::Deleted));
}
