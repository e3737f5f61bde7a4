use defradb_core::commits::{Block, CrdtDelta};
use defradb_core::doc_id_index::{DocIdIndex, DocRef};
use defradb_core::doc_ids::{
    decode_sequence, encode_sequence, next_doc_short_id, reservation_step, reserve_range, sequence_floor,
    Allocation, CommitOutcome, DocShortIdAllocator, ReserveStep,
};
use defradb_core::error::Error;

fn stored_next(seq: &mut Option<Vec<u8>>) -> u64 {
    let current = decode_sequence(seq.clone()).unwrap();
    let next = next_doc_short_id(current);
    *seq = Some(encode_sequence(next));
    next
}

fn allocate(allocator: &mut DocShortIdAllocator, seq: &mut Option<Vec<u8>>) -> u64 {
    loop {
        match allocator.next().unwrap() {
            Allocation::Issued(id) => return id,
            Allocation::NeedsRange => {
                let current = decode_sequence(seq.clone()).unwrap();
                let (start, end) = reserve_range(current, 4).unwrap();
                *seq = Some(encode_sequence(end));
                allocator.install_range(start);
            }
        }
    }
}

#[test]
fn short_ids_allocate_from_one() {
    let mut seq = None;
    assert_eq!(stored_next(&mut seq), 1);
    assert_eq!(stored_next(&mut seq), 2);
}

#[test]
fn malformed_sequence_is_rejected() {
    let error = decode_sequence(Some(b"invalid".to_vec())).unwrap_err();
    assert!(matches!(
        error,
        Error::Other(message)
            if message == "invalid persisted document short-ID sequence"
    ));
}

#[test]
fn sequence_floor_preserves_reused_short_ids() {
    let mut seq: Option<Vec<u8>> = None;
    if let Some(v) = sequence_floor(decode_sequence(seq.clone()).unwrap(), 41) {
        seq = Some(encode_sequence(v));
    }
    if let Some(v) = sequence_floor(decode_sequence(seq.clone()).unwrap(), 7) {
        seq = Some(encode_sequence(v));
    }
    assert_eq!(stored_next(&mut seq), 42);
}

#[test]
fn allocator_reserves_ranges_across_instances_and_restarts() {
    let mut seq: Option<Vec<u8>> = None;
    let mut allocator_a = DocShortIdAllocator::with_reservation_size(4);
    let mut allocator_b = DocShortIdAllocator::with_reservation_size(4);
    let a = allocate(&mut allocator_a, &mut seq);
    let b = allocate(&mut allocator_b, &mut seq);
    let mut first_ids = vec![a, b];
    first_ids.sort_unstable();
    assert_eq!(first_ids, vec![1, 5]);
    assert_eq!(decode_sequence(seq.clone()).unwrap(), 8);

    let mut restarted = DocShortIdAllocator::with_reservation_size(4);
    assert_eq!(allocate(&mut restarted, &mut seq), 9);
}

#[test]
fn allocator_hands_out_its_range_in_order() {
    let mut seq: Option<Vec<u8>> = None;
    let mut allocator = DocShortIdAllocator::with_reservation_size(4);
    let ids: Vec<u64> = (0..6).map(|_| allocate(&mut allocator, &mut seq)).collect();
    assert_eq!(ids, vec![1, 2, 3, 4, 5, 6]);
    assert_eq!(decode_sequence(seq).unwrap(), 8);
}

#[test]
fn sequence_encoding_round_trips() {
    for v in [0u64, 1, 255, 256, 1 << 40, u64::MAX] {
        assert_eq!(decode_sequence(Some(encode_sequence(v))).unwrap(), v);
    }
    assert_eq!(encode_sequence(258), vec![0, 0, 0, 0, 0, 0, 1, 2]);
    assert_eq!(decode_sequence(None).unwrap(), 0);
}

#[test]
fn exhausted_sequence_cannot_reserve() {
    assert_eq!(reserve_range(u64::MAX - 2, 4), Err(Error::Other("document short-ID sequence exhausted".to_string())));
    assert_eq!(reserve_range(10, 4), Ok((11, 14)));
}

#[test]
fn reservation_conflicts_are_retried_a_bounded_number_of_times() {
    assert_eq!(reservation_step(CommitOutcome::Committed, 0), ReserveStep::Done);
    assert_eq!(reservation_step(CommitOutcome::Conflict, 15), ReserveStep::Retry);
    assert_eq!(reservation_step(CommitOutcome::Conflict, 16), ReserveStep::Fail);
    assert_eq!(reservation_step(CommitOutcome::Failed, 0), ReserveStep::Fail);
}

#[test]
fn mapping_roundtrip() {
    let mut seq = None;
    let mut index = DocIdIndex::new();
    let short_id = stored_next(&mut seq);
    index.set_doc_id_mapping(7, short_id, "bae-x");

    assert_eq!(index.get_doc_id(short_id).as_deref(), Some("bae-x"));
    assert_eq!(index.get_doc_short_id(7, "bae-x"), Some(short_id));
    assert_eq!(index.get_doc_short_id(8, "bae-x"), None);
}

#[test]
fn allocations_do_not_conflict_unrelated_caller_transactions() {
    let mut seq = None;
    let mut index = DocIdIndex::new();
    let a = stored_next(&mut seq);
    let b = stored_next(&mut seq);
    index.set_doc_id_mapping(1, a, "bae-a");
    index.set_doc_id_mapping(2, b, "bae-b");
    assert_eq!(index.get_doc_short_id(1, "bae-a"), Some(a));
    assert_eq!(index.get_doc_short_id(2, "bae-b"), Some(b));
}

#[test]
fn alias_cannot_replace_an_existing_document() {
    let mut index = DocIdIndex::new();
    index.set_doc_id_mapping(3, 1, "bae-a");
    index.set_doc_id_mapping(3, 2, "bae-b");

    let error = index.set_doc_id_alias(3, 2, "bae-a").unwrap_err();

    assert!(error.message().contains("already belongs"));
    assert_eq!(index.get_doc_short_id(3, "bae-a"), Some(1));
}

#[test]
fn setting_the_same_alias_is_idempotent() {
    let mut index = DocIdIndex::new();
    index.set_doc_id_mapping(3, 1, "bae-a");
    index.aliases.retain(|(s, d)| !(*s == 1 && d == "bae-a"));

    index.set_doc_id_alias(3, 1, "bae-a").unwrap();

    assert_eq!(index.get_doc_short_id(3, "bae-a"), Some(1));
    assert!(index.has_doc_id_alias(1, "bae-a"));
}

#[test]
fn alias_resolves_to_the_document_without_replacing_its_primary() {
    let mut index = DocIdIndex::new();
    index.set_doc_id_mapping(3, 1, "bae-a");
    index.set_doc_id_alias(3, 1, "bae-old").unwrap();
    assert_eq!(index.get_doc_id(1).as_deref(), Some("bae-a"));
    assert_eq!(index.get_doc_ref("bae-old"), Some(DocRef { collection_short_id: 3, doc_short_id: 1 }));
    assert!(index.has_doc_id_alias(1, "bae-old"));
    assert_eq!(index.set_doc_id_alias(0, 1, "bae-x"), Ok(()));
    assert_eq!(index.get_doc_ref("bae-x"), None);
}

#[test]
fn ownerless_document_blocks_are_not_authorizable() {
    let index = DocIdIndex::new();
    let field_block = Block {
        delta: CrdtDelta::Lww {
            field_name: "name".to_string(),
            schema_version_id: "v1".to_string(),
            priority: 1,
            data: vec![1],
        },
        links: Some(vec![]),
        heads: Some(vec![]),
    };
    assert_eq!(index.resolve_block_doc_ids("bafyfield", &field_block, "bae-field"), None);

    let genesis = Block {
        delta: CrdtDelta::Composite { schema_version_id: "v1".to_string(), priority: 1, status: 1 },
        links: Some(vec![]),
        heads: Some(vec![]),
    };
    assert_eq!(
        index.resolve_block_doc_ids("bafygenesis", &genesis, "bae-genesis"),
        Some(vec!["bae-genesis".to_string()])
    );
}

#[test]
fn collection_blocks_have_no_document_owners() {
    let index = DocIdIndex::new();
    let block = Block { delta: CrdtDelta::CollectionSet { priority: 4 }, links: None, heads: None };
    assert_eq!(index.resolve_block_doc_ids("bafycol", &block, "unused"), Some(vec![]));
}

#[test]
fn recorded_owners_authorize_a_block_sorted_and_once() {
    let mut index = DocIdIndex::new();
    index.set_block_doc_id_mapping("bafy2", "bae-z");
    index.set_block_doc_id_mapping("bafy2", "bae-m");
    index.set_block_doc_id_mapping("bafy2", "bae-z");
    let block = Block {
        delta: CrdtDelta::Counter {
            field_name: "n".to_string(),
            schema_version_id: "v1".to_string(),
            priority: 2,
            data: vec![],
        },
        links: None,
        heads: Some(vec!["bafy1".to_string()]),
    };
    assert_eq!(
        index.resolve_block_doc_ids("bafy2", &block, "unused"),
        Some(vec!["bae-m".to_string(), "bae-z".to_string()])
    );
}

#[test]
fn block_ownership_is_a_set() {
    let mut index = DocIdIndex::new();
    index.set_block_doc_id_mapping("bafy1", "bae-a");
    index.set_block_doc_id_mapping("bafy1", "bae-b");

    let mut owners = index.get_doc_ids_for_block("bafy1");
    owners.sort();
    assert_eq!(owners, vec!["bae-a".to_string(), "bae-b".to_string()]);

    index.delete_block_doc_id_mapping("bafy1", "bae-a");
    assert_eq!(index.get_doc_ids_for_block("bafy1"), vec!["bae-b".to_string()]);
}

#[test]
fn delete_doc_id_mappings_removes_all() {
    let mut seq = None;
    let mut index = DocIdIndex::new();
    let short_id = stored_next(&mut seq);
    index.set_doc_id_mapping(2, short_id, "bae-z");

    index.delete_doc_id_mappings(short_id);

    assert_eq!(index.get_doc_id(short_id), None);
    assert_eq!(index.get_doc_short_id(2, "bae-z"), None);
}

#[test]
fn delete_removes_aliases_but_not_other_documents() {
    let mut index = DocIdIndex::new();
    index.set_doc_id_mapping(2, 5, "bae-a");
    index.set_doc_id_alias(2, 5, "bae-a-old").unwrap();
    index.set_doc_id_mapping(2, 6, "bae-b");
    index.delete_doc_id_mappings(5);
    assert_eq!(index.get_doc_ref("bae-a-old"), None);
    assert!(!index.has_doc_id_alias(5, "bae-a"));
    assert_eq!(index.get_doc_short_id(2, "bae-b"), Some(6));
}

#[test]
fn resolve_doc_ids_keeps_order_and_skips_unknown() {
    let mut index = DocIdIndex::new();
    index.set_doc_id_mapping(1, 1, "bae-1");
    index.set_doc_id_mapping(1, 3, "bae-3");
    assert_eq!(index.resolve_doc_ids(&[3, 2, 1]), vec!["bae-3".to_string(), "bae-1".to_string()]);
}
