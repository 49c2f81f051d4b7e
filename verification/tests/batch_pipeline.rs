//! The ingestion pipeline end to end: batch validation with partial
//! acceptance, best-effort enrichment, and the access-controlled store.

use collab_ingest::codec::encode_record;
use collab_ingest::compress::ContentEncoding;
use collab_ingest::enrich::{EmbeddingOutcome, EmbeddingPolicy};
use collab_ingest::error::{AccessDenial, Action, BatchRejection, ErrorKind, StoreError};
use collab_ingest::frame::{encode_frames, FrameScanner};
use collab_ingest::pipeline::{ingest_batch, ingest_single};
use collab_ingest::record::{build_encoded_state, CollabType, DocumentRecord};
use collab_ingest::store::CollabStore;
use collab_ingest::validate::{process_batch, validate_span};

const WS: u128 = 1000;
const ALICE: i64 = 1;

fn record(object_id: u128) -> DocumentRecord {
    DocumentRecord {
        object_id,
        workspace_id: WS,
        collab_type: CollabType::Document,
        encoded_state: build_encoded_state(object_id, &CollabType::Document, &[1, 2, 3]),
        embeddings: None,
    }
}

fn store_with_write_grant() -> CollabStore {
    let mut store = CollabStore::new();
    store.add_workspace(WS);
    store.grant(ALICE, WS, Action::Write);
    store.grant(ALICE, WS, Action::Read);
    store
}

/// Frames a batch of record payloads and hands back the scanner's parts.
fn frame_batch(payloads: Vec<Vec<u8>>) -> (Vec<u8>, Vec<(usize, usize)>) {
    let encoded = encode_frames(&payloads);
    let mut scanner = FrameScanner::new();
    scanner.feed(&encoded);
    scanner.into_parts()
}

#[test]
fn batch_accepts_valid_records_and_drops_the_invalid_one() {
    // Five records; the third is structurally invalid (its encoded state
    // declares a Folder while the record declares a Document).
    let mut payloads = Vec::new();
    for oid in 1..=5u128 {
        let mut rec = record(oid);
        if oid == 3 {
            rec.encoded_state = build_encoded_state(oid, &CollabType::Folder, &[1, 2, 3]);
        }
        payloads.push(encode_record(&rec));
    }
    let (buf, spans) = frame_batch(payloads);
    let accepted =
        process_batch(&buf, &spans, &ContentEncoding::Identity, WS).expect("four records remain");
    assert_eq!(accepted.len(), 4);
    let ids: Vec<u128> = accepted.iter().map(|r| r.object_id).collect();
    assert_eq!(ids, vec![1, 2, 4, 5]);

    // And persistence succeeds for exactly those four.
    let mut store = store_with_write_grant();
    let n = store
        .create_batch(ALICE, WS, accepted)
        .expect("batch persists");
    assert_eq!(n, 4);
    assert_eq!(store.record_count(), 4);
    assert!(store.get_record(ALICE, WS, 4).is_ok());
    assert_eq!(store.get_record(ALICE, WS, 3).unwrap_err(), StoreError::RecordNotFound);
}

#[test]
fn batch_with_every_record_rejected_fails_explicitly() {
    let mut payloads = Vec::new();
    for oid in 1..=5u128 {
        let mut rec = record(oid);
        rec.encoded_state = vec![0xFF; 30];
        payloads.push(encode_record(&rec));
    }
    let (buf, spans) = frame_batch(payloads);
    let r = process_batch(&buf, &spans, &ContentEncoding::Identity, WS);
    assert_eq!(r.unwrap_err(), BatchRejection::AllRecordsRejected);
    assert_eq!(BatchRejection::AllRecordsRejected.kind(), ErrorKind::ValidationRejected);
}

#[test]
fn batch_with_no_spans_is_nothing_to_do() {
    let buf: Vec<u8> = Vec::new();
    let spans: Vec<(usize, usize)> = Vec::new();
    let r = process_batch(&buf, &spans, &ContentEncoding::Identity, WS);
    assert_eq!(r.unwrap_err(), BatchRejection::EmptyInput);
    assert_eq!(BatchRejection::EmptyInput.kind(), ErrorKind::MalformedInput);
}

#[test]
fn one_span_validates_independently() {
    let good = encode_record(&record(8));
    let (buf, spans) = frame_batch(vec![good.clone(), vec![1, 2, 3]]);
    let (off, len) = spans[0];
    let accepted = validate_span(&buf, off, len, &ContentEncoding::Identity, WS);
    assert_eq!(accepted.map(|r| r.object_id), Some(8));
    let (off2, len2) = spans[1];
    assert!(validate_span(&buf, off2, len2, &ContentEncoding::Identity, WS).is_none());
}

#[test]
fn batch_rejects_record_with_nil_object_id() {
    let rec = DocumentRecord {
        object_id: 0,
        workspace_id: WS,
        collab_type: CollabType::Document,
        encoded_state: build_encoded_state(0, &CollabType::Document, &[1]),
        embeddings: None,
    };
    let (buf, spans) = frame_batch(vec![encode_record(&rec)]);
    let r = process_batch(&buf, &spans, &ContentEncoding::Identity, WS);
    assert_eq!(r.unwrap_err(), BatchRejection::AllRecordsRejected);
}

#[test]
fn brotli_compressed_batch_validates_and_persists() {
    // Each frame payload is one brotli-compressed record, as the batch
    // endpoint receives them.
    let mut payloads = Vec::new();
    for oid in 1..=3u128 {
        let plain = encode_record(&record(oid));
        let mut compressed = Vec::new();
        {
            let mut w = brotli::CompressorWriter::new(&mut compressed, 4096, 5, 22);
            std::io::Write::write_all(&mut w, &plain).expect("in-memory write");
        }
        payloads.push(compressed);
    }
    let (buf, spans) = frame_batch(payloads);
    let enc = ContentEncoding::Brotli { buffer_size: 1 << 16 };
    let accepted = process_batch(&buf, &spans, &enc, WS).expect("all three decompress");
    assert_eq!(accepted.len(), 3);
    let mut store = store_with_write_grant();
    assert_eq!(store.create_batch(ALICE, WS, accepted), Ok(3));
}

#[test]
fn batch_without_write_grant_persists_nothing() {
    let mut store = CollabStore::new();
    store.add_workspace(WS);
    let r = store.create_batch(ALICE, WS, vec![record(1), record(2)]);
    assert_eq!(
        r.unwrap_err(),
        StoreError::PermissionDenied(AccessDenial::InsufficientRole)
    );
    assert_eq!(store.record_count(), 0);
}

#[test]
fn enrichment_failure_never_drops_a_record() {
    // Three accepted records; the middle embedding computation fails. All
    // three persist: two with embeddings, one without.
    let records = vec![record(1), record(2), record(3)];
    let outcomes = vec![
        EmbeddingOutcome::Computed(vec![10, 10]),
        EmbeddingOutcome::Failed,
        EmbeddingOutcome::Computed(vec![30, 30]),
    ];
    let mut store = store_with_write_grant();
    let n = ingest_batch(&mut store, ALICE, WS, records, outcomes).expect("all three persist");
    assert_eq!(n, 3);
    assert_eq!(store.record_count(), 3);
    assert_eq!(store.get_record(ALICE, WS, 1).unwrap().embeddings, Some(vec![10, 10]));
    assert_eq!(store.get_record(ALICE, WS, 2).unwrap().embeddings, None);
    assert_eq!(store.get_record(ALICE, WS, 3).unwrap().embeddings, Some(vec![30, 30]));
}

#[test]
fn eligibility_gates_enrichment_per_workspace() {
    let mut policy = EmbeddingPolicy::new();
    assert!(!policy.can_index_workspace(WS));
    policy.enable_workspace(WS);
    assert!(policy.can_index_workspace(WS));
    assert!(!policy.can_index_workspace(WS + 1));
}

#[test]
fn caller_without_write_access_is_denied_and_nothing_is_stored() {
    let mut store = CollabStore::new();
    store.add_workspace(WS);
    store.grant(ALICE, WS, Action::Read);
    let r = store.create_single(ALICE, record(5));
    assert_eq!(
        r.unwrap_err(),
        StoreError::PermissionDenied(AccessDenial::InsufficientRole)
    );
    assert_eq!(
        StoreError::PermissionDenied(AccessDenial::InsufficientRole).kind(),
        ErrorKind::PermissionDenied
    );
    // No record is visible in storage afterward.
    assert_eq!(store.record_count(), 0);
    assert_eq!(store.get_record(ALICE, WS, 5).unwrap_err(), StoreError::RecordNotFound);
}

#[test]
fn unknown_workspace_is_distinguished_from_insufficient_role() {
    let mut store = CollabStore::new();
    store.add_workspace(WS);
    let mut rec = record(5);
    rec.workspace_id = WS + 1;
    rec.object_id = 5;
    let r = store.create_single(ALICE, rec);
    assert_eq!(
        r.unwrap_err(),
        StoreError::PermissionDenied(AccessDenial::NoSuchWorkspace)
    );
    assert_eq!(
        StoreError::PermissionDenied(AccessDenial::NoSuchWorkspace).kind(),
        ErrorKind::NotFound
    );
}

#[test]
fn object_equal_to_workspace_is_rejected_for_every_type_but_folder() {
    let non_folder = [
        CollabType::Document,
        CollabType::Database,
        CollabType::Workspace,
        CollabType::DatabaseRow,
        CollabType::UserAwareness,
        CollabType::Unknown,
    ];
    for t in non_folder {
        let mut store = store_with_write_grant();
        let rec = DocumentRecord {
            object_id: WS,
            workspace_id: WS,
            collab_type: t,
            encoded_state: build_encoded_state(WS, &t, &[1]),
            embeddings: None,
        };
        let r = store.create_single(ALICE, rec);
        assert_eq!(r.unwrap_err(), StoreError::ObjectEqualsWorkspace, "{:?}", t);
        assert_eq!(StoreError::ObjectEqualsWorkspace.kind(), ErrorKind::MalformedInput);
        assert_eq!(store.record_count(), 0);
    }
    // The folder object of the workspace itself is the one exception.
    let mut store = store_with_write_grant();
    let folder = DocumentRecord {
        object_id: WS,
        workspace_id: WS,
        collab_type: CollabType::Folder,
        encoded_state: build_encoded_state(WS, &CollabType::Folder, &[1]),
        embeddings: None,
    };
    assert!(store.create_single(ALICE, folder).is_ok());
    assert_eq!(store.record_count(), 1);
}

#[test]
fn structurally_invalid_state_is_rejected() {
    let mut store = store_with_write_grant();
    let mut rec = record(5);
    rec.encoded_state = vec![9; 40];
    let r = store.create_single(ALICE, rec);
    assert_eq!(r.unwrap_err(), StoreError::StructurallyInvalidState);
    assert_eq!(StoreError::StructurallyInvalidState.kind(), ErrorKind::ValidationRejected);
    assert_eq!(store.record_count(), 0);
}

#[test]
fn single_submission_attaches_computed_embedding() {
    let mut store = store_with_write_grant();
    ingest_single(&mut store, ALICE, record(6), Some(EmbeddingOutcome::Computed(vec![42])))
        .expect("persists");
    assert_eq!(store.get_record(ALICE, WS, 6).unwrap().embeddings, Some(vec![42]));

    // A failed or skipped enrichment still persists, without embeddings.
    ingest_single(&mut store, ALICE, record(7), Some(EmbeddingOutcome::Failed)).expect("persists");
    assert_eq!(store.get_record(ALICE, WS, 7).unwrap().embeddings, None);
    ingest_single(&mut store, ALICE, record(8), None).expect("persists");
    assert_eq!(store.get_record(ALICE, WS, 8).unwrap().embeddings, None);
}

#[test]
fn resubmitting_an_object_replaces_its_record() {
    let mut store = store_with_write_grant();
    store.create_single(ALICE, record(9)).expect("first submission");
    let mut updated = record(9);
    updated.encoded_state = build_encoded_state(9, &CollabType::Document, &[7, 7, 7, 7]);
    store.create_single(ALICE, updated).expect("update submission");
    assert_eq!(store.record_count(), 1);
    let stored = store.get_record(ALICE, WS, 9).unwrap();
    assert_eq!(stored.encoded_state, build_encoded_state(9, &CollabType::Document, &[7, 7, 7, 7]));
}

#[test]
fn empty_accepted_set_is_nothing_to_persist() {
    let mut store = store_with_write_grant();
    let r = store.create_batch(ALICE, WS, Vec::new());
    assert_eq!(r.unwrap_err(), StoreError::NothingToPersist);
    assert_eq!(StoreError::NothingToPersist.kind(), ErrorKind::MalformedInput);
}

#[test]
fn delete_requires_its_own_capability() {
    let mut store = store_with_write_grant();
    store.create_single(ALICE, record(4)).expect("persists");
    let r = store.delete_record(ALICE, WS, 4);
    assert_eq!(
        r.unwrap_err(),
        StoreError::PermissionDenied(AccessDenial::InsufficientRole)
    );
    assert_eq!(store.record_count(), 1);
    store.grant(ALICE, WS, Action::Delete);
    store.delete_record(ALICE, WS, 4).expect("now allowed");
    assert_eq!(store.record_count(), 0);
}

#[test]
fn error_kinds_map_to_response_classes() {
    assert!(ErrorKind::MalformedInput.is_client_error());
    assert!(ErrorKind::PermissionDenied.is_client_error());
    assert!(ErrorKind::NotFound.is_client_error());
    assert!(ErrorKind::ValidationRejected.is_client_error());
    assert!(!ErrorKind::TransactionFailure.is_client_error());
    assert!(!ErrorKind::Overload.is_client_error());
    assert!(!ErrorKind::EnrichmentFailure.is_client_error());
    assert_eq!(StoreError::TransactionFailure.kind(), ErrorKind::TransactionFailure);
}
