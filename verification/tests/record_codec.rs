//! The self-describing record wire format and the structural validity of
//! encoded states.

use collab_ingest::codec::{decode_record, encode_record};
use collab_ingest::record::{build_encoded_state, check_encoded_state, check_object_rule,
    collab_type_from_tag, collab_type_tag, CollabType, DocumentRecord};

fn sample_record(object_id: u128, workspace_id: u128) -> DocumentRecord {
    let state = build_encoded_state(object_id, &CollabType::Document, &[1, 2, 3, 4]);
    DocumentRecord {
        object_id,
        workspace_id,
        collab_type: CollabType::Document,
        encoded_state: state,
        embeddings: None,
    }
}

#[test]
fn record_round_trips_through_wire_bytes() {
    let rec = sample_record(0x1122334455667788_99AABBCCDDEEFF00, 7);
    let bytes = encode_record(&rec);
    let back = decode_record(&bytes, 7).expect("well-formed record bytes");
    assert_eq!(back.object_id, rec.object_id);
    assert_eq!(back.workspace_id, 7);
    assert_eq!(back.collab_type, CollabType::Document);
    assert_eq!(back.encoded_state, rec.encoded_state);
    assert_eq!(back.embeddings, None);
}

#[test]
fn record_wire_layout_is_exact() {
    let rec = DocumentRecord {
        object_id: 0x0201,
        workspace_id: 9,
        collab_type: CollabType::Database,
        encoded_state: build_encoded_state(0x0201, &CollabType::Database, &[0xFE]),
        embeddings: None,
    };
    let bytes = encode_record(&rec);
    // 16 little-endian object-id bytes.
    assert_eq!(&bytes[..16], &[1, 2, 0, 0, 0, 0, 0, 0, 0, 0, 0, 0, 0, 0, 0, 0]);
    // One collab-type tag.
    assert_eq!(bytes[16], 1);
    // Little-endian 32-bit state length: tag byte + 16 id bytes + 1 content.
    assert_eq!(&bytes[17..21], &[18, 0, 0, 0]);
    assert_eq!(bytes.len(), 21 + 18);
}

#[test]
fn record_decode_rejects_malformed_bytes() {
    let rec = sample_record(42, 9);
    let good = encode_record(&rec);
    assert!(decode_record(&good[..10], 9).is_none(), "short header");
    let mut bad_tag = good.clone();
    bad_tag[16] = 200;
    assert!(decode_record(&bad_tag, 9).is_none(), "unknown type tag");
    let mut bad_len = good.clone();
    bad_len[17] = bad_len[17].wrapping_add(1);
    assert!(decode_record(&bad_len, 9).is_none(), "length mismatch");
    let mut truncated = good.clone();
    truncated.pop();
    assert!(decode_record(&truncated, 9).is_none(), "truncated state");
}

#[test]
fn encoded_state_checks_tag_and_object_echo() {
    let state = build_encoded_state(77, &CollabType::Folder, &[5, 5]);
    assert!(check_encoded_state(77, &CollabType::Folder, &state));
    assert!(!check_encoded_state(78, &CollabType::Folder, &state), "wrong object id");
    assert!(!check_encoded_state(77, &CollabType::Document, &state), "wrong declared type");
    assert!(!check_encoded_state(77, &CollabType::Folder, &state[..17]), "no content byte");
}

#[test]
fn collab_type_tags_round_trip() {
    let all = [
        CollabType::Document,
        CollabType::Database,
        CollabType::Workspace,
        CollabType::Folder,
        CollabType::DatabaseRow,
        CollabType::UserAwareness,
        CollabType::Unknown,
    ];
    for t in all {
        assert_eq!(collab_type_from_tag(collab_type_tag(&t)), Some(t));
    }
    assert_eq!(collab_type_from_tag(7), None);
}

#[test]
fn object_rule_allows_only_folder_to_reuse_workspace_id() {
    let mut rec = sample_record(5, 5);
    assert!(!check_object_rule(&rec));
    rec.collab_type = CollabType::Folder;
    assert!(check_object_rule(&rec));
    rec.collab_type = CollabType::Document;
    rec.object_id = 6;
    assert!(check_object_rule(&rec));
}
