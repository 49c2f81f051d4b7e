//! The streamed meta/data-pair framing: sentinel termination, size caps
//! checked before buffering, and JSON metadata validation.

use collab_ingest::error::{ErrorKind, PublishError};
use collab_ingest::publish::{decode_publish_stream, DATA_FRAME_MAX, META_FRAME_MAX};

fn le32(n: u32) -> [u8; 4] {
    n.to_le_bytes()
}

fn pair(meta: &[u8], data: &[u8]) -> Vec<u8> {
    let mut out = Vec::new();
    out.extend_from_slice(&le32(meta.len() as u32));
    out.extend_from_slice(meta);
    out.extend_from_slice(&le32(data.len() as u32));
    out.extend_from_slice(data);
    out
}

const SENTINEL: [u8; 4] = [0, 0, 0, 0];

#[test]
fn publish_stream_decodes_items_until_sentinel() {
    let mut stream = pair(b"{\"title\":\"a\"}", &[1, 2, 3]);
    stream.extend_from_slice(&pair(b"{}", &[]));
    stream.extend_from_slice(&SENTINEL);
    let items = decode_publish_stream(&stream).expect("well-formed stream");
    assert_eq!(items.len(), 2);
    assert_eq!(items[0].meta, b"{\"title\":\"a\"}");
    assert_eq!(items[0].data, vec![1, 2, 3]);
    assert_eq!(items[1].meta, b"{}");
    assert_eq!(items[1].data, Vec::<u8>::new());
}

#[test]
fn bytes_after_the_sentinel_are_ignored() {
    let mut stream = pair(b"{\"k\":2}", &[9]);
    stream.extend_from_slice(&SENTINEL);
    stream.extend_from_slice(&[0xDE, 0xAD]);
    let items = decode_publish_stream(&stream).expect("sentinel ends the stream");
    assert_eq!(items.len(), 1);
}

#[test]
fn empty_stream_has_nothing_to_publish() {
    let r = decode_publish_stream(&SENTINEL);
    assert_eq!(r.unwrap_err(), PublishError::NothingToPublish);
}

#[test]
fn oversized_metadata_declaration_is_rejected() {
    let stream = le32(META_FRAME_MAX + 1);
    let r = decode_publish_stream(&stream);
    assert_eq!(r.unwrap_err(), PublishError::MetadataTooLarge);
}

#[test]
fn oversized_data_declaration_is_rejected_before_buffering() {
    // One valid metadata frame, then a data frame declaring 33 MiB with not
    // one byte of it present: the declaration alone rejects the stream.
    let mut stream = Vec::new();
    stream.extend_from_slice(&le32(2));
    stream.extend_from_slice(b"{}");
    stream.extend_from_slice(&le32(33 * 1024 * 1024));
    assert!(33 * 1024 * 1024 > DATA_FRAME_MAX);
    let r = decode_publish_stream(&stream);
    assert_eq!(r.unwrap_err(), PublishError::DataTooLarge);
    assert_eq!(PublishError::DataTooLarge.kind(), ErrorKind::MalformedInput);
}

#[test]
fn metadata_must_be_json() {
    let mut stream = pair(b"not json", &[1]);
    stream.extend_from_slice(&SENTINEL);
    let r = decode_publish_stream(&stream);
    assert_eq!(r.unwrap_err(), PublishError::MetadataNotJson);
}

#[test]
fn truncated_stream_is_rejected() {
    // Declares 5 metadata bytes, supplies 2, and no sentinel ever arrives.
    let mut stream = Vec::new();
    stream.extend_from_slice(&le32(5));
    stream.extend_from_slice(b"{}");
    let r = decode_publish_stream(&stream);
    assert_eq!(r.unwrap_err(), PublishError::Truncated);
    // Cut off in the middle of a length word.
    let r2 = decode_publish_stream(&[0, 0]);
    assert_eq!(r2.unwrap_err(), PublishError::Truncated);
}

#[test]
fn metadata_exactly_at_the_cap_is_accepted() {
    // A JSON string occupying exactly the 4 MiB metadata cap.
    let mut meta = vec![b'a'; META_FRAME_MAX as usize];
    meta[0] = b'"';
    let last = meta.len() - 1;
    meta[last] = b'"';
    let mut stream = pair(&meta, &[1]);
    stream.extend_from_slice(&SENTINEL);
    let items = decode_publish_stream(&stream).expect("cap is inclusive");
    assert_eq!(items[0].meta.len(), META_FRAME_MAX as usize);
}

#[test]
fn oversize_rejection_is_unchanged_by_later_bytes() {
    // The declaration alone decides: however many bytes follow the oversized
    // data length, the stream stays rejected the same way.
    let mut stream = Vec::new();
    stream.extend_from_slice(&le32(2));
    stream.extend_from_slice(b"{}");
    stream.extend_from_slice(&le32(DATA_FRAME_MAX + 1));
    let r1 = decode_publish_stream(&stream);
    stream.extend_from_slice(&[7; 4096]);
    let r2 = decode_publish_stream(&stream);
    assert_eq!(r1.unwrap_err(), PublishError::DataTooLarge);
    assert_eq!(r2.unwrap_err(), PublishError::DataTooLarge);
}

#[test]
fn strict_pairing_requires_data_after_metadata() {
    // Metadata arrives, then the stream ends where the data length belongs.
    let mut stream = Vec::new();
    stream.extend_from_slice(&le32(2));
    stream.extend_from_slice(b"{}");
    stream.extend_from_slice(&[0, 0]);
    let r = decode_publish_stream(&stream);
    assert_eq!(r.unwrap_err(), PublishError::Truncated);
}
