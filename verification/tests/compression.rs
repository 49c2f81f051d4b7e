//! Codec negotiation and brotli decompression through the negotiator.

use collab_ingest::compress::{decompress_payload, negotiate_encoding, ContentEncoding};
use collab_ingest::error::{CodecError, ErrorKind};

fn brotli_compress(data: &[u8]) -> Vec<u8> {
    let mut out = Vec::new();
    {
        let mut w = brotli::CompressorWriter::new(&mut out, 4096, 5, 22);
        std::io::Write::write_all(&mut w, data).expect("in-memory write");
    }
    out
}

#[test]
fn absent_indicator_negotiates_identity() {
    assert_eq!(negotiate_encoding(None, 0), Ok(ContentEncoding::Identity));
}

#[test]
fn brotli_indicator_negotiates_brotli_with_size_hint() {
    assert_eq!(
        negotiate_encoding(Some(b"brotli"), 4096),
        Ok(ContentEncoding::Brotli { buffer_size: 4096 })
    );
}

#[test]
fn unknown_indicator_is_refused() {
    let r = negotiate_encoding(Some(b"gzip"), 4096);
    assert_eq!(r, Err(CodecError::UnknownEncoding));
    assert_eq!(CodecError::UnknownEncoding.kind(), ErrorKind::MalformedInput);
    assert!(ErrorKind::MalformedInput.is_client_error());
}

#[test]
fn identity_path_returns_payload_unchanged() {
    let payload = vec![1, 2, 3, 250];
    let out = decompress_payload(&ContentEncoding::Identity, &payload).expect("identity");
    assert_eq!(out, payload);
}

#[test]
fn brotli_payload_round_trips_through_negotiator() {
    let original: Vec<u8> = (0..2000u32).map(|i| (i % 251) as u8).collect();
    let compressed = brotli_compress(&original);
    assert_ne!(compressed, original);
    let enc = ContentEncoding::Brotli { buffer_size: 1 << 20 };
    let out = decompress_payload(&enc, &compressed).expect("valid brotli stream");
    assert_eq!(out, original);
}

#[test]
fn corrupt_brotli_stream_is_refused() {
    let enc = ContentEncoding::Brotli { buffer_size: 1 << 20 };
    let r = decompress_payload(&enc, &[0xFF, 0x00, 0xAB, 0xCD, 0xEF, 1, 2, 3]);
    assert_eq!(r, Err(CodecError::CorruptStream));
}

#[test]
fn expansion_beyond_the_bound_is_refused() {
    let original = vec![7u8; 5000];
    let compressed = brotli_compress(&original);
    let enc = ContentEncoding::Brotli { buffer_size: 100 };
    let r = decompress_payload(&enc, &compressed);
    assert_eq!(r, Err(CodecError::ExpandedTooLarge));
    assert_eq!(CodecError::ExpandedTooLarge.kind(), ErrorKind::MalformedInput);
}
