//! The realtime relay: envelope decoding, optional payload decompression,
//! inner message decoding, and the fail-fast bounded sink.

use collab_ingest::compress::ContentEncoding;
use collab_ingest::error::{ErrorKind, RelayError};
use collab_ingest::relay::{decode_envelope, decode_message, encode_message, relay_message,
    MessageKind, MessageSink};

/// Builds the protobuf-style outer envelope: field 1 is the device id,
/// field 2 the payload, both length-delimited.
fn envelope(device_id: &[u8], payload: &[u8]) -> Vec<u8> {
    let mut out = Vec::new();
    out.push(0x0A);
    out.push(device_id.len() as u8);
    out.extend_from_slice(device_id);
    out.push(0x12);
    out.push(payload.len() as u8);
    out.extend_from_slice(payload);
    out
}

fn brotli_compress(data: &[u8]) -> Vec<u8> {
    let mut out = Vec::new();
    {
        let mut w = brotli::CompressorWriter::new(&mut out, 4096, 5, 22);
        std::io::Write::write_all(&mut w, data).expect("in-memory write");
    }
    out
}

#[test]
fn envelope_decodes_device_id_and_payload() {
    let raw = envelope(b"device-1", &[1, 2, 3]);
    let env = decode_envelope(&raw).expect("well-formed envelope");
    assert_eq!(env.device_id, b"device-1");
    assert_eq!(env.payload, vec![1, 2, 3]);
}

#[test]
fn envelope_skips_unknown_fields() {
    // Field 3 as a varint (tag 0x18), field 4 as 32-bit (tag 0x25), then the
    // payload field: a decoder must skip what it does not know.
    let mut raw = vec![0x18, 0xAC, 0x02, 0x25, 1, 2, 3, 4];
    raw.push(0x12);
    raw.push(2);
    raw.extend_from_slice(&[9, 9]);
    let env = decode_envelope(&raw).expect("unknown fields are skipped");
    assert_eq!(env.device_id, Vec::<u8>::new());
    assert_eq!(env.payload, vec![9, 9]);
}

#[test]
fn malformed_envelopes_are_refused() {
    assert!(decode_envelope(&[0x0A]).is_none(), "length byte missing");
    assert!(decode_envelope(&[0x0A, 5, 1, 2]).is_none(), "declared bytes missing");
    assert!(decode_envelope(&[0x80]).is_none(), "unterminated varint tag");
    assert!(decode_envelope(&[0x0B, 0]).is_none(), "group wire type");
}

#[test]
fn inner_message_round_trips() {
    let bytes = encode_message(&MessageKind::Collab, &[5, 6, 7]);
    assert_eq!(bytes, vec![0, 5, 6, 7]);
    let m = decode_message(&bytes).expect("well-formed message");
    assert_eq!(m.kind, MessageKind::Collab);
    assert_eq!(m.body, vec![5, 6, 7]);
    assert!(decode_message(&[]).is_none(), "empty payload");
    assert!(decode_message(&[9, 1]).is_none(), "unknown kind tag");
}

#[test]
fn relay_routes_a_plain_message() {
    let payload = encode_message(&MessageKind::User, &[1, 1, 2]);
    let raw = envelope(b"dev", &payload);
    let mut sink = MessageSink::with_capacity(2);
    relay_message(&mut sink, 42, String::from("header-device"), &raw, &ContentEncoding::Identity)
        .expect("routed");
    assert_eq!(sink.queued(), 1);
    let m = sink.take_next().expect("one queued message");
    assert_eq!(m.uid, 42);
    assert_eq!(m.device_id, "header-device");
    assert_eq!(m.message.kind, MessageKind::User);
    assert_eq!(m.message.body, vec![1, 1, 2]);
    assert_eq!(sink.queued(), 0);
}

#[test]
fn relay_decompresses_an_indicated_payload() {
    let inner = encode_message(&MessageKind::System, &[8; 100]);
    let raw = envelope(b"dev", &brotli_compress(&inner));
    let mut sink = MessageSink::with_capacity(1);
    let enc = ContentEncoding::Brotli { buffer_size: 4096 };
    relay_message(&mut sink, 7, String::from("d"), &raw, &enc).expect("routed");
    let m = sink.take_next().expect("queued");
    assert_eq!(m.message.kind, MessageKind::System);
    assert_eq!(m.message.body, vec![8; 100]);
}

#[test]
fn full_sink_fails_fast_with_overload() {
    let payload = encode_message(&MessageKind::Collab, &[1]);
    let raw = envelope(b"dev", &payload);
    let mut sink = MessageSink::with_capacity(1);
    relay_message(&mut sink, 1, String::from("a"), &raw, &ContentEncoding::Identity)
        .expect("first message admitted");
    // The sink now reports full: the send fails immediately, nothing is
    // queued past the bound, and the queue is untouched.
    let r = relay_message(&mut sink, 2, String::from("b"), &raw, &ContentEncoding::Identity);
    assert_eq!(r.unwrap_err(), RelayError::SinkFull);
    assert_eq!(RelayError::SinkFull.kind(), ErrorKind::Overload);
    assert!(!ErrorKind::Overload.is_client_error());
    assert_eq!(sink.queued(), 1);
    let only = sink.take_next().expect("the admitted message survived");
    assert_eq!(only.uid, 1);
}

#[test]
fn undecodable_submission_is_never_routed() {
    let mut sink = MessageSink::with_capacity(4);
    // Bad envelope.
    let r1 = relay_message(&mut sink, 1, String::from("d"), &[0x80], &ContentEncoding::Identity);
    assert_eq!(r1.unwrap_err(), RelayError::MalformedEnvelope);
    // Envelope fine, payload not a brotli stream.
    let raw = envelope(b"dev", &[0xFF, 0xFE, 0xFD, 0xFC, 0xFB]);
    let enc = ContentEncoding::Brotli { buffer_size: 4096 };
    let r2 = relay_message(&mut sink, 1, String::from("d"), &raw, &enc);
    assert_eq!(r2.unwrap_err(), RelayError::UndecodablePayload);
    // Envelope fine, inner message empty.
    let raw2 = envelope(b"dev", &[]);
    let r3 = relay_message(&mut sink, 1, String::from("d"), &raw2, &ContentEncoding::Identity);
    assert_eq!(r3.unwrap_err(), RelayError::MalformedMessage);
    assert_eq!(RelayError::MalformedMessage.kind(), ErrorKind::MalformedInput);
    assert_eq!(sink.queued(), 0);
}

#[test]
fn overwide_varints_are_malformed() {
    // A tag varint of ten continuation bytes never terminates in range.
    let unterminated = vec![0xFF; 10];
    assert!(decode_envelope(&unterminated).is_none());
    // An eleven-byte varint exceeds the wire format's width even when its
    // last byte terminates.
    let mut too_wide = vec![0xFF; 10];
    too_wide.push(0x01);
    assert!(decode_envelope(&too_wide).is_none());
}

#[test]
fn varint_lengths_over_one_byte_decode() {
    // A 300-byte payload forces a two-byte varint length (0xAC 0x02).
    let body: Vec<u8> = (0..299u32).map(|i| (i % 7) as u8).collect();
    let payload = encode_message(&MessageKind::Collab, &body);
    assert_eq!(payload.len(), 300);
    let mut raw = vec![0x12, 0xAC, 0x02];
    raw.extend_from_slice(&payload);
    let env = decode_envelope(&raw).expect("two-byte varint length");
    assert_eq!(env.payload.len(), 300);
    assert_eq!(env.payload, payload);
}
