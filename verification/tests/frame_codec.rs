//! Batch-list framing: round trips, chunked receipt, and partial-frame
//! holdback.

use collab_ingest::frame::{decode_frames, encode_frames, FrameScanner};

fn payloads_of(data: &[u8]) -> Vec<Vec<u8>> {
    decode_frames(data)
}

#[test]
fn frame_round_trip_recovers_payloads() {
    let payloads: Vec<Vec<u8>> = vec![vec![1, 2, 3], vec![], vec![9; 300], vec![0, 255, 0]];
    let encoded = encode_frames(&payloads);
    let decoded = payloads_of(&encoded);
    assert_eq!(decoded, payloads);
}

#[test]
fn frame_encoding_uses_big_endian_length() {
    let payloads: Vec<Vec<u8>> = vec![vec![0xAB]];
    let encoded = encode_frames(&payloads);
    assert_eq!(encoded, vec![0, 0, 0, 1, 0xAB]);
    let payloads2: Vec<Vec<u8>> = vec![vec![7; 260]];
    let encoded2 = encode_frames(&payloads2);
    assert_eq!(&encoded2[..4], &[0, 0, 1, 4]);
}

#[test]
fn chunk_boundaries_never_affect_recovered_frames() {
    let payloads: Vec<Vec<u8>> = vec![vec![1], vec![2, 3], vec![4; 70]];
    let encoded = encode_frames(&payloads);
    // One-shot decoding.
    let whole = payloads_of(&encoded);
    // Byte-at-a-time feeding.
    let mut scanner = FrameScanner::new();
    for b in &encoded {
        scanner.feed(std::slice::from_ref(b));
    }
    let trickled = scanner.payloads();
    // Three-way split.
    let mut scanner2 = FrameScanner::new();
    scanner2.feed(&encoded[..5]);
    scanner2.feed(&encoded[5..6]);
    scanner2.feed(&encoded[6..]);
    let split = scanner2.payloads();
    assert_eq!(whole, payloads);
    assert_eq!(trickled, payloads);
    assert_eq!(split, payloads);
}

#[test]
fn partial_frame_is_held_back_until_complete() {
    let payloads: Vec<Vec<u8>> = vec![vec![10, 11], vec![12, 13, 14]];
    let encoded = encode_frames(&payloads);
    let mut scanner = FrameScanner::new();
    for (i, b) in encoded.iter().enumerate() {
        scanner.feed(std::slice::from_ref(b));
        let fed = i + 1;
        // A frame may be counted only once every one of its bytes arrived:
        // the first frame takes 4 + 2 bytes, the second 4 + 3 more.
        let expected = if fed < 6 {
            0
        } else if fed < 13 {
            1
        } else {
            2
        };
        assert_eq!(scanner.frame_count(), expected, "after {} bytes", fed);
        // And whatever is emitted so far is an exact prefix of the final set.
        let so_far = scanner.payloads();
        assert_eq!(so_far[..], payloads[..so_far.len()]);
    }
    assert_eq!(scanner.payloads(), payloads);
}

#[test]
fn incomplete_header_yields_no_frame() {
    let mut scanner = FrameScanner::new();
    scanner.feed(&[0, 0, 0]);
    assert_eq!(scanner.frame_count(), 0);
    scanner.feed(&[2, 0xAA]);
    // Length 2 declared, one payload byte present: still held back.
    assert_eq!(scanner.frame_count(), 0);
    scanner.feed(&[0xBB]);
    assert_eq!(scanner.frame_count(), 1);
    assert_eq!(scanner.payloads(), vec![vec![0xAA, 0xBB]]);
}

#[test]
fn into_parts_exposes_buffer_and_spans() {
    let payloads: Vec<Vec<u8>> = vec![vec![5, 6, 7]];
    let encoded = encode_frames(&payloads);
    let mut scanner = FrameScanner::new();
    scanner.feed(&encoded);
    let (buf, spans) = scanner.into_parts();
    assert_eq!(buf, encoded);
    assert_eq!(spans, vec![(4usize, 3usize)]);
}
