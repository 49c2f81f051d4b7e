//! Batch-list framing: repeated `[4-byte big-endian length][payload]` frames
//! extracted eagerly from a receive buffer that grows across arbitrarily
//! chunked receipt events. An incomplete trailing frame is held back until
//! its bytes have all arrived.

use vstd::prelude::*;
use vstd::slice::slice_subrange;
use crate::bytes::{be32_bytes, be32_val, lemma_be32_round_trip, push_all, read_be32, write_be32};

verus! {

/// Payload spans `(offset, length)` of all complete frames in `buf`,
/// scanning from `pos`. A frame is complete only when its whole payload is
/// buffered; scanning stops at the first incomplete frame.
pub open spec fn spec_frame_spans(buf: Seq<u8>, pos: int) -> Seq<(int, int)>
    decreases buf.len() - pos,
{
    if pos < 0 || pos + 4 > buf.len() {
        Seq::empty()
    } else {
        let size = be32_val(buf[pos], buf[pos + 1], buf[pos + 2], buf[pos + 3]);
        if pos + 4 + size > buf.len() {
            Seq::empty()
        } else {
            seq![(pos + 4, size)] + spec_frame_spans(buf, pos + 4 + size)
        }
    }
}

/// Position just past the last complete frame, scanning from `pos`: the
/// start of the held-back partial frame, if any.
pub open spec fn spec_scan_end(buf: Seq<u8>, pos: int) -> int
    decreases buf.len() - pos,
{
    if pos < 0 || pos + 4 > buf.len() {
        pos
    } else {
        let size = be32_val(buf[pos], buf[pos + 1], buf[pos + 2], buf[pos + 3]);
        if pos + 4 + size > buf.len() {
            pos
        } else {
            spec_scan_end(buf, pos + 4 + size)
        }
    }
}

/// The payload bytes a span denotes.
pub open spec fn spec_span_payload(buf: Seq<u8>, span: (int, int)) -> Seq<u8> {
    buf.subrange(span.0, span.0 + span.1)
}

/// The payloads of all complete frames of a buffer, in wire order.
pub open spec fn spec_frame_payloads(buf: Seq<u8>) -> Seq<Seq<u8>> {
    spec_frame_spans(buf, 0).map_values(|s: (int, int)| spec_span_payload(buf, s))
}

/// The scan never moves backwards and never past the buffer.
pub proof fn lemma_scan_end_bounds(buf: Seq<u8>, pos: int)
    requires
        0 <= pos <= buf.len(),
    ensures
        pos <= spec_scan_end(buf, pos) <= buf.len(),
    decreases buf.len() - pos,
{
    if pos + 4 <= buf.len() {
        let size = be32_val(buf[pos], buf[pos + 1], buf[pos + 2], buf[pos + 3]);
        if pos + 4 + size <= buf.len() {
            lemma_scan_end_bounds(buf, pos + 4 + size);
        }
    }
}

/// Every span of a scan lies at or after the scan start and wholly within
/// the buffer: a complete frame is only ever emitted once all its bytes have
/// arrived.
pub proof fn lemma_spans_in_bounds(buf: Seq<u8>, pos: int)
    requires
        0 <= pos,
    ensures
        forall|i: int|
            0 <= i < spec_frame_spans(buf, pos).len() ==> {
                let s = #[trigger] spec_frame_spans(buf, pos)[i];
                &&& pos + 4 <= s.0
                &&& 0 <= s.1
                &&& s.0 + s.1 <= buf.len()
            },
    decreases buf.len() - pos,
{
    if 0 <= pos && pos + 4 <= buf.len() {
        let size = be32_val(buf[pos], buf[pos + 1], buf[pos + 2], buf[pos + 3]);
        if pos + 4 + size <= buf.len() {
            lemma_spans_in_bounds(buf, pos + 4 + size);
            let all = spec_frame_spans(buf, pos);
            let tail = spec_frame_spans(buf, pos + 4 + size);
            assert(all == seq![(pos + 4, size)] + tail);
            assert forall|i: int| 0 <= i < all.len() implies {
                let s = #[trigger] all[i];
                &&& pos + 4 <= s.0
                &&& 0 <= s.1
                &&& s.0 + s.1 <= buf.len()
            } by {
                if i == 0 {
                    assert(all[i] == (pos + 4, size));
                } else {
                    assert(all[i] == tail[i - 1]);
                }
            }
        }
    }
}

/// Growing the buffer never disturbs already-extracted frames: the spans of
/// the grown buffer are the spans already found, followed by whatever the
/// scan finds from the old scan end; and the new scan end is reached by
/// continuing from the old one.
pub proof fn lemma_spans_extend(buf: Seq<u8>, ext: Seq<u8>, pos: int)
    requires
        0 <= pos,
    ensures
        spec_frame_spans(buf + ext, pos) == spec_frame_spans(buf, pos) + spec_frame_spans(
            buf + ext,
            spec_scan_end(buf, pos),
        ),
        spec_scan_end(buf + ext, pos) == spec_scan_end(buf + ext, spec_scan_end(buf, pos)),
    decreases buf.len() - pos,
{
    let big = buf + ext;
    if pos + 4 > buf.len() {
        assert(spec_frame_spans(buf, pos) =~= Seq::<(int, int)>::empty());
        assert(spec_scan_end(buf, pos) == pos);
        assert(spec_frame_spans(big, pos) =~= Seq::<(int, int)>::empty() + spec_frame_spans(
            big,
            pos,
        ));
    } else {
        let size = be32_val(buf[pos], buf[pos + 1], buf[pos + 2], buf[pos + 3]);
        assert(big[pos] == buf[pos] && big[pos + 1] == buf[pos + 1] && big[pos + 2] == buf[pos + 2]
            && big[pos + 3] == buf[pos + 3]);
        if pos + 4 + size > buf.len() {
            assert(spec_frame_spans(buf, pos) =~= Seq::<(int, int)>::empty());
            assert(spec_scan_end(buf, pos) == pos);
            assert(spec_frame_spans(big, pos) =~= Seq::<(int, int)>::empty() + spec_frame_spans(
                big,
                pos,
            ));
        } else {
            lemma_spans_extend(buf, ext, pos + 4 + size);
            assert(pos + 4 + size <= big.len());
            assert(spec_frame_spans(big, pos) == seq![(pos + 4, size)] + spec_frame_spans(
                big,
                pos + 4 + size,
            ));
            assert(seq![(pos + 4, size)] + (spec_frame_spans(buf, pos + 4 + size)
                + spec_frame_spans(big, spec_scan_end(buf, pos + 4 + size))) =~= (seq![
                (pos + 4, size),
            ] + spec_frame_spans(buf, pos + 4 + size)) + spec_frame_spans(
                big,
                spec_scan_end(buf, pos + 4 + size),
            ));
        }
    }
}

/// Chunk boundaries never affect the recovered frame set: the spans found in
/// a partially received stream are a prefix of the spans of the full stream.
pub proof fn lemma_frames_prefix_stable(buf: Seq<u8>, ext: Seq<u8>)
    ensures
        spec_frame_spans(buf, 0).is_prefix_of(spec_frame_spans(buf + ext, 0)),
{
    lemma_spans_extend(buf, ext, 0);
}

/// Incremental scanner for batch-list framing.
///
/// Bytes arrive in arbitrary chunks; the scanner grows one receive buffer —
/// owned exclusively by the submission being handled — and eagerly records
/// the payload span of every complete frame. A trailing partial frame stays
/// buffered until the next receipt.
pub struct FrameScanner {
    pub buf: Vec<u8>,
    pub cursor: usize,
    pub spans: Vec<(usize, usize)>,
}

/// Widens exec spans to their mathematical form.
pub open spec fn spec_widen_spans(spans: Seq<(usize, usize)>) -> Seq<(int, int)> {
    spans.map_values(|s: (usize, usize)| (s.0 as int, s.1 as int))
}

impl FrameScanner {
    /// The bytes received so far.
    pub open spec fn buffer(self) -> Seq<u8> {
        self.buf@
    }

    /// The payload spans extracted so far.
    pub open spec fn span_seq(self) -> Seq<(int, int)> {
        spec_widen_spans(self.spans@)
    }

    /// The scanner is exactly as far as the eager scan of its buffer gets:
    /// its spans are the spans of every complete frame received, and its
    /// cursor rests on the trailing partial frame.
    pub open spec fn wf(self) -> bool {
        &&& self.span_seq() == spec_frame_spans(self.buf@, 0)
        &&& self.cursor == spec_scan_end(self.buf@, 0)
    }

    /// A fresh scanner with nothing received.
    pub fn new() -> (r: FrameScanner)
        ensures
            r.wf(),
            r.buffer() =~= Seq::<u8>::empty(),
    {
        let r = FrameScanner { buf: Vec::new(), cursor: 0, spans: Vec::new() };
        proof {
            assert(r.span_seq() =~= spec_frame_spans(r.buf@, 0));
        }
        r
    }

    /// Receives one chunk: appends it to the buffer and extracts every frame
    /// that has become complete. Already-extracted spans are never revisited,
    /// so each frame's bytes are scanned once.
    pub fn feed(&mut self, chunk: &[u8])
        requires
            old(self).wf(),
        ensures
            final(self).wf(),
            final(self).buffer() == old(self).buffer() + chunk@,
    {
        let ghost old_buf = self.buf@;
        push_all(&mut self.buf, chunk);
        proof {
            lemma_scan_end_bounds(old_buf, 0);
            lemma_spans_extend(old_buf, chunk@, 0);
        }
        let n = self.buf.len();
        while n - self.cursor >= 4
            invariant
                n == self.buf@.len(),
                self.cursor <= n,
                self.buf@ == old(self).buffer() + chunk@,
                self.span_seq() + spec_frame_spans(self.buf@, self.cursor as int)
                    == spec_frame_spans(self.buf@, 0),
                spec_scan_end(self.buf@, self.cursor as int) == spec_scan_end(self.buf@, 0),
            ensures
                spec_frame_spans(self.buf@, self.cursor as int) =~= Seq::<(int, int)>::empty(),
            decreases n - self.cursor,
        {
            let c = self.cursor;
            let size = read_be32(self.buf[c], self.buf[c + 1], self.buf[c + 2], self.buf[c + 3])
                as usize;
            if n - (c + 4) < size {
                proof {
                    assert(spec_frame_spans(self.buf@, c as int) =~= Seq::<(int, int)>::empty());
                }
                break ;
            }
            let ghost pre_spans = self.spans@;
            self.spans.push((c + 4, size));
            self.cursor = c + 4 + size;
            proof {
                assert(spec_frame_spans(self.buf@, c as int) == seq![(c + 4 as int, size as int)]
                    + spec_frame_spans(self.buf@, self.cursor as int));
                assert(spec_widen_spans(pre_spans.push((((c + 4) as usize), size)))
                    =~= spec_widen_spans(pre_spans) + seq![(c + 4 as int, size as int)]);
                assert(self.span_seq() + spec_frame_spans(self.buf@, self.cursor as int)
                    =~= (spec_widen_spans(pre_spans) + seq![(c + 4 as int, size as int)]
                    + spec_frame_spans(self.buf@, self.cursor as int)));
            }
        }
        proof {
            assert(self.span_seq() =~= self.span_seq() + spec_frame_spans(
                self.buf@,
                self.cursor as int,
            ));
        }
    }

    /// How many complete frames have been extracted.
    pub fn frame_count(&self) -> (r: usize)
        ensures
            r == self.span_seq().len(),
    {
        self.spans.len()
    }

    /// Surrenders the receive buffer and the extracted spans, for the
    /// validation stage to work on.
    pub fn into_parts(self) -> (r: (Vec<u8>, Vec<(usize, usize)>))
        ensures
            r.0@ == self.buffer(),
            spec_widen_spans(r.1@) == self.span_seq(),
    {
        let FrameScanner { buf, cursor: _, spans } = self;
        (buf, spans)
    }

    /// Copies out the payload of each complete frame, in wire order.
    pub fn payloads(&self) -> (r: Vec<Vec<u8>>)
        requires
            self.wf(),
        ensures
            r@.map_values(|v: Vec<u8>| v@) == spec_frame_payloads(self.buffer()),
    {
        proof {
            lemma_spans_in_bounds(self.buf@, 0);
        }
        let mut out: Vec<Vec<u8>> = Vec::new();
        let mut i: usize = 0;
        while i < self.spans.len()
            invariant
                self.wf(),
                i <= self.spans@.len(),
                forall|k: int|
                    0 <= k < self.span_seq().len() ==> {
                        let s = #[trigger] self.span_seq()[k];
                        0 <= s.0 && 0 <= s.1 && s.0 + s.1 <= self.buf@.len()
                    },
                out@.map_values(|v: Vec<u8>| v@) =~= spec_frame_spans(self.buf@, 0).take(
                    i as int,
                ).map_values(|s: (int, int)| spec_span_payload(self.buf@, s)),
            decreases self.spans@.len() - i,
        {
            let (off, len) = self.spans[i];
            let total = self.buf.len();
            assert(self.span_seq()[i as int] == (off as int, len as int));
            assert(off + len <= total);
            let mut payload: Vec<u8> = Vec::new();
            push_all(&mut payload, slice_subrange(self.buf.as_slice(), off, off + len));
            out.push(payload);
            proof {
                let f = |s: (int, int)| spec_span_payload(self.buf@, s);
                assert(spec_frame_spans(self.buf@, 0).take(i as int + 1) =~= spec_frame_spans(
                    self.buf@,
                    0,
                ).take(i as int).push(self.span_seq()[i as int]));
                assert(spec_frame_spans(self.buf@, 0).take(i as int).push(
                    self.span_seq()[i as int],
                ).map_values(f) =~= spec_frame_spans(self.buf@, 0).take(i as int).map_values(f)
                    .push(f(self.span_seq()[i as int])));
            }
            i = i + 1;
        }
        proof {
            assert(spec_frame_spans(self.buf@, 0).take(self.span_seq().len() as int)
                =~= spec_frame_spans(self.buf@, 0));
        }
        out
    }
}

/// The wire bytes that carry a sequence of payloads as batch-list frames.
pub open spec fn spec_encode_frames(payloads: Seq<Seq<u8>>) -> Seq<u8>
    decreases payloads.len(),
{
    if payloads.len() == 0 {
        Seq::empty()
    } else {
        be32_bytes(payloads[0].len() as int) + payloads[0] + spec_encode_frames(
            payloads.drop_first(),
        )
    }
}

/// Encoding one more payload appends one more frame.
pub proof fn lemma_encode_frames_snoc(payloads: Seq<Seq<u8>>, p: Seq<u8>)
    ensures
        spec_encode_frames(payloads.push(p)) == spec_encode_frames(payloads) + be32_bytes(
            p.len() as int,
        ) + p,
    decreases payloads.len(),
{
    let w = payloads.push(p);
    assert(spec_encode_frames(w) == be32_bytes(w[0].len() as int) + w[0] + spec_encode_frames(
        w.drop_first(),
    ));
    if payloads.len() == 0 {
        assert(w.drop_first() =~= Seq::<Seq<u8>>::empty());
        assert(w[0] == p);
        assert(spec_encode_frames(Seq::<Seq<u8>>::empty()) == Seq::<u8>::empty());
        assert(spec_encode_frames(w) =~= spec_encode_frames(payloads) + be32_bytes(p.len() as int)
            + p);
    } else {
        assert(w.drop_first() =~= payloads.drop_first().push(p));
        lemma_encode_frames_snoc(payloads.drop_first(), p);
        assert(w[0] == payloads[0]);
        assert(spec_encode_frames(payloads) == be32_bytes(payloads[0].len() as int) + payloads[0]
            + spec_encode_frames(payloads.drop_first()));
        assert(spec_encode_frames(w) =~= spec_encode_frames(payloads) + be32_bytes(p.len() as int)
            + p);
    }
}

/// Encodes payloads as batch-list frames. Each payload must fit a 32-bit
/// length field.
pub fn encode_frames(payloads: &Vec<Vec<u8>>) -> (out: Vec<u8>)
    requires
        forall|i: int| 0 <= i < payloads@.len() ==> (#[trigger] payloads@[i])@.len() <= u32::MAX,
    ensures
        out@ == spec_encode_frames(payloads@.map_values(|v: Vec<u8>| v@)),
{
    let ghost views = payloads@.map_values(|v: Vec<u8>| v@);
    let mut out: Vec<u8> = Vec::new();
    let mut i: usize = 0;
    while i < payloads.len()
        invariant
            i <= payloads@.len(),
            views == payloads@.map_values(|v: Vec<u8>| v@),
            forall|k: int| 0 <= k < payloads@.len() ==> (#[trigger] payloads@[k])@.len()
                <= u32::MAX,
            out@ == spec_encode_frames(views.take(i as int)),
        decreases payloads@.len() - i,
    {
        let p = &payloads[i];
        let header = write_be32(p.len() as u32);
        push_all(&mut out, header.as_slice());
        push_all(&mut out, p.as_slice());
        proof {
            lemma_encode_frames_snoc(views.take(i as int), views[i as int]);
            assert(views.take(i as int).push(views[i as int]) =~= views.take(i as int + 1));
            assert(header@ =~= be32_bytes(p@.len() as int));
            assert(out@ =~= spec_encode_frames(views.take(i as int)) + be32_bytes(
                views[i as int].len() as int,
            ) + views[i as int]);
        }
        i = i + 1;
    }
    proof {
        assert(views.take(views.len() as int) =~= views);
    }
    out
}

/// Decoding what was encoded recovers every payload, byte for byte: the
/// frame spans of the encoded stream from `pos` denote exactly the encoded
/// payloads, whatever prefix of the stream precedes them.
pub proof fn lemma_round_trip_at(payloads: Seq<Seq<u8>>, buf: Seq<u8>, pos: int)
    requires
        forall|i: int| 0 <= i < payloads.len() ==> (#[trigger] payloads[i]).len() <= u32::MAX,
        0 <= pos <= buf.len(),
        buf.subrange(pos, buf.len() as int) == spec_encode_frames(payloads),
    ensures
        spec_frame_spans(buf, pos).map_values(|s: (int, int)| spec_span_payload(buf, s))
            == payloads,
    decreases payloads.len(),
{
    let f = |s: (int, int)| spec_span_payload(buf, s);
    if payloads.len() == 0 {
        assert(buf.subrange(pos, buf.len() as int).len() == buf.len() - pos);
        assert(spec_encode_frames(payloads).len() == 0);
        assert(pos == buf.len());
        assert(spec_frame_spans(buf, pos) =~= Seq::<(int, int)>::empty());
        assert(spec_frame_spans(buf, pos).map_values(f) =~= payloads);
    } else {
        let p0 = payloads[0];
        let rest = payloads.drop_first();
        let enc = spec_encode_frames(payloads);
        let hdr = be32_bytes(p0.len() as int);
        assert(enc == hdr + p0 + spec_encode_frames(rest));
        assert(buf.len() - pos == enc.len());
        assert(enc.len() == 4 + p0.len() + spec_encode_frames(rest).len());
        assert(buf[pos] == hdr[0] && buf[pos + 1] == hdr[1] && buf[pos + 2] == hdr[2] && buf[pos
            + 3] == hdr[3]) by {
            assert(enc[0] == hdr[0] && enc[1] == hdr[1] && enc[2] == hdr[2] && enc[3] == hdr[3]);
            assert(buf.subrange(pos, buf.len() as int)[0] == buf[pos]);
            assert(buf.subrange(pos, buf.len() as int)[1] == buf[pos + 1]);
            assert(buf.subrange(pos, buf.len() as int)[2] == buf[pos + 2]);
            assert(buf.subrange(pos, buf.len() as int)[3] == buf[pos + 3]);
        }
        lemma_be32_round_trip(p0.len() as int);
        let size = be32_val(buf[pos], buf[pos + 1], buf[pos + 2], buf[pos + 3]);
        assert(size == p0.len());
        assert(pos + 4 + size <= buf.len());
        assert(spec_frame_spans(buf, pos) == seq![(pos + 4, size)] + spec_frame_spans(
            buf,
            pos + 4 + size,
        ));
        assert forall|k: int| 0 <= k < size implies buf.subrange(pos + 4, pos + 4 + size)[k]
            == p0[k] by {
            assert(buf.subrange(pos, buf.len() as int)[4 + k] == buf[pos + 4 + k]);
            assert(enc[4 + k] == ((hdr + p0) + spec_encode_frames(rest))[4 + k]);
            assert(((hdr + p0) + spec_encode_frames(rest))[4 + k] == (hdr + p0)[4 + k]);
            assert((hdr + p0)[4 + k] == p0[k]);
        }
        assert(spec_span_payload(buf, (pos + 4, size)) =~= p0);
        let pos2 = pos + 4 + size;
        assert forall|k: int| 0 <= k < buf.len() - pos2 implies buf.subrange(
            pos2,
            buf.len() as int,
        )[k] == spec_encode_frames(rest)[k] by {
            assert(buf.subrange(pos2, buf.len() as int)[k] == buf[pos2 + k]);
            assert(buf.subrange(pos, buf.len() as int)[4 + size + k] == buf[pos2 + k]);
            assert(enc[4 + size + k] == ((hdr + p0) + spec_encode_frames(rest))[4 + size + k]);
            assert(((hdr + p0) + spec_encode_frames(rest))[4 + size + k] == spec_encode_frames(
                rest,
            )[k]);
        }
        assert(buf.subrange(pos2, buf.len() as int) =~= spec_encode_frames(rest));
        lemma_round_trip_at(rest, buf, pos2);
        assert((seq![(pos + 4, size)] + spec_frame_spans(buf, pos2)).map_values(f) =~= seq![
            f((pos + 4, size)),
        ] + spec_frame_spans(buf, pos2).map_values(f));
        assert(spec_frame_spans(buf, pos).map_values(f) =~= payloads);
    }
}

/// Frame round-trip: encoding payloads as batch-list frames and decoding the
/// stream yields the same payloads, byte for byte.
pub proof fn lemma_frame_round_trip(payloads: Seq<Seq<u8>>)
    requires
        forall|i: int| 0 <= i < payloads.len() ==> (#[trigger] payloads[i]).len() <= u32::MAX,
    ensures
        spec_frame_payloads(spec_encode_frames(payloads)) == payloads,
{
    let buf = spec_encode_frames(payloads);
    assert(buf.subrange(0, buf.len() as int) =~= buf);
    lemma_round_trip_at(payloads, buf, 0);
}

/// One-shot decoding of a fully received batch-list stream.
pub fn decode_frames(data: &[u8]) -> (r: Vec<Vec<u8>>)
    ensures
        r@.map_values(|v: Vec<u8>| v@) == spec_frame_payloads(data@),
{
    let mut scanner = FrameScanner::new();
    scanner.feed(data);
    proof {
        assert(Seq::<u8>::empty() + data@ =~= data@);
    }
    scanner.payloads()
}

} // verus!
