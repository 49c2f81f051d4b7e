//! The realtime relay: decodes one live-edit submission — a protobuf-style
//! outer envelope carrying a device id and a payload, the payload optionally
//! compressed, the decompressed bytes an inner live-edit message — and
//! forwards the message to an addressable bounded sink with a non-blocking,
//! fail-fast send. A full sink is an immediate overload failure, never a
//! wait: the caller retries.

use vstd::prelude::*;
use vstd::slice::slice_subrange;
use crate::bytes::push_all;
use crate::compress::{decompress_payload, spec_decompress, ContentEncoding};
use crate::error::RelayError;

verus! {

/// The value and end position of the base-128 varint at `pos`, if one
/// terminates within `fuel` bytes. Protobuf varints carry seven payload bits
/// per byte, least significant group first; the high bit marks continuation.
pub open spec fn spec_varint(buf: Seq<u8>, pos: int, fuel: nat) -> Option<(nat, int)>
    decreases fuel,
{
    if fuel == 0 || pos < 0 || pos >= buf.len() {
        None
    } else {
        let b = buf[pos];
        if b < 128 {
            Some((b as nat, pos + 1))
        } else {
            match spec_varint(buf, pos + 1, (fuel - 1) as nat) {
                None => None,
                Some((v, n)) => Some((((b - 128) as nat) + 128 * v, n)),
            }
        }
    }
}

/// A parsed varint ends after the position it starts at and within the
/// buffer.
pub proof fn lemma_varint_advances(buf: Seq<u8>, pos: int, fuel: nat)
    ensures
        spec_varint(buf, pos, fuel) is Some ==> pos < spec_varint(buf, pos, fuel)->Some_0.1
            <= buf.len(),
    decreases fuel,
{
    if fuel > 0 && 0 <= pos < buf.len() && buf[pos] >= 128 {
        lemma_varint_advances(buf, pos + 1, (fuel - 1) as nat);
    }
}

/// Reads one varint whose value fits 64 bits. Limited to ten bytes, as the
/// wire format is; an unterminated or over-wide varint is a malformation.
fn parse_varint(buf: &[u8], pos: usize, fuel: usize) -> (r: Option<(u64, usize)>)
    ensures
        (match spec_varint(buf@, pos as int, fuel as nat) {
            None => r is None,
            Some((v, n)) => if v > u64::MAX {
                r is None
            } else {
                r == Some((v as u64, n as usize))
            },
        }),
    decreases fuel,
{
    if fuel == 0 || pos >= buf.len() {
        return None;
    }
    let b = buf[pos];
    if b < 128 {
        return Some((b as u64, pos + 1));
    }
    proof {
        lemma_varint_advances(buf@, pos as int + 1, (fuel - 1) as nat);
    }
    match parse_varint(buf, pos + 1, fuel - 1) {
        None => None,
        Some((v, n)) => {
            let low = (b - 128) as u64;
            if v <= (u64::MAX - low) / 128 {
                proof {
                    assert(128 * v <= 128 * ((u64::MAX - low) / 128));
                    assert(128 * ((u64::MAX - low) / 128) <= u64::MAX - low);
                }
                Some((low + 128 * v, n))
            } else {
                proof {
                    let ghost vs = spec_varint(buf@, pos as int + 1, (fuel - 1) as nat)->Some_0.0;
                    if vs <= u64::MAX {
                        assert(vs == v);
                        assert(128 * v >= 128 * ((u64::MAX - low) / 128) + 128);
                        assert(128 * ((u64::MAX - low) / 128) >= (u64::MAX - low) - 127);
                        assert(low + 128 * vs > u64::MAX);
                    } else {
                        assert(low + 128 * vs > u64::MAX);
                    }
                }
                None
            }
        },
    }
}

/// Skips one varint without bounding its value, as skipping an unknown
/// varint field does.
fn skip_varint(buf: &[u8], pos: usize, fuel: usize) -> (r: Option<usize>)
    ensures
        (match spec_varint(buf@, pos as int, fuel as nat) {
            None => r is None,
            Some((v, n)) => r == Some(n as usize),
        }),
    decreases fuel,
{
    if fuel == 0 || pos >= buf.len() {
        return None;
    }
    proof {
        lemma_varint_advances(buf@, pos as int + 1, (fuel - 1) as nat);
    }
    let b = buf[pos];
    if b < 128 {
        Some(pos + 1)
    } else {
        skip_varint(buf, pos + 1, fuel - 1)
    }
}

/// The decoded outer envelope of a realtime submission: the sender's device
/// id and the inner payload.
#[derive(Debug)]
pub struct RealtimeEnvelope {
    pub device_id: Vec<u8>,
    pub payload: Vec<u8>,
}

/// The mathematical model of an envelope.
pub struct EnvelopeModel {
    pub device_id: Seq<u8>,
    pub payload: Seq<u8>,
}

impl View for RealtimeEnvelope {
    type V = EnvelopeModel;

    open spec fn view(&self) -> EnvelopeModel {
        EnvelopeModel { device_id: self.device_id@, payload: self.payload@ }
    }
}

/// Parses envelope fields from `pos` with the accumulated field values:
/// field 1 is the device id, field 2 the payload, both length-delimited;
/// unknown fields of the varint, 64-bit, length-delimited, and 32-bit wire
/// types are skipped; on repetition the last value wins. Anything else — a
/// tag or length that does not fit, bytes past the end, an unknown wire
/// type — is a malformation.
pub open spec fn spec_envelope_fields(
    buf: Seq<u8>,
    pos: int,
    device_id: Seq<u8>,
    payload: Seq<u8>,
) -> Option<EnvelopeModel>
    decreases buf.len() - pos,
    when 0 <= pos
    via envelope_fields_decreases
{
    if pos == buf.len() {
        Some(EnvelopeModel { device_id, payload })
    } else {
        match spec_varint(buf, pos, 10) {
            None => None,
            Some((tag, p1)) => {
                if tag > 0xFFFFFFFFFFFFFFFF {
                    None
                } else {
                    let wire = tag % 8;
                    let field = tag / 8;
                    if wire == 0 {
                        match spec_varint(buf, p1, 10) {
                            None => None,
                            Some((_, p2)) => spec_envelope_fields(buf, p2, device_id, payload),
                        }
                    } else if wire == 1 {
                        if p1 + 8 <= buf.len() {
                            spec_envelope_fields(buf, p1 + 8, device_id, payload)
                        } else {
                            None
                        }
                    } else if wire == 5 {
                        if p1 + 4 <= buf.len() {
                            spec_envelope_fields(buf, p1 + 4, device_id, payload)
                        } else {
                            None
                        }
                    } else if wire == 2 {
                        match spec_varint(buf, p1, 10) {
                            None => None,
                            Some((l, p2)) => {
                                if p2 + l > buf.len() {
                                    None
                                } else {
                                    let bytes = buf.subrange(p2, p2 + l);
                                    if field == 1 {
                                        spec_envelope_fields(buf, p2 + l, bytes, payload)
                                    } else if field == 2 {
                                        spec_envelope_fields(buf, p2 + l, device_id, bytes)
                                    } else {
                                        spec_envelope_fields(buf, p2 + l, device_id, payload)
                                    }
                                }
                            },
                        }
                    } else {
                        None
                    }
                }
            },
        }
    }
}

#[via_fn]
proof fn envelope_fields_decreases(buf: Seq<u8>, pos: int, device_id: Seq<u8>, payload: Seq<u8>) {
    lemma_varint_advances(buf, pos, 10);
    if spec_varint(buf, pos, 10) is Some {
        let p1 = spec_varint(buf, pos, 10)->Some_0.1;
        lemma_varint_advances(buf, p1, 10);
    }
}

/// The envelope a whole byte sequence decodes to, if well formed. Absent
/// fields decode to empty values, as the wire format prescribes.
pub open spec fn spec_envelope(buf: Seq<u8>) -> Option<EnvelopeModel> {
    spec_envelope_fields(buf, 0, Seq::empty(), Seq::empty())
}

/// Decodes the outer envelope of one realtime submission.
pub fn decode_envelope(buf: &[u8]) -> (r: Option<RealtimeEnvelope>)
    ensures
        r is Some <==> spec_envelope(buf@) is Some,
        r is Some ==> r->Some_0@ == spec_envelope(buf@)->Some_0,
{
    let n = buf.len();
    let mut pos: usize = 0;
    let mut device_id: Vec<u8> = Vec::new();
    let mut payload: Vec<u8> = Vec::new();
    loop
        invariant
            pos <= n,
            n == buf@.len(),
            spec_envelope_fields(buf@, pos as int, device_id@, payload@) == spec_envelope(buf@),
        decreases n - pos,
    {
        if pos == n {
            return Some(RealtimeEnvelope { device_id, payload });
        }
        let (tag, p1) = match parse_varint(buf, pos, 10) {
            None => {
                return None;
            },
            Some(t) => t,
        };
        proof {
            lemma_varint_advances(buf@, pos as int, 10);
        }
        let wire = tag % 8;
        if wire == 0 {
            let p2 = match skip_varint(buf, p1, 10) {
                None => {
                    return None;
                },
                Some(p) => p,
            };
            proof {
                lemma_varint_advances(buf@, p1 as int, 10);
            }
            pos = p2;
        } else if wire == 1 {
            if n - p1 < 8 {
                return None;
            }
            pos = p1 + 8;
        } else if wire == 5 {
            if n - p1 < 4 {
                return None;
            }
            pos = p1 + 4;
        } else if wire == 2 {
            let (l, p2) = match parse_varint(buf, p1, 10) {
                None => {
                    proof {
                        if spec_varint(buf@, p1 as int, 10) is Some {
                            lemma_varint_advances(buf@, p1 as int, 10);
                            let lv = spec_varint(buf@, p1 as int, 10)->Some_0.0;
                            let pv = spec_varint(buf@, p1 as int, 10)->Some_0.1;
                            assert(lv > u64::MAX);
                            assert(buf@.len() <= usize::MAX);
                            assert(usize::MAX <= u64::MAX);
                            assert(pv + lv > buf@.len());
                        }
                    }
                    return None;
                },
                Some(t) => t,
            };
            proof {
                lemma_varint_advances(buf@, p1 as int, 10);
            }
            if l > (n - p2) as u64 {
                return None;
            }
            let l_us = l as usize;
            let mut bytes: Vec<u8> = Vec::new();
            push_all(&mut bytes, slice_subrange(buf, p2, p2 + l_us));
            let field = tag / 8;
            if field == 1 {
                device_id = bytes;
            } else if field == 2 {
                payload = bytes;
            }
            pos = p2 + l_us;
        } else {
            return None;
        }
    }
}

/// Kind of an inner live-edit message.
#[derive(Clone, Copy, Debug, PartialEq, Eq, Structural)]
pub enum MessageKind {
    Collab,
    User,
    System,
}

/// The wire tag of each message kind.
pub open spec fn spec_message_kind_tag(k: MessageKind) -> u8 {
    match k {
        MessageKind::Collab => 0,
        MessageKind::User => 1,
        MessageKind::System => 2,
    }
}

/// The message kind a wire tag denotes, if any.
pub open spec fn spec_message_kind_from_tag(b: u8) -> Option<MessageKind> {
    if b == 0 {
        Some(MessageKind::Collab)
    } else if b == 1 {
        Some(MessageKind::User)
    } else if b == 2 {
        Some(MessageKind::System)
    } else {
        None
    }
}

/// One decoded live-edit message: its kind tag and its opaque body, which
/// the relay routes without interpreting further.
#[derive(Debug)]
pub struct LiveEditMessage {
    pub kind: MessageKind,
    pub body: Vec<u8>,
}

/// The mathematical model of a live-edit message.
pub struct LiveEditModel {
    pub kind: MessageKind,
    pub body: Seq<u8>,
}

impl View for LiveEditMessage {
    type V = LiveEditModel;

    open spec fn view(&self) -> LiveEditModel {
        LiveEditModel { kind: self.kind, body: self.body@ }
    }
}

/// The message a decompressed payload decodes to, if well formed: one kind
/// tag byte, then the body.
pub open spec fn spec_decode_message(b: Seq<u8>) -> Option<LiveEditModel> {
    if b.len() < 1 {
        None
    } else {
        match spec_message_kind_from_tag(b[0]) {
            None => None,
            Some(k) => Some(LiveEditModel { kind: k, body: b.subrange(1, b.len() as int) }),
        }
    }
}

/// Decodes the inner live-edit message.
pub fn decode_message(b: &[u8]) -> (r: Option<LiveEditMessage>)
    ensures
        r is Some <==> spec_decode_message(b@) is Some,
        r is Some ==> r->Some_0@ == spec_decode_message(b@)->Some_0,
{
    if b.len() < 1 {
        return None;
    }
    let kind = if b[0] == 0 {
        MessageKind::Collab
    } else if b[0] == 1 {
        MessageKind::User
    } else if b[0] == 2 {
        MessageKind::System
    } else {
        return None;
    };
    let mut body: Vec<u8> = Vec::new();
    push_all(&mut body, slice_subrange(b, 1, b.len()));
    Some(LiveEditMessage { kind, body })
}

/// Encodes a live-edit message as its wire bytes: the kind tag, then the
/// body.
pub fn encode_message(kind: &MessageKind, body: &[u8]) -> (r: Vec<u8>)
    ensures
        r@ == seq![spec_message_kind_tag(*kind)] + body@,
        spec_decode_message(r@) == Some(LiveEditModel { kind: *kind, body: body@ }),
{
    let mut out: Vec<u8> = Vec::new();
    let tag = match kind {
        MessageKind::Collab => 0u8,
        MessageKind::User => 1u8,
        MessageKind::System => 2u8,
    };
    out.push(tag);
    push_all(&mut out, body);
    proof {
        assert(out@ =~= seq![spec_message_kind_tag(*kind)] + body@);
        assert(out@.subrange(1, out@.len() as int) =~= body@);
    }
    out
}

/// One message addressed to a realtime sink, with its routing identity.
#[derive(Debug)]
pub struct StreamMessage {
    pub uid: i64,
    pub device_id: String,
    pub message: LiveEditMessage,
}

/// The mathematical model of a stream message.
pub struct StreamMessageModel {
    pub uid: i64,
    pub device_id: Seq<char>,
    pub message: LiveEditModel,
}

impl View for StreamMessage {
    type V = StreamMessageModel;

    open spec fn view(&self) -> StreamMessageModel {
        StreamMessageModel {
            uid: self.uid,
            device_id: self.device_id@,
            message: self.message@,
        }
    }
}

/// An addressable per-destination message sink with a bounded queue: the
/// backpressure boundary of the relay. The sink owns dispatch of whatever it
/// admits; the relay only ever observes admission or queue-full.
pub struct MessageSink {
    pub capacity: usize,
    pub queue: Vec<StreamMessage>,
}

impl MessageSink {
    /// The messages admitted and not yet dispatched, oldest first.
    pub open spec fn spec_queue(self) -> Seq<StreamMessageModel> {
        self.queue@.map_values(|m: StreamMessage| m@)
    }

    /// Whether the bounded queue is at capacity.
    pub open spec fn spec_is_full(self) -> bool {
        self.queue@.len() >= self.capacity
    }

    /// An empty sink with the given queue bound.
    pub fn with_capacity(capacity: usize) -> (r: MessageSink)
        ensures
            r.capacity == capacity,
            r.spec_queue() =~= Seq::<StreamMessageModel>::empty(),
    {
        MessageSink { capacity, queue: Vec::new() }
    }

    /// Non-blocking, fail-fast send: a full queue fails immediately with the
    /// overload failure and admits nothing — the relay never waits for queue
    /// space — and otherwise the message is appended behind those already
    /// admitted.
    pub fn try_send(&mut self, msg: StreamMessage) -> (r: Result<(), RelayError>)
        ensures
            old(self).spec_is_full() ==> r == Err::<(), RelayError>(RelayError::SinkFull)
                && final(self).queue@ == old(self).queue@
                && final(self).capacity == old(self).capacity,
            !old(self).spec_is_full() ==> r == Ok::<(), RelayError>(()) && final(self).queue@
                == old(self).queue@.push(msg) && final(self).capacity == old(self).capacity,
    {
        if self.queue.len() >= self.capacity {
            return Err(RelayError::SinkFull);
        }
        self.queue.push(msg);
        Ok(())
    }

    /// Hands the oldest admitted message to the sink's dispatcher.
    pub fn take_next(&mut self) -> (r: Option<StreamMessage>)
        ensures
            old(self).queue@.len() == 0 ==> r is None && final(self).queue@ == old(self).queue@
                && final(self).capacity == old(self).capacity,
            old(self).queue@.len() > 0 ==> r == Some(old(self).queue@[0]) && final(self).queue@
                == old(self).queue@.drop_first() && final(self).capacity == old(self).capacity,
    {
        if self.queue.len() == 0 {
            return None;
        }
        let m = self.queue.remove(0);
        proof {
            assert(self.queue@ =~= old(self).queue@.drop_first());
        }
        Some(m)
    }

    /// How many messages await dispatch.
    pub fn queued(&self) -> (r: usize)
        ensures
            r == self.queue@.len(),
    {
        self.queue.len()
    }
}

/// The live-edit message one raw submission carries: decode the envelope,
/// decompress its payload under the indicated encoding, then decode the
/// inner message. Each failure names the stage that rejected the bytes.
pub open spec fn spec_relay_decode(raw: Seq<u8>, enc: ContentEncoding) -> Result<
    LiveEditModel,
    RelayError,
> {
    match spec_envelope(raw) {
        None => Err(RelayError::MalformedEnvelope),
        Some(env) => match spec_decompress(enc, env.payload) {
            Err(_) => Err(RelayError::UndecodablePayload),
            Ok(plain) => match spec_decode_message(plain) {
                None => Err(RelayError::MalformedMessage),
                Some(m) => Ok(m),
            },
        },
    }
}

/// Relays one raw realtime submission: decodes it, then forwards it to the
/// addressed sink with the fail-fast send. A decode failure never routes the
/// message; a full sink rejects it immediately as overload, leaving the
/// queue exactly as it was, however long the sink stays saturated.
pub fn relay_message(
    sink: &mut MessageSink,
    uid: i64,
    device_id: String,
    raw: &[u8],
    enc: &ContentEncoding,
) -> (r: Result<(), RelayError>)
    ensures
        (match spec_relay_decode(raw@, *enc) {
            Err(e) => r == Err::<(), RelayError>(e) && final(sink).queue@ == old(sink).queue@
                && final(sink).capacity == old(sink).capacity,
            Ok(m) => if old(sink).spec_is_full() {
                r == Err::<(), RelayError>(RelayError::SinkFull)
                    && final(sink).queue@ == old(sink).queue@
                    && final(sink).capacity == old(sink).capacity
            } else {
                r == Ok::<(), RelayError>(()) && final(sink).capacity == old(sink).capacity
                    && final(sink).spec_queue() == old(sink).spec_queue().push(
                    StreamMessageModel { uid, device_id: device_id@, message: m },
                )
            },
        }),
{
    let envelope = match decode_envelope(raw) {
        None => {
            return Err(RelayError::MalformedEnvelope);
        },
        Some(e) => e,
    };
    let plain = match decompress_payload(enc, envelope.payload.as_slice()) {
        Err(_) => {
            return Err(RelayError::UndecodablePayload);
        },
        Ok(p) => p,
    };
    let message = match decode_message(plain.as_slice()) {
        None => {
            return Err(RelayError::MalformedMessage);
        },
        Some(m) => m,
    };
    let stream_message = StreamMessage { uid, device_id, message };
    let ghost expected = stream_message@;
    let r = sink.try_send(stream_message);
    proof {
        if !old(sink).spec_is_full() {
            assert(sink.spec_queue() =~= old(sink).spec_queue().push(expected));
        }
    }
    r
}

} // verus!
