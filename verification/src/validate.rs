//! Batch validation: each `(offset, length)` span of the shared receive
//! buffer is independently decompressed, decoded, and validated; invalid
//! spans are dropped without failing the batch. The accepted set is a pure
//! filter of the spans — membership does not depend on worker count or
//! scheduling order — so the per-span step may be fanned out across a worker
//! pool while the batch keeps one meaning.

use vstd::prelude::*;
use vstd::slice::slice_subrange;
use crate::codec::{decode_record, spec_decode_record};
use crate::compress::{decompress_payload, spec_decompress, ContentEncoding};
use crate::error::BatchRejection;
use crate::frame::spec_widen_spans;
use crate::record::{check_batch_record, spec_batch_record_ok, DocumentRecord, RecordModel};

verus! {

/// The record one span yields, if its payload survives decompression,
/// record decoding, and validation.
pub open spec fn spec_span_accept(
    buf: Seq<u8>,
    span: (int, int),
    enc: ContentEncoding,
    workspace_id: u128,
) -> Option<RecordModel> {
    let payload = buf.subrange(span.0, span.0 + span.1);
    match spec_decompress(enc, payload) {
        Err(_) => None,
        Ok(plain) => match spec_decode_record(plain, workspace_id) {
            None => None,
            Some(rec) => if spec_batch_record_ok(rec) {
                Some(rec)
            } else {
                None
            },
        },
    }
}

/// The accepted set of a batch: the records of the spans that validate, in
/// span order. A pure filter — one bad span never disturbs the others.
pub open spec fn spec_accepted(
    buf: Seq<u8>,
    spans: Seq<(int, int)>,
    enc: ContentEncoding,
    workspace_id: u128,
) -> Seq<RecordModel>
    decreases spans.len(),
{
    if spans.len() == 0 {
        Seq::empty()
    } else {
        let head = match spec_span_accept(buf, spans[0], enc, workspace_id) {
            Some(r) => seq![r],
            None => Seq::<RecordModel>::empty(),
        };
        head + spec_accepted(buf, spans.drop_first(), enc, workspace_id)
    }
}

/// Accepting one more span appends its record, or nothing.
pub proof fn lemma_accepted_snoc(
    buf: Seq<u8>,
    spans: Seq<(int, int)>,
    s: (int, int),
    enc: ContentEncoding,
    workspace_id: u128,
)
    ensures
        spec_accepted(buf, spans.push(s), enc, workspace_id) == spec_accepted(
            buf,
            spans,
            enc,
            workspace_id,
        ) + (match spec_span_accept(buf, s, enc, workspace_id) {
            Some(r) => seq![r],
            None => Seq::<RecordModel>::empty(),
        }),
    decreases spans.len(),
{
    let w = spans.push(s);
    let tailed = (match spec_span_accept(buf, s, enc, workspace_id) {
        Some(r) => seq![r],
        None => Seq::<RecordModel>::empty(),
    });
    if spans.len() == 0 {
        assert(w[0] == s);
        assert(w.drop_first() =~= Seq::<(int, int)>::empty());
        assert(spec_accepted(buf, Seq::empty(), enc, workspace_id) == Seq::<RecordModel>::empty());
        assert(spec_accepted(buf, w, enc, workspace_id) =~= spec_accepted(
            buf,
            spans,
            enc,
            workspace_id,
        ) + tailed);
    } else {
        assert(w[0] == spans[0]);
        assert(w.drop_first() =~= spans.drop_first().push(s));
        lemma_accepted_snoc(buf, spans.drop_first(), s, enc, workspace_id);
        assert(spec_accepted(buf, w, enc, workspace_id) =~= spec_accepted(
            buf,
            spans,
            enc,
            workspace_id,
        ) + tailed);
    }
}

/// Membership in the accepted set depends only on which spans are present,
/// not on any processing order: a record is accepted exactly when some span
/// yields it.
pub proof fn lemma_accepted_membership(
    buf: Seq<u8>,
    spans: Seq<(int, int)>,
    enc: ContentEncoding,
    workspace_id: u128,
)
    ensures
        forall|r: RecordModel|
            spec_accepted(buf, spans, enc, workspace_id).contains(r) <==> exists|i: int|
                0 <= i < spans.len() && spec_span_accept(buf, #[trigger] spans[i], enc,
                workspace_id) == Some(r),
    decreases spans.len(),
{
    let acc = spec_accepted(buf, spans, enc, workspace_id);
    if spans.len() == 0 {
    } else {
        let tail = spans.drop_first();
        lemma_accepted_membership(buf, tail, enc, workspace_id);
        let acc_tail = spec_accepted(buf, tail, enc, workspace_id);
        assert forall|r: RecordModel| acc.contains(r) implies exists|i: int|
            0 <= i < spans.len() && spec_span_accept(buf, #[trigger] spans[i], enc, workspace_id)
                == Some(r) by {
            if spec_span_accept(buf, spans[0], enc, workspace_id) == Some(r) {
                assert(0 <= 0 < spans.len() && spec_span_accept(buf, spans[0], enc, workspace_id)
                    == Some(r));
            } else {
                assert(acc_tail.contains(r)) by {
                    let j = choose|j: int| 0 <= j < acc.len() && acc[j] == r;
                    let head_len = acc.len() - acc_tail.len();
                    assert(acc_tail[j - head_len] == r);
                }
                let i = choose|i: int|
                    0 <= i < tail.len() && spec_span_accept(buf, #[trigger] tail[i], enc,
                    workspace_id) == Some(r);
                assert(spans[i + 1] == tail[i]);
            }
        }
        assert forall|r: RecordModel|
            (exists|i: int|
                0 <= i < spans.len() && spec_span_accept(buf, #[trigger] spans[i], enc,
                workspace_id) == Some(r)) implies acc.contains(r) by {
            let i = choose|i: int|
                0 <= i < spans.len() && spec_span_accept(buf, #[trigger] spans[i], enc,
                workspace_id) == Some(r);
            if i == 0 {
                assert(acc[0] == r);
            } else {
                assert(tail[i - 1] == spans[i]);
                assert(acc_tail.contains(r));
                let j = choose|j: int| 0 <= j < acc_tail.len() && acc_tail[j] == r;
                let head_len = acc.len() - acc_tail.len();
                assert(acc[j + head_len] == r);
            }
        }
    }
}

/// Every record the validator accepts belongs to the submission's workspace:
/// batch validation can never smuggle a record into another tenant.
pub proof fn lemma_accepted_workspace(
    buf: Seq<u8>,
    spans: Seq<(int, int)>,
    enc: ContentEncoding,
    workspace_id: u128,
)
    ensures
        forall|i: int|
            0 <= i < spec_accepted(buf, spans, enc, workspace_id).len() ==> (
            #[trigger] spec_accepted(buf, spans, enc, workspace_id)[i]).workspace_id
                == workspace_id,
    decreases spans.len(),
{
    if spans.len() > 0 {
        lemma_accepted_workspace(buf, spans.drop_first(), enc, workspace_id);
        let acc = spec_accepted(buf, spans, enc, workspace_id);
        let acc_tail = spec_accepted(buf, spans.drop_first(), enc, workspace_id);
        assert forall|i: int| 0 <= i < acc.len() implies (#[trigger] acc[i]).workspace_id
            == workspace_id by {
            let head_len = acc.len() - acc_tail.len();
            if i < head_len {
                assert(acc[i] == spec_span_accept(buf, spans[0], enc, workspace_id)->Some_0);
            } else {
                assert(acc[i] == acc_tail[i - head_len]);
            }
        }
    }
}

/// Validates one span of the shared buffer: decompress with the batch's
/// codec, decode the record for the submission's workspace, and check it.
/// This is the unit of work a pool worker runs; any failure yields `None`
/// and the span is dropped from the batch.
pub fn validate_span(
    buf: &[u8],
    offset: usize,
    length: usize,
    enc: &ContentEncoding,
    workspace_id: u128,
) -> (r: Option<DocumentRecord>)
    requires
        offset + length <= buf@.len(),
    ensures
        r is Some <==> spec_span_accept(buf@, (offset as int, length as int), *enc, workspace_id)
            is Some,
        r is Some ==> r->Some_0@ == spec_span_accept(buf@, (offset as int, length as int), *enc,
        workspace_id)->Some_0,
{
    let n = buf.len();
    assert(offset + length <= n);
    let payload = slice_subrange(buf, offset, offset + length);
    let plain = match decompress_payload(enc, payload) {
        Err(_) => {
            return None;
        },
        Ok(p) => p,
    };
    let rec = match decode_record(plain.as_slice(), workspace_id) {
        None => {
            return None;
        },
        Some(rec) => rec,
    };
    if check_batch_record(&rec) {
        Some(rec)
    } else {
        None
    }
}

/// Validates a whole batch of spans over the shared receive buffer.
///
/// The batch fails only when it holds no span at all, or when every span was
/// rejected — one explicitly distinct from the other. Otherwise the accepted
/// records are returned in span order; invalid spans are dropped silently.
pub fn process_batch(
    buf: &[u8],
    spans: &Vec<(usize, usize)>,
    enc: &ContentEncoding,
    workspace_id: u128,
) -> (r: Result<Vec<DocumentRecord>, BatchRejection>)
    requires
        forall|i: int|
            0 <= i < spans@.len() ==> (#[trigger] spans@[i]).0 + spans@[i].1 <= buf@.len(),
    ensures
        spans@.len() == 0 ==> r == Err::<Vec<DocumentRecord>, BatchRejection>(
            BatchRejection::EmptyInput,
        ),
        spans@.len() > 0 ==> {
            let accepted = spec_accepted(buf@, spec_widen_spans(spans@), *enc, workspace_id);
            if accepted.len() == 0 {
                r == Err::<Vec<DocumentRecord>, BatchRejection>(BatchRejection::AllRecordsRejected)
            } else {
                r is Ok && r->Ok_0@.map_values(|rec: DocumentRecord| rec@) == accepted
            }
        },
{
    if spans.len() == 0 {
        return Err(BatchRejection::EmptyInput);
    }
    let ghost wide = spec_widen_spans(spans@);
    let mut out: Vec<DocumentRecord> = Vec::new();
    let mut i: usize = 0;
    while i < spans.len()
        invariant
            i <= spans@.len(),
            wide == spec_widen_spans(spans@),
            forall|k: int|
                0 <= k < spans@.len() ==> (#[trigger] spans@[k]).0 + spans@[k].1 <= buf@.len(),
            out@.map_values(|rec: DocumentRecord| rec@) == spec_accepted(
                buf@,
                wide.take(i as int),
                *enc,
                workspace_id,
            ),
        decreases spans@.len() - i,
    {
        let (off, len) = spans[i];
        proof {
            assert(wide[i as int] == (off as int, len as int));
        }
        let ghost pre = out@.map_values(|rec: DocumentRecord| rec@);
        let picked = validate_span(buf, off, len, enc, workspace_id);
        match picked {
            Some(rec) => {
                out.push(rec);
            },
            None => (),
        }
        proof {
            lemma_accepted_snoc(buf@, wide.take(i as int), wide[i as int], *enc, workspace_id);
            assert(wide.take(i as int).push(wide[i as int]) =~= wide.take(i as int + 1));
            match spec_span_accept(buf@, wide[i as int], *enc, workspace_id) {
                Some(m) => {
                    assert(out@.map_values(|rec: DocumentRecord| rec@) =~= pre.push(m));
                    assert(pre.push(m) =~= pre + seq![m]);
                },
                None => {
                    assert(spec_accepted(buf@, wide.take(i as int + 1), *enc, workspace_id)
                        =~= spec_accepted(buf@, wide.take(i as int), *enc, workspace_id));
                },
            }
        }
        i = i + 1;
    }
    proof {
        assert(wide.take(wide.len() as int) =~= wide);
    }
    if out.len() == 0 {
        proof {
            assert(out@.map_values(|rec: DocumentRecord| rec@).len() == 0);
        }
        return Err(BatchRejection::AllRecordsRejected);
    }
    Ok(out)
}

} // verus!
