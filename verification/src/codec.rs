//! The self-describing wire encoding of a single record, as carried inside
//! one batch-list frame: 16 little-endian object-id bytes, one collab-type
//! tag, a little-endian 32-bit state length, then the encoded state itself.

use vstd::prelude::*;
use vstd::slice::slice_subrange;
use crate::bytes::{le_bytes, le_val, le32_bytes, le32_val, lemma_le_bytes_len, lemma_le_bytes_val,
    lemma_le32_round_trip, lemma_pow256_16, push_all, read_le32, read_u128_le, write_le32,
    write_u128_le};
use crate::record::{CollabType, DocumentRecord, RecordModel, collab_type_from_tag,
    collab_type_tag, spec_collab_type_from_tag, spec_collab_type_tag};

verus! {

/// Bytes of the record header that precede the encoded state.
pub open spec fn spec_record_header_len() -> int {
    21
}

/// The wire bytes of a record with the given fields.
pub open spec fn spec_record_bytes(object_id: u128, ty: CollabType, state: Seq<u8>) -> Seq<u8> {
    le_bytes(object_id as int, 16) + seq![spec_collab_type_tag(ty)] + le32_bytes(
        state.len() as int,
    ) + state
}

/// The record a byte sequence decodes to for a given submission workspace,
/// if it is well formed: the length field must account for exactly the
/// remaining bytes, and the type tag must be known. A decoded record carries
/// no embeddings yet.
pub open spec fn spec_decode_record(b: Seq<u8>, workspace_id: u128) -> Option<RecordModel> {
    if b.len() < 21 {
        None
    } else {
        match spec_collab_type_from_tag(b[16]) {
            None => None,
            Some(ty) => {
                let n = le32_val(b[17], b[18], b[19], b[20]);
                if b.len() != 21 + n {
                    None
                } else {
                    Some(
                        RecordModel {
                            object_id: le_val(b.subrange(0, 16)) as u128,
                            workspace_id: workspace_id,
                            collab_type: ty,
                            encoded_state: b.subrange(21, b.len() as int),
                            embeddings: None,
                        },
                    )
                }
            },
        }
    }
}

/// Encodes a record for the batch wire. The embeddings, a server-side
/// enrichment, are never carried on the wire.
pub fn encode_record(r: &DocumentRecord) -> (out: Vec<u8>)
    requires
        r.encoded_state@.len() <= u32::MAX,
    ensures
        out@ == spec_record_bytes(r@.object_id, r@.collab_type, r@.encoded_state),
{
    let mut out: Vec<u8> = Vec::new();
    let id_bytes = write_u128_le(r.object_id);
    push_all(&mut out, id_bytes.as_slice());
    out.push(collab_type_tag(&r.collab_type));
    let len_bytes = write_le32(r.encoded_state.len() as u32);
    push_all(&mut out, len_bytes.as_slice());
    push_all(&mut out, r.encoded_state.as_slice());
    proof {
        assert(len_bytes@ =~= le32_bytes(r.encoded_state@.len() as int));
        assert(out@ =~= spec_record_bytes(r@.object_id, r@.collab_type, r@.encoded_state));
    }
    out
}

/// Decodes one frame payload into a record of the submission's workspace.
/// Returns `None` on any malformation: short header, unknown type tag, or a
/// length field that does not match the remaining bytes.
pub fn decode_record(b: &[u8], workspace_id: u128) -> (out: Option<DocumentRecord>)
    ensures
        out is Some <==> spec_decode_record(b@, workspace_id) is Some,
        out is Some ==> out->Some_0@ == spec_decode_record(b@, workspace_id)->Some_0,
{
    if b.len() < 21 {
        return None;
    }
    let ty = match collab_type_from_tag(b[16]) {
        None => {
            return None;
        },
        Some(t) => t,
    };
    let n = read_le32(b[17], b[18], b[19], b[20]);
    if b.len() - 21 != n as usize {
        return None;
    }
    let object_id = read_u128_le(slice_subrange(b, 0, 16));
    let mut state: Vec<u8> = Vec::new();
    push_all(&mut state, slice_subrange(b, 21, b.len()));
    Some(
        DocumentRecord {
            object_id,
            workspace_id,
            collab_type: ty,
            encoded_state: state,
            embeddings: None,
        },
    )
}

/// A record round-trips through the wire: encoding it and decoding the bytes
/// under the same workspace recovers the record, with no embeddings attached.
pub proof fn lemma_record_round_trip(r: RecordModel)
    requires
        r.encoded_state.len() <= u32::MAX,
        r.embeddings is None,
    ensures
        spec_decode_record(spec_record_bytes(r.object_id, r.collab_type, r.encoded_state),
            r.workspace_id) == Some(r),
{
    let b = spec_record_bytes(r.object_id, r.collab_type, r.encoded_state);
    lemma_le_bytes_len(r.object_id as int, 16);
    assert(b.len() == 21 + r.encoded_state.len());
    assert(b[16] == spec_collab_type_tag(r.collab_type));
    crate::record::lemma_collab_type_tag_round_trip(r.collab_type);
    assert(b[17] == le32_bytes(r.encoded_state.len() as int)[0]);
    assert(b[18] == le32_bytes(r.encoded_state.len() as int)[1]);
    assert(b[19] == le32_bytes(r.encoded_state.len() as int)[2]);
    assert(b[20] == le32_bytes(r.encoded_state.len() as int)[3]);
    lemma_le32_round_trip(r.encoded_state.len() as int);
    assert(le32_val(b[17], b[18], b[19], b[20]) == r.encoded_state.len());
    assert(b.subrange(0, 16) =~= le_bytes(r.object_id as int, 16));
    lemma_pow256_16();
    lemma_le_bytes_val(r.object_id as int, 16);
    assert(le_val(b.subrange(0, 16)) == r.object_id as int);
    assert(b.subrange(21, b.len() as int) =~= r.encoded_state);
}

} // verus!
