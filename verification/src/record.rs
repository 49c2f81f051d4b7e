//! Document records: the unit of ingested collaborative-document state, and
//! the validity rules a record must pass before it is persisted.

use vstd::prelude::*;
use crate::bytes::le_val;
use vstd::slice::slice_subrange;
use crate::bytes::read_u128_le;

verus! {

/// Kind of collaboratively edited object a record carries.
#[derive(Clone, Copy, Debug, PartialEq, Eq, Structural)]
pub enum CollabType {
    Document,
    Database,
    Workspace,
    Folder,
    DatabaseRow,
    UserAwareness,
    Unknown,
}

/// The wire tag of each collab type, used both by the record codec and by the
/// self-describing encoded state.
pub open spec fn spec_collab_type_tag(t: CollabType) -> u8 {
    match t {
        CollabType::Document => 0,
        CollabType::Database => 1,
        CollabType::Workspace => 2,
        CollabType::Folder => 3,
        CollabType::DatabaseRow => 4,
        CollabType::UserAwareness => 5,
        CollabType::Unknown => 6,
    }
}

/// The collab type a wire tag denotes, if any.
pub open spec fn spec_collab_type_from_tag(b: u8) -> Option<CollabType> {
    if b == 0 {
        Some(CollabType::Document)
    } else if b == 1 {
        Some(CollabType::Database)
    } else if b == 2 {
        Some(CollabType::Workspace)
    } else if b == 3 {
        Some(CollabType::Folder)
    } else if b == 4 {
        Some(CollabType::DatabaseRow)
    } else if b == 5 {
        Some(CollabType::UserAwareness)
    } else if b == 6 {
        Some(CollabType::Unknown)
    } else {
        None
    }
}

/// Every collab type is recovered from its own tag.
pub proof fn lemma_collab_type_tag_round_trip(t: CollabType)
    ensures
        spec_collab_type_from_tag(spec_collab_type_tag(t)) == Some(t),
{
}

/// Writes the wire tag of a collab type.
pub fn collab_type_tag(t: &CollabType) -> (r: u8)
    ensures
        r == spec_collab_type_tag(*t),
{
    match t {
        CollabType::Document => 0,
        CollabType::Database => 1,
        CollabType::Workspace => 2,
        CollabType::Folder => 3,
        CollabType::DatabaseRow => 4,
        CollabType::UserAwareness => 5,
        CollabType::Unknown => 6,
    }
}

/// Reads a collab type back from its wire tag.
pub fn collab_type_from_tag(b: u8) -> (r: Option<CollabType>)
    ensures
        r == spec_collab_type_from_tag(b),
{
    if b == 0 {
        Some(CollabType::Document)
    } else if b == 1 {
        Some(CollabType::Database)
    } else if b == 2 {
        Some(CollabType::Workspace)
    } else if b == 3 {
        Some(CollabType::Folder)
    } else if b == 4 {
        Some(CollabType::DatabaseRow)
    } else if b == 5 {
        Some(CollabType::UserAwareness)
    } else if b == 6 {
        Some(CollabType::Unknown)
    } else {
        None
    }
}

/// A candidate document record flowing through the ingestion pipeline.
///
/// Identifiers are 128-bit values. The encoded state is an opaque,
/// independently validatable byte blob produced by an external codec; this
/// core never merges or interprets it beyond its self-describing header.
/// Embeddings are an optional, opaque enrichment attached before persistence.
#[derive(Debug)]
pub struct DocumentRecord {
    pub object_id: u128,
    pub workspace_id: u128,
    pub collab_type: CollabType,
    pub encoded_state: Vec<u8>,
    pub embeddings: Option<Vec<u8>>,
}

/// The mathematical model of a document record.
pub struct RecordModel {
    pub object_id: u128,
    pub workspace_id: u128,
    pub collab_type: CollabType,
    pub encoded_state: Seq<u8>,
    pub embeddings: Option<Seq<u8>>,
}

impl View for DocumentRecord {
    type V = RecordModel;

    open spec fn view(&self) -> RecordModel {
        RecordModel {
            object_id: self.object_id,
            workspace_id: self.workspace_id,
            collab_type: self.collab_type,
            encoded_state: self.encoded_state@,
            embeddings: match self.embeddings {
                Some(e) => Some(e@),
                None => None,
            },
        }
    }
}

/// Structural validity of an encoded document state relative to the record
/// that declares it: the state is self-describing — it opens with the tag of
/// its own collab type, echoes the 16-byte object id it belongs to, and
/// carries at least one content byte.
pub open spec fn spec_state_wf(object_id: u128, ty: CollabType, state: Seq<u8>) -> bool {
    &&& state.len() >= 18
    &&& state[0] == spec_collab_type_tag(ty)
    &&& le_val(state.subrange(1, 17)) == object_id
}

/// Checks an encoded state against the declared type and object id.
pub fn check_encoded_state(object_id: u128, ty: &CollabType, state: &[u8]) -> (r: bool)
    ensures
        r == spec_state_wf(object_id, *ty, state@),
{
    if state.len() < 18 {
        return false;
    }
    if state[0] != collab_type_tag(ty) {
        return false;
    }
    let echoed = read_u128_le(slice_subrange(state, 1, 17));
    echoed == object_id
}

/// Builds a structurally valid encoded state: the declared type's tag, the
/// object id echo, then the content bytes.
pub fn build_encoded_state(object_id: u128, ty: &CollabType, content: &[u8]) -> (r: Vec<u8>)
    requires
        content@.len() >= 1,
    ensures
        spec_state_wf(object_id, *ty, r@),
        r@ == seq![spec_collab_type_tag(*ty)] + crate::bytes::le_bytes(object_id as int, 16)
            + content@,
{
    let mut out: Vec<u8> = Vec::new();
    out.push(collab_type_tag(ty));
    let id_bytes = crate::bytes::write_u128_le(object_id);
    let mut k: usize = 0;
    while k < 16
        invariant
            k <= 16,
            id_bytes@.len() == 16,
            id_bytes@ == crate::bytes::le_bytes(object_id as int, 16),
            crate::bytes::le_val(id_bytes@) == object_id as int,
            out@ =~= seq![spec_collab_type_tag(*ty)] + id_bytes@.subrange(0, k as int),
        decreases 16 - k,
    {
        out.push(id_bytes[k]);
        proof {
            assert(id_bytes@.subrange(0, k as int).push(id_bytes@[k as int]) =~= id_bytes@
                .subrange(0, k as int + 1));
        }
        k = k + 1;
    }
    let mut j: usize = 0;
    while j < content.len()
        invariant
            j <= content@.len(),
            id_bytes@ == crate::bytes::le_bytes(object_id as int, 16),
            crate::bytes::le_val(id_bytes@) == object_id as int,
            out@ =~= seq![spec_collab_type_tag(*ty)] + id_bytes@ + content@.subrange(0, j as int),
        decreases content@.len() - j,
    {
        out.push(content[j]);
        proof {
            assert(content@.subrange(0, j as int).push(content@[j as int]) =~= content@.subrange(
                0,
                j as int + 1,
            ));
        }
        j = j + 1;
    }
    proof {
        assert(content@.subrange(0, content@.len() as int) =~= content@);
        assert(out@.subrange(1, 17) =~= id_bytes@);
        assert(out@[0] == spec_collab_type_tag(*ty));
    }
    out
}

/// The object/workspace identity rule: an object may reuse its workspace's id
/// only when it is the workspace's own folder object.
pub open spec fn spec_object_rule_ok(r: RecordModel) -> bool {
    r.object_id == r.workspace_id ==> r.collab_type == CollabType::Folder
}

/// Schema validity of the auxiliary fields: identifiers must not be nil.
pub open spec fn spec_schema_ok(r: RecordModel) -> bool {
    r.object_id != 0 && r.workspace_id != 0
}

/// What batch validation demands of a decoded record: schema-valid auxiliary
/// fields and a structurally valid, self-consistent encoded state.
pub open spec fn spec_batch_record_ok(r: RecordModel) -> bool {
    spec_schema_ok(r) && spec_state_wf(r.object_id, r.collab_type, r.encoded_state)
}

/// Checks the object/workspace identity rule of a record.
pub fn check_object_rule(r: &DocumentRecord) -> (b: bool)
    ensures
        b == spec_object_rule_ok(r@),
{
    r.object_id != r.workspace_id || matches!(r.collab_type, CollabType::Folder)
}

/// Checks what batch validation demands of a decoded record.
pub fn check_batch_record(r: &DocumentRecord) -> (b: bool)
    ensures
        b == spec_batch_record_ok(r@),
{
    if r.object_id == 0 || r.workspace_id == 0 {
        return false;
    }
    check_encoded_state(r.object_id, &r.collab_type, r.encoded_state.as_slice())
}

} // verus!
