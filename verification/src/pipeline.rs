//! The compute core of the two submission handlers, composed: embedding
//! outcomes — computed outside this core, one per record — are applied
//! best-effort, and the result is handed to the access-controlled store. The
//! host around this library frames the bytes, fans the per-record work out,
//! and awaits the storage round-trip; every decision in between is here.

use vstd::prelude::*;
use crate::enrich::{apply_embedding_outcomes, spec_apply_outcomes, EmbeddingOutcome,
    EmbeddingOutcomeModel};
use crate::error::StoreError;
use crate::record::{DocumentRecord, RecordModel};
use crate::store::{spec_create_batch, spec_create_single, CollabStore};

verus! {

/// A record with one optional embedding outcome applied: a computed
/// embedding is attached; a missing or failed one changes nothing.
pub open spec fn spec_attach_outcome(
    rec: RecordModel,
    outcome: Option<EmbeddingOutcomeModel>,
) -> RecordModel {
    match outcome {
        Some(EmbeddingOutcomeModel::Computed(e)) => RecordModel {
            object_id: rec.object_id,
            workspace_id: rec.workspace_id,
            collab_type: rec.collab_type,
            encoded_state: rec.encoded_state,
            embeddings: Some(e),
        },
        _ => rec,
    }
}

/// Batch partial acceptance, end to end: whenever the validator accepts at
/// least one record of a submission and the caller holds Write access, the
/// batch persists — the count persisted equals the accepted-set size, never
/// silently less — and each accepted record is then visible under its key.
/// One structurally invalid record costs only itself, never the batch.
pub proof fn lemma_batch_partial_acceptance(
    s: crate::store::StoreModel,
    caller: i64,
    workspace_id: u128,
    buf: Seq<u8>,
    spans: Seq<(int, int)>,
    enc: crate::compress::ContentEncoding,
)
    requires
        crate::store::spec_access_decision(
            s,
            caller,
            workspace_id,
            crate::error::Action::Write,
        ) is Ok,
        crate::validate::spec_accepted(buf, spans, enc, workspace_id).len() > 0,
    ensures
        ({
            let accepted = crate::validate::spec_accepted(buf, spans, enc, workspace_id);
            let (s2, res) = spec_create_batch(s, caller, workspace_id, accepted);
            &&& res == Ok::<int, StoreError>(accepted.len() as int)
            &&& forall|i: int|
                0 <= i < accepted.len() ==> crate::store::spec_find(
                    s2.records,
                    workspace_id,
                    (#[trigger] accepted[i]).object_id,
                ) is Some
        }),
{
    let accepted = crate::validate::spec_accepted(buf, spans, enc, workspace_id);
    crate::validate::lemma_accepted_workspace(buf, spans, enc, workspace_id);
    let (s2, res) = spec_create_batch(s, caller, workspace_id, accepted);
    lemma_upsert_all_visibility(s.records, accepted);
}

/// After a whole batch is upserted, every record of the batch is visible
/// under its key (later batch entries with the same key winning).
pub proof fn lemma_upsert_all_visibility(recs: Seq<RecordModel>, batch: Seq<RecordModel>)
    ensures
        forall|i: int|
            0 <= i < batch.len() ==> crate::store::spec_find(
                crate::store::spec_upsert_all(recs, batch),
                (#[trigger] batch[i]).workspace_id,
                batch[i].object_id,
            ) is Some,
    decreases batch.len(),
{
    if batch.len() > 0 {
        let mid = crate::store::spec_upsert(recs, batch[0]);
        lemma_upsert_all_visibility(mid, batch.drop_first());
        assert forall|i: int| 0 <= i < batch.len() implies crate::store::spec_find(
            crate::store::spec_upsert_all(recs, batch),
            (#[trigger] batch[i]).workspace_id,
            batch[i].object_id,
        ) is Some by {
            if i == 0 {
                crate::store::lemma_upsert_visibility(recs, batch[0]);
                lemma_find_after_upsert_all(mid, batch.drop_first(), batch[0]);
            } else {
                assert(batch.drop_first()[i - 1] == batch[i]);
            }
        }
    }
}

/// A record already visible under its key stays visible under that key
/// through any further batch of upserts.
pub proof fn lemma_find_after_upsert_all(
    recs: Seq<RecordModel>,
    batch: Seq<RecordModel>,
    r: RecordModel,
)
    requires
        crate::store::spec_find(recs, r.workspace_id, r.object_id) is Some,
    ensures
        crate::store::spec_find(
            crate::store::spec_upsert_all(recs, batch),
            r.workspace_id,
            r.object_id,
        ) is Some,
    decreases batch.len(),
{
    if batch.len() > 0 {
        let mid = crate::store::spec_upsert(recs, batch[0]);
        crate::store::lemma_upsert_visibility(recs, batch[0]);
        if batch[0].workspace_id == r.workspace_id && batch[0].object_id == r.object_id {
            assert(crate::store::spec_find(mid, r.workspace_id, r.object_id) == Some(batch[0]));
        } else {
            assert(crate::store::spec_find(mid, r.workspace_id, r.object_id)
                == crate::store::spec_find(recs, r.workspace_id, r.object_id));
        }
        lemma_find_after_upsert_all(mid, batch.drop_first(), r);
    }
}

/// Single-record submission core: attach the embedding outcome, if the
/// workspace was eligible and one was computed, then submit the record to
/// the store — validation, the capability check, and atomic persistence are
/// the store's contract. An absent or failed outcome never fails the
/// submission; the record proceeds without embeddings.
pub fn ingest_single(
    store: &mut CollabStore,
    caller: i64,
    record: DocumentRecord,
    outcome: Option<EmbeddingOutcome>,
) -> (r: Result<(), StoreError>)
    requires
        old(store).wf(),
    ensures
        final(store).wf(),
        ({
            let enriched = spec_attach_outcome(
                record@,
                match outcome {
                    Some(o) => Some(o@),
                    None => None,
                },
            );
            let (m2, res) = spec_create_single(old(store)@, caller, enriched);
            final(store)@ == m2 && r == res
        }),
{
    let enriched = match outcome {
        Some(EmbeddingOutcome::Computed(e)) => {
            let DocumentRecord { object_id, workspace_id, collab_type, encoded_state, embeddings: _ } =
                record;
            DocumentRecord {
                object_id,
                workspace_id,
                collab_type,
                encoded_state,
                embeddings: Some(e),
            }
        },
        _ => record,
    };
    store.create_single(caller, enriched)
}

/// Batch submission core: apply the per-record embedding outcomes the host
/// computed for the accepted records — each independently fallible, no
/// failure aborting the batch — then persist the whole set as one operation.
pub fn ingest_batch(
    store: &mut CollabStore,
    caller: i64,
    workspace_id: u128,
    records: Vec<DocumentRecord>,
    outcomes: Vec<EmbeddingOutcome>,
) -> (r: Result<usize, StoreError>)
    requires
        old(store).wf(),
        outcomes@.len() == records@.len(),
        forall|i: int|
            0 <= i < records@.len() ==> (#[trigger] records@[i]).workspace_id == workspace_id,
    ensures
        final(store).wf(),
        ({
            let enriched = spec_apply_outcomes(
                records@.map_values(|rec: DocumentRecord| rec@),
                outcomes@.map_values(|o: EmbeddingOutcome| o@),
            );
            let (m2, res) = spec_create_batch(old(store)@, caller, workspace_id, enriched);
            &&& final(store)@ == m2
            &&& (match (r, res) {
                (Ok(n), Ok(m)) => n as int == m && n == records@.len(),
                (Err(e1), Err(e2)) => e1 == e2,
                _ => false,
            })
        }),
{
    let ghost rec_views = records@.map_values(|rec: DocumentRecord| rec@);
    let ghost out_views = outcomes@.map_values(|o: EmbeddingOutcome| o@);
    let ghost total = records@.len();
    let enriched = apply_embedding_outcomes(records, outcomes);
    proof {
        crate::enrich::lemma_enrichment_best_effort(rec_views, out_views);
        assert(enriched@.map_values(|rec: DocumentRecord| rec@).len() == total);
        assert(enriched@.len() == total);
        assert forall|i: int| 0 <= i < enriched@.len() implies (
        #[trigger] enriched@[i]).workspace_id == workspace_id by {
            assert(enriched@.map_values(|rec: DocumentRecord| rec@)[i] == enriched@[i]@);
            assert(spec_apply_outcomes(rec_views, out_views)[i].workspace_id
                == rec_views[i].workspace_id);
            assert(rec_views[i] == records@[i]@);
        }
    }
    store.create_batch(caller, workspace_id, enriched)
}

} // verus!
