//! Embedding enrichment: gated by a per-workspace eligibility oracle and
//! deliberately best-effort. Embedding computation runs outside this core,
//! one independently fallible task per record; this module applies the
//! per-record outcomes, and a failed outcome leaves its record unchanged —
//! enrichment never blocks or fails a submission.

use vstd::prelude::*;
use crate::record::{DocumentRecord, RecordModel, spec_batch_record_ok, spec_state_wf};

verus! {

/// The eligibility oracle: which workspaces have search indexing enabled.
/// Injected into the pipeline explicitly so hosts and tests can substitute
/// their own population.
pub struct EmbeddingPolicy {
    pub indexed_workspaces: Vec<u128>,
}

impl EmbeddingPolicy {
    /// Whether a workspace is enrolled for indexing.
    pub open spec fn spec_can_index(self, workspace_id: u128) -> bool {
        self.indexed_workspaces@.contains(workspace_id)
    }

    /// A policy with indexing enabled nowhere.
    pub fn new() -> (r: EmbeddingPolicy)
        ensures
            forall|w: u128| !r.spec_can_index(w),
    {
        let r = EmbeddingPolicy { indexed_workspaces: Vec::new() };
        proof {
            assert(forall|w: u128| !r.indexed_workspaces@.contains(w));
        }
        r
    }

    /// Enrolls a workspace for indexing.
    pub fn enable_workspace(&mut self, workspace_id: u128)
        ensures
            final(self).spec_can_index(workspace_id),
            forall|w: u128|
                final(self).spec_can_index(w) == (old(self).spec_can_index(w) || w
                    == workspace_id),
    {
        self.indexed_workspaces.push(workspace_id);
        proof {
            let oldseq = old(self).indexed_workspaces@;
            let newseq = self.indexed_workspaces@;
            assert forall|w: u128|
                self.spec_can_index(w) == (old(self).spec_can_index(w) || w == workspace_id) by {
                if old(self).spec_can_index(w) {
                    let j = choose|j: int| 0 <= j < oldseq.len() && oldseq[j] == w;
                    assert(newseq[j] == w);
                    assert(newseq.contains(w));
                }
                if w == workspace_id {
                    assert(newseq[oldseq.len() as int] == w);
                    assert(newseq.contains(w));
                }
                if self.spec_can_index(w) && w != workspace_id {
                    let j = choose|j: int| 0 <= j < newseq.len() && newseq[j] == w;
                    assert(j < oldseq.len());
                    assert(oldseq[j] == w);
                    assert(oldseq.contains(w));
                }
            }
        }
    }

    /// Asks whether enrichment should run for this workspace at all. A
    /// negative answer makes the whole enrichment stage a no-op, not an
    /// error.
    pub fn can_index_workspace(&self, workspace_id: u128) -> (r: bool)
        ensures
            r == self.spec_can_index(workspace_id),
    {
        let mut i: usize = 0;
        while i < self.indexed_workspaces.len()
            invariant
                i <= self.indexed_workspaces@.len(),
                forall|k: int| 0 <= k < i ==> self.indexed_workspaces@[k] != workspace_id,
            decreases self.indexed_workspaces@.len() - i,
        {
            if self.indexed_workspaces[i] == workspace_id {
                return true;
            }
            i = i + 1;
        }
        false
    }
}

/// The outcome of one record's embedding computation, performed outside this
/// core: either the computed embedding blob, or a failure that was logged
/// where it happened.
#[derive(Debug)]
pub enum EmbeddingOutcome {
    Computed(Vec<u8>),
    Failed,
}

/// The mathematical model of an embedding outcome.
pub enum EmbeddingOutcomeModel {
    Computed(Seq<u8>),
    Failed,
}

impl View for EmbeddingOutcome {
    type V = EmbeddingOutcomeModel;

    open spec fn view(&self) -> EmbeddingOutcomeModel {
        match self {
            EmbeddingOutcome::Computed(e) => EmbeddingOutcomeModel::Computed(e@),
            EmbeddingOutcome::Failed => EmbeddingOutcomeModel::Failed,
        }
    }
}

/// The records after their outcomes are applied: a computed embedding is
/// attached to its record; a failed one leaves its record exactly as it was.
pub open spec fn spec_apply_outcomes(
    recs: Seq<RecordModel>,
    outs: Seq<EmbeddingOutcomeModel>,
) -> Seq<RecordModel> {
    Seq::new(
        recs.len(),
        |i: int|
            if 0 <= i < outs.len() && outs[i] is Computed {
                RecordModel {
                    object_id: recs[i].object_id,
                    workspace_id: recs[i].workspace_id,
                    collab_type: recs[i].collab_type,
                    encoded_state: recs[i].encoded_state,
                    embeddings: Some(outs[i]->Computed_0),
                }
            } else {
                recs[i]
            },
    )
}

/// Enrichment is best-effort: applying outcomes never drops, reorders, or
/// rewrites a record. Every record keeps its identity, type, and encoded
/// state — so its validity is untouched; a computed outcome attaches its
/// embedding, and a failed outcome leaves the record exactly as submitted.
pub proof fn lemma_enrichment_best_effort(recs: Seq<RecordModel>, outs: Seq<EmbeddingOutcomeModel>)
    requires
        outs.len() == recs.len(),
    ensures
        spec_apply_outcomes(recs, outs).len() == recs.len(),
        forall|i: int|
            0 <= i < recs.len() ==> {
                let r = #[trigger] spec_apply_outcomes(recs, outs)[i];
                &&& r.object_id == recs[i].object_id
                &&& r.workspace_id == recs[i].workspace_id
                &&& r.collab_type == recs[i].collab_type
                &&& r.encoded_state == recs[i].encoded_state
                &&& (outs[i] is Computed ==> r.embeddings == Some(outs[i]->Computed_0))
                &&& (outs[i] is Failed ==> r == recs[i])
                &&& spec_batch_record_ok(r) == spec_batch_record_ok(recs[i])
                &&& spec_state_wf(r.object_id, r.collab_type, r.encoded_state) == spec_state_wf(
                    recs[i].object_id,
                    recs[i].collab_type,
                    recs[i].encoded_state,
                )
            },
{
}

/// Applies per-record embedding outcomes to the accepted records of one
/// submission, in order. One outcome per record; a failure affects its own
/// record alone, which proceeds without embeddings.
pub fn apply_embedding_outcomes(records: Vec<DocumentRecord>, outcomes: Vec<EmbeddingOutcome>) -> (r:
    Vec<DocumentRecord>)
    requires
        outcomes@.len() == records@.len(),
    ensures
        r@.map_values(|rec: DocumentRecord| rec@) == spec_apply_outcomes(
            records@.map_values(|rec: DocumentRecord| rec@),
            outcomes@.map_values(|o: EmbeddingOutcome| o@),
        ),
{
    let ghost orig_recs = records@.map_values(|rec: DocumentRecord| rec@);
    let ghost orig_outs = outcomes@.map_values(|o: EmbeddingOutcome| o@);
    let mut records = records;
    let mut outcomes = outcomes;
    let mut out: Vec<DocumentRecord> = Vec::new();
    let ghost total = orig_recs.len();
    while records.len() > 0
        invariant
            orig_recs.len() == total,
            orig_outs.len() == total,
            out@.len() <= total,
            records@.map_values(|rec: DocumentRecord| rec@) =~= orig_recs.skip(out@.len() as int),
            outcomes@.map_values(|o: EmbeddingOutcome| o@) =~= orig_outs.skip(out@.len() as int),
            out@.map_values(|rec: DocumentRecord| rec@) =~= spec_apply_outcomes(
                orig_recs,
                orig_outs,
            ).take(out@.len() as int),
        decreases records@.len(),
    {
        let ghost k = out@.len() as int;
        let ghost pre_recs = records@;
        let ghost pre_outs = outcomes@;
        proof {
            assert(pre_recs.map_values(|rec: DocumentRecord| rec@).len() == pre_recs.len());
            assert(pre_outs.map_values(|o: EmbeddingOutcome| o@).len() == pre_outs.len());
            assert(orig_recs.skip(k).len() == total - k);
            assert(orig_outs.skip(k).len() == total - k);
        }
        let rec = records.remove(0);
        let o = outcomes.remove(0);
        proof {
            assert(orig_recs.skip(k)[0] == orig_recs[k]);
            assert(orig_outs.skip(k)[0] == orig_outs[k]);
            assert(pre_recs.map_values(|rec: DocumentRecord| rec@)[0] == orig_recs[k]);
            assert(pre_outs.map_values(|o: EmbeddingOutcome| o@)[0] == orig_outs[k]);
            assert(records@.map_values(|rec: DocumentRecord| rec@) =~= orig_recs.skip(k + 1)) by {
                assert(records@ =~= pre_recs.skip(1));
                assert(pre_recs.skip(1).map_values(|rec: DocumentRecord| rec@) =~= pre_recs
                    .map_values(|rec: DocumentRecord| rec@).skip(1));
            }
            assert(outcomes@.map_values(|o: EmbeddingOutcome| o@) =~= orig_outs.skip(k + 1)) by {
                assert(outcomes@ =~= pre_outs.skip(1));
                assert(pre_outs.skip(1).map_values(|o: EmbeddingOutcome| o@) =~= pre_outs
                    .map_values(|o: EmbeddingOutcome| o@).skip(1));
            }
        }
        let enriched = match o {
            EmbeddingOutcome::Computed(e) => {
                let DocumentRecord { object_id, workspace_id, collab_type, encoded_state, embeddings: _ } =
                    rec;
                DocumentRecord {
                    object_id,
                    workspace_id,
                    collab_type,
                    encoded_state,
                    embeddings: Some(e),
                }
            },
            EmbeddingOutcome::Failed => rec,
        };
        proof {
            assert(enriched@ == spec_apply_outcomes(orig_recs, orig_outs)[k]);
        }
        out.push(enriched);
        proof {
            assert(out@.map_values(|rec: DocumentRecord| rec@) =~= spec_apply_outcomes(
                orig_recs,
                orig_outs,
            ).take(k + 1));
        }
    }
    proof {
        assert(out@.len() == total);
        assert(spec_apply_outcomes(orig_recs, orig_outs).take(total as int) =~= spec_apply_outcomes(
            orig_recs,
            orig_outs,
        ));
    }
    out
}

} // verus!
