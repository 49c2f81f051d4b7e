//! The access-controlled store: a capability check in front of all-or-nothing
//! persistence of document records, keyed by workspace and object id.
//!
//! Every entry point first resolves a tri-state access decision — granted,
//! denied because the workspace does not exist, or denied for an
//! insufficient role — and a denied submission leaves the store exactly as
//! it was: no partial record is ever visible after a failure.

use vstd::prelude::*;
use crate::error::{AccessDenial, Action, StoreError};
use crate::record::{check_encoded_state, check_object_rule, CollabType, DocumentRecord,
    RecordModel, spec_state_wf};

verus! {

/// One capability: a user may perform one action within one workspace.
#[derive(Clone, Copy, Debug, PartialEq, Eq, Structural)]
pub struct Grant {
    pub user: i64,
    pub workspace_id: u128,
    pub action: Action,
}

/// The store: known workspaces, capability grants, and persisted records.
/// The capability table is injected state — hosts and tests populate it —
/// rather than ambient global state.
pub struct CollabStore {
    pub workspaces: Vec<u128>,
    pub grants: Vec<Grant>,
    pub records: Vec<DocumentRecord>,
}

/// The mathematical model of the store.
pub struct StoreModel {
    pub workspaces: Seq<u128>,
    pub grants: Seq<Grant>,
    pub records: Seq<RecordModel>,
}

impl View for CollabStore {
    type V = StoreModel;

    open spec fn view(&self) -> StoreModel {
        StoreModel {
            workspaces: self.workspaces@,
            grants: self.grants@,
            records: self.records@.map_values(|r: DocumentRecord| r@),
        }
    }
}

/// Whether a record sits under this (workspace, object) key.
pub open spec fn spec_key_is(rec: RecordModel, workspace_id: u128, object_id: u128) -> bool {
    rec.workspace_id == workspace_id && rec.object_id == object_id
}

/// Whether the workspace exists.
pub open spec fn spec_workspace_exists(s: StoreModel, workspace_id: u128) -> bool {
    s.workspaces.contains(workspace_id)
}

/// Whether the user holds the capability for this action in this workspace.
pub open spec fn spec_granted(s: StoreModel, user: i64, workspace_id: u128, action: Action) -> bool {
    s.grants.contains(Grant { user, workspace_id, action })
}

/// The tri-state access decision: granted, or denied with a reason that
/// distinguishes a missing workspace from an insufficient role.
pub open spec fn spec_access_decision(
    s: StoreModel,
    user: i64,
    workspace_id: u128,
    action: Action,
) -> Result<(), AccessDenial> {
    if !spec_workspace_exists(s, workspace_id) {
        Err(AccessDenial::NoSuchWorkspace)
    } else if !spec_granted(s, user, workspace_id, action) {
        Err(AccessDenial::InsufficientRole)
    } else {
        Ok(())
    }
}

/// The first persisted record under a key, if any. With unique keys it is
/// the only one: what a subsequent read observes.
pub open spec fn spec_find(recs: Seq<RecordModel>, workspace_id: u128, object_id: u128) -> Option<
    RecordModel,
>
    decreases recs.len(),
{
    if recs.len() == 0 {
        None
    } else if spec_key_is(recs[0], workspace_id, object_id) {
        Some(recs[0])
    } else {
        spec_find(recs.drop_first(), workspace_id, object_id)
    }
}

/// Upsert: the record replaces the one sharing its key, or is appended.
pub open spec fn spec_upsert(recs: Seq<RecordModel>, r: RecordModel) -> Seq<RecordModel>
    decreases recs.len(),
{
    if recs.len() == 0 {
        seq![r]
    } else if spec_key_is(recs[0], r.workspace_id, r.object_id) {
        seq![r] + recs.drop_first()
    } else {
        seq![recs[0]] + spec_upsert(recs.drop_first(), r)
    }
}

/// A whole batch upserted in order, as one storage operation.
pub open spec fn spec_upsert_all(recs: Seq<RecordModel>, batch: Seq<RecordModel>) -> Seq<
    RecordModel,
>
    decreases batch.len(),
{
    if batch.len() == 0 {
        recs
    } else {
        spec_upsert_all(spec_upsert(recs, batch[0]), batch.drop_first())
    }
}

/// Removal: the store without the record of that key, if it was there.
pub open spec fn spec_remove_record(
    recs: Seq<RecordModel>,
    workspace_id: u128,
    object_id: u128,
) -> Seq<RecordModel>
    decreases recs.len(),
{
    if recs.len() == 0 {
        recs
    } else if spec_key_is(recs[0], workspace_id, object_id) {
        recs.drop_first()
    } else {
        seq![recs[0]] + spec_remove_record(recs.drop_first(), workspace_id, object_id)
    }
}

/// No two persisted records share a (workspace, object) key.
pub open spec fn spec_keys_unique(recs: Seq<RecordModel>) -> bool {
    forall|i: int, j: int|
        0 <= i < j < recs.len() ==> !spec_key_is(
            #[trigger] recs[i],
            (#[trigger] recs[j]).workspace_id,
            recs[j].object_id,
        )
}

/// What one single-record submission does to the store: the capability check
/// comes first; then the object/workspace identity rule; then structural
/// validation of the encoded state; only then is the record upserted, all in
/// one transaction. Every failure leaves the store untouched.
pub open spec fn spec_create_single(s: StoreModel, caller: i64, rec: RecordModel) -> (
    StoreModel,
    Result<(), StoreError>,
) {
    match spec_access_decision(s, caller, rec.workspace_id, Action::Write) {
        Err(d) => (s, Err(StoreError::PermissionDenied(d))),
        Ok(_) => {
            if rec.object_id == rec.workspace_id && rec.collab_type != CollabType::Folder {
                (s, Err(StoreError::ObjectEqualsWorkspace))
            } else if !spec_state_wf(rec.object_id, rec.collab_type, rec.encoded_state) {
                (s, Err(StoreError::StructurallyInvalidState))
            } else {
                (
                    StoreModel {
                        workspaces: s.workspaces,
                        grants: s.grants,
                        records: spec_upsert(s.records, rec),
                    },
                    Ok(()),
                )
            }
        },
    }
}

/// What one batch submission does to the store: the capability check comes
/// first; an empty accepted set is refused as nothing-to-persist; otherwise
/// the whole accepted set is persisted as one operation and the count
/// returned equals the accepted-set size.
pub open spec fn spec_create_batch(
    s: StoreModel,
    caller: i64,
    workspace_id: u128,
    batch: Seq<RecordModel>,
) -> (StoreModel, Result<int, StoreError>) {
    match spec_access_decision(s, caller, workspace_id, Action::Write) {
        Err(d) => (s, Err(StoreError::PermissionDenied(d))),
        Ok(_) => {
            if batch.len() == 0 {
                (s, Err(StoreError::NothingToPersist))
            } else {
                (
                    StoreModel {
                        workspaces: s.workspaces,
                        grants: s.grants,
                        records: spec_upsert_all(s.records, batch),
                    },
                    Ok(batch.len() as int),
                )
            }
        },
    }
}

/// With no record under the key, the upsert is an append.
pub proof fn lemma_upsert_append(recs: Seq<RecordModel>, r: RecordModel)
    requires
        forall|k: int|
            0 <= k < recs.len() ==> !spec_key_is(#[trigger] recs[k], r.workspace_id, r.object_id),
    ensures
        spec_upsert(recs, r) == recs.push(r),
    decreases recs.len(),
{
    if recs.len() == 0 {
        assert(spec_upsert(recs, r) =~= recs.push(r));
    } else {
        let tail = recs.drop_first();
        assert(forall|k: int| 0 <= k < tail.len() ==> #[trigger] tail[k] == recs[k + 1]);
        lemma_upsert_append(tail, r);
        assert(spec_upsert(recs, r) =~= recs.push(r));
    }
}

/// With the first record under the key at index `i`, the upsert replaces it
/// in place.
pub proof fn lemma_upsert_update(recs: Seq<RecordModel>, r: RecordModel, i: int)
    requires
        0 <= i < recs.len(),
        spec_key_is(recs[i], r.workspace_id, r.object_id),
        forall|k: int|
            0 <= k < i ==> !spec_key_is(#[trigger] recs[k], r.workspace_id, r.object_id),
    ensures
        spec_upsert(recs, r) == recs.update(i, r),
    decreases recs.len(),
{
    if i == 0 {
        assert(spec_upsert(recs, r) =~= recs.update(0, r));
    } else {
        let tail = recs.drop_first();
        assert(forall|k: int| 0 <= k < tail.len() ==> #[trigger] tail[k] == recs[k + 1]);
        lemma_upsert_update(tail, r, i - 1);
        assert(spec_upsert(recs, r) =~= recs.update(i, r));
    }
}

/// Everything in an upserted store is the new record or was already there.
pub proof fn lemma_upsert_membership(recs: Seq<RecordModel>, r: RecordModel)
    ensures
        forall|x: RecordModel|
            #[trigger] spec_upsert(recs, r).contains(x) ==> x == r || recs.contains(x),
    decreases recs.len(),
{
    if recs.len() > 0 {
        let tail = recs.drop_first();
        assert(forall|k: int| 0 <= k < tail.len() ==> #[trigger] tail[k] == recs[k + 1]);
        if spec_key_is(recs[0], r.workspace_id, r.object_id) {
            assert forall|x: RecordModel| #[trigger] spec_upsert(recs, r).contains(x) implies x
                == r || recs.contains(x) by {
                let u = seq![r] + tail;
                if x != r {
                    let j = choose|j: int| 0 <= j < u.len() && u[j] == x;
                    assert(recs[j] == x);
                }
            }
        } else {
            lemma_upsert_membership(tail, r);
            assert forall|x: RecordModel| #[trigger] spec_upsert(recs, r).contains(x) implies x
                == r || recs.contains(x) by {
                let u = seq![recs[0]] + spec_upsert(tail, r);
                let j = choose|j: int| 0 <= j < u.len() && u[j] == x;
                if j == 0 {
                    assert(recs[0] == x);
                    assert(recs.contains(x));
                } else {
                    assert(spec_upsert(tail, r).contains(x));
                    if x != r {
                        let k = choose|k: int| 0 <= k < tail.len() && tail[k] == x;
                        assert(recs[k + 1] == x);
                        assert(recs.contains(x));
                    }
                }
            }
        }
    }
}

/// Upserting keeps keys unique.
pub proof fn lemma_upsert_keys_unique(recs: Seq<RecordModel>, r: RecordModel)
    requires
        spec_keys_unique(recs),
    ensures
        spec_keys_unique(spec_upsert(recs, r)),
    decreases recs.len(),
{
    if recs.len() > 0 {
        let tail = recs.drop_first();
        assert(forall|k: int| 0 <= k < tail.len() ==> #[trigger] tail[k] == recs[k + 1]);
        if spec_key_is(recs[0], r.workspace_id, r.object_id) {
            let u = seq![r] + tail;
            assert forall|i: int, j: int| 0 <= i < j < u.len() implies !spec_key_is(
                #[trigger] u[i],
                (#[trigger] u[j]).workspace_id,
                u[j].object_id,
            ) by {
                if i == 0 {
                    assert(u[j] == recs[j]);
                    assert(!spec_key_is(recs[0], recs[j].workspace_id, recs[j].object_id));
                } else {
                    assert(u[i] == recs[i] && u[j] == recs[j]);
                }
            }
        } else {
            lemma_upsert_keys_unique(tail, r);
            lemma_upsert_membership(tail, r);
            let u = seq![recs[0]] + spec_upsert(tail, r);
            assert forall|i: int, j: int| 0 <= i < j < u.len() implies !spec_key_is(
                #[trigger] u[i],
                (#[trigger] u[j]).workspace_id,
                u[j].object_id,
            ) by {
                if i == 0 {
                    let x = u[j];
                    assert(x == spec_upsert(tail, r)[j - 1]);
                    assert(spec_upsert(tail, r).contains(x));
                    if x == r {
                    } else {
                        assert(tail.contains(x));
                        let k = choose|k: int| 0 <= k < tail.len() && tail[k] == x;
                        assert(recs[k + 1] == x);
                        assert(!spec_key_is(recs[0], recs[k + 1].workspace_id, recs[k
                            + 1].object_id));
                    }
                } else {
                    assert(u[i] == spec_upsert(tail, r)[i - 1] && u[j] == spec_upsert(tail, r)[j
                        - 1]);
                }
            }
        }
    }
}

/// A persisted record is visible under its key, and no other key's view
/// moves: the atomicity a caller observes after one successful submission.
pub proof fn lemma_upsert_visibility(recs: Seq<RecordModel>, r: RecordModel)
    ensures
        spec_find(spec_upsert(recs, r), r.workspace_id, r.object_id) == Some(r),
        forall|w: u128, o: u128|
            !spec_key_is(r, w, o) ==> #[trigger] spec_find(spec_upsert(recs, r), w, o)
                == spec_find(recs, w, o),
    decreases recs.len(),
{
    let u = spec_upsert(recs, r);
    if recs.len() == 0 {
        assert(u == seq![r]);
        assert(u.drop_first() =~= Seq::<RecordModel>::empty());
        assert(spec_find(u, r.workspace_id, r.object_id) == Some(r));
        assert forall|w: u128, o: u128| !spec_key_is(r, w, o) implies #[trigger] spec_find(
            u,
            w,
            o,
        ) == spec_find(recs, w, o) by {
            assert(spec_find(u.drop_first(), w, o) is None);
        }
    } else {
        let tail = recs.drop_first();
        if spec_key_is(recs[0], r.workspace_id, r.object_id) {
            assert(u == seq![r] + tail);
            assert(u[0] == r);
            assert(u.drop_first() =~= tail);
            assert(spec_find(u, r.workspace_id, r.object_id) == Some(r));
            assert forall|w: u128, o: u128| !spec_key_is(r, w, o) implies #[trigger] spec_find(
                u,
                w,
                o,
            ) == spec_find(recs, w, o) by {
                if spec_key_is(recs[0], w, o) {
                    assert(w == r.workspace_id && o == r.object_id);
                } else {
                    assert(spec_find(u, w, o) == spec_find(tail, w, o));
                    assert(spec_find(recs, w, o) == spec_find(tail, w, o));
                }
            }
        } else {
            lemma_upsert_visibility(tail, r);
            assert(u == seq![recs[0]] + spec_upsert(tail, r));
            assert(u[0] == recs[0]);
            assert(u.drop_first() =~= spec_upsert(tail, r));
            assert(spec_find(u, r.workspace_id, r.object_id) == Some(r));
            assert forall|w: u128, o: u128| !spec_key_is(r, w, o) implies #[trigger] spec_find(
                u,
                w,
                o,
            ) == spec_find(recs, w, o) by {
                if spec_key_is(recs[0], w, o) {
                } else {
                    assert(spec_find(u, w, o) == spec_find(spec_upsert(tail, r), w, o));
                    assert(spec_find(recs, w, o) == spec_find(tail, w, o));
                }
            }
        }
    }
}

/// Upserting one more batch record extends the batch operation.
pub proof fn lemma_upsert_all_snoc(recs: Seq<RecordModel>, batch: Seq<RecordModel>, r: RecordModel)
    ensures
        spec_upsert_all(recs, batch.push(r)) == spec_upsert(spec_upsert_all(recs, batch), r),
    decreases batch.len(),
{
    let w = batch.push(r);
    assert(w.len() > 0);
    assert(spec_upsert_all(recs, w) == spec_upsert_all(spec_upsert(recs, w[0]), w.drop_first()));
    if batch.len() == 0 {
        assert(w[0] == r);
        assert(w.drop_first() =~= Seq::<RecordModel>::empty());
        assert(spec_upsert_all(spec_upsert(recs, r), w.drop_first()) == spec_upsert(recs, r));
        assert(spec_upsert_all(recs, batch) == recs);
    } else {
        assert(w[0] == batch[0]);
        assert(w.drop_first() =~= batch.drop_first().push(r));
        lemma_upsert_all_snoc(spec_upsert(recs, batch[0]), batch.drop_first(), r);
        assert(spec_upsert_all(recs, batch) == spec_upsert_all(
            spec_upsert(recs, batch[0]),
            batch.drop_first(),
        ));
    }
}

/// With no record under the key, a lookup finds nothing.
pub proof fn lemma_find_none(recs: Seq<RecordModel>, workspace_id: u128, object_id: u128)
    requires
        forall|k: int|
            0 <= k < recs.len() ==> !spec_key_is(#[trigger] recs[k], workspace_id, object_id),
    ensures
        spec_find(recs, workspace_id, object_id) is None,
    decreases recs.len(),
{
    if recs.len() > 0 {
        let tail = recs.drop_first();
        assert(forall|k: int| 0 <= k < tail.len() ==> #[trigger] tail[k] == recs[k + 1]);
        lemma_find_none(tail, workspace_id, object_id);
    }
}

/// With the first record under the key at index `i`, a lookup finds it.
pub proof fn lemma_find_at(recs: Seq<RecordModel>, workspace_id: u128, object_id: u128, i: int)
    requires
        0 <= i < recs.len(),
        spec_key_is(recs[i], workspace_id, object_id),
        forall|k: int| 0 <= k < i ==> !spec_key_is(#[trigger] recs[k], workspace_id, object_id),
    ensures
        spec_find(recs, workspace_id, object_id) == Some(recs[i]),
    decreases recs.len(),
{
    if i > 0 {
        let tail = recs.drop_first();
        assert(forall|k: int| 0 <= k < tail.len() ==> #[trigger] tail[k] == recs[k + 1]);
        lemma_find_at(tail, workspace_id, object_id, i - 1);
    }
}

/// With no record under the key, a removal changes nothing.
pub proof fn lemma_remove_none(recs: Seq<RecordModel>, workspace_id: u128, object_id: u128)
    requires
        forall|k: int|
            0 <= k < recs.len() ==> !spec_key_is(#[trigger] recs[k], workspace_id, object_id),
    ensures
        spec_remove_record(recs, workspace_id, object_id) == recs,
    decreases recs.len(),
{
    if recs.len() > 0 {
        let tail = recs.drop_first();
        assert(forall|k: int| 0 <= k < tail.len() ==> #[trigger] tail[k] == recs[k + 1]);
        lemma_remove_none(tail, workspace_id, object_id);
        assert(spec_remove_record(recs, workspace_id, object_id) =~= recs);
    }
}

/// With the first record under the key at index `i`, a removal deletes it.
pub proof fn lemma_remove_at(recs: Seq<RecordModel>, workspace_id: u128, object_id: u128, i: int)
    requires
        0 <= i < recs.len(),
        spec_key_is(recs[i], workspace_id, object_id),
        forall|k: int| 0 <= k < i ==> !spec_key_is(#[trigger] recs[k], workspace_id, object_id),
    ensures
        spec_remove_record(recs, workspace_id, object_id) == recs.remove(i),
    decreases recs.len(),
{
    if i == 0 {
        assert(spec_remove_record(recs, workspace_id, object_id) =~= recs.remove(0));
    } else {
        let tail = recs.drop_first();
        assert(forall|k: int| 0 <= k < tail.len() ==> #[trigger] tail[k] == recs[k + 1]);
        lemma_remove_at(tail, workspace_id, object_id, i - 1);
        assert(seq![recs[0]] + tail.remove(i - 1) =~= recs.remove(i));
    }
}

/// Removing a record keeps the remaining keys unique.
pub proof fn lemma_remove_keys_unique(recs: Seq<RecordModel>, i: int)
    requires
        spec_keys_unique(recs),
        0 <= i < recs.len(),
    ensures
        spec_keys_unique(recs.remove(i)),
{
    let u = recs.remove(i);
    assert forall|a: int, b: int| 0 <= a < b < u.len() implies !spec_key_is(
        #[trigger] u[a],
        (#[trigger] u[b]).workspace_id,
        u[b].object_id,
    ) by {
        let a2 = if a < i {
            a
        } else {
            a + 1
        };
        let b2 = if b < i {
            b
        } else {
            b + 1
        };
        assert(u[a] == recs[a2] && u[b] == recs[b2]);
        assert(!spec_key_is(recs[a2], recs[b2].workspace_id, recs[b2].object_id));
    }
}

/// Permission boundary: a caller denied Write access has a single-record
/// submission rejected with the denial, and the store — hence what any read
/// can observe — is exactly what it was.
pub proof fn lemma_permission_boundary(s: StoreModel, caller: i64, rec: RecordModel)
    requires
        spec_access_decision(s, caller, rec.workspace_id, Action::Write) is Err,
    ensures
        ({
            let (s2, r) = spec_create_single(s, caller, rec);
            &&& s2 == s
            &&& r == Err::<(), StoreError>(
                StoreError::PermissionDenied(
                    spec_access_decision(s, caller, rec.workspace_id, Action::Write)->Err_0,
                ),
            )
            &&& spec_find(s2.records, rec.workspace_id, rec.object_id) == spec_find(
                s.records,
                rec.workspace_id,
                rec.object_id,
            )
        }),
{
}

/// The permission boundary holds for whole batches too: a denied caller's
/// batch persists nothing.
pub proof fn lemma_batch_permission_boundary(
    s: StoreModel,
    caller: i64,
    workspace_id: u128,
    batch: Seq<RecordModel>,
)
    requires
        spec_access_decision(s, caller, workspace_id, Action::Write) is Err,
    ensures
        ({
            let (s2, r) = spec_create_batch(s, caller, workspace_id, batch);
            &&& s2 == s
            &&& r == Err::<int, StoreError>(
                StoreError::PermissionDenied(
                    spec_access_decision(s, caller, workspace_id, Action::Write)->Err_0,
                ),
            )
        }),
{
}

/// Object/workspace equality invariant: an authorized single-record
/// submission whose object id equals its workspace id is rejected — with a
/// malformed-input kind and an untouched store — for every collab type other
/// than Folder.
pub proof fn lemma_object_equals_workspace_rejected(s: StoreModel, caller: i64, rec: RecordModel)
    requires
        spec_access_decision(s, caller, rec.workspace_id, Action::Write) is Ok,
        rec.object_id == rec.workspace_id,
        rec.collab_type != CollabType::Folder,
    ensures
        spec_create_single(s, caller, rec) == (
            s,
            Err::<(), StoreError>(StoreError::ObjectEqualsWorkspace),
        ),
        crate::error::spec_store_error_kind(StoreError::ObjectEqualsWorkspace)
            == crate::error::ErrorKind::MalformedInput,
{
}

impl CollabStore {
    /// Keys of persisted records stay unique, so a key denotes one record.
    pub open spec fn wf(self) -> bool {
        spec_keys_unique(self@.records)
    }

    /// An empty store: no workspaces, no grants, no records.
    pub fn new() -> (r: CollabStore)
        ensures
            r.wf(),
            r@.workspaces =~= Seq::<u128>::empty(),
            r@.grants =~= Seq::<Grant>::empty(),
            r@.records =~= Seq::<RecordModel>::empty(),
    {
        let r = CollabStore { workspaces: Vec::new(), grants: Vec::new(), records: Vec::new() };
        proof {
            assert(r@.records =~= Seq::<RecordModel>::empty());
        }
        r
    }

    /// Registers a workspace.
    pub fn add_workspace(&mut self, workspace_id: u128)
        requires
            old(self).wf(),
        ensures
            final(self).wf(),
            final(self)@.workspaces == old(self)@.workspaces.push(workspace_id),
            final(self)@.grants == old(self)@.grants,
            final(self)@.records == old(self)@.records,
            spec_workspace_exists(final(self)@, workspace_id),
            forall|w: u128|
                spec_workspace_exists(final(self)@, w) == (spec_workspace_exists(old(self)@, w)
                    || w == workspace_id),
    {
        self.workspaces.push(workspace_id);
        proof {
            let oldseq = old(self).workspaces@;
            let newseq = self.workspaces@;
            assert forall|w: u128|
                spec_workspace_exists(self@, w) == (spec_workspace_exists(old(self)@, w) || w
                    == workspace_id) by {
                if spec_workspace_exists(old(self)@, w) {
                    let j = choose|j: int| 0 <= j < oldseq.len() && oldseq[j] == w;
                    assert(newseq[j] == w);
                    assert(newseq.contains(w));
                }
                if w == workspace_id {
                    assert(newseq[oldseq.len() as int] == w);
                    assert(newseq.contains(w));
                }
                if spec_workspace_exists(self@, w) && w != workspace_id {
                    let j = choose|j: int| 0 <= j < newseq.len() && newseq[j] == w;
                    assert(j < oldseq.len());
                    assert(oldseq[j] == w);
                    assert(oldseq.contains(w));
                }
            }
        }
    }

    /// Grants a user one capability in one workspace.
    pub fn grant(&mut self, user: i64, workspace_id: u128, action: Action)
        requires
            old(self).wf(),
        ensures
            final(self).wf(),
            final(self)@.grants == old(self)@.grants.push(Grant { user, workspace_id, action }),
            final(self)@.workspaces == old(self)@.workspaces,
            final(self)@.records == old(self)@.records,
            spec_granted(final(self)@, user, workspace_id, action),
            forall|u: i64, w: u128, a: Action|
                spec_granted(final(self)@, u, w, a) == (spec_granted(old(self)@, u, w, a) || (u
                    == user && w == workspace_id && a == action)),
    {
        self.grants.push(Grant { user, workspace_id, action });
        proof {
            let g = Grant { user, workspace_id, action };
            let oldseq = old(self).grants@;
            let newseq = self.grants@;
            assert(newseq[oldseq.len() as int] == g);
            assert(newseq.contains(g));
            assert forall|u: i64, w: u128, a: Action|
                spec_granted(self@, u, w, a) == (spec_granted(old(self)@, u, w, a) || (u == user
                    && w == workspace_id && a == action)) by {
                let wanted = Grant { user: u, workspace_id: w, action: a };
                if spec_granted(old(self)@, u, w, a) {
                    let j = choose|j: int| 0 <= j < oldseq.len() && oldseq[j] == wanted;
                    assert(newseq[j] == wanted);
                    assert(newseq.contains(wanted));
                }
                if u == user && w == workspace_id && a == action {
                    assert(newseq.contains(wanted));
                }
                if spec_granted(self@, u, w, a) && wanted != g {
                    let j = choose|j: int| 0 <= j < newseq.len() && newseq[j] == wanted;
                    assert(j < oldseq.len());
                    assert(oldseq[j] == wanted);
                    assert(oldseq.contains(wanted));
                }
            }
        }
    }

    /// Resolves the tri-state access decision for one caller and action.
    pub fn enforce_action(&self, caller: i64, workspace_id: u128, action: Action) -> (r: Result<
        (),
        AccessDenial,
    >)
        ensures
            r == spec_access_decision(self@, caller, workspace_id, action),
    {
        let mut found_ws = false;
        let mut i: usize = 0;
        while i < self.workspaces.len()
            invariant
                i <= self.workspaces@.len(),
                found_ws ==> self.workspaces@.contains(workspace_id),
                !found_ws ==> forall|k: int| 0 <= k < i ==> self.workspaces@[k] != workspace_id,
            decreases self.workspaces@.len() - i,
        {
            if self.workspaces[i] == workspace_id {
                found_ws = true;
                proof {
                    assert(self.workspaces@[i as int] == workspace_id);
                }
            }
            i = i + 1;
        }
        if !found_ws {
            proof {
                assert(!self.workspaces@.contains(workspace_id));
            }
            return Err(AccessDenial::NoSuchWorkspace);
        }
        let mut j: usize = 0;
        while j < self.grants.len()
            invariant
                j <= self.grants@.len(),
                self.workspaces@.contains(workspace_id),
                forall|k: int|
                    0 <= k < j ==> #[trigger] self.grants@[k] != (Grant {
                        user: caller,
                        workspace_id,
                        action,
                    }),
            decreases self.grants@.len() - j,
        {
            let g = &self.grants[j];
            if g.user == caller && g.workspace_id == workspace_id && g.action == action {
                proof {
                    assert(self.grants@[j as int] == Grant { user: caller, workspace_id, action });
                    assert(self.grants@.contains(Grant { user: caller, workspace_id, action }));
                }
                return Ok(());
            }
            j = j + 1;
        }
        proof {
            assert(!self.grants@.contains(Grant { user: caller, workspace_id, action }));
        }
        Err(AccessDenial::InsufficientRole)
    }

    /// Index of the record holding a key, if one does.
    fn find_index(&self, workspace_id: u128, object_id: u128) -> (r: Option<usize>)
        ensures
            match r {
                Some(i) => {
                    &&& i < self@.records.len()
                    &&& spec_key_is(self@.records[i as int], workspace_id, object_id)
                    &&& forall|k: int|
                        0 <= k < i ==> !spec_key_is(
                            #[trigger] self@.records[k],
                            workspace_id,
                            object_id,
                        )
                },
                None => forall|k: int|
                    0 <= k < self@.records.len() ==> !spec_key_is(
                        #[trigger] self@.records[k],
                        workspace_id,
                        object_id,
                    ),
            },
    {
        let mut i: usize = 0;
        while i < self.records.len()
            invariant
                i <= self.records@.len(),
                forall|k: int|
                    0 <= k < i ==> !spec_key_is(
                        #[trigger] self@.records[k],
                        workspace_id,
                        object_id,
                    ),
            decreases self.records@.len() - i,
        {
            let rec = &self.records[i];
            proof {
                assert(self@.records[i as int] == self.records@[i as int]@);
            }
            if rec.workspace_id == workspace_id && rec.object_id == object_id {
                return Some(i);
            }
            i = i + 1;
        }
        None
    }

    /// Upserts one record, replacing the record of its key if present.
    fn upsert(&mut self, record: DocumentRecord)
        ensures
            final(self)@.records == spec_upsert(old(self)@.records, record@),
            final(self)@.workspaces == old(self)@.workspaces,
            final(self)@.grants == old(self)@.grants,
    {
        match self.find_index(record.workspace_id, record.object_id) {
            Some(i) => {
                let ghost pre = self@.records;
                proof {
                    lemma_upsert_update(pre, record@, i as int);
                }
                self.records.remove(i);
                self.records.insert(i, record);
                proof {
                    assert(self@.records =~= pre.update(i as int, record@));
                }
            },
            None => {
                let ghost pre = self@.records;
                proof {
                    lemma_upsert_append(pre, record@);
                }
                self.records.push(record);
                proof {
                    assert(self@.records =~= pre.push(record@));
                }
            },
        }
    }

    /// Single-record submission: capability check, object/workspace identity
    /// rule, structural validation, then one atomic upsert. Any failure
    /// leaves the store untouched; embeddings were attached before this call.
    pub fn create_single(&mut self, caller: i64, record: DocumentRecord) -> (r: Result<
        (),
        StoreError,
    >)
        requires
            old(self).wf(),
        ensures
            final(self).wf(),
            ({
                let (m2, res) = spec_create_single(old(self)@, caller, record@);
                final(self)@ == m2 && r == res
            }),
    {
        match self.enforce_action(caller, record.workspace_id, Action::Write) {
            Err(d) => Err(StoreError::PermissionDenied(d)),
            Ok(_) => {
                if !check_object_rule(&record) {
                    return Err(StoreError::ObjectEqualsWorkspace);
                }
                if !check_encoded_state(
                    record.object_id,
                    &record.collab_type,
                    record.encoded_state.as_slice(),
                ) {
                    return Err(StoreError::StructurallyInvalidState);
                }
                proof {
                    lemma_upsert_keys_unique(self@.records, record@);
                }
                self.upsert(record);
                Ok(())
            },
        }
    }

    /// Batch submission: capability check, then the validator's whole
    /// accepted set persisted as one operation. The returned count equals
    /// the accepted-set size — partial persistence is never reported as
    /// success — and an empty set is refused as nothing-to-persist.
    pub fn create_batch(&mut self, caller: i64, workspace_id: u128, batch: Vec<DocumentRecord>) -> (r:
        Result<usize, StoreError>)
        requires
            old(self).wf(),
            forall|i: int|
                0 <= i < batch@.len() ==> (#[trigger] batch@[i]).workspace_id == workspace_id,
        ensures
            final(self).wf(),
            ({
                let (m2, res) = spec_create_batch(
                    old(self)@,
                    caller,
                    workspace_id,
                    batch@.map_values(|rec: DocumentRecord| rec@),
                );
                &&& final(self)@ == m2
                &&& (match (r, res) {
                    (Ok(n), Ok(m)) => n as int == m && n == batch@.len(),
                    (Err(e1), Err(e2)) => e1 == e2,
                    _ => false,
                })
            }),
    {
        let ghost batch_views = batch@.map_values(|rec: DocumentRecord| rec@);
        match self.enforce_action(caller, workspace_id, Action::Write) {
            Err(d) => Err(StoreError::PermissionDenied(d)),
            Ok(_) => {
                let n = batch.len();
                if n == 0 {
                    return Err(StoreError::NothingToPersist);
                }
                let mut batch = batch;
                let ghost pre = self@.records;
                let mut idx: usize = 0;
                while batch.len() > 0
                    invariant
                        self.wf(),
                        idx <= batch_views.len(),
                        batch_views.len() == n,
                        batch@.map_values(|rec: DocumentRecord| rec@) =~= batch_views.skip(
                            idx as int,
                        ),
                        self@.records == spec_upsert_all(pre, batch_views.take(idx as int)),
                        self@.workspaces == old(self)@.workspaces,
                        self@.grants == old(self)@.grants,
                    decreases batch@.len(),
                {
                    let ghost pre_batch = batch@;
                    proof {
                        assert(pre_batch.map_values(|rec: DocumentRecord| rec@).len()
                            == pre_batch.len());
                        assert(batch_views.skip(idx as int).len() == batch_views.len() - idx);
                    }
                    let rec = batch.remove(0);
                    proof {
                        assert(batch_views.skip(idx as int)[0] == batch_views[idx as int]);
                        assert(pre_batch.map_values(|rec: DocumentRecord| rec@)[0] == rec@);
                        assert(batch@ =~= pre_batch.skip(1));
                        assert(batch@.map_values(|rec: DocumentRecord| rec@) =~= pre_batch
                            .map_values(|rec: DocumentRecord| rec@).skip(1));
                        assert(batch@.map_values(|rec: DocumentRecord| rec@) =~= batch_views.skip(
                            idx as int + 1,
                        ));
                        lemma_upsert_keys_unique(self@.records, rec@);
                        lemma_upsert_all_snoc(pre, batch_views.take(idx as int), rec@);
                        assert(batch_views.take(idx as int).push(rec@) =~= batch_views.take(
                            idx as int + 1,
                        ));
                    }
                    self.upsert(rec);
                    idx = idx + 1;
                }
                proof {
                    assert(batch_views.take(idx as int) =~= batch_views);
                }
                Ok(n)
            },
        }
    }

    /// Reads the record under a key, behind a Read capability check.
    pub fn get_record(&self, caller: i64, workspace_id: u128, object_id: u128) -> (r: Result<
        &DocumentRecord,
        StoreError,
    >)
        requires
            self.wf(),
        ensures
            match spec_access_decision(self@, caller, workspace_id, Action::Read) {
                Err(d) => r == Err::<&DocumentRecord, StoreError>(StoreError::PermissionDenied(d)),
                Ok(_) => match spec_find(self@.records, workspace_id, object_id) {
                    None => r == Err::<&DocumentRecord, StoreError>(StoreError::RecordNotFound),
                    Some(m) => r is Ok && r->Ok_0@ == m,
                },
            },
    {
        match self.enforce_action(caller, workspace_id, Action::Read) {
            Err(d) => Err(StoreError::PermissionDenied(d)),
            Ok(_) => {
                match self.find_index(workspace_id, object_id) {
                    Some(i) => {
                        proof {
                            lemma_find_at(self@.records, workspace_id, object_id, i as int);
                            assert(self@.records[i as int] == self.records@[i as int]@);
                        }
                        Ok(&self.records[i])
                    },
                    None => {
                        proof {
                            lemma_find_none(self@.records, workspace_id, object_id);
                        }
                        Err(StoreError::RecordNotFound)
                    },
                }
            },
        }
    }

    /// Deletes the record under a key, behind a Delete capability check.
    /// Deleting an absent record succeeds and changes nothing, as bulk
    /// storage deletion does.
    pub fn delete_record(&mut self, caller: i64, workspace_id: u128, object_id: u128) -> (r:
        Result<(), StoreError>)
        requires
            old(self).wf(),
        ensures
            final(self).wf(),
            ({
                let m2 = final(self)@;
                match spec_access_decision(old(self)@, caller, workspace_id, Action::Delete) {
                    Err(d) => r == Err::<(), StoreError>(StoreError::PermissionDenied(d)) && m2
                        == old(self)@,
                    Ok(_) => r == Ok::<(), StoreError>(()) && m2.records == spec_remove_record(
                        old(self)@.records,
                        workspace_id,
                        object_id,
                    ) && m2.workspaces == old(self)@.workspaces && m2.grants == old(self)@.grants,
                }
            }),
    {
        match self.enforce_action(caller, workspace_id, Action::Delete) {
            Err(d) => Err(StoreError::PermissionDenied(d)),
            Ok(_) => {
                match self.find_index(workspace_id, object_id) {
                    Some(i) => {
                        let ghost pre = self@.records;
                        proof {
                            lemma_remove_at(pre, workspace_id, object_id, i as int);
                            lemma_remove_keys_unique(pre, i as int);
                        }
                        self.records.remove(i);
                        proof {
                            assert(self@.records =~= pre.remove(i as int));
                        }
                    },
                    None => {
                        proof {
                            lemma_remove_none(self@.records, workspace_id, object_id);
                        }
                    },
                }
                Ok(())
            },
        }
    }

    /// How many records are persisted.
    pub fn record_count(&self) -> (r: usize)
        ensures
            r == self@.records.len(),
    {
        self.records.len()
    }
}

} // verus!
