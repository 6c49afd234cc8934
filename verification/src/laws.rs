use vstd::prelude::*;

use crate::assoc::{distinct_keys, pairs_to_map};
use crate::cache::{
    contains_state, distinct_state_ids, lemma_mutations_after_latest, mutations_after, BatchView,
};
use crate::db_types::{CredentialView, MutationView};
use crate::store::credential_pairs;
use crate::sync::{
    changes_or_empty, commit_body, filter_remote, ids_set, lemma_filter_remote_not_seen,
    lemma_round_applied_touched_determined, round_applied, success_status, sync_round,
    SyncRequestView, SyncResponseView,
};

verus! {

/// Re-announcing the newest state id with nothing pending changes nothing:
/// the same state id comes back, with no delta, no snapshot and no id
/// corrections, and neither the store nor the log moves.
pub proof fn lemma_idempotent_reannouncement(
    store_pre: Map<Seq<char>, Seq<char>>,
    cache_pre: Seq<BatchView>,
    req: SyncRequestView,
    store_post: Map<Seq<char>, Seq<char>>,
    cache_post: Seq<BatchView>,
    resp: SyncResponseView,
)
    requires
        sync_round(store_pre, cache_pre, req, store_post, cache_post, resp),
        req.mutations.len() == 0,
        cache_pre.len() > 0,
        cache_pre.last().state_id == req.state_id,
    ensures
        store_post == store_pre,
        cache_post == cache_pre,
        resp.status == success_status(),
        resp.state_id == Some(req.state_id),
        resp.mutations is None,
        resp.store is None,
        resp.id_changes is None,
{
}

/// The state id a round returns is the newest in the log, so a client that
/// presents it next, before any other client commits, is served neither a
/// remote delta nor a snapshot: repeated rounds from one client converge.
pub proof fn lemma_monotonic_convergence(
    store_pre: Map<Seq<char>, Seq<char>>,
    cache_pre: Seq<BatchView>,
    req: SyncRequestView,
    store_post: Map<Seq<char>, Seq<char>>,
    cache_post: Seq<BatchView>,
    resp: SyncResponseView,
)
    requires
        sync_round(store_pre, cache_pre, req, store_post, cache_post, resp),
        distinct_state_ids(cache_pre),
        cache_pre.len() > 0,
        req.state_id == cache_pre.last().state_id,
    ensures
        resp.mutations is None,
        resp.store is None,
        resp.status == success_status(),
        cache_post.len() > 0,
        resp.state_id == Some(cache_post.last().state_id),
{
    assert(cache_pre[cache_pre.len() - 1].state_id == req.state_id);
    assert(contains_state(cache_pre, req.state_id));
    if !(req.mutations.len() == 0 && cache_pre.len() > 0 && cache_pre.last().state_id
        == req.state_id) {
        lemma_mutations_after_latest(cache_pre);
        let kept = cache_post.last().mutations;
        let changes = changes_or_empty(resp.id_changes);
        let tids = choose|t: Seq<Seq<char>>|
            commit_body(store_pre, cache_pre, req, store_post, resp, kept, changes, t);
        assert(filter_remote(ids_set(tids), mutations_after(cache_pre, req.state_id)).len()
            == 0);
    }
}

/// Adding a credential whose id is already stored never fails the round:
/// exactly one id correction maps the submitted id to a freshly generated,
/// previously absent id, and the store gains the credential under the new
/// id only, leaving the old credential as it was.
pub proof fn lemma_id_collision_self_healing(
    store_pre: Map<Seq<char>, Seq<char>>,
    cache_pre: Seq<BatchView>,
    req: SyncRequestView,
    store_post: Map<Seq<char>, Seq<char>>,
    cache_post: Seq<BatchView>,
    resp: SyncResponseView,
    c: CredentialView,
)
    requires
        sync_round(store_pre, cache_pre, req, store_post, cache_post, resp),
        req.mutations == seq![MutationView::Add { credential: c }],
        store_pre.contains_key(c.id),
    ensures
        resp.status == success_status(),
        resp.id_changes matches Some(cs) && {
            &&& cs.len() == 1
            &&& cs[0].0 == c.id
            &&& cs[0].1 != c.id
            &&& !store_pre.contains_key(cs[0].1)
            &&& store_post == store_pre.insert(cs[0].1, c.value)
        },
{
    reveal_with_fuel(round_applied, 2);
    let kept = cache_post.last().mutations;
    let changes = changes_or_empty(resp.id_changes);
    let tids = choose|t: Seq<Seq<char>>|
        commit_body(store_pre, cache_pre, req, store_post, resp, kept, changes, t);
    assert(req.mutations[0] == MutationView::Add { credential: c });
    assert(req.mutations.drop_first() =~= Seq::<MutationView>::empty());
    assert(round_applied(store_pre, req.mutations, store_post, kept, changes, tids));
    match kept[0] {
        MutationView::Add { credential: corrected } => {
            assert(round_applied(
                store_pre.insert(corrected.id, c.value),
                req.mutations.drop_first(),
                store_post,
                kept.drop_first(),
                changes.drop_first(),
                tids.drop_first(),
            ));
            assert(changes.drop_first() == Seq::<(Seq<char>, Seq<char>)>::empty());
            assert(changes.len() == 1);
            assert(resp.id_changes is Some);
        },
        _ => {
            assert(false);
        },
    }
}

/// A claimed state id the log does not know yields the full store snapshot
/// after the client's own mutations were applied, and no remote delta,
/// whatever the client sent along.
pub proof fn lemma_unknown_state_full_snapshot(
    store_pre: Map<Seq<char>, Seq<char>>,
    cache_pre: Seq<BatchView>,
    req: SyncRequestView,
    store_post: Map<Seq<char>, Seq<char>>,
    cache_post: Seq<BatchView>,
    resp: SyncResponseView,
)
    requires
        sync_round(store_pre, cache_pre, req, store_post, cache_post, resp),
        !contains_state(cache_pre, req.state_id),
    ensures
        resp.status == success_status(),
        resp.mutations is None,
        resp.store matches Some(s) && {
            &&& distinct_keys(credential_pairs(s))
            &&& pairs_to_map(credential_pairs(s)) == store_post
        },
{
    if req.mutations.len() == 0 && cache_pre.len() > 0 && cache_pre.last().state_id
        == req.state_id {
        assert(cache_pre[cache_pre.len() - 1].state_id == req.state_id);
        assert(contains_state(cache_pre, req.state_id));
        assert(false);
    }
    let kept = cache_post.last().mutations;
    let changes = changes_or_empty(resp.id_changes);
    let tids = choose|t: Seq<Seq<char>>|
        commit_body(store_pre, cache_pre, req, store_post, resp, kept, changes, t);
}

/// The remote delta never echoes a change for an id the client's own round
/// touched, ids of corrected or dropped mutations included: whatever the
/// client just decided about a credential wins over older remote history.
pub proof fn lemma_overridden_remote_suppression(
    store_pre: Map<Seq<char>, Seq<char>>,
    cache_pre: Seq<BatchView>,
    req: SyncRequestView,
    store_post: Map<Seq<char>, Seq<char>>,
    cache_post: Seq<BatchView>,
    resp: SyncResponseView,
    tids: Seq<Seq<char>>,
)
    requires
        sync_round(store_pre, cache_pre, req, store_post, cache_post, resp),
        round_applied(
            store_pre,
            req.mutations,
            store_post,
            cache_post.last().mutations,
            changes_or_empty(resp.id_changes),
            tids,
        ),
    ensures
        resp.mutations matches Some(ms) ==> forall|j: int|
            0 <= j < ms.len() ==> !ids_set(tids).contains((#[trigger] ms[j]).key()),
{
    if resp.mutations is Some {
        let ms = match resp.mutations {
            Some(ms) => ms,
            None => Seq::empty(),
        };
        let kept = cache_post.last().mutations;
        let changes = changes_or_empty(resp.id_changes);
        let t0 = choose|t: Seq<Seq<char>>|
            commit_body(store_pre, cache_pre, req, store_post, resp, kept, changes, t);
        lemma_round_applied_touched_determined(
            store_pre,
            req.mutations,
            store_post,
            kept,
            changes,
            tids,
            t0,
        );
        let remote = mutations_after(cache_pre, req.state_id);
        assert(ms == filter_remote(ids_set(t0), remote));
        assert forall|j: int|
            0 <= j < ms.len() implies !ids_set(tids).contains((#[trigger] ms[j]).key()) by {
            lemma_filter_remote_not_seen(ids_set(t0), remote, j);
        }
    }
}

/// A `Modify` or `Delete` of an id the store does not hold is dropped: the
/// committed batch is empty, no id correction is reported, the store keeps
/// its value, and the round still succeeds with a fresh, valid state id.
pub proof fn lemma_missing_item_tolerance(
    store_pre: Map<Seq<char>, Seq<char>>,
    cache_pre: Seq<BatchView>,
    req: SyncRequestView,
    store_post: Map<Seq<char>, Seq<char>>,
    cache_post: Seq<BatchView>,
    resp: SyncResponseView,
    m: MutationView,
)
    requires
        sync_round(store_pre, cache_pre, req, store_post, cache_post, resp),
        req.mutations == seq![m],
        m is Modify || m is Delete,
        !store_pre.contains_key(m.key()),
    ensures
        resp.status == success_status(),
        store_post == store_pre,
        cache_post.last().mutations == Seq::<MutationView>::empty(),
        resp.id_changes is None,
        resp.state_id matches Some(sid) && contains_state(cache_post, sid),
{
    reveal_with_fuel(round_applied, 2);
    let kept = cache_post.last().mutations;
    let changes = changes_or_empty(resp.id_changes);
    let tids = choose|t: Seq<Seq<char>>|
        commit_body(store_pre, cache_pre, req, store_post, resp, kept, changes, t);
    assert(req.mutations[0] == m);
    assert(req.mutations.drop_first() =~= Seq::<MutationView>::empty());
    assert(round_applied(store_pre, req.mutations, store_post, kept, changes, tids));
    assert(round_applied(
        store_pre,
        req.mutations.drop_first(),
        store_post,
        kept,
        changes,
        tids.drop_first(),
    ));
    assert(changes.len() == 0);
    match resp.state_id {
        Some(sid) => {
            assert(cache_post[cache_post.len() - 1].state_id == sid);
            assert(contains_state(cache_post, sid));
        },
        None => {
            assert(false);
        },
    }
}

} // verus!
