use vstd::prelude::*;

use crate::assoc::{distinct_keys, pairs_to_map};
use crate::cache::{contains_state, mutations_after, BatchView};
use crate::database::Databases;
use crate::db_types::{
    lemma_mutations_view_index, lemma_mutations_view_len, mutations_view, Credential,
    CredentialView, Mutation, MutationView,
};
use crate::error::ErrorView;
use crate::store::{apply_outcome, apply_result_view, credential_pairs, credentials_view};

verus! {

/// One sync request: the state id the client last saw and its pending
/// mutations, oldest first.
pub struct SyncRequest {
    pub state_id: String,
    pub mutations: Vec<Mutation>,
}

/// Mathematical model of a request.
pub struct SyncRequestView {
    pub state_id: Seq<char>,
    pub mutations: Seq<MutationView>,
}

impl View for SyncRequest {
    type V = SyncRequestView;

    open spec fn view(&self) -> SyncRequestView {
        SyncRequestView { state_id: self.state_id@, mutations: mutations_view(self.mutations@) }
    }
}

/// The views of recorded id corrections.
pub open spec fn changes_view(cs: Seq<(String, String)>) -> Seq<(Seq<char>, Seq<char>)> {
    cs.map_values(|p: (String, String)| (p.0@, p.1@))
}

pub broadcast proof fn lemma_changes_view_len(cs: Seq<(String, String)>)
    ensures
        (#[trigger] changes_view(cs)).len() == cs.len(),
{
}

pub broadcast proof fn lemma_changes_view_index(cs: Seq<(String, String)>, j: int)
    requires
        0 <= j < cs.len(),
    ensures
        #[trigger] changes_view(cs)[j] == (cs[j].0@, cs[j].1@),
{
}

/// One sync response. At most one of `mutations` (the remote delta) and
/// `store` (the full snapshot) is present.
pub struct SyncResponse {
    pub status: String,
    pub state_id: Option<String>,
    pub mutations: Option<Vec<Mutation>>,
    pub store: Option<Vec<Credential>>,
    pub id_changes: Option<Vec<(String, String)>>,
}

/// Mathematical model of a response.
pub struct SyncResponseView {
    pub status: Seq<char>,
    pub state_id: Option<Seq<char>>,
    pub mutations: Option<Seq<MutationView>>,
    pub store: Option<Seq<CredentialView>>,
    pub id_changes: Option<Seq<(Seq<char>, Seq<char>)>>,
}

impl View for SyncResponse {
    type V = SyncResponseView;

    open spec fn view(&self) -> SyncResponseView {
        SyncResponseView {
            status: self.status@,
            state_id: match self.state_id {
                Some(s) => Some(s@),
                None => None,
            },
            mutations: match self.mutations {
                Some(ms) => Some(mutations_view(ms@)),
                None => None,
            },
            store: match self.store {
                Some(cs) => Some(credentials_view(cs@)),
                None => None,
            },
            id_changes: match self.id_changes {
                Some(cs) => Some(changes_view(cs@)),
                None => None,
            },
        }
    }
}

impl Default for SyncResponse {
    fn default() -> (r: Self)
        ensures
            r@ == (SyncResponseView {
                status: Seq::<char>::empty(),
                state_id: None,
                mutations: None,
                store: None,
                id_changes: None,
            }),
    {
        SyncResponse {
            status: String::new(),
            state_id: None,
            mutations: None,
            store: None,
            id_changes: None,
        }
    }
}

impl SyncResponse {
    /// Record one id correction, creating the list on first use.
    pub fn add_id_change(&mut self, id: &String, new_id: &String)
        ensures
            final(self)@.status == old(self)@.status,
            final(self)@.state_id == old(self)@.state_id,
            final(self)@.mutations == old(self)@.mutations,
            final(self)@.store == old(self)@.store,
            final(self)@.id_changes == Some(
                changes_or_empty(old(self)@.id_changes).push((id@, new_id@)),
            ),
    {
        broadcast use lemma_changes_view_len, lemma_changes_view_index;

        let prior = self.id_changes.take();
        let mut changes: Vec<(String, String)> = match prior {
            Some(changes) => changes,
            None => Vec::new(),
        };
        let ghost gc = changes@;
        changes.push((id.clone(), new_id.clone()));
        proof {
            assert(changes_view(changes@) =~= changes_view(gc).push((id@, new_id@)));
            assert(changes_view(Seq::<(String, String)>::empty()) =~= Seq::<
                (Seq<char>, Seq<char>),
            >::empty());
        }
        self.id_changes = Some(changes);
    }
}

/// The recorded id corrections, or none at all.
pub open spec fn changes_or_empty(c: Option<Seq<(Seq<char>, Seq<char>)>>) -> Seq<
    (Seq<char>, Seq<char>),
> {
    match c {
        Some(cs) => cs,
        None => Seq::empty(),
    }
}

/// The status a round that went through reports.
pub open spec fn success_status() -> Seq<char> {
    "success"@
}

/// How applying a client's batch, left to right, relates the store before
/// and after to the batch that is kept for logging, the id corrections
/// that are reported, and the ids the batch touches: an `Add` whose id is
/// taken is kept under a fresh id, recorded as a correction and touches the
/// corrected id; a `Modify` or `Delete` whose id is absent is dropped from
/// the batch but still touches its id; everything else is kept as
/// submitted and touches its own id.
pub open spec fn round_applied(
    pre: Map<Seq<char>, Seq<char>>,
    ms: Seq<MutationView>,
    post: Map<Seq<char>, Seq<char>>,
    kept: Seq<MutationView>,
    changes: Seq<(Seq<char>, Seq<char>)>,
    tids: Seq<Seq<char>>,
) -> bool
    decreases ms.len(),
{
    if ms.len() == 0 {
        &&& post == pre
        &&& kept == Seq::<MutationView>::empty()
        &&& changes == Seq::<(Seq<char>, Seq<char>)>::empty()
        &&& tids == Seq::<Seq<char>>::empty()
    } else {
        let m = ms[0];
        let rest = ms.drop_first();
        &&& tids.len() >= 1
        &&& match m {
            MutationView::Add { credential } => {
                if !pre.contains_key(credential.id) {
                    &&& kept.len() >= 1
                    &&& kept[0] == m
                    &&& tids[0] == credential.id
                    &&& round_applied(
                        pre.insert(credential.id, credential.value),
                        rest,
                        post,
                        kept.drop_first(),
                        changes,
                        tids.drop_first(),
                    )
                } else {
                    &&& kept.len() >= 1
                    &&& changes.len() >= 1
                    &&& kept[0] matches MutationView::Add { credential: corrected }
                    &&& corrected.value == credential.value
                    &&& !pre.contains_key(corrected.id)
                    &&& changes[0] == (credential.id, corrected.id)
                    &&& tids[0] == corrected.id
                    &&& round_applied(
                        pre.insert(corrected.id, credential.value),
                        rest,
                        post,
                        kept.drop_first(),
                        changes.drop_first(),
                        tids.drop_first(),
                    )
                }
            },
            MutationView::Modify { credential } => {
                if pre.contains_key(credential.id) {
                    &&& kept.len() >= 1
                    &&& kept[0] == m
                    &&& tids[0] == credential.id
                    &&& round_applied(
                        pre.insert(credential.id, credential.value),
                        rest,
                        post,
                        kept.drop_first(),
                        changes,
                        tids.drop_first(),
                    )
                } else {
                    &&& tids[0] == credential.id
                    &&& round_applied(pre, rest, post, kept, changes, tids.drop_first())
                }
            },
            MutationView::Delete { credential } => {
                if pre.contains_key(credential.id) {
                    &&& kept.len() >= 1
                    &&& kept[0] == m
                    &&& tids[0] == credential.id
                    &&& round_applied(
                        pre.remove(credential.id),
                        rest,
                        post,
                        kept.drop_first(),
                        changes,
                        tids.drop_first(),
                    )
                } else {
                    &&& tids[0] == credential.id
                    &&& round_applied(pre, rest, post, kept, changes, tids.drop_first())
                }
            },
        }
    }
}

/// The touched ids of an applied batch are determined by the store, the
/// batch and what was kept of it.
pub proof fn lemma_round_applied_touched_determined(
    pre: Map<Seq<char>, Seq<char>>,
    ms: Seq<MutationView>,
    post: Map<Seq<char>, Seq<char>>,
    kept: Seq<MutationView>,
    changes: Seq<(Seq<char>, Seq<char>)>,
    t1: Seq<Seq<char>>,
    t2: Seq<Seq<char>>,
)
    requires
        round_applied(pre, ms, post, kept, changes, t1),
        round_applied(pre, ms, post, kept, changes, t2),
    ensures
        t1 == t2,
    decreases ms.len(),
{
    if ms.len() == 0 {
        assert(t1 =~= t2);
    } else {
        match ms[0] {
            MutationView::Add { credential } => {
                if !pre.contains_key(credential.id) {
                    lemma_round_applied_touched_determined(
                        pre.insert(credential.id, credential.value),
                        ms.drop_first(),
                        post,
                        kept.drop_first(),
                        changes,
                        t1.drop_first(),
                        t2.drop_first(),
                    );
                } else {
                    match kept[0] {
                        MutationView::Add { credential: corrected } => {
                            lemma_round_applied_touched_determined(
                                pre.insert(corrected.id, credential.value),
                                ms.drop_first(),
                                post,
                                kept.drop_first(),
                                changes.drop_first(),
                                t1.drop_first(),
                                t2.drop_first(),
                            );
                        },
                        _ => {
                            assert(false);
                        },
                    }
                }
            },
            MutationView::Modify { credential } => {
                if pre.contains_key(credential.id) {
                    lemma_round_applied_touched_determined(
                        pre.insert(credential.id, credential.value),
                        ms.drop_first(),
                        post,
                        kept.drop_first(),
                        changes,
                        t1.drop_first(),
                        t2.drop_first(),
                    );
                } else {
                    lemma_round_applied_touched_determined(
                        pre,
                        ms.drop_first(),
                        post,
                        kept,
                        changes,
                        t1.drop_first(),
                        t2.drop_first(),
                    );
                }
            },
            MutationView::Delete { credential } => {
                if pre.contains_key(credential.id) {
                    lemma_round_applied_touched_determined(
                        pre.remove(credential.id),
                        ms.drop_first(),
                        post,
                        kept.drop_first(),
                        changes,
                        t1.drop_first(),
                        t2.drop_first(),
                    );
                } else {
                    lemma_round_applied_touched_determined(
                        pre,
                        ms.drop_first(),
                        post,
                        kept,
                        changes,
                        t1.drop_first(),
                        t2.drop_first(),
                    );
                }
            },
        }
        assert(t1.drop_first() == t2.drop_first());
        assert(t1[0] == t2[0]);
        assert(t1.len() == t1.drop_first().len() + 1);
        assert(t2.len() == t2.drop_first().len() + 1);
        assert forall|j: int| 0 <= j < t1.len() implies t1[j] == t2[j] by {
            if j > 0 {
                assert(t1[j] == t1.drop_first()[j - 1]);
                assert(t2[j] == t2.drop_first()[j - 1]);
            }
        }
        assert(t1 =~= t2);
    }
}

/// Chaining two applied stretches applies their concatenation.
pub proof fn lemma_round_applied_concat(
    pre: Map<Seq<char>, Seq<char>>,
    ms1: Seq<MutationView>,
    mid: Map<Seq<char>, Seq<char>>,
    kept1: Seq<MutationView>,
    ch1: Seq<(Seq<char>, Seq<char>)>,
    t1: Seq<Seq<char>>,
    ms2: Seq<MutationView>,
    post: Map<Seq<char>, Seq<char>>,
    kept2: Seq<MutationView>,
    ch2: Seq<(Seq<char>, Seq<char>)>,
    t2: Seq<Seq<char>>,
)
    requires
        round_applied(pre, ms1, mid, kept1, ch1, t1),
        round_applied(mid, ms2, post, kept2, ch2, t2),
    ensures
        round_applied(pre, ms1 + ms2, post, kept1 + kept2, ch1 + ch2, t1 + t2),
    decreases ms1.len(),
{
    if ms1.len() == 0 {
        assert(ms1 + ms2 =~= ms2);
        assert(kept1 + kept2 =~= kept2);
        assert(ch1 + ch2 =~= ch2);
        assert(t1 + t2 =~= t2);
    } else {
        let m = ms1[0];
        let rest1 = ms1.drop_first();
        assert((ms1 + ms2)[0] == m);
        assert((ms1 + ms2).drop_first() =~= rest1 + ms2);
        assert((t1 + t2).drop_first() =~= t1.drop_first() + t2);
        match m {
            MutationView::Add { credential } => {
                if !pre.contains_key(credential.id) {
                    assert((kept1 + kept2).drop_first() =~= kept1.drop_first() + kept2);
                    lemma_round_applied_concat(
                        pre.insert(credential.id, credential.value),
                        rest1,
                        mid,
                        kept1.drop_first(),
                        ch1,
                        t1.drop_first(),
                        ms2,
                        post,
                        kept2,
                        ch2,
                        t2,
                    );
                } else {
                    assert((kept1 + kept2).drop_first() =~= kept1.drop_first() + kept2);
                    assert((ch1 + ch2).drop_first() =~= ch1.drop_first() + ch2);
                    match kept1[0] {
                        MutationView::Add { credential: corrected } => {
                            lemma_round_applied_concat(
                                pre.insert(corrected.id, credential.value),
                                rest1,
                                mid,
                                kept1.drop_first(),
                                ch1.drop_first(),
                                t1.drop_first(),
                                ms2,
                                post,
                                kept2,
                                ch2,
                                t2,
                            );
                        },
                        _ => {
                            assert(false);
                        },
                    }
                }
            },
            MutationView::Modify { credential } => {
                if pre.contains_key(credential.id) {
                    assert((kept1 + kept2).drop_first() =~= kept1.drop_first() + kept2);
                    lemma_round_applied_concat(
                        pre.insert(credential.id, credential.value),
                        rest1,
                        mid,
                        kept1.drop_first(),
                        ch1,
                        t1.drop_first(),
                        ms2,
                        post,
                        kept2,
                        ch2,
                        t2,
                    );
                } else {
                    lemma_round_applied_concat(
                        pre,
                        rest1,
                        mid,
                        kept1,
                        ch1,
                        t1.drop_first(),
                        ms2,
                        post,
                        kept2,
                        ch2,
                        t2,
                    );
                }
            },
            MutationView::Delete { credential } => {
                if pre.contains_key(credential.id) {
                    assert((kept1 + kept2).drop_first() =~= kept1.drop_first() + kept2);
                    lemma_round_applied_concat(
                        pre.remove(credential.id),
                        rest1,
                        mid,
                        kept1.drop_first(),
                        ch1,
                        t1.drop_first(),
                        ms2,
                        post,
                        kept2,
                        ch2,
                        t2,
                    );
                } else {
                    lemma_round_applied_concat(
                        pre,
                        rest1,
                        mid,
                        kept1,
                        ch1,
                        t1.drop_first(),
                        ms2,
                        post,
                        kept2,
                        ch2,
                        t2,
                    );
                }
            },
        }
    }
}

/// One mutation's effect, as a single-element applied stretch.
pub proof fn lemma_round_applied_one(
    pre: Map<Seq<char>, Seq<char>>,
    m: MutationView,
    post: Map<Seq<char>, Seq<char>>,
    r: Result<Option<Seq<char>>, ErrorView>,
)
    requires
        apply_outcome(pre, m, post, r),
    ensures
        r matches Ok(None) ==> round_applied(
            pre,
            seq![m],
            post,
            seq![m],
            Seq::<(Seq<char>, Seq<char>)>::empty(),
            seq![m.key()],
        ),
        r matches Ok(Some(nid)) ==> {
            &&& m matches MutationView::Add { credential }
            &&& round_applied(
                pre,
                seq![m],
                post,
                seq![
                    MutationView::Add {
                        credential: CredentialView { id: nid, value: credential.value },
                    },
                ],
                seq![(credential.id, nid)],
                seq![nid],
            )
        },
        r matches Err(e) ==> post == pre && round_applied(
            pre,
            seq![m],
            post,
            Seq::<MutationView>::empty(),
            Seq::<(Seq<char>, Seq<char>)>::empty(),
            seq![m.key()],
        ),
{
    reveal_with_fuel(round_applied, 2);
    let ms = seq![m];
    assert(ms[0] == m);
    assert(ms.drop_first() =~= Seq::<MutationView>::empty());
    match r {
        Ok(None) => {
            let kept = seq![m];
            let tids = seq![m.key()];
            assert(kept.drop_first() =~= Seq::<MutationView>::empty());
            assert(tids.drop_first() =~= Seq::<Seq<char>>::empty());
            assert(round_applied(
                pre,
                ms,
                post,
                kept,
                Seq::<(Seq<char>, Seq<char>)>::empty(),
                tids,
            ));
        },
        Ok(Some(nid)) => {
            match m {
                MutationView::Add { credential } => {
                    let kept = seq![
                        MutationView::Add {
                            credential: CredentialView { id: nid, value: credential.value },
                        },
                    ];
                    let ch = seq![(credential.id, nid)];
                    let tids = seq![nid];
                    assert(kept.drop_first() =~= Seq::<MutationView>::empty());
                    assert(ch.drop_first() =~= Seq::<(Seq<char>, Seq<char>)>::empty());
                    assert(tids.drop_first() =~= Seq::<Seq<char>>::empty());
                    assert(round_applied(pre, ms, post, kept, ch, tids));
                },
                _ => {
                    assert(false);
                },
            }
        },
        Err(e) => {
            let tids = seq![m.key()];
            assert(tids.drop_first() =~= Seq::<Seq<char>>::empty());
            assert(round_applied(
                pre,
                ms,
                post,
                Seq::<MutationView>::empty(),
                Seq::<(Seq<char>, Seq<char>)>::empty(),
                tids,
            ));
        },
    }
}

/// The set an id sequence stands for.
pub open spec fn ids_set(ids: Seq<Seq<char>>) -> Set<Seq<char>> {
    Set::new(|id: Seq<char>| exists|i: int| 0 <= i < ids.len() && ids[i] == id)
}

/// The views of a sequence of id strings.
pub open spec fn ids_view(ids: Seq<String>) -> Seq<Seq<char>> {
    ids.map_values(|s: String| s@)
}

pub broadcast proof fn lemma_ids_view_len(ids: Seq<String>)
    ensures
        (#[trigger] ids_view(ids)).len() == ids.len(),
{
}

pub broadcast proof fn lemma_ids_view_index(ids: Seq<String>, j: int)
    requires
        0 <= j < ids.len(),
    ensures
        #[trigger] ids_view(ids)[j] == ids[j]@,
{
}

/// The remote delta served to a client: walking the remote mutations oldest
/// first, one is suppressed if its id was already seen (touched by the
/// client's own batch, or delivered earlier in this delta), and delivered
/// (its id now seen) otherwise.
pub open spec fn filter_remote(seen: Set<Seq<char>>, remote: Seq<MutationView>) -> Seq<
    MutationView,
>
    decreases remote.len(),
{
    if remote.len() == 0 {
        Seq::empty()
    } else {
        let m = remote[0];
        if seen.contains(m.key()) {
            filter_remote(seen, remote.drop_first())
        } else {
            seq![m] + filter_remote(seen.insert(m.key()), remote.drop_first())
        }
    }
}

/// Nothing delivered was in the initial seen set: the delta never echoes an
/// id the client's own batch touches.
pub proof fn lemma_filter_remote_not_seen(
    seen: Set<Seq<char>>,
    remote: Seq<MutationView>,
    j: int,
)
    requires
        0 <= j < filter_remote(seen, remote).len(),
    ensures
        !seen.contains(filter_remote(seen, remote)[j].key()),
    decreases remote.len(),
{
    if remote.len() == 0 {
    } else {
        let m = remote[0];
        if seen.contains(m.key()) {
            lemma_filter_remote_not_seen(seen, remote.drop_first(), j);
        } else {
            if j == 0 {
            } else {
                lemma_filter_remote_not_seen(seen.insert(m.key()), remote.drop_first(), j - 1);
                assert(filter_remote(seen, remote)[j] == filter_remote(
                    seen.insert(m.key()),
                    remote.drop_first(),
                )[j - 1]);
            }
        }
    }
}

/// One reconciliation round, relating one user's store and log before and
/// after to the request and the response. If the client merely re-announces
/// the newest state id and has nothing pending, the round changes nothing.
/// Otherwise the client's batch is applied to the store, a full snapshot is
/// returned when the claimed state id is unknown and the filtered remote
/// delta when it is known, and the kept batch is committed to the log under
/// a fresh state id that the response reports.
pub open spec fn sync_round(
    store_pre: Map<Seq<char>, Seq<char>>,
    cache_pre: Seq<BatchView>,
    req: SyncRequestView,
    store_post: Map<Seq<char>, Seq<char>>,
    cache_post: Seq<BatchView>,
    resp: SyncResponseView,
) -> bool {
    if req.mutations.len() == 0 && cache_pre.len() > 0 && cache_pre.last().state_id
        == req.state_id {
        &&& store_post == store_pre
        &&& cache_post == cache_pre
        &&& resp.status == success_status()
        &&& resp.state_id == Some(req.state_id)
        &&& resp.mutations is None
        &&& resp.store is None
        &&& resp.id_changes is None
    } else {
        let kept = cache_post.last().mutations;
        let changes = changes_or_empty(resp.id_changes);
        &&& resp.status == success_status()
        &&& resp.state_id matches Some(sid)
        &&& !contains_state(cache_pre, sid)
        &&& cache_post == cache_pre.push(
            BatchView { state_id: sid, time: cache_pre.len() as int, mutations: kept },
        )
        &&& (resp.id_changes matches Some(cs) ==> cs.len() > 0)
        &&& exists|tids: Seq<Seq<char>>|
            #[trigger] commit_body(store_pre, cache_pre, req, store_post, resp, kept, changes, tids)
    }
}

/// One choice of corrected and touched ids accounting for a committed
/// round: it explains the applied batch, and the snapshot or the remote
/// delta filtered against exactly those ids.
pub open spec fn commit_body(
    store_pre: Map<Seq<char>, Seq<char>>,
    cache_pre: Seq<BatchView>,
    req: SyncRequestView,
    store_post: Map<Seq<char>, Seq<char>>,
    resp: SyncResponseView,
    kept: Seq<MutationView>,
    changes: Seq<(Seq<char>, Seq<char>)>,
    tids: Seq<Seq<char>>,
) -> bool {
    &&& round_applied(store_pre, req.mutations, store_post, kept, changes, tids)
    &&& if !contains_state(cache_pre, req.state_id) {
        &&& resp.mutations is None
        &&& resp.store matches Some(s)
        &&& distinct_keys(credential_pairs(s))
        &&& pairs_to_map(credential_pairs(s)) == store_post
    } else {
        let delta = filter_remote(ids_set(tids), mutations_after(cache_pre, req.state_id));
        &&& resp.store is None
        &&& resp.mutations == if delta.len() == 0 {
            Option::<Seq<MutationView>>::None
        } else {
            Some(delta)
        }
    }
}

/// The ids a sequence of id strings stands for.
pub open spec fn seen_set(ids: Seq<String>) -> Set<Seq<char>> {
    ids_set(ids_view(ids))
}

/// Marking one more id marks exactly that id.
pub proof fn lemma_seen_set_push(ids: Seq<String>, x: String)
    ensures
        seen_set(ids.push(x)) == seen_set(ids).insert(x@),
{
    broadcast use lemma_ids_view_len, lemma_ids_view_index;

    assert forall|id: Seq<char>|
        seen_set(ids.push(x)).contains(id) <==> seen_set(ids).insert(x@).contains(id) by {
        if seen_set(ids.push(x)).contains(id) {
            let i = choose|i: int|
                0 <= i < ids_view(ids.push(x)).len() && ids_view(ids.push(x))[i] == id;
            if i < ids.len() {
                assert(ids_view(ids)[i] == id);
            }
        }
        if seen_set(ids).insert(x@).contains(id) {
            if id == x@ {
                assert(ids_view(ids.push(x))[ids.len() as int] == id);
            } else {
                let i = choose|i: int| 0 <= i < ids_view(ids).len() && ids_view(ids)[i] == id;
                assert(ids_view(ids.push(x))[i] == id);
            }
        }
    }
    assert(seen_set(ids.push(x)) =~= seen_set(ids).insert(x@));
}

/// Whether one of the ids is the given one.
#[verifier::loop_isolation(false)]
fn contains_str(ids: &Vec<String>, id: &String) -> (r: bool)
    ensures
        r == seen_set(ids@).contains(id@),
{
    broadcast use lemma_ids_view_len, lemma_ids_view_index;

    let mut i: usize = 0;
    while i < ids.len()
        invariant
            i <= ids.len(),
            forall|j: int| 0 <= j < i ==> ids@[j]@ != id@,
        decreases ids.len() - i,
    {
        if ids[i] == *id {
            proof {
                assert(ids_view(ids@)[i as int] == id@);
            }
            return true;
        }
        i += 1;
    }
    proof {
        if seen_set(ids@).contains(id@) {
            let j = choose|j: int| 0 <= j < ids_view(ids@).len() && ids_view(ids@)[j] == id@;
            assert(ids@[j]@ == id@);
            assert(false);
        }
    }
    false
}

/// One sync round for one user, as `sync_round` describes: answer a bare
/// re-announcement of the newest state directly; otherwise apply the
/// client's mutations to the store one at a time (correcting colliding
/// `Add` ids, dropping mutations of absent ids), answer with a full
/// snapshot when the claimed state id is unknown and with the remote delta
/// filtered against every id the client's round touched when it is known,
/// and commit the kept batch under a fresh state id. Every other user's
/// data is left untouched.
#[verifier::loop_isolation(false)]
pub fn sync_user(db: &mut Databases, alias: &String, data: SyncRequest) -> (resp: SyncResponse)
    requires
        old(db).wf(),
    ensures
        final(db).wf(),
        sync_round(
            old(db).store.store_of(alias@),
            old(db).cache.cache_of(alias@),
            data@,
            final(db).store.store_of(alias@),
            final(db).cache.cache_of(alias@),
            resp@,
        ),
        forall|a: Seq<char>|
            a != alias@ ==> final(db).store.store_of(a) == old(db).store.store_of(a)
                && final(db).cache.cache_of(a) == old(db).cache.cache_of(a),
        final(db).user == old(db).user,
{
    broadcast use lemma_mutations_view_len, lemma_mutations_view_index, lemma_changes_view_len, lemma_changes_view_index, lemma_ids_view_len, lemma_ids_view_index;

    if data.mutations.len() == 0 && db.cache.is_latest(alias, &data.state_id) {
        let mut response = SyncResponse::default();
        response.state_id = Some(data.state_id);
        response.status = "success".to_owned();
        return response;
    }
    // Apply the client's mutations to the store, left to right, building the
    // batch to log, the list of id corrections, and the touched ids.
    let ghost store0 = db.store.store_of(alias@);
    let mut kept: Vec<Mutation> = Vec::new();
    let mut id_changes: Vec<(String, String)> = Vec::new();
    let mut seen: Vec<String> = Vec::new();
    proof {
        assert(mutations_view(kept@) =~= Seq::<MutationView>::empty());
        assert(changes_view(id_changes@) =~= Seq::<(Seq<char>, Seq<char>)>::empty());
        assert(ids_view(seen@) =~= Seq::<Seq<char>>::empty());
        assert(mutations_view(data.mutations@).take(0) =~= Seq::<MutationView>::empty());
    }
    let mut i: usize = 0;
    while i < data.mutations.len()
        invariant
            db.wf(),
            i <= data.mutations.len(),
            round_applied(
                store0,
                mutations_view(data.mutations@).take(i as int),
                db.store.store_of(alias@),
                mutations_view(kept@),
                changes_view(id_changes@),
                ids_view(seen@),
            ),
            forall|a: Seq<char>| a != alias@ ==> db.store.store_of(a) == old(db).store.store_of(a),
            db.cache == old(db).cache,
            db.user == old(db).user,
        decreases data.mutations.len() - i,
    {
        let m = &data.mutations[i];
        let ghost pre_store = db.store.store_of(alias@);
        let ghost kept0 = mutations_view(kept@);
        let ghost ch0 = changes_view(id_changes@);
        let ghost seen0 = ids_view(seen@);
        let ghost taken = mutations_view(data.mutations@).take(i as int);
        match db.store.apply_mutation(alias, m) {
            Ok(None) => {
                kept.push(m.clone());
                seen.push(m.key().clone());
                proof {
                    lemma_round_applied_one(
                        pre_store,
                        m@,
                        db.store.store_of(alias@),
                        Ok(None),
                    );
                    lemma_round_applied_concat(
                        store0,
                        taken,
                        pre_store,
                        kept0,
                        ch0,
                        seen0,
                        seq![m@],
                        db.store.store_of(alias@),
                        seq![m@],
                        Seq::empty(),
                        seq![m@.key()],
                    );
                    assert(mutations_view(data.mutations@).take(i + 1) =~= taken + seq![m@]);
                    assert(mutations_view(kept@) =~= kept0 + seq![m@]);
                    assert(ids_view(seen@) =~= seen0 + seq![m@.key()]);
                    assert(changes_view(id_changes@) =~= ch0 + Seq::<
                        (Seq<char>, Seq<char>),
                    >::empty());
                }
            },
            Ok(Some(new_id)) => {
                match m {
                    Mutation::Add { credential } => {
                        let ghost nid = new_id@;
                        let corrected = Mutation::Add {
                            credential: Credential {
                                id: new_id.clone(),
                                value: credential.value.clone(),
                            },
                        };
                        kept.push(corrected);
                        seen.push(new_id.clone());
                        id_changes.push((credential.id.clone(), new_id));
                        proof {
                            lemma_round_applied_one(
                                pre_store,
                                m@,
                                db.store.store_of(alias@),
                                Ok(Some(nid)),
                            );
                            lemma_round_applied_concat(
                                store0,
                                taken,
                                pre_store,
                                kept0,
                                ch0,
                                seen0,
                                seq![m@],
                                db.store.store_of(alias@),
                                seq![
                                    MutationView::Add {
                                        credential: CredentialView {
                                            id: nid,
                                            value: m@.credential().value,
                                        },
                                    },
                                ],
                                seq![(m@.credential().id, nid)],
                                seq![nid],
                            );
                            assert(mutations_view(data.mutations@).take(i + 1) =~= taken
                                + seq![m@]);
                            assert(mutations_view(kept@) =~= kept0 + seq![
                                MutationView::Add {
                                    credential: CredentialView {
                                        id: nid,
                                        value: m@.credential().value,
                                    },
                                },
                            ]);
                            assert(ids_view(seen@) =~= seen0 + seq![nid]);
                            assert(changes_view(id_changes@) =~= ch0 + seq![
                                (m@.credential().id, nid),
                            ]);
                        }
                    },
                    _ => {
                        proof {
                            lemma_round_applied_one(
                                pre_store,
                                m@,
                                db.store.store_of(alias@),
                                apply_result_view(Ok(Some(new_id))),
                            );
                            assert(false);
                        }
                    },
                }
            },
            Err(e) => {
                // A missing-item or other per-mutation failure never aborts
                // the round; the mutation is dropped but its id still counts
                // as touched by the client.
                seen.push(m.key().clone());
                proof {
                    lemma_round_applied_one(
                        pre_store,
                        m@,
                        db.store.store_of(alias@),
                        Err(e@),
                    );
                    lemma_round_applied_concat(
                        store0,
                        taken,
                        pre_store,
                        kept0,
                        ch0,
                        seen0,
                        seq![m@],
                        db.store.store_of(alias@),
                        Seq::empty(),
                        Seq::empty(),
                        seq![m@.key()],
                    );
                    assert(mutations_view(data.mutations@).take(i + 1) =~= taken + seq![m@]);
                    assert(mutations_view(kept@) =~= kept0 + Seq::<MutationView>::empty());
                    assert(ids_view(seen@) =~= seen0 + seq![m@.key()]);
                    assert(changes_view(id_changes@) =~= ch0 + Seq::<
                        (Seq<char>, Seq<char>),
                    >::empty());
                }
            },
        }
        i += 1;
    }
    let ghost tids0 = ids_view(seen@);
    proof {
        assert(mutations_view(data.mutations@).take(data.mutations@.len() as int)
            =~= mutations_view(data.mutations@));
        assert(round_applied(
            store0,
            mutations_view(data.mutations@),
            db.store.store_of(alias@),
            mutations_view(kept@),
            changes_view(id_changes@),
            tids0,
        ));
    }
    let mut response = SyncResponse::default();
    // Staleness: an unknown state id gets the full store, a known one the
    // remote delta filtered against the touched ids.
    if !db.cache.has_state(alias, &data.state_id) {
        response.store = Some(db.store.export_all(alias));
    } else {
        let remote = db.cache.get_next_mutations(alias, &data.state_id);
        if remote.len() > 0 {
            let ghost fseen0 = ids_set(tids0);
            let ghost remote_v = mutations_view(remote@);
            let mut delta: Vec<Mutation> = Vec::new();
            proof {
                assert(mutations_view(delta@) =~= Seq::<MutationView>::empty());
                assert(remote_v.skip(0) =~= remote_v);
                assert(mutations_view(delta@) + filter_remote(seen_set(seen@), remote_v.skip(0))
                    =~= filter_remote(fseen0, remote_v));
            }
            let mut r: usize = 0;
            while r < remote.len()
                invariant
                    r <= remote.len(),
                    mutations_view(delta@) + filter_remote(
                        seen_set(seen@),
                        remote_v.skip(r as int),
                    ) == filter_remote(fseen0, remote_v),
                decreases remote.len() - r,
            {
                let m = &remote[r];
                let ghost dv = mutations_view(delta@);
                let ghost sv = seen_set(seen@);
                proof {
                    assert(remote_v.skip(r as int)[0] == remote_v[r as int]);
                    assert(remote_v.skip(r as int).drop_first() =~= remote_v.skip(r + 1));
                }
                if !contains_str(&seen, m.key()) {
                    let ghost gs = seen@;
                    seen.push(m.key().clone());
                    delta.push(m.clone());
                    proof {
                        lemma_seen_set_push(gs, seen@[gs.len() as int]);
                        assert(seen_set(seen@) == sv.insert(m@.key()));
                        assert(filter_remote(sv, remote_v.skip(r as int)) == seq![m@]
                            + filter_remote(seen_set(seen@), remote_v.skip(r + 1)));
                        assert(mutations_view(delta@) =~= dv + seq![m@]);
                        assert((dv + seq![m@]) + filter_remote(
                            seen_set(seen@),
                            remote_v.skip(r + 1),
                        ) =~= dv + (seq![m@] + filter_remote(
                            seen_set(seen@),
                            remote_v.skip(r + 1),
                        )));
                    }
                } else {
                    proof {
                        assert(filter_remote(sv, remote_v.skip(r as int)) == filter_remote(
                            sv,
                            remote_v.skip(r + 1),
                        ));
                    }
                }
                r += 1;
            }
            proof {
                assert(remote_v.skip(remote_v.len() as int) =~= Seq::<MutationView>::empty());
                assert(mutations_view(delta@) + Seq::<MutationView>::empty() =~= mutations_view(
                    delta@,
                ));
                assert(mutations_view(delta@) == filter_remote(fseen0, remote_v));
            }
            if delta.len() > 0 {
                response.mutations = Some(delta);
            }
        }
    }
    // Commit the kept batch, even when it is empty, and report the new id.
    let state_id = db.cache.add_mutations(alias, &kept);
    response.state_id = Some(state_id);
    response.status = "success".to_owned();
    if id_changes.len() > 0 {
        response.id_changes = Some(id_changes);
    } else {
        proof {
            assert(changes_view(id_changes@) =~= Seq::<(Seq<char>, Seq<char>)>::empty());
        }
    }
    proof {
        let cache_pre_g = old(db).cache.cache_of(alias@);
        let batch = BatchView {
            state_id: state_id@,
            time: cache_pre_g.len() as int,
            mutations: mutations_view(kept@),
        };
        assert(db.cache.cache_of(alias@) == cache_pre_g.push(batch));
        assert(cache_pre_g.push(batch).last() == batch);
        assert(db.cache.cache_of(alias@).last().mutations == mutations_view(kept@));
        assert(changes_or_empty(response@.id_changes) == changes_view(id_changes@));
        assert(commit_body(
            store0,
            cache_pre_g,
            data@,
            db.store.store_of(alias@),
            response@,
            db.cache.cache_of(alias@).last().mutations,
            changes_or_empty(response@.id_changes),
            tids0,
        ));
    }
    response
}

} // verus!
