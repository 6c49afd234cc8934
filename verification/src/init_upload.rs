use vstd::prelude::*;

use crate::assoc::pairs_to_map;
use crate::cache::{contains_state, BatchView};
use crate::database::Databases;
use crate::db_types::{mutations_view, Credential, Mutation};
use crate::assoc::distinct_keys;
use crate::store::{credential_pairs, credentials_view};

verus! {

/// The reply to a bootstrap upload: the checkpoint's state id on success.
pub struct InitUploadResponse {
    pub state_id: Option<String>,
    pub status: String,
}

/// Mathematical model of the reply.
pub struct InitUploadResponseView {
    pub state_id: Option<Seq<char>>,
    pub status: Seq<char>,
}

impl View for InitUploadResponse {
    type V = InitUploadResponseView;

    open spec fn view(&self) -> InitUploadResponseView {
        InitUploadResponseView {
            state_id: match self.state_id {
                Some(s) => Some(s@),
                None => None,
            },
            status: self.status@,
        }
    }
}

/// Bootstrap one account: import a full credential list into what must be an
/// untouched store, and lay down the initial, empty checkpoint batch, whose
/// state id every later sync builds on. An account whose store or log
/// already holds anything is reported `existing` and left untouched.
pub fn user_initial_upload(db: &mut Databases, alias: &String, data: Vec<Credential>) -> (r:
    InitUploadResponse)
    requires
        old(db).wf(),
    ensures
        final(db).wf(),
        final(db).user == old(db).user,
        forall|a: Seq<char>|
            a != alias@ ==> final(db).store.store_of(a) == old(db).store.store_of(a)
                && final(db).cache.cache_of(a) == old(db).cache.cache_of(a),
        (old(db).store.store_of(alias@) != Map::<Seq<char>, Seq<char>>::empty() || old(
            db,
        ).cache.cache_of(alias@).len() > 0) ==> {
            &&& r@.status == "existing"@
            &&& r@.state_id is None
            &&& final(db).store.store_of(alias@) == old(db).store.store_of(alias@)
            &&& final(db).cache.cache_of(alias@) == old(db).cache.cache_of(alias@)
        },
        old(db).store.store_of(alias@) == Map::<Seq<char>, Seq<char>>::empty() && old(
            db,
        ).cache.cache_of(alias@).len() == 0 && distinct_keys(
            credential_pairs(credentials_view(data@)),
        ) ==> {
            &&& r@.status == "success"@
            &&& r@.state_id matches Some(sid)
            &&& final(db).store.store_of(alias@) == pairs_to_map(
                credential_pairs(credentials_view(data@)),
            )
            &&& final(db).cache.cache_of(alias@) == seq![
                BatchView { state_id: sid, time: 0, mutations: Seq::empty() },
            ]
            &&& contains_state(final(db).cache.cache_of(alias@), sid)
        },
        old(db).store.store_of(alias@) == Map::<Seq<char>, Seq<char>>::empty() && old(
            db,
        ).cache.cache_of(alias@).len() == 0 && !distinct_keys(
            credential_pairs(credentials_view(data@)),
        ) ==> {
            &&& r@.status == "failed"@
            &&& r@.state_id is None
            &&& final(db).cache.cache_of(alias@) == old(db).cache.cache_of(alias@)
        },
{
    if !db.store.is_empty(alias) || !db.cache.is_empty(alias) {
        return InitUploadResponse { state_id: None, status: "existing".to_owned() };
    }
    match db.store.import_all(alias, &data) {
        Ok(()) => {
            let checkpoint: Vec<Mutation> = Vec::new();
            proof {
                assert(mutations_view(checkpoint@) =~= Seq::<
                    crate::db_types::MutationView,
                >::empty());
            }
            let state_id = db.cache.add_mutations(alias, &checkpoint);
            proof {
                assert(old(db).cache.cache_of(alias@).push(
                    BatchView { state_id: state_id@, time: 0, mutations: Seq::empty() },
                ) =~= seq![
                    BatchView { state_id: state_id@, time: 0, mutations: Seq::empty() },
                ]);
                assert(db.cache.cache_of(alias@)[0].state_id == state_id@);
            }
            InitUploadResponse { state_id: Some(state_id), status: "success".to_owned() }
        },
        Err(_) => InitUploadResponse { state_id: None, status: "failed".to_owned() },
    }
}

} // verus!
