use vstd::prelude::*;

use crate::cache::CacheDb;
use crate::store::StoreDb;
use crate::users::UserDb;

verus! {

/// The three durable per-user tables the sync engine works against: the
/// credential stores, the write-ahead logs, and the account records.
pub struct Databases {
    pub store: StoreDb,
    pub cache: CacheDb,
    pub user: UserDb,
}

impl Databases {
    /// Well-formed: each table is.
    pub open spec fn wf(&self) -> bool {
        &&& self.store.wf()
        &&& self.cache.wf()
        &&& self.user.wf()
    }

    pub fn new(store: StoreDb, cache: CacheDb, user: UserDb) -> (r: Databases)
        ensures
            r.store == store,
            r.cache == cache,
            r.user == user,
    {
        Databases { store, cache, user }
    }

    /// Databases with no user data at all.
    pub fn empty() -> (r: Databases)
        ensures
            r.wf(),
            forall|a: Seq<char>| r.store.store_of(a) == Map::<Seq<char>, Seq<char>>::empty(),
            forall|a: Seq<char>|
                r.cache.cache_of(a) == Seq::<crate::cache::BatchView>::empty(),
            r.user@ == Map::<Seq<char>, (Seq<char>, Seq<char>)>::empty(),
    {
        Databases::new(StoreDb::new(), CacheDb::new(), UserDb::new())
    }
}

} // verus!
