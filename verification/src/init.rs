use vstd::prelude::*;
use vstd::string::StringExecFns;

use crate::database::Databases;
use crate::error::Error;

verus! {

/// A bootstrap request: the salt and password hash the clients store.
pub struct InitRequest {
    pub salt: String,
    pub hash: String,
}

/// The reply to a bootstrap request.
pub struct InitResponse {
    pub status: String,
}

/// Record salt and hash for an alias that has none yet. An already
/// initialized alias is reported back untouched.
pub fn add_salt_aux(db: &mut Databases, alias: &String, salt: &String, hash: &String) -> (r:
    Result<bool, Error>)
    requires
        old(db).wf(),
    ensures
        final(db).wf(),
        final(db).store == old(db).store,
        final(db).cache == old(db).cache,
        old(db).user@.contains_key(alias@) ==> {
            &&& r matches Ok(added) && !added
            &&& final(db).user@ == old(db).user@
        },
        !old(db).user@.contains_key(alias@) ==> {
            &&& r matches Ok(added) && added
            &&& final(db).user@ == old(db).user@.insert(alias@, (salt@, hash@))
        },
{
    match db.user.get_user(alias) {
        Ok(_) => Ok(false),
        Err(e) => {
            match e {
                Error::UninitializedUser(_) => {
                    match db.user.add_user(alias, salt, hash) {
                        Ok(()) => Ok(true),
                        Err(err) => {
                            proof {
                                assert(false);
                            }
                            Err(err)
                        },
                    }
                },
                _ => {
                    proof {
                        assert(false);
                    }
                    Err(e)
                },
            }
        },
    }
}

/// Initialize an account: record its salt and hash once, report `existing`
/// when it was initialized before, and never touch the stores or logs.
pub fn initialize_user(db: &mut Databases, alias: &String, data: InitRequest) -> (r: InitResponse)
    requires
        old(db).wf(),
    ensures
        final(db).wf(),
        final(db).store == old(db).store,
        final(db).cache == old(db).cache,
        old(db).user@.contains_key(alias@) ==> r.status@ == "existing"@ && final(db).user@ == old(
            db,
        ).user@,
        !old(db).user@.contains_key(alias@) ==> r.status@ == "success"@ && final(db).user@ == old(
            db,
        ).user@.insert(alias@, (data.salt@, data.hash@)),
{
    let mut status = String::new();
    match add_salt_aux(db, alias, &data.salt, &data.hash) {
        Ok(added) => {
            if added {
                status.append("success");
            } else {
                status.append("existing");
            }
        },
        Err(_) => {
            status.append("failed");
        },
    }
    InitResponse { status }
}

} // verus!
