use vstd::prelude::*;

use crate::database::Databases;

verus! {

/// The reply to a bootstrap import: the stored salt and hash, when any.
pub struct UserImportResponse {
    pub status: String,
    pub salt: Option<String>,
    pub hash: Option<String>,
}

/// Hand an initialized account's salt and hash back; an account without a
/// record is reported `uninitialized`.
pub fn get_user(db: &Databases, alias: &String) -> (r: UserImportResponse)
    requires
        db.wf(),
    ensures
        db.user@.contains_key(alias@) ==> {
            &&& r.status@ == "success"@
            &&& r.salt matches Some(s) && s@ == db.user@[alias@].0
            &&& r.hash matches Some(h) && h@ == db.user@[alias@].1
        },
        !db.user@.contains_key(alias@) ==> {
            &&& r.status@ == "uninitialized"@
            &&& r.salt is None
            &&& r.hash is None
        },
{
    match db.user.get_user(alias) {
        Ok(user) => {
            let (salt, hash) = user;
            UserImportResponse {
                status: "success".to_owned(),
                salt: Some(salt),
                hash: Some(hash),
            }
        },
        Err(_) => {
            UserImportResponse { status: "uninitialized".to_owned(), salt: None, hash: None }
        },
    }
}

} // verus!
