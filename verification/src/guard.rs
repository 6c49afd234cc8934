use vstd::prelude::*;
use vstd::string::StringExecFns;

use crate::config::{lemma_users_view_index, lemma_users_view_len, users_view, Config, UserView};

verus! {

/// A resolved user: the alias the presented client key stands for.
pub struct User(pub String);

/// Why a request could not be resolved to a user.
#[derive(Debug)]
pub enum UserError {
    MissingHeader,
    MissingUser,
}

impl UserError {
    /// A human-readable description of the error.
    pub fn message(&self) -> (r: String)
        ensures
            r@ == match self {
                UserError::MissingHeader => "Missing user key in authentication header"@,
                UserError::MissingUser => "User key does not exist"@,
            },
    {
        let mut r = String::new();
        match self {
            UserError::MissingHeader => r.append("Missing user key in authentication header"),
            UserError::MissingUser => r.append("User key does not exist"),
        }
        r
    }
}

/// Whether one of the configured keys of this account is the given key.
pub open spec fn key_matches(u: UserView, key: Seq<char>) -> bool {
    exists|i: int| 0 <= i < u.keys.len() && u.keys[i] == key
}

/// Whether one of the key strings is the given key.
#[verifier::loop_isolation(false)]
fn key_in(keys: &Vec<String>, key: &String) -> (r: bool)
    ensures
        r == exists|i: int| 0 <= i < keys@.len() && #[trigger] keys@[i]@ == key@,
{
    let mut i: usize = 0;
    while i < keys.len()
        invariant
            i <= keys.len(),
            forall|j: int| 0 <= j < i ==> keys@[j]@ != key@,
        decreases keys.len() - i,
    {
        if keys[i] == *key {
            proof {
                assert(keys@[i as int]@ == key@);
            }
            return true;
        }
        i += 1;
    }
    false
}

impl User {
    /// Resolve a presented client key to the first configured account whose
    /// key list holds it; a key no account holds names no user.
    #[verifier::loop_isolation(false)]
    pub fn from_key(config: &Config, key: &String) -> (r: Result<User, UserError>)
        ensures
            r matches Ok(u) ==> exists|i: int|
                {
                    &&& 0 <= i < users_view(config.users@).len()
                    &&& #[trigger] key_matches(users_view(config.users@)[i], key@)
                    &&& u.0@ == users_view(config.users@)[i].alias
                    &&& forall|j: int|
                        0 <= j < i ==> !key_matches(users_view(config.users@)[j], key@)
                },
            r matches Err(e) ==> e == UserError::MissingUser && forall|i: int|
                0 <= i < users_view(config.users@).len() ==> !key_matches(
                    users_view(config.users@)[i],
                    key@,
                ),
    {
        broadcast use lemma_users_view_len, lemma_users_view_index;

        let mut i: usize = 0;
        while i < config.users.len()
            invariant
                i <= config.users.len(),
                forall|j: int| 0 <= j < i ==> !key_matches(users_view(config.users@)[j], key@),
            decreases config.users.len() - i,
        {
            if key_in(&config.users[i].keys, key) {
                proof {
                    let p = choose|p: int|
                        0 <= p < config.users@[i as int].keys@.len() && config.users@[
                            i as int
                        ].keys@[p]@ == key@;
                    assert(users_view(config.users@)[i as int].keys[p] == key@);
                    assert(key_matches(users_view(config.users@)[i as int], key@));
                }
                return Ok(User(config.users[i].alias.clone()));
            }
            proof {
                if key_matches(users_view(config.users@)[i as int], key@) {
                    let p = choose|p: int|
                        0 <= p < users_view(config.users@)[i as int].keys.len() && users_view(
                            config.users@,
                        )[i as int].keys[p] == key@;
                    assert(config.users@[i as int].keys@[p]@ == key@);
                    assert(false);
                }
            }
            i += 1;
        }
        Err(UserError::MissingUser)
    }
}

} // verus!
