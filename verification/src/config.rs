use vstd::prelude::*;
use vstd::string::StringExecFns;

verus! {

/// One configured account: the server-side alias and the client keys that
/// resolve to it.
pub struct User {
    pub alias: String,
    pub keys: Vec<String>,
}

/// Mathematical model of a configured account.
pub struct UserView {
    pub alias: Seq<char>,
    pub keys: Seq<Seq<char>>,
}

impl View for User {
    type V = UserView;

    open spec fn view(&self) -> UserView {
        UserView { alias: self.alias@, keys: self.keys@.map_values(|k: String| k@) }
    }
}

/// The views of the configured accounts.
pub open spec fn users_view(users: Seq<User>) -> Seq<UserView> {
    users.map_values(|u: User| u@)
}

pub broadcast proof fn lemma_users_view_len(users: Seq<User>)
    ensures
        (#[trigger] users_view(users)).len() == users.len(),
{
}

pub broadcast proof fn lemma_users_view_index(users: Seq<User>, j: int)
    requires
        0 <= j < users.len(),
    ensures
        #[trigger] users_view(users)[j] == users[j]@,
{
}

/// The server configuration: the accounts, how much history to keep, where
/// the durable data lives, and whether the administrative test routes are
/// mounted.
pub struct Config {
    pub users: Vec<User>,
    pub cache_count: u32,
    pub db_directory: String,
    pub enable_test_routes: bool,
}

/// How much history is kept when the configuration does not say.
pub fn default_cache_count() -> (r: u32)
    ensures
        r == 100,
{
    100
}

/// Where the durable data lives when the configuration does not say.
pub fn default_db_directory() -> (r: String)
    ensures
        r@ == "./data"@,
{
    let mut r = String::new();
    r.append("./data");
    r
}

} // verus!
