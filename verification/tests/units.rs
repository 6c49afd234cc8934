use vult::cache::CacheDb;
use vult::config::{default_cache_count, default_db_directory};
use vult::db_types::{ClientMutation, Credential, Mutation};
use vult::error::Error;
use vult::id::{distinct_from_all, random_b64};
use vult::store::StoreDb;
use vult::sync::SyncResponse;
use vult::users::UserDb;

fn cred(id: &str, value: &str) -> Credential {
    Credential { id: id.to_string(), value: value.to_string() }
}

fn add(id: &str, value: &str) -> Mutation {
    Mutation::Add { credential: cred(id, value) }
}

fn modify(id: &str, value: &str) -> Mutation {
    Mutation::Modify { credential: cred(id, value) }
}

#[test]
fn random_id_length() {
    assert_eq!(random_b64(24).len(), 32);
    assert_eq!(random_b64(1).len(), 4);
    assert_eq!(random_b64(0).len(), 0);
}

#[test]
fn random_id_is_not_input_bytes() {
    let id = random_b64(24);
    assert_eq!(id.len(), 32);
    assert!(id.chars().all(|c| c.is_ascii()));
}

#[test]
fn distinct_identifier() {
    let ids = vec!["a".to_string(), "ab".to_string(), "abc".to_string()];
    let fresh = distinct_from_all(&ids);
    for id in &ids {
        assert_ne!(&fresh, id);
    }
}

#[test]
fn error_messages() {
    assert_eq!(
        Error::MissingId("x".to_string()).message(),
        "Missing credential with id: x"
    );
    assert_eq!(
        Error::ExistingUser("unit".to_string()).message(),
        "User with alias unit already exists"
    );
    assert_eq!(
        Error::UninitializedUser("unit".to_string()).message(),
        "User with alias unit is not initialized"
    );
    assert_eq!(Error::Server("boom".to_string()).message(), "Internal server error");
    assert_eq!(Error::Config("bad".to_string()).message(), "Invalid server configuration");
}

#[test]
fn configuration_defaults() {
    assert_eq!(default_cache_count(), 100);
    assert_eq!(default_db_directory(), "./data");
}

#[test]
fn mutation_conversion_round_trip() {
    let m = add("a", "b");
    let wire = ClientMutation::from(m);
    let back = Mutation::from(wire);
    assert_eq!(back, add("a", "b"));
}

#[test]
fn id_change_list_accumulates() {
    let mut response = SyncResponse::default();
    response.add_id_change(&"a".to_string(), &"b".to_string());
    response.add_id_change(&"c".to_string(), &"d".to_string());
    assert_eq!(
        response.id_changes,
        Some(vec![
            ("a".to_string(), "b".to_string()),
            ("c".to_string(), "d".to_string()),
        ])
    );
}

#[test]
fn store_missing_item() {
    let mut store = StoreDb::new();
    let alias = "unit".to_string();
    let r = store.apply_mutation(&alias, &modify("missing", "v"));
    assert!(matches!(r, Err(Error::MissingId(_))));
    let r = store.apply_mutation(&alias, &add("a", "v"));
    assert!(matches!(r, Ok(None)));
    assert!(!store.is_empty(&alias));
    assert_eq!(store.export_all(&alias), vec![cred("a", "v")]);
}

#[test]
fn store_import_conflict() {
    let mut store = StoreDb::new();
    let alias = "unit".to_string();
    assert!(store.import_all(&alias, &vec![cred("a", "v")]).is_ok());
    let r = store.import_all(&alias, &vec![cred("b", "w")]);
    assert!(matches!(r, Err(Error::ExistingUser(_))));
}

#[test]
fn user_table_lifecycle() {
    let mut users = UserDb::new();
    let alias = "unit".to_string();
    let r = users.get_user(&alias);
    assert!(matches!(r, Err(Error::UninitializedUser(_))));
    users
        .add_user(&alias, &"salt".to_string(), &"hash".to_string())
        .unwrap();
    let (salt, hash) = users.get_user(&alias).unwrap();
    assert_eq!(salt, "salt");
    assert_eq!(hash, "hash");
    users.remove_salt(&alias).unwrap();
    assert!(matches!(users.get_user(&alias), Err(Error::UninitializedUser(_))));
}

#[test]
fn cache_log_order() {
    let mut cache = CacheDb::new();
    let alias = "unit".to_string();
    let id1 = cache.add_mutations(&alias, &vec![add("a", "1")]);
    assert!(cache.has_state(&alias, &id1));
    assert!(cache.is_latest(&alias, &id1));
    let id2 = cache.add_mutations(&alias, &vec![add("b", "2"), add("c", "3")]);
    assert!(!cache.is_latest(&alias, &id1));
    assert!(cache.is_latest(&alias, &id2));
    assert_eq!(
        cache.get_next_mutations(&alias, &id1),
        vec![add("b", "2"), add("c", "3")]
    );
    assert_eq!(cache.get_next_mutations(&alias, &id2), vec![]);
    assert!(!cache.is_empty(&alias));
    assert!(cache.is_empty(&"other".to_string()));
}
