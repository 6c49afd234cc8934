use vult::database::Databases;
use vult::db_types::{Credential, Mutation};
use vult::init_upload::user_initial_upload;
use vult::sync::{sync_user, SyncRequest, SyncResponse};

fn cred(id: &str, value: &str) -> Credential {
    Credential { id: id.to_string(), value: value.to_string() }
}

fn add(id: &str, value: &str) -> Mutation {
    Mutation::Add { credential: cred(id, value) }
}

fn modify(id: &str, value: &str) -> Mutation {
    Mutation::Modify { credential: cred(id, value) }
}

fn delete(id: &str) -> Mutation {
    Mutation::Delete { credential: cred(id, "") }
}

fn upload(db: &mut Databases, creds: Vec<Credential>) -> String {
    let alias = "unit".to_string();
    let resp = user_initial_upload(db, &alias, creds);
    assert_eq!(resp.status, "success");
    resp.state_id.expect("Init body state id")
}

fn sync(db: &mut Databases, state_id: &str, mutations: Vec<Mutation>) -> SyncResponse {
    let alias = "unit".to_string();
    sync_user(db, &alias, SyncRequest { state_id: state_id.to_string(), mutations })
}

#[test]
fn simple_add() {
    let mut db = Databases::empty();
    let init_state_id = upload(&mut db, vec![]);
    let body = sync(&mut db, &init_state_id, vec![add("random", "nothing")]);
    assert!(!body.state_id.unwrap().is_empty());
    assert!(body.mutations.is_none());
    assert!(body.store.is_none());
    assert!(body.id_changes.is_none());
}

#[test]
fn most_recent() {
    let mut db = Databases::empty();
    let init_state_id = upload(&mut db, vec![]);
    let first_body = sync(&mut db, &init_state_id, vec![add("random", "nothing")]);
    let body = sync(
        &mut db,
        &first_body.state_id.unwrap(),
        vec![add("something", "nothing")],
    );
    assert!(!body.state_id.unwrap().is_empty());
    assert!(body.mutations.is_none());
    assert!(body.store.is_none());
    assert!(body.id_changes.is_none());
}

#[test]
fn not_recent() {
    let mut db = Databases::empty();
    let init_state_id = upload(&mut db, vec![]);
    let _first_body = sync(&mut db, &init_state_id, vec![add("random", "nothing")]);
    let body = sync(&mut db, &init_state_id, vec![add("something", "nothing")]);
    assert!(!body.state_id.unwrap().is_empty());
    assert_eq!(body.mutations, Some(vec![add("random", "nothing")]));
    assert!(body.store.is_none());
    assert!(body.id_changes.is_none());
}

#[test]
fn missing_state() {
    let mut db = Databases::empty();
    let _init_state_id = upload(&mut db, vec![cred("random", "nothing")]);
    let body = sync(&mut db, "asdfasdf", vec![add("something", "nothing")]);
    assert!(!body.state_id.unwrap().is_empty());
    assert!(body.mutations.is_none());
    assert_eq!(
        body.store,
        Some(vec![cred("random", "nothing"), cred("something", "nothing")])
    );
    assert!(body.id_changes.is_none());
}

#[test]
fn duplicate_id() {
    let mut db = Databases::empty();
    let init_state_id = upload(&mut db, vec![cred("random", "nothing")]);
    let body = sync(&mut db, &init_state_id, vec![add("random", "nothing")]);
    assert!(!body.state_id.unwrap().is_empty());
    assert!(body.mutations.is_none());
    assert!(body.store.is_none());
    assert!(body.id_changes.unwrap().len() == 1);
}

#[test]
fn modify_missing() {
    let mut db = Databases::empty();
    let init_state_id = upload(&mut db, vec![cred("random", "nothing")]);
    let body = sync(
        &mut db,
        &init_state_id,
        vec![modify("missing", "nothing"), delete("missing")],
    );
    assert!(!body.state_id.unwrap().is_empty());
    assert!(body.mutations.is_none());
    assert!(body.store.is_none());
    assert!(body.id_changes.is_none());
}

#[test]
fn remote_overriden() {
    let mut db = Databases::empty();
    let init_state_id = upload(&mut db, vec![cred("random", "nothing")]);
    let body = sync(&mut db, &init_state_id, vec![modify("blah", "stuff")]);
    assert!(!body.state_id.unwrap().is_empty());
    assert!(body.mutations.is_none());
    assert!(body.store.is_none());
    assert!(body.id_changes.is_none());
}

#[test]
fn initial_upload_then_two_clients() {
    let mut db = Databases::empty();
    let s0 = upload(&mut db, vec![]);
    let first = sync(&mut db, &s0, vec![add("r", "v")]);
    let s1 = first.state_id.unwrap();
    assert_ne!(s1, s0);
    assert!(first.id_changes.is_none());
    assert!(first.mutations.is_none());
    assert!(first.store.is_none());
    let second = sync(&mut db, &s0, vec![]);
    assert!(second.store.is_none());
    assert_eq!(second.mutations, Some(vec![add("r", "v")]));
}

#[test]
fn reannounce_latest_state() {
    let mut db = Databases::empty();
    let s0 = upload(&mut db, vec![]);
    let ack = sync(&mut db, &s0, vec![]);
    assert_eq!(ack.status, "success");
    assert_eq!(ack.state_id, Some(s0.clone()));
    assert!(ack.mutations.is_none());
    assert!(ack.store.is_none());
    assert!(ack.id_changes.is_none());
    let first = sync(&mut db, &s0, vec![add("a", "1")]);
    let s1 = first.state_id.unwrap();
    let ack2 = sync(&mut db, &s1, vec![]);
    assert_eq!(ack2.state_id, Some(s1));
}

#[test]
fn convergence_over_rounds() {
    let mut db = Databases::empty();
    let s0 = upload(&mut db, vec![]);
    let first = sync(&mut db, &s0, vec![add("a", "1")]);
    assert!(first.mutations.is_none());
    assert!(first.store.is_none());
    let s1 = first.state_id.unwrap();
    let second = sync(&mut db, &s1, vec![add("b", "2")]);
    assert!(second.mutations.is_none());
    assert!(second.store.is_none());
    let s2 = second.state_id.unwrap();
    let third = sync(&mut db, &s2, vec![]);
    assert_eq!(third.state_id, Some(s2));
    assert!(third.mutations.is_none());
}

#[test]
fn suppressed_delete_for_touched_id() {
    let mut db = Databases::empty();
    let s0 = upload(&mut db, vec![cred("x", "v")]);
    let a = sync(&mut db, &s0, vec![delete("x")]);
    assert!(!a.state_id.unwrap().is_empty());
    let b = sync(&mut db, &s0, vec![modify("x", "new")]);
    assert!(!b.state_id.unwrap().is_empty());
    assert!(b.mutations.is_none());
    assert!(b.store.is_none());
    assert!(b.id_changes.is_none());
}

#[test]
fn delivered_unrelated_delete() {
    let mut db = Databases::empty();
    let s0 = upload(&mut db, vec![cred("x", "v"), cred("y", "w")]);
    let _a = sync(&mut db, &s0, vec![delete("x")]);
    let b = sync(&mut db, &s0, vec![modify("y", "ww")]);
    assert_eq!(b.mutations, Some(vec![delete("x")]));
    assert!(b.store.is_none());
}

#[test]
fn collision_moves_credential_to_new_id() {
    let mut db = Databases::empty();
    let alias = "unit".to_string();
    let s0 = upload(&mut db, vec![cred("dup", "old")]);
    let body = sync(&mut db, &s0, vec![add("dup", "newer")]);
    let changes = body.id_changes.unwrap();
    assert_eq!(changes.len(), 1);
    let (old_id, new_id) = changes[0].clone();
    assert_eq!(old_id, "dup");
    assert_ne!(new_id, "dup");
    let creds = db.store.export_all(&alias);
    assert!(creds.contains(&cred("dup", "old")));
    assert!(creds.contains(&Credential { id: new_id, value: "newer".to_string() }));
    assert_eq!(creds.len(), 2);
}
