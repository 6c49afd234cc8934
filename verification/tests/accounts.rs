use vult::config::{Config, User as ConfigUser};
use vult::database::Databases;
use vult::db_types::Credential;
use vult::guard::{User, UserError};
use vult::init::{initialize_user, InitRequest};
use vult::init_import::get_user;
use vult::init_upload::user_initial_upload;

fn test_config() -> Config {
    Config {
        users: vec![ConfigUser { alias: "unit".to_string(), keys: vec!["unit".to_string()] }],
        cache_count: 50,
        db_directory: "test".to_string(),
        enable_test_routes: false,
    }
}

fn init_request() -> InitRequest {
    InitRequest { salt: "somesalt".to_string(), hash: "somehash".to_string() }
}

#[test]
fn invalid_key() {
    let config = test_config();
    let r = User::from_key(&config, &"random".to_string());
    assert!(matches!(r, Err(UserError::MissingUser)));
}

#[test]
fn resolved_key() {
    let config = test_config();
    let r = User::from_key(&config, &"unit".to_string());
    let User(alias) = r.unwrap();
    assert_eq!(alias, "unit");
}

#[test]
fn ready() {
    let mut db = Databases::empty();
    let alias = "unit".to_string();
    let response = initialize_user(&mut db, &alias, init_request());
    assert_eq!(response.status, "success");
}

#[test]
fn taken() {
    let mut db = Databases::empty();
    let alias = "unit".to_string();
    let _initial_response = initialize_user(&mut db, &alias, init_request());
    let response = initialize_user(&mut db, &alias, init_request());
    assert_eq!(response.status, "existing");
}

#[test]
fn get_user_success() {
    let mut db = Databases::empty();
    let alias = "unit".to_string();
    let _init = initialize_user(&mut db, &alias, init_request());
    let response = get_user(&db, &alias);
    assert_eq!(response.status, "success");
    assert_eq!(response.salt, Some("somesalt".to_string()));
    assert_eq!(response.hash, Some("somehash".to_string()));
}

#[test]
fn get_user_uninitialized() {
    let db = Databases::empty();
    let alias = "unit".to_string();
    let response = get_user(&db, &alias);
    assert_eq!(response.status, "uninitialized");
    assert!(response.salt.is_none());
    assert!(response.hash.is_none());
}

#[test]
fn successful_import() {
    let mut db = Databases::empty();
    let alias = "unit".to_string();
    let response = user_initial_upload(
        &mut db,
        &alias,
        vec![Credential { id: "nothing".to_string(), value: "nothing".to_string() }],
    );
    assert_eq!(response.status, "success");
    assert!(response.state_id.is_some());
}

#[test]
fn conflict() {
    let mut db = Databases::empty();
    let alias = "unit".to_string();
    let _inital = user_initial_upload(
        &mut db,
        &alias,
        vec![Credential { id: "nothing".to_string(), value: "nothing".to_string() }],
    );
    let response = user_initial_upload(
        &mut db,
        &alias,
        vec![Credential { id: "nothing".to_string(), value: "nothing".to_string() }],
    );
    assert_eq!(response.status, "existing");
    assert!(response.state_id.is_none());
}
