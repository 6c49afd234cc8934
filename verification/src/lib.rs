pub mod assoc;
pub mod cache;
pub mod config;
pub mod database;
pub mod db_types;
pub mod error;
pub mod guard;
pub mod id;
pub mod init;
pub mod init_import;
pub mod init_upload;
pub mod laws;
pub mod store;
pub mod sync;
pub mod users;
