//! The capability that stores the records of the notices.

pub mod mock;
pub mod redis;
pub mod service;

pub use crate::db::service::DatabaseConnection;
pub use crate::db::service::DatabaseProvider;
