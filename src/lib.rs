//! Shared, access-controlled collections of encrypted files with a username
//! directory.

pub mod types;
pub mod directory;
pub mod keyed;
pub mod order;
pub mod access;
pub mod store;
pub mod service;
