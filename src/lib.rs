//! An encrypted, single-file secret store: records of site, username,
//! password and note, a byte codec for them, an AES-256-CBC layer, a
//! password-derived key scheme, the in-memory store with its CRUD
//! operations, and the tab-separated interchange text.

pub mod auth;
pub mod cfg;
pub mod cipher;
pub mod codec;
pub mod error;
pub mod parser;
pub mod persist;
pub mod record;
pub mod store;
pub mod tsv;
