//! An encrypted local vault: key derivation, the authenticated encryption
//! envelope, the catalogue's column encoding, listing order, tag rewrites,
//! recursive deletion and master-key rotation.

pub mod crypto;
pub mod error;
pub mod text;
pub mod item;
pub mod columns;
pub mod tags;
pub mod tree;
pub mod vault;
pub mod import;
pub mod blob;
