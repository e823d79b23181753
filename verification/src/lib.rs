//! Verified core of a session-token service: salted credential hashing,
//! claims construction, signed-token encoding and verification, the stored
//! refresh-token table, the rotation (refresh) protocol, the bearer-token
//! request gate, and the logout path.
pub mod claims;
pub mod codec;
pub mod errors;
pub mod hashing;
pub mod models;
pub mod rotation;
pub mod service;
pub mod store;
pub mod text;
pub mod validation;
