//! A signing-key registry with expiry-aware selection, and the token and
//! key-set material that is derived from it.

pub mod clock;
pub mod crypto;
pub mod db;
pub mod decimal;
pub mod jwks;
pub mod provision;
pub mod token;
