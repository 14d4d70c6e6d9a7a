//! A symmetric, password-based byte-stream cipher: a buffer is authenticated
//! with HMAC-SHA-256, masked with a PBKDF2-derived keystream, and obfuscated
//! by a chained block-shuffle stage; the same password recovers it.

pub mod authentication;
pub mod dum_encryption;
pub mod encryption_options;
pub mod key_generation;
