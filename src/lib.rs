//! Decryption of password-protected "Salted__" containers: header parsing, key
//! derivation, and a ChaCha20 keystream applied chunk by chunk with its position
//! carried across calls.

pub mod container;
pub mod decrypt;
pub mod executor;
pub mod cipher;
pub mod kdf;
pub mod request;

pub use decrypt::decrypt;
pub use executor::Executor;
