//! A minimalist streaming byte obfuscator.
//!
//! Bytes are processed in fixed 8-byte blocks by a reversible transform
//! whose key material evolves after every block, so each block's key
//! depends on all data processed before it. The key is derived from a
//! passphrase. Encrypt and decrypt with the same passphrase are exact
//! inverses of each other.

pub mod cipher;
pub mod driver;
pub mod duplex;
pub mod key_init;
pub mod pipeline;
pub mod types;

pub use cipher::{Cipher, DecryptState, EncryptState};
pub use driver::Driver;
pub use key_init::KeyInit;
pub use pipeline::Pipeline;
pub use types::DataChunk;
