//! Wire format for a UTXO-style ledger with transparent and hidden outputs.
//!
//! Each entity serializes to a compact, self-describing byte representation:
//! a decoded value reports how many bytes it consumed, and container codecs
//! use that report as a cursor. Commitments and nullifiers are derived from
//! output data by one-way hashing with a random salt, through a pluggable
//! digest capability.

pub mod codec;
pub mod commitment;
pub mod error;
pub mod nullifier;
pub mod transaction;
pub mod unencrypted;

pub use codec::ByteLength;
pub use codec::Decodeable;
pub use codec::Encodeable;
pub use commitment::Commitment;
pub use commitment::Output;
pub use commitment::PrivateCommitment;
pub use error::Error;
pub use nullifier::Nullifier;
pub use nullifier::OutputId;
pub use transaction::Transaction;
pub use unencrypted::Decryptor;
pub use unencrypted::Encryptor;
pub use unencrypted::UnencryptedOutput;
