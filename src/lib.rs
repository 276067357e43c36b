//! In-place repeating-key XOR file cipher with a random sixteen-byte prefix.
//!
//! The transform is split into a pure keystream layer over a self-inverse
//! byte combiner (exclusive or by default), two streaming state machines that
//! choreograph positional reads and writes on one file, and an in-memory
//! driver that runs those machines over a byte buffer.

pub mod cipher;
pub mod memory;
pub mod mode;
pub mod prefix;
pub mod stream;

pub use cipher::{xor, Combiner, Xor, BUFFER_SIZE, PREFIX_SIZE};
pub use memory::{decrypt_in_place, encrypt_in_place};
pub use mode::{parse_mode, Mode};
pub use prefix::generate_prefix;
pub use stream::{CipherError, Decryptor, Encryptor, PendingWrite};
