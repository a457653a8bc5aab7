//! Framing encoder for a Noise-secured byte stream.
//!
//! A message is cut into chunks of bounded size. For each chunk the codec
//! encrypts a two-byte length prefix and then the chunk itself under the
//! transport session, and appends both ciphertexts to the output buffer:
//!
//! ```text
//! [ Encrypted(length prefix) || tag ] [ Encrypted(chunk) || tag ] ...
//! ```
//!
//! `chunking` says how a message is cut, `framing` says what the session
//! makes of the pieces, and `encoder` holds the code that does it. The
//! modules `buffer` and `session` state what is taken on trust from the
//! `bytes` and `snow` crates.

pub mod buffer;
pub mod chunking;
pub mod encoder;
pub mod error;
pub mod framing;
pub mod payload_size;
pub mod session;

pub use encoder::{Len, NoiseCodec};
pub use error::CodecError;
pub use payload_size::{PayloadSize, MAX_PAYLOAD_LENGTH};
pub use session::NOISE_TAG_LENGTH;
