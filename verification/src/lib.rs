//! A verified two-way codec for the REDBIN wire format: the tagged,
//! self-describing binary exchange format in which the Red runtime saves and
//! loads structured values.
//!
//! The library models a wire value as the closed [`value::Value`] tree and
//! proves the byte-level codec against a mathematical description of the
//! format: [`wire::enc`] says exactly which bytes a value encodes to, and
//! [`wire::dec_value`] says exactly which value (or which error) a byte
//! sequence decodes to.

pub mod de;
pub mod error;
pub mod laws;
pub mod ser;
pub mod text;
pub mod value;
pub mod wire;

pub use de::Deserializer;
pub use de::from_bytes;
pub use error::Error;
pub use error::IntWidth;
pub use ser::Serializer;
pub use ser::to_bytes;
pub use ser::to_bytes_with;
pub use ser::wrap_envelope;
pub use value::Value;
