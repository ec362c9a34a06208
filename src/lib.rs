//! A minimal binary codec that lays values out as closely as possible to how
//! they sit in memory: integers in a fixed width and a chosen byte order,
//! strings as their UTF-8 bytes, compound values as their parts back to back,
//! with no length prefix, tag or separator of any kind.

pub mod de;
pub mod error;
pub mod laws;
pub mod order;
pub mod ser;
mod text;
pub mod value;

pub use de::{from_bytes, Deserializer};
pub use error::{Error, ErrorKind};
pub use order::ByteOrder;
pub use ser::{to_vec, to_writer, Serializer};
pub use value::{Datum, Shape, Value};
