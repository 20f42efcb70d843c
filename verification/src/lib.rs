//! Codec for the D-Bus wire protocol: a typed value model, the signature
//! grammar, and an alignment-sensitive, endianness-parametric binary
//! marshaller and unmarshaller for values and whole messages.

pub mod codec;
pub mod dec;
pub mod decode;
pub mod enc;
pub mod endian;
pub mod error;
pub mod header;
pub mod laws;
pub mod message;
pub mod roundtrip;
pub mod signature;
pub mod types;
pub mod utf8;
pub mod value;

pub use endian::MessageEndianness;
pub use error::DbusParseError;
pub use header::{FixedHeaderPart, Header, HeaderField, HeaderFields, MessageFlags, MessageType};
pub use message::Message;
pub use signature::{Signature, SignatureType};
pub use types::CompleteType;
pub use value::{
    DbusArray, DbusBoolean, DbusDict, DbusDictEntry, DbusObjectPath, DbusSignature, DbusString,
    DbusStruct, DbusTypeContainer, DbusVariant,
};
