//! A schema-less binary format for zero-copy data exchange.
//!
//! A [`ZonWriter`] appends little-endian integers and length-prefixed strings
//! after a fixed 64-byte header and returns the offset of each value; a
//! [`ZonReader`] checks the header once and then reads values in place, with
//! every access bounds-checked.

pub mod encoding;
pub mod error;
pub mod header;
pub mod inspect;
pub mod laws;
pub mod object;
pub mod reader;
pub mod writer;

pub use error::ZonError;
pub use header::{ZonHeader, HEADER_ALIGN, HEADER_SIZE, ROOT_FIELD, ZON_MAGIC, ZON_VERSION};
pub use inspect::{inspect, Inspection, RootValue};
pub use object::{serialize, serialize_to_zon, FieldValue};
pub use reader::ZonReader;
pub use writer::ZonWriter;
