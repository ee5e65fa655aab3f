use vstd::prelude::*;

use vstd::utf8::decode_utf8;

use crate::encoding::le_u32_at;
use crate::reader::{string_bytes_at, string_readable, ZonReader};

verus! {

/// What the root offset of a buffer appears to point at. The format carries
/// no type tags, so a string is tried first, then an integer.
#[derive(Debug, PartialEq, Eq)]
pub enum RootValue {
    /// A readable string record starts at the root.
    Text(String),
    /// No string, but four bytes can be read there.
    Number(u32),
    /// Nothing can be read at the root offset.
    Unknown(u32),
    /// The root is 0, or points past the end of the buffer.
    Unset,
}

/// A summary of a buffer's header and of the value at its root.
#[derive(Debug, PartialEq, Eq)]
pub struct Inspection {
    pub magic: u32,
    pub version: u32,
    pub root_offset: u32,
    pub root: RootValue,
    pub buffer_size: usize,
}

/// Reads the header fields of `reader` and guesses what its root holds.
pub fn inspect(reader: &ZonReader) -> (r: Inspection)
    ensures
        r.magic == le_u32_at(reader@, 0),
        r.version == le_u32_at(reader@, 4),
        r.root_offset == le_u32_at(reader@, 8),
        r.buffer_size == reader@.len(),
        ({
            let b = reader@;
            let root = r.root_offset as int;
            if root == 0 || root >= b.len() {
                r.root == RootValue::Unset
            } else if string_readable(b, root) {
                r.root matches RootValue::Text(t) && t@ == decode_utf8(string_bytes_at(b, root))
            } else if root + 4 <= b.len() {
                r.root == RootValue::Number(le_u32_at(b, root))
            } else {
                r.root == RootValue::Unknown(r.root_offset)
            }
        }),
{
    let size = reader.len();
    let magic = match reader.read_u32(0) {
        Ok(v) => v,
        Err(_) => 0,
    };
    let version = match reader.read_u32(4) {
        Ok(v) => v,
        Err(_) => 0,
    };
    let root = match reader.read_u32(8) {
        Ok(v) => v,
        Err(_) => 0,
    };
    let value = if root > 0 && (root as usize) < size {
        match reader.read_string(root) {
            Ok(s) => RootValue::Text(s.to_owned()),
            Err(_) => match reader.read_u32(root) {
                Ok(v) => RootValue::Number(v),
                Err(_) => RootValue::Unknown(root),
            },
        }
    } else {
        RootValue::Unset
    };
    Inspection { magic, version, root_offset: root, root: value, buffer_size: size }
}

} // verus!
