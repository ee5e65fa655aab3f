use vstd::prelude::*;

use crate::encoding::{le_bytes, push_u32_le, zeros};

verus! {

/// Format identifier stored little-endian in the first four bytes: "ZON!".
pub const ZON_MAGIC: u32 = 0x5A4F4E21;

/// The format version written by this library.
pub const ZON_VERSION: u32 = 1;

/// Size of the fixed header; the data segment starts here, on a 64-byte boundary.
pub const HEADER_SIZE: usize = 64;

/// Alignment of the header and of the data segment that follows it.
pub const HEADER_ALIGN: usize = 64;

/// Byte offset of the header's root field.
pub const ROOT_FIELD: u32 = 8;

/// The encoded header: magic, version and root, then zeros up to 64 bytes.
pub open spec fn header_bytes(magic: u32, version: u32, root: u32) -> Seq<u8> {
    le_bytes(magic) + le_bytes(version) + le_bytes(root) + zeros(52)
}

/// The header that opens every buffer. Bytes 12 to 63 are reserved and always zero.
#[derive(Debug, Clone, Copy, PartialEq, Eq, Structural)]
pub struct ZonHeader {
    pub magic: u32,
    pub version: u32,
    pub root: u32,
}

impl Default for ZonHeader {
    fn default() -> (r: Self)
        ensures
            r == (ZonHeader { magic: ZON_MAGIC, version: ZON_VERSION, root: 0 }),
    {
        ZonHeader { magic: ZON_MAGIC, version: ZON_VERSION, root: 0 }
    }
}

impl ZonHeader {
    /// The header's bytes as they stand at the start of a buffer.
    pub open spec fn spec_bytes(&self) -> Seq<u8> {
        header_bytes(self.magic, self.version, self.root)
    }

    /// Points the header at a new root value; the other fields stay.
    pub fn set_root(&mut self, offset: u32)
        ensures
            *final(self) == (ZonHeader { root: offset, ..*old(self) }),
    {
        self.root = offset;
    }

    /// Serialises the header field by field: exactly `HEADER_SIZE` bytes.
    pub fn to_bytes(&self) -> (r: Vec<u8>)
        ensures
            r@ == self.spec_bytes(),
            r@.len() == HEADER_SIZE,
    {
        let mut out: Vec<u8> = Vec::with_capacity(HEADER_SIZE);
        push_u32_le(&mut out, self.magic);
        push_u32_le(&mut out, self.version);
        push_u32_le(&mut out, self.root);
        let mut i: usize = 12;
        while i < HEADER_SIZE
            invariant
                12 <= i <= HEADER_SIZE,
                out@ == le_bytes(self.magic) + le_bytes(self.version) + le_bytes(self.root)
                    + zeros((i - 12) as nat),
            decreases HEADER_SIZE - i,
        {
            out.push(0u8);
            i = i + 1;
            assert(out@ =~= le_bytes(self.magic) + le_bytes(self.version) + le_bytes(self.root)
                + zeros((i - 12) as nat));
        }
        out
    }
}

} // verus!
