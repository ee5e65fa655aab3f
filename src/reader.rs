use vstd::prelude::*;

use vstd::slice::slice_subrange;
use vstd::string::StringSliceAdditionalSpecFns;
use vstd::utf8::{decode_utf8, encode_utf8_decode_utf8, valid_utf8};

use crate::encoding::{get_u32_le, le_u32_at};
use crate::error::ZonError;
use crate::header::{ROOT_FIELD, ZON_MAGIC};

verus! {

/// A buffer that a reader accepts: long enough for the header, and opening
/// with the magic number. The version is not looked at.
pub open spec fn valid_header(b: Seq<u8>) -> bool {
    b.len() >= 64 && le_u32_at(b, 0) == ZON_MAGIC
}

/// The length that the string record at `off` declares.
pub open spec fn declared_len(b: Seq<u8>, off: int) -> int {
    le_u32_at(b, off) as int
}

/// The bytes of the string record at `off`, as its length prefix declares them.
pub open spec fn string_bytes_at(b: Seq<u8>, off: int) -> Seq<u8> {
    b.subrange(off + 4, off + 4 + declared_len(b, off))
}

/// Whether a string record at `off` is in bounds and holds valid UTF-8.
pub open spec fn string_readable(b: Seq<u8>, off: int) -> bool {
    &&& off + 4 <= b.len()
    &&& off + 4 + declared_len(b, off) <= b.len()
    &&& valid_utf8(string_bytes_at(b, off))
}

/// Relies on std::str::from_utf8: it succeeds exactly on valid UTF-8, and the
/// string it returns is those same bytes.
#[verifier::external_body]
fn utf8_str<'a>(b: &'a [u8]) -> (r: Option<&'a str>)
    ensures
        r.is_some() == valid_utf8(b@),
        r matches Some(s) ==> s.spec_bytes() == b@,
{
    std::str::from_utf8(b).ok()
}

/// A read-only view of an encoded buffer. Construction checks the header
/// once; every read after that is bounds-checked and copies nothing.
pub struct ZonReader<'a> {
    buffer: &'a [u8],
}

impl<'a> View for ZonReader<'a> {
    type V = Seq<u8>;

    closed spec fn view(&self) -> Seq<u8> {
        self.buffer@
    }
}

impl<'a> ZonReader<'a> {
    #[verifier::type_invariant]
    spec fn inv(&self) -> bool {
        valid_header(self.buffer@)
    }

    /// Validates the header of `buffer`: `TooSmall` below 64 bytes, `BadMagic`
    /// when the first four bytes are not the magic number.
    pub fn new(buffer: &'a [u8]) -> (r: Result<Self, ZonError>)
        ensures
            buffer@.len() < 64 ==> r == Err::<Self, ZonError>(ZonError::TooSmall),
            buffer@.len() >= 64 && le_u32_at(buffer@, 0) != ZON_MAGIC ==> r == Err::<
                Self,
                ZonError,
            >(ZonError::BadMagic),
            valid_header(buffer@) ==> (r matches Ok(v) && v@ == buffer@),
    {
        if buffer.len() < 64 {
            return Err(ZonError::TooSmall);
        }
        let magic = get_u32_le(buffer, 0);
        if magic != ZON_MAGIC {
            return Err(ZonError::BadMagic);
        }
        Ok(ZonReader { buffer })
    }

    /// Length of the underlying buffer, which passed the header check.
    pub fn len(&self) -> (r: usize)
        ensures
            r == self@.len(),
            valid_header(self@),
    {
        proof {
            use_type_invariant(self);
        }
        self.buffer.len()
    }

    /// The integer stored little-endian at `offset`, or `OutOfBounds` when
    /// `offset + 4` passes the end of the buffer. Reads need not be aligned.
    pub fn read_u32(&self, offset: u32) -> (r: Result<u32, ZonError>)
        ensures
            offset + 4 > self@.len() ==> r == Err::<u32, ZonError>(ZonError::OutOfBounds),
            offset + 4 <= self@.len() ==> r == Ok::<u32, ZonError>(le_u32_at(self@, offset as int)),
    {
        let len = self.buffer.len();
        if len < 4 || offset as usize > len - 4 {
            return Err(ZonError::OutOfBounds);
        }
        Ok(get_u32_le(self.buffer, offset as usize))
    }

    /// The string whose record starts at `offset`, borrowed from the buffer.
    /// `OutOfBounds` when the length prefix cannot be read, `StringOutOfBounds`
    /// when the declared bytes pass the end, `InvalidUtf8` when they are not UTF-8.
    pub fn read_string(&self, offset: u32) -> (r: Result<&'a str, ZonError>)
        ensures
            offset + 4 > self@.len() ==> r == Err::<&'a str, ZonError>(ZonError::OutOfBounds),
            offset + 4 <= self@.len() && offset + 4 + declared_len(self@, offset as int)
                > self@.len() ==> r == Err::<&'a str, ZonError>(ZonError::StringOutOfBounds),
            offset + 4 + declared_len(self@, offset as int) <= self@.len() && !valid_utf8(
                string_bytes_at(self@, offset as int),
            ) ==> r == Err::<&'a str, ZonError>(ZonError::InvalidUtf8),
            offset + 4 + declared_len(self@, offset as int) <= self@.len() && valid_utf8(
                string_bytes_at(self@, offset as int),
            ) ==> (r matches Ok(s) && s.spec_bytes() == string_bytes_at(self@, offset as int)
                && s@ == decode_utf8(string_bytes_at(self@, offset as int))),
    {
        let n = match self.read_u32(offset) {
            Ok(n) => n,
            Err(e) => {
                return Err(e);
            },
        };
        let len = self.buffer.len();
        let start = offset as usize + 4;
        if n as usize > len - start {
            return Err(ZonError::StringOutOfBounds);
        }
        let end = start + n as usize;
        let bytes = slice_subrange(self.buffer, start, end);
        match utf8_str(bytes) {
            Some(s) => {
                proof {
                    encode_utf8_decode_utf8(s@);
                }
                Ok(s)
            },
            None => Err(ZonError::InvalidUtf8),
        }
    }

    /// The root offset recorded in the header.
    pub fn root_offset(&self) -> (r: Result<u32, ZonError>)
        ensures
            r == Ok::<u32, ZonError>(le_u32_at(self@, ROOT_FIELD as int)),
    {
        proof {
            use_type_invariant(self);
        }
        self.read_u32(ROOT_FIELD)
    }
}

} // verus!
