use vstd::prelude::*;

use vstd::utf8::{decode_utf8, encode_utf8, encode_utf8_decode_utf8, encode_utf8_valid_utf8};

use crate::encoding::{le_bytes, le_u32_at, lemma_le_at, zeros};
use crate::header::{header_bytes, ROOT_FIELD, ZON_MAGIC, ZON_VERSION};
use crate::reader::{declared_len, string_bytes_at, string_readable, valid_header};
use crate::writer::{string_record, ZonWriter};

verus! {

/// Whatever a writer holds opens as a reader, and the integer at the header's
/// root field is the writer's root: the last offset given to `set_root`, or 0.
pub proof fn lemma_writer_buffer_opens(w: ZonWriter)
    requires
        w.wf(),
    ensures
        valid_header(w@),
        ROOT_FIELD + 4 <= w@.len(),
        le_u32_at(w@, ROOT_FIELD as int) == w.root(),
{
    assert(w@.subrange(0, 4) =~= w@.subrange(0, 8).subrange(0, 4));
    assert((le_bytes(ZON_MAGIC) + le_bytes(ZON_VERSION)).subrange(0, 4) =~= le_bytes(ZON_MAGIC));
    lemma_le_at(w@, 0, ZON_MAGIC);
}

/// An integer written at `off` reads back unchanged from `off`, whatever
/// surrounds its four bytes.
pub proof fn lemma_u32_round_trip(b: Seq<u8>, off: int, v: u32)
    requires
        0 <= off,
        off + 4 <= b.len(),
        b.subrange(off, off + 4) == le_bytes(v),
    ensures
        le_u32_at(b, off) == v,
{
    lemma_le_at(b, off, v);
}

/// A string whose record was written at `off` reads back unchanged from `off`,
/// whatever surrounds the record: it stays in bounds, holds valid UTF-8, and
/// decodes to the same characters.
pub proof fn lemma_string_round_trip(b: Seq<u8>, off: int, s: Seq<char>)
    requires
        encode_utf8(s).len() <= u32::MAX,
        0 <= off,
        off + string_record(encode_utf8(s)).len() <= b.len(),
        b.subrange(off, off + string_record(encode_utf8(s)).len()) == string_record(encode_utf8(s)),
    ensures
        string_readable(b, off),
        string_bytes_at(b, off) == encode_utf8(s),
        decode_utf8(string_bytes_at(b, off)) == s,
{
    let e = encode_utf8(s);
    let rec = string_record(e);
    let n = e.len() as u32;
    assert(b.subrange(off, off + 4) =~= rec.subrange(0, 4));
    assert(rec.subrange(0, 4) =~= le_bytes(n));
    lemma_le_at(b, off, n);
    assert(declared_len(b, off) == e.len());
    assert(string_bytes_at(b, off) =~= rec.subrange(4, 4 + e.len() as int));
    assert(rec.subrange(4, 4 + e.len() as int) =~= e);
    encode_utf8_valid_utf8(s);
    encode_utf8_decode_utf8(s);
}

/// A fresh header is 64 bytes long, opens with the magic number in
/// little-endian order, and records root 0.
pub proof fn lemma_fresh_header()
    ensures
        header_bytes(ZON_MAGIC, ZON_VERSION, 0).len() == 64,
        header_bytes(ZON_MAGIC, ZON_VERSION, 0).subrange(0, 4) == le_bytes(ZON_MAGIC),
        header_bytes(ZON_MAGIC, ZON_VERSION, 0).subrange(8, 12) == zeros(4),
        le_u32_at(header_bytes(ZON_MAGIC, ZON_VERSION, 0), ROOT_FIELD as int) == 0,
        valid_header(header_bytes(ZON_MAGIC, ZON_VERSION, 0)),
{
    let h = header_bytes(ZON_MAGIC, ZON_VERSION, 0);
    assert(h.subrange(0, 4) =~= le_bytes(ZON_MAGIC));
    assert(h.subrange(8, 12) =~= le_bytes(0));
    assert(le_bytes(0) =~= zeros(4)) by {
        assert((0u32 & 0xff) as u8 == 0u8) by (bit_vector);
        assert(((0u32 >> 8u32) & 0xff) as u8 == 0u8) by (bit_vector);
        assert(((0u32 >> 16u32) & 0xff) as u8 == 0u8) by (bit_vector);
        assert(((0u32 >> 24u32) & 0xff) as u8 == 0u8) by (bit_vector);
    }
    lemma_le_at(h, 0, ZON_MAGIC);
    lemma_le_at(h, 8, 0);
}

} // verus!
