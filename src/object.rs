use vstd::prelude::*;

use vstd::utf8::encode_utf8;

use crate::encoding::{le_bytes, pad_len, zeros};
use crate::error::ZonError;
use crate::header::{header_bytes, ZON_MAGIC, ZON_VERSION};
use crate::writer::{lemma_pad, string_record, with_root, ZonWriter};

verus! {

/// A scalar field of a flat key/value object, as a caller hands it over.
#[derive(Debug, PartialEq, Eq)]
pub enum FieldValue {
    /// A string.
    Text(String),
    /// A non-negative integer.
    Unsigned(u64),
    /// A negative integer.
    Negative(i64),
    /// Anything else (fractions, booleans, nulls, nested values): not encoded.
    Other,
}

/// The bytes that `serialize` produces from the object's entries.
pub open spec fn first_field_bytes(fs: Seq<(String, FieldValue)>) -> Result<Seq<u8>, ZonError> {
    let h = header_bytes(ZON_MAGIC, ZON_VERSION, 0);
    if fs.len() == 0 {
        Ok(h)
    } else {
        match fs[0].1 {
            FieldValue::Text(s) => if encode_utf8(s@).len() > u32::MAX {
                Err(ZonError::ValueTooLarge)
            } else {
                Ok(with_root(h + string_record(encode_utf8(s@)), 64))
            },
            FieldValue::Unsigned(u) => if u > u32::MAX {
                Err(ZonError::ValueTooLarge)
            } else {
                Ok(with_root(h + le_bytes(u as u32), 64))
            },
            _ => Ok(h),
        }
    }
}

/// Whether `serialize_to_zon` can encode a field without losing information.
pub open spec fn field_fits(v: FieldValue) -> bool {
    match v {
        FieldValue::Text(s) => encode_utf8(s@).len() <= u32::MAX,
        FieldValue::Unsigned(u) => u <= u32::MAX,
        FieldValue::Negative(_) => false,
        FieldValue::Other => true,
    }
}

/// Whether a field gets a value record (others are skipped).
pub open spec fn is_encoded(v: FieldValue) -> bool {
    v is Text || v is Unsigned
}

/// The value record of a field.
pub open spec fn value_bytes(v: FieldValue) -> Seq<u8> {
    match v {
        FieldValue::Text(s) => string_record(encode_utf8(s@)),
        FieldValue::Unsigned(u) => le_bytes(u as u32),
        _ => Seq::empty(),
    }
}

/// The value records of all fields, in order.
pub open spec fn values_region(fs: Seq<(String, FieldValue)>) -> Seq<u8>
    decreases fs.len(),
{
    if fs.len() == 0 {
        Seq::empty()
    } else {
        values_region(fs.drop_last()) + value_bytes(fs.last().1)
    }
}

/// For each encoded field, its index and the offset of its value record, when
/// the value records start at `base`.
pub open spec fn value_entries(fs: Seq<(String, FieldValue)>, base: int) -> Seq<(usize, u32)>
    decreases fs.len(),
{
    if fs.len() == 0 {
        Seq::empty()
    } else {
        let prev = value_entries(fs.drop_last(), base);
        if is_encoded(fs.last().1) {
            prev.push(((fs.len() - 1) as usize, (base + values_region(fs.drop_last()).len()) as u32))
        } else {
            prev
        }
    }
}

/// The struct region's table starting at `start`: for each entry, the key's
/// string record, then the offset of that record, then the value's offset.
pub open spec fn table_region(fs: Seq<(String, FieldValue)>, es: Seq<(usize, u32)>, start: int) -> Seq<u8>
    decreases es.len(),
{
    if es.len() == 0 {
        Seq::empty()
    } else {
        let prev = table_region(fs, es.drop_last(), start);
        prev + string_record(encode_utf8(fs[es.last().0 as int].0@)) + le_bytes(
            (start + prev.len()) as u32,
        ) + le_bytes(es.last().1)
    }
}

/// Header and value records, padded to a 64-byte boundary.
pub open spec fn padded_values(fs: Seq<(String, FieldValue)>) -> Seq<u8> {
    let body = header_bytes(ZON_MAGIC, ZON_VERSION, 0) + values_region(fs);
    body + zeros(pad_len(body.len(), 64))
}

/// The whole buffer that `serialize_to_zon` lays out: the values, the padding,
/// the table, the entry count, and the root pointing at the table.
pub open spec fn object_bytes(fs: Seq<(String, FieldValue)>) -> Seq<u8> {
    let padded = padded_values(fs);
    let es = value_entries(fs, 64);
    let start = padded.len() as int;
    with_root(padded + table_region(fs, es, start) + le_bytes(es.len() as u32), start as u32)
}

/// What `serialize_to_zon` returns: the layout when every field fits and every
/// offset fits in 32 bits, `ValueTooLarge` otherwise.
pub open spec fn object_result(fs: Seq<(String, FieldValue)>) -> Result<Seq<u8>, ZonError> {
    if (forall|i: int| 0 <= i < fs.len() ==> field_fits(#[trigger] fs[i].1)) && object_bytes(fs).len()
        <= u32::MAX {
        Ok(object_bytes(fs))
    } else {
        Err(ZonError::ValueTooLarge)
    }
}

proof fn lemma_values_prefix(fs: Seq<(String, FieldValue)>, i: int)
    requires
        0 <= i <= fs.len(),
    ensures
        values_region(fs.take(i)).len() <= values_region(fs).len(),
    decreases fs.len(),
{
    if i == fs.len() {
        assert(fs.take(i) =~= fs);
    } else {
        assert(fs.drop_last().take(i) =~= fs.take(i));
        lemma_values_prefix(fs.drop_last(), i);
    }
}

proof fn lemma_table_prefix(fs: Seq<(String, FieldValue)>, es: Seq<(usize, u32)>, j: int, start: int)
    requires
        0 <= j <= es.len(),
    ensures
        table_region(fs, es.take(j), start).len() <= table_region(fs, es, start).len(),
    decreases es.len(),
{
    if j == es.len() {
        assert(es.take(j) =~= es);
    } else {
        assert(es.drop_last().take(j) =~= es.take(j));
        lemma_table_prefix(fs, es.drop_last(), j, start);
    }
}

proof fn lemma_object_len(fs: Seq<(String, FieldValue)>)
    ensures
        padded_values(fs).len() >= 64 + values_region(fs).len(),
        object_bytes(fs).len() == padded_values(fs).len() + table_region(
            fs,
            value_entries(fs, 64),
            padded_values(fs).len() as int,
        ).len() + 4,
{
}

proof fn lemma_table_step(fs: Seq<(String, FieldValue)>, es: Seq<(usize, u32)>, j: int, start: int)
    requires
        0 <= j < es.len(),
    ensures
        table_region(fs, es.take(j + 1), start) == table_region(fs, es.take(j), start)
            + string_record(encode_utf8(fs[es[j].0 as int].0@)) + le_bytes(
            (start + table_region(fs, es.take(j), start).len()) as u32,
        ) + le_bytes(es[j].1),
{
    assert(es.take(j + 1).drop_last() =~= es.take(j));
}

proof fn lemma_entries_in_range(fs: Seq<(String, FieldValue)>, base: int)
    requires
        fs.len() <= usize::MAX,
    ensures
        forall|k: int|
            0 <= k < value_entries(fs, base).len() ==> (#[trigger] value_entries(fs, base)[k]).0
                < fs.len(),
    decreases fs.len(),
{
    if fs.len() > 0 {
        lemma_entries_in_range(fs.drop_last(), base);
        let prev = value_entries(fs.drop_last(), base);
        assert(forall|k: int| 0 <= k < prev.len() ==> (#[trigger] prev[k]).0 < fs.len());
    }
}

/// The byte sequence a result carries, or its error.
pub open spec fn bytes_of(r: Result<Vec<u8>, ZonError>) -> Result<Seq<u8>, ZonError> {
    match r {
        Ok(v) => Ok(v@),
        Err(e) => Err(e),
    }
}

/// Encodes the first entry of an object, a string or a non-negative integer,
/// and makes it the root. Other entries are ignored; an integer that does not
/// fit in 32 bits is refused rather than cut down.
pub fn serialize(fields: &Vec<(String, FieldValue)>) -> (r: Result<Vec<u8>, ZonError>)
    ensures
        bytes_of(r) == first_field_bytes(fields@),
{
    let mut writer = ZonWriter::new();
    if fields.len() > 0 {
        match &fields[0].1 {
            FieldValue::Text(s) => {
                let off = match writer.write_string(s.as_str()) {
                    Ok(off) => off,
                    Err(e) => {
                        return Err(e);
                    },
                };
                writer.set_root(off);
            },
            FieldValue::Unsigned(u) => {
                if *u > u32::MAX as u64 {
                    return Err(ZonError::ValueTooLarge);
                }
                let off = writer.write_u32(*u as u32);
                writer.set_root(off);
            },
            _ => {},
        }
    }
    Ok(writer.to_bytes())
}

/// Encodes a flat object as a struct region. Every string or non-negative
/// integer field gets a value record, in order; the buffer is padded to a
/// 64-byte boundary; then, for each of those fields, the key's string record,
/// its offset and the value's offset; then the number of entries. The root
/// points at the start of that table. A negative integer or an oversized value
/// is refused with `ValueTooLarge`, as is a buffer that 32-bit offsets cannot
/// address; other fields are skipped.
#[verifier::rlimit(40)]
pub fn serialize_to_zon(fields: &Vec<(String, FieldValue)>) -> (r: Result<Vec<u8>, ZonError>)
    ensures
        bytes_of(r) == object_result(fields@),
{
    let ghost fs = fields@;
    let ghost h = header_bytes(ZON_MAGIC, ZON_VERSION, 0);
    let ghost total = object_bytes(fs).len();
    let count = fields.len();
    proof {
        lemma_object_len(fs);
        lemma_entries_in_range(fs, 64);
        assert(fs.take(0) =~= Seq::<(String, FieldValue)>::empty());
    }
    let mut writer = ZonWriter::new();
    let mut entries: Vec<(usize, u32)> = Vec::new();
    let mut i: usize = 0;
    while i < fields.len()
        invariant
            fs == fields@,
            i <= fs.len(),
            writer.wf(),
            writer@ == h + values_region(fs.take(i as int)),
            entries@ == value_entries(fs.take(i as int), 64),
            forall|j: int| 0 <= j < i ==> field_fits(#[trigger] fs[j].1),
            total == object_bytes(fs).len(),
            total >= 64 + values_region(fs).len() + 4,
            h.len() == 64,
        decreases fs.len() - i,
    {
        proof {
            assert(fs.take(i + 1).drop_last() =~= fs.take(i as int));
            assert(fs.take(i + 1).last() == fs[i as int]);
            lemma_values_prefix(fs, i as int);
        }
        let ghost before = writer@;
        match &fields[i].1 {
            FieldValue::Text(s) => {
                if writer.len() > u32::MAX as usize {
                    return Err(ZonError::ValueTooLarge);
                }
                match writer.write_string(s.as_str()) {
                    Ok(off) => {
                        entries.push((i, off));
                    },
                    Err(e) => {
                        assert(!field_fits(fs[i as int].1));
                        return Err(e);
                    },
                }
            },
            FieldValue::Unsigned(u) => {
                if *u > u32::MAX as u64 {
                    assert(!field_fits(fs[i as int].1));
                    return Err(ZonError::ValueTooLarge);
                }
                if writer.len() > u32::MAX as usize {
                    return Err(ZonError::ValueTooLarge);
                }
                let off = writer.write_u32(*u as u32);
                entries.push((i, off));
            },
            FieldValue::Negative(_) => {
                assert(!field_fits(fs[i as int].1));
                return Err(ZonError::ValueTooLarge);
            },
            FieldValue::Other => {},
        }
        proof {
            let prev = value_entries(fs.take(i as int), 64);
            let next = value_entries(fs.take(i + 1), 64);
            assert(before.len() == 64 + values_region(fs.take(i as int)).len());
            if is_encoded(fs[i as int].1) {
                assert(next == prev.push((i, (64 + values_region(fs.take(i as int)).len()) as u32)));
            } else {
                assert(next == prev);
            }
        }
        i = i + 1;
        assert(writer@ =~= h + values_region(fs.take(i as int)));
    }
    assert(fs.take(fs.len() as int) =~= fs);
    let ghost body = writer@;
    proof {
        lemma_pad(body.len(), 64);
    }
    while writer.len() % 64 != 0
        invariant
            fs == fields@,
            writer.wf(),
            body.len() % 4 == 0,
            (body.len() + pad_len(body.len(), 64)) % 64 == 0,
            pad_len(body.len(), 64) % 4 == 0,
            body.len() <= writer@.len() <= body.len() + pad_len(body.len(), 64),
            writer@ == body + zeros((writer@.len() - body.len()) as nat),
            total == object_bytes(fs).len(),
            total >= padded_values(fs).len() + 4,
            padded_values(fs) == body + zeros(pad_len(body.len(), 64)),
        decreases body.len() + pad_len(body.len(), 64) - writer@.len(),
    {
        if writer.len() > u32::MAX as usize {
            return Err(ZonError::ValueTooLarge);
        }
        writer.write_u32(0);
        assert(le_bytes(0) =~= zeros(4)) by {
            assert((0u32 & 0xff) as u8 == 0u8) by (bit_vector);
            assert(((0u32 >> 8u32) & 0xff) as u8 == 0u8) by (bit_vector);
            assert(((0u32 >> 16u32) & 0xff) as u8 == 0u8) by (bit_vector);
            assert(((0u32 >> 24u32) & 0xff) as u8 == 0u8) by (bit_vector);
        }
        assert(writer@ =~= body + zeros((writer@.len() - body.len()) as nat));
    }
    assert(writer@ == padded_values(fs));
    if writer.len() > u32::MAX as usize {
        return Err(ZonError::ValueTooLarge);
    }
    let start = writer.len() as u32;
    let ghost padded = writer@;
    let ghost es = entries@;
    proof {
        assert(es.take(0) =~= Seq::<(usize, u32)>::empty());
    }
    let mut j: usize = 0;
    while j < entries.len()
        invariant
            fs == fields@,
            es == entries@,
            es == value_entries(fs, 64),
            forall|k: int| 0 <= k < es.len() ==> (#[trigger] es[k]).0 < fs.len(),
            j <= es.len(),
            writer.wf(),
            padded == padded_values(fs),
            start == padded.len(),
            writer@ == padded + table_region(fs, es.take(j as int), start as int),
            total == object_bytes(fs).len(),
        decreases es.len() - j,
    {
        proof {
            lemma_table_step(fs, es, j as int, start as int);
            lemma_table_prefix(fs, es, j + 1, start as int);
        }
        let (idx, voff) = entries[j];
        if writer.len() > u32::MAX as usize {
            return Err(ZonError::ValueTooLarge);
        }
        let key_off = match writer.write_string(fields[idx].0.as_str()) {
            Ok(off) => off,
            Err(e) => {
                return Err(e);
            },
        };
        if writer.len() > u32::MAX as usize {
            return Err(ZonError::ValueTooLarge);
        }
        writer.write_u32(key_off);
        if writer.len() > u32::MAX as usize {
            return Err(ZonError::ValueTooLarge);
        }
        writer.write_u32(voff);
        j = j + 1;
        assert(writer@ =~= padded + table_region(fs, es.take(j as int), start as int));
    }
    assert(es.take(es.len() as int) =~= es);
    if writer.len() > u32::MAX as usize {
        return Err(ZonError::ValueTooLarge);
    }
    writer.write_u32(entries.len() as u32);
    if writer.len() > u32::MAX as usize {
        return Err(ZonError::ValueTooLarge);
    }
    writer.set_root(start);
    assert(writer@ == object_bytes(fs));
    Ok(writer.to_bytes())
}

} // verus!
