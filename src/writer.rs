use vstd::prelude::*;

use vstd::arithmetic::div_mod::{
    lemma_fundamental_div_mod, lemma_mod_multiples_basic, lemma_mod_self_0, lemma_small_mod,
};

use vstd::string::StringSliceAdditionalSpecFns;

use crate::encoding::{le_bytes, le_u32_at, lemma_le_at, pad_len, push_u32_le, zeros};
use crate::error::ZonError;
use crate::header::{header_bytes, ZonHeader, ZON_MAGIC, ZON_VERSION};

verus! {

/// An encoded string: its byte length, its bytes, then zeros up to a multiple of four.
pub open spec fn string_record(b: Seq<u8>) -> Seq<u8> {
    le_bytes(b.len() as u32) + b + zeros(pad_len(b.len(), 4))
}

/// `b` with the header's root field overwritten, when the buffer reaches that far.
pub open spec fn with_root(b: Seq<u8>, root: u32) -> Seq<u8> {
    if b.len() >= 12 {
        b.subrange(0, 8) + le_bytes(root) + b.subrange(12, b.len() as int)
    } else {
        b
    }
}

/// A buffer as a writer keeps it: a header with the magic number and version,
/// followed by data, four-byte aligned throughout.
pub open spec fn well_formed_buffer(b: Seq<u8>) -> bool {
    &&& b.len() >= 64
    &&& b.len() % 4 == 0
    &&& b.subrange(0, 8) == le_bytes(ZON_MAGIC) + le_bytes(ZON_VERSION)
    &&& b.subrange(12, 64) == zeros(52)
}

/// Padding to a multiple of `a` keeps four-byte alignment and reaches the next multiple.
pub proof fn lemma_pad(n: nat, a: nat)
    requires
        a > 0,
        a % 4 == 0,
        n % 4 == 0,
    ensures
        pad_len(n, a) % 4 == 0,
        pad_len(n, a) < a,
        (n + pad_len(n, a)) % a == 0,
{
    let q = n as int / a as int;
    let r = n as int % a as int;
    lemma_fundamental_div_mod(n as int, a as int);
    let m = q * (a as int / 4);
    assert(q * a == 4 * m) by (nonlinear_arith)
        requires
            m == q * (a as int / 4),
            a % 4 == 0,
    ;
    assert(r % 4 == 0);
    if r == 0 {
        lemma_mod_self_0(a as int);
        assert(n + pad_len(n, a) == q * a);
        lemma_mod_multiples_basic(q, a as int);
    } else {
        lemma_small_mod((a - r) as nat, a);
        assert(pad_len(n, a) == a - r);
        assert(n + pad_len(n, a) == (q + 1) * a) by (nonlinear_arith)
            requires
                n == a * q + r,
                pad_len(n, a) == a - r,
        ;
        lemma_mod_multiples_basic(q + 1, a as int);
    }
}

/// Builds a buffer by appending values; each write returns the offset it used.
pub struct ZonWriter {
    buffer: Vec<u8>,
}

impl View for ZonWriter {
    type V = Seq<u8>;

    closed spec fn view(&self) -> Seq<u8> {
        self.buffer@
    }
}

impl ZonWriter {
    pub open spec fn wf(&self) -> bool {
        well_formed_buffer(self@)
    }

    /// The root offset that the header currently records.
    pub open spec fn root(&self) -> u32 {
        le_u32_at(self@, 8)
    }

    /// A writer holding the default header and nothing else.
    pub fn new() -> (r: Self)
        ensures
            r@ == header_bytes(ZON_MAGIC, ZON_VERSION, 0),
            r.wf(),
            r.root() == 0,
    {
        let header = ZonHeader::default();
        let buffer = header.to_bytes();
        let r = ZonWriter { buffer };
        assert(r@.subrange(0, 8) =~= le_bytes(ZON_MAGIC) + le_bytes(ZON_VERSION));
        assert(r@.subrange(12, 64) =~= zeros(52));
        proof {
            assert(r@.subrange(8, 12) =~= le_bytes(0));
            lemma_le_at(r@, 8, 0);
        }
        r
    }

    pub fn len(&self) -> (r: usize)
        ensures
            r == self@.len(),
    {
        self.buffer.len()
    }

    pub fn is_empty(&self) -> (r: bool)
        ensures
            r == (self@.len() == 0),
    {
        self.buffer.len() == 0
    }

    /// The bytes written so far.
    pub fn as_bytes(&self) -> (r: &[u8])
        ensures
            r@ == self@,
    {
        self.buffer.as_slice()
    }

    /// A copy of the bytes written so far.
    pub fn to_bytes(&self) -> (r: Vec<u8>)
        ensures
            r@ == self@,
    {
        let mut out: Vec<u8> = Vec::with_capacity(self.buffer.len());
        let mut i: usize = 0;
        while i < self.buffer.len()
            invariant
                i <= self.buffer@.len(),
                out@ == self.buffer@.subrange(0, i as int),
            decreases self.buffer@.len() - i,
        {
            out.push(self.buffer[i]);
            i = i + 1;
            assert(out@ =~= self.buffer@.subrange(0, i as int));
        }
        assert(out@ =~= self.buffer@);
        out
    }

    /// Appends `val` little-endian and returns the offset it was written at.
    pub fn write_u32(&mut self, val: u32) -> (r: u32)
        requires
            old(self).wf(),
            old(self)@.len() <= u32::MAX,
        ensures
            final(self).wf(),
            r == old(self)@.len(),
            final(self)@ == old(self)@ + le_bytes(val),
            final(self).root() == old(self).root(),
    {
        let offset = self.buffer.len() as u32;
        push_u32_le(&mut self.buffer, val);
        assert(final(self)@.subrange(0, 8) =~= old(self)@.subrange(0, 8));
        assert(final(self)@.subrange(12, 64) =~= old(self)@.subrange(12, 64));
        offset
    }

    /// Appends `val` as an encoded string and returns the offset of its length
    /// prefix. A string longer than `u32::MAX` bytes is refused and nothing is written.
    pub fn write_string(&mut self, val: &str) -> (r: Result<u32, ZonError>)
        requires
            old(self).wf(),
            old(self)@.len() <= u32::MAX,
        ensures
            final(self).wf(),
            val.spec_bytes().len() > u32::MAX ==> r == Err::<u32, ZonError>(ZonError::ValueTooLarge)
                && final(self)@ == old(self)@,
            val.spec_bytes().len() <= u32::MAX ==> r == Ok::<u32, ZonError>(old(self)@.len() as u32)
                && final(self)@ == old(self)@ + string_record(val.spec_bytes()),
            final(self).root() == old(self).root(),
    {
        let bytes = val.as_bytes();
        let n = bytes.len();
        if n > u32::MAX as usize {
            return Err(ZonError::ValueTooLarge);
        }
        let start = self.buffer.len() as u32;
        push_u32_le(&mut self.buffer, n as u32);
        let ghost prefix = self.buffer@;
        let mut i: usize = 0;
        while i < n
            invariant
                n == bytes@.len(),
                i <= n,
                self.buffer@ == prefix + bytes@.subrange(0, i as int),
            decreases n - i,
        {
            self.buffer.push(bytes[i]);
            i = i + 1;
            assert(self.buffer@ =~= prefix + bytes@.subrange(0, i as int));
        }
        assert(bytes@.subrange(0, n as int) =~= bytes@);
        let pad: usize = (4 - n % 4) % 4;
        let ghost body = self.buffer@;
        let mut j: usize = 0;
        while j < pad
            invariant
                pad < 4,
                j <= pad,
                self.buffer@ == body + zeros(j as nat),
            decreases pad - j,
        {
            self.buffer.push(0u8);
            j = j + 1;
            assert(self.buffer@ =~= body + zeros(j as nat));
        }
        assert(pad == pad_len(n as nat, 4));
        assert(final(self)@ =~= old(self)@ + string_record(val.spec_bytes()));
        assert(final(self)@.subrange(0, 8) =~= old(self)@.subrange(0, 8));
        assert(final(self)@.subrange(12, 64) =~= old(self)@.subrange(12, 64));
        Ok(start)
    }

    /// Appends zeros, four at a time through `write_u32(0)`, until the length is
    /// a multiple of `alignment`.
    pub fn pad_to(&mut self, alignment: u32)
        requires
            old(self).wf(),
            alignment > 0,
            alignment % 4 == 0,
            old(self)@.len() + alignment <= u32::MAX,
        ensures
            final(self).wf(),
            final(self)@ == old(self)@ + zeros(pad_len(old(self)@.len(), alignment as nat)),
            final(self)@.len() % (alignment as nat) == 0,
            final(self).root() == old(self).root(),
    {
        let a = alignment as usize;
        let rem = self.buffer.len() % a;
        let pad: usize = if rem == 0 { 0 } else { a - rem };
        proof {
            lemma_pad(old(self)@.len(), alignment as nat);
            if rem == 0 {
                lemma_mod_self_0(a as int);
            } else {
                lemma_small_mod((a - rem) as nat, a as nat);
            }
        }
        assert(pad == pad_len(old(self)@.len(), alignment as nat));
        let mut k: usize = 0;
        while k < pad
            invariant
                self.wf(),
                pad % 4 == 0,
                k % 4 == 0,
                k <= pad,
                pad < a,
                a == alignment,
                old(self)@.len() + alignment <= u32::MAX,
                self@ == old(self)@ + zeros(k as nat),
                self.root() == old(self).root(),
            decreases pad - k,
        {
            self.write_u32(0);
            k = k + 4;
            assert(le_bytes(0) =~= zeros(4)) by {
                assert((0u32 & 0xff) as u8 == 0u8) by (bit_vector);
                assert(((0u32 >> 8u32) & 0xff) as u8 == 0u8) by (bit_vector);
                assert(((0u32 >> 16u32) & 0xff) as u8 == 0u8) by (bit_vector);
                assert(((0u32 >> 24u32) & 0xff) as u8 == 0u8) by (bit_vector);
            }
            assert(self@ =~= old(self)@ + zeros(k as nat));
        }
    }

    /// Overwrites the header's root field with `offset`; the rest stays. A buffer
    /// too short to hold the field is left as it is.
    pub fn set_root(&mut self, offset: u32)
        ensures
            final(self)@ == with_root(old(self)@, offset),
            old(self).wf() ==> final(self).wf(),
            old(self)@.len() >= 12 ==> final(self).root() == offset,
    {
        if self.buffer.len() >= 12 {
            self.buffer.set(8, (offset & 0xff) as u8);
            self.buffer.set(9, ((offset >> 8u32) & 0xff) as u8);
            self.buffer.set(10, ((offset >> 16u32) & 0xff) as u8);
            self.buffer.set(11, ((offset >> 24u32) & 0xff) as u8);
            assert(final(self)@ =~= with_root(old(self)@, offset));
            proof {
                assert(final(self)@.subrange(8, 12) =~= le_bytes(offset));
                lemma_le_at(final(self)@, 8, offset);
            }
            proof {
                if old(self)@.len() >= 64 {
                    assert(final(self)@.subrange(0, 8) =~= old(self)@.subrange(0, 8));
                    assert(final(self)@.subrange(12, 64) =~= old(self)@.subrange(12, 64));
                }
            }
        }
    }
}

impl Default for ZonWriter {
    fn default() -> (r: Self)
        ensures
            r@ == header_bytes(ZON_MAGIC, ZON_VERSION, 0),
            r.wf(),
    {
        ZonWriter::new()
    }
}

} // verus!
