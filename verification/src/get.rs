//! The byte-aligned reader and the primitive values of the container.
//!
//! Every multi-byte integer is little-endian and is read one byte at a time,
//! so a short read reports the end of the first byte that is missing.

use crate::convert::saturate;
use crate::convert::signed_32;
use crate::convert::u16_u32;
use crate::convert::u32_i32;
use crate::convert::u32_u64;
use crate::convert::u8_u16;
use crate::error::GetError;
use crate::error::GetFault;
use vstd::prelude::*;
use vstd::slice::slice_subrange;
use vstd::slice::slice_to_vec;

verus! {

/// What a read at some offset of some bytes gives: the value together with
/// the offset just behind it, or the failure.
pub type Parsed<T> = Result<(T, int), GetFault>;

/// A cursor over the bytes of a replay.
pub struct Get {
    bytes: Vec<u8>,
    index: usize,
}

/// The mathematical content of a [`Get`]: the bytes and the offset of the
/// next byte to read.
pub struct GetView {
    pub bytes: Seq<u8>,
    pub index: int,
}

impl View for Get {
    type V = GetView;

    closed spec fn view(&self) -> GetView {
        GetView { bytes: self.bytes@, index: self.index as int }
    }
}

/// The failure of a read that wanted the bytes up to `end`.
pub open spec fn out_of_bounds(bytes: Seq<u8>, end: int) -> GetFault {
    GetFault::IndexOutOfBounds { index: saturate(end), len: saturate(bytes.len() as int) }
}

/// The `n` bytes at `at`.
pub open spec fn vec_at(bytes: Seq<u8>, at: int, n: int) -> Parsed<Seq<u8>> {
    if 0 <= at && 0 <= n && at + n <= bytes.len() {
        Ok((bytes.subrange(at, at + n), at + n))
    } else {
        Err(out_of_bounds(bytes, at + n))
    }
}

/// The failure of reading an integer at `at` that does not fit before the
/// end: the bytes that are there are consumed, the next one is missing.
pub open spec fn short_integer(bytes: Seq<u8>, at: int) -> GetFault {
    out_of_bounds(
        bytes,
        if at < bytes.len() {
            bytes.len() as int + 1
        } else {
            at + 1
        },
    )
}

/// The byte at `at`.
pub open spec fn u8_at(bytes: Seq<u8>, at: int) -> Parsed<u8> {
    if 0 <= at && at + 1 <= bytes.len() {
        Ok((bytes[at], at + 1))
    } else {
        Err(short_integer(bytes, at))
    }
}

/// The little-endian 16-bit integer at `at`.
pub open spec fn u16_at(bytes: Seq<u8>, at: int) -> Parsed<u16> {
    if 0 <= at && at + 2 <= bytes.len() {
        Ok(((bytes[at] + 0x100 * bytes[at + 1]) as u16, at + 2))
    } else {
        Err(short_integer(bytes, at))
    }
}

/// The little-endian 32-bit integer at `at`.
pub open spec fn u32_at(bytes: Seq<u8>, at: int) -> Parsed<u32> {
    if 0 <= at && at + 4 <= bytes.len() {
        Ok(
            (
                (bytes[at] + 0x100 * bytes[at + 1] + 0x1_0000 * bytes[at + 2] + 0x100_0000 * bytes[at
                    + 3]) as u32,
                at + 4,
            ),
        )
    } else {
        Err(short_integer(bytes, at))
    }
}

/// The little-endian 64-bit integer at `at`.
pub open spec fn u64_at(bytes: Seq<u8>, at: int) -> Parsed<u64> {
    match u32_at(bytes, at) {
        Err(e) => Err(e),
        Ok((lower, mid)) => match u32_at(bytes, mid) {
            Err(e) => Err(e),
            Ok((upper, end)) => Ok(((lower + 0x1_0000_0000 * upper) as u64, end)),
        },
    }
}

/// The little-endian 32-bit integer at `at`, read as two's complement.
pub open spec fn i32_at(bytes: Seq<u8>, at: int) -> Parsed<i32> {
    match u32_at(bytes, at) {
        Err(e) => Err(e),
        Ok((x, end)) => Ok((signed_32(x) as i32, end)),
    }
}

/// The outcome of a reader whose result is its own model.
pub open spec fn plain<T>(r: Result<T, GetError>) -> Result<T, GetFault> {
    match r {
        Ok(x) => Ok(x),
        Err(e) => Err(e@),
    }
}

/// The outcome of a reader, seen through the view of its result.
pub open spec fn viewed<T: View>(r: Result<T, GetError>) -> Result<T::V, GetFault> {
    match r {
        Ok(x) => Ok(x@),
        Err(e) => Err(e@),
    }
}

/// A reader that went from `before` to `after` and gave `outcome` did what
/// `expected` says: the bytes are untouched, and the cursor never moves back
/// nor past their end; on success the value is the expected one and the
/// cursor stands behind it; on failure the failure is the expected one.
pub open spec fn reads<V>(
    before: GetView,
    after: GetView,
    expected: Parsed<V>,
    outcome: Result<V, GetFault>,
) -> bool {
    &&& after.bytes == before.bytes
    &&& after.index >= before.index
    &&& after.index <= after.bytes.len()
    &&& match outcome {
        Ok(value) => expected == Ok::<(V, int), GetFault>((value, after.index)),
        Err(fault) => expected == Err::<(V, int), GetFault>(fault),
    }
}

impl Get {
    /// The cursor never stands past the end of the bytes.
    #[verifier::type_invariant]
    pub closed spec fn within(&self) -> bool {
        self.index <= self.bytes.len()
    }

    /// What [`Get::within`] says, in terms of the view.
    pub proof fn lemma_within(&self)
        requires
            self.within(),
        ensures
            self@.index <= self@.bytes.len(),
    {
    }

    /// A cursor at the start of `bytes`.
    pub fn new(bytes: Vec<u8>) -> (r: Self)
        ensures
            r@ == (GetView { bytes: bytes@, index: 0 }),
    {
        Self { bytes, index: 0 }
    }

    /// The offset of the next byte to read.
    pub fn index(&self) -> (r: usize)
        ensures
            r == self@.index,
    {
        self.index
    }

    /// The number of bytes under the cursor, read or not.
    pub fn len(&self) -> (r: usize)
        ensures
            r == self@.bytes.len(),
    {
        self.bytes.len()
    }

    /// Copies the next `len` bytes without moving the cursor.
    pub fn peek_vec(&self, len: usize) -> (r: Result<Vec<u8>, GetError>)
        ensures
            match r {
                Ok(v) => vec_at(self@.bytes, self@.index, len as int) == Ok::<
                    (Seq<u8>, int),
                    GetFault,
                >((v@, self@.index + len)),
                Err(e) => vec_at(self@.bytes, self@.index, len as int) == Err::<
                    (Seq<u8>, int),
                    GetFault,
                >(e@),
            },
    {
        let total = self.bytes.len();
        if self.index > total || len > total - self.index {
            Err(GetError::IndexOutOfBounds { index: self.index.saturating_add(len), len: total })
        } else {
            let part = slice_subrange(self.bytes.as_slice(), self.index, self.index + len);
            Ok(slice_to_vec(part))
        }
    }

    /// Reads the next `len` bytes.
    pub fn get_vec(&mut self, len: usize) -> (r: Result<Vec<u8>, GetError>)
        ensures
            reads(
                old(self)@,
                final(self)@,
                vec_at(old(self)@.bytes, old(self)@.index, len as int),
                viewed(r),
            ),
            r is Err ==> final(self)@ == old(self)@,
    {
        proof {
            use_type_invariant(&*self);
        }
        let bytes = self.peek_vec(len)?;
        self.index += len;
        Ok(bytes)
    }

    /// Reads one byte.
    pub fn get_u8(&mut self) -> (r: Result<u8, GetError>)
        ensures
            reads(old(self)@, final(self)@, u8_at(old(self)@.bytes, old(self)@.index), plain(r)),
    {
        proof {
            use_type_invariant(&*self);
        }
        let total = self.bytes.len();
        if self.index < total {
            let x = self.bytes[self.index];
            self.index += 1;
            Ok(x)
        } else {
            Err(GetError::IndexOutOfBounds { index: self.index.saturating_add(1), len: total })
        }
    }

    /// Reads a little-endian 16-bit integer.
    pub fn get_u16(&mut self) -> (r: Result<u16, GetError>)
        ensures
            reads(old(self)@, final(self)@, u16_at(old(self)@.bytes, old(self)@.index), plain(r)),
    {
        let lower = self.get_u8()?;
        let upper = self.get_u8()?;
        let lower = u8_u16(lower);
        let upper = u8_u16(upper);
        assert(lower | upper << 8 == lower + 0x100 * upper) by (bit_vector)
            requires
                lower < 0x100,
                upper < 0x100,
        ;
        Ok(lower | upper << 8)
    }

    /// Reads a little-endian 32-bit integer.
    pub fn get_u32(&mut self) -> (r: Result<u32, GetError>)
        ensures
            reads(old(self)@, final(self)@, u32_at(old(self)@.bytes, old(self)@.index), plain(r)),
    {
        let lower = self.get_u16()?;
        let upper = self.get_u16()?;
        let lower = u16_u32(lower);
        let upper = u16_u32(upper);
        assert(lower | upper << 16 == lower + 0x1_0000 * upper) by (bit_vector)
            requires
                lower < 0x1_0000,
                upper < 0x1_0000,
        ;
        Ok(lower | upper << 16)
    }

    /// Reads a little-endian 64-bit integer.
    pub fn get_u64(&mut self) -> (r: Result<u64, GetError>)
        ensures
            reads(old(self)@, final(self)@, u64_at(old(self)@.bytes, old(self)@.index), plain(r)),
    {
        let lower = self.get_u32()?;
        let upper = self.get_u32()?;
        let lower = u32_u64(lower);
        let upper = u32_u64(upper);
        assert(lower | upper << 32 == lower + 0x1_0000_0000 * upper) by (bit_vector)
            requires
                lower < 0x1_0000_0000,
                upper < 0x1_0000_0000,
        ;
        Ok(lower | upper << 32)
    }

    /// Reads a little-endian 32-bit integer in two's complement.
    pub fn get_i32(&mut self) -> (r: Result<i32, GetError>)
        ensures
            reads(old(self)@, final(self)@, i32_at(old(self)@.bytes, old(self)@.index), plain(r)),
    {
        let x = self.get_u32()?;
        Ok(u32_i32(x))
    }
}

} // verus!
