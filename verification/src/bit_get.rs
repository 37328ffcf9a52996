//! The bit-granular reader of the frame stream.
//!
//! Bits are taken from each byte least significant first, and every integer
//! is assembled in the order of arrival: the first bit read is bit 0.

use crate::convert::saturate;
use crate::convert::signed_8;
use crate::convert::u16_u32;
use crate::convert::u8_i8;
use crate::convert::u8_u16;
use crate::error::BitGetError;
use crate::error::BitGetFault;
use vstd::arithmetic::power2::lemma2_to64;
use vstd::arithmetic::power2::lemma_pow2_strictly_increases;
use vstd::arithmetic::power2::lemma_pow2_unfold;
use vstd::arithmetic::power2::pow2;
use vstd::bits::lemma_u32_pow2_no_overflow;
use vstd::bits::lemma_u32_shl_is_mul;
use vstd::prelude::*;

verus! {

/// What a read at some bit position gives: the value together with the
/// position just behind it, or the failure.
pub type BitParsed<T> = Result<(T, int), BitGetFault>;

/// A cursor over the bits of a frame stream.
pub struct BitGet {
    bytes: Vec<u8>,
    byte_index: usize,
    bit_index: usize,
}

/// The mathematical content of a [`BitGet`]: the bytes and the position of
/// the next bit, counted from the first bit of the first byte.
pub struct BitGetView {
    pub bytes: Seq<u8>,
    pub pos: int,
}

impl View for BitGet {
    type V = BitGetView;

    closed spec fn view(&self) -> BitGetView {
        BitGetView { bytes: self.bytes@, pos: self.byte_index * 8 + self.bit_index }
    }
}

/// An integer that was sent in as few bits as its upper bound allows.
#[derive(Debug, Clone, Copy, PartialEq, Eq)]
pub struct U32C {
    pub limit: u32,
    pub value: u32,
}

/// Bit `k` of `byte`, counted from the least significant.
pub open spec fn bit_of(byte: u8, k: int) -> bool {
    (byte >> (k as u8)) & 1 == 1
}

/// The failure of a read that wanted the bit at `pos`.
pub open spec fn out_of_bits(bytes: Seq<u8>, pos: int) -> BitGetFault {
    BitGetFault::IndexOutOfBounds { index: saturate(pos / 8), len: saturate(bytes.len() as int) }
}

/// The bit at position `pos`.
pub open spec fn bool_at(bytes: Seq<u8>, pos: int) -> BitParsed<bool> {
    if 0 <= pos && pos / 8 < bytes.len() {
        Ok((bit_of(bytes[pos / 8], pos % 8), pos + 1))
    } else {
        Err(out_of_bits(bytes, pos))
    }
}

/// The unsigned integer that the `width` bits from `pos` on spell, least
/// significant bit first.
pub open spec fn bits_at(bytes: Seq<u8>, pos: int, width: nat) -> BitParsed<nat>
    decreases width,
{
    if width == 0 {
        Ok((0, pos))
    } else {
        match bool_at(bytes, pos) {
            Err(e) => Err(e),
            Ok((bit, next)) => match bits_at(bytes, next, (width - 1) as nat) {
                Err(e) => Err(e),
                Ok((rest, end)) => Ok(
                    (
                        if bit {
                            1 + 2 * rest
                        } else {
                            2 * rest
                        },
                        end,
                    ),
                ),
            },
        }
    }
}

/// The 8-bit integer at position `pos`.
pub open spec fn bit_u8_at(bytes: Seq<u8>, pos: int) -> BitParsed<u8> {
    match bits_at(bytes, pos, 8) {
        Err(e) => Err(e),
        Ok((x, end)) => Ok((x as u8, end)),
    }
}

/// The 8-bit integer at position `pos`, read as two's complement.
pub open spec fn bit_i8_at(bytes: Seq<u8>, pos: int) -> BitParsed<i8> {
    match bit_u8_at(bytes, pos) {
        Err(e) => Err(e),
        Ok((x, end)) => Ok((signed_8(x) as i8, end)),
    }
}

/// The 16-bit integer at position `pos`.
pub open spec fn bit_u16_at(bytes: Seq<u8>, pos: int) -> BitParsed<u16> {
    match bits_at(bytes, pos, 16) {
        Err(e) => Err(e),
        Ok((x, end)) => Ok((x as u16, end)),
    }
}

/// The 32-bit integer at position `pos`.
pub open spec fn bit_u32_at(bytes: Seq<u8>, pos: int) -> BitParsed<u32> {
    match bits_at(bytes, pos, 32) {
        Err(e) => Err(e),
        Ok((x, end)) => Ok((x as u32, end)),
    }
}

/// The least `k` with `limit <= 2^k`.
pub open spec fn ceil_log2(limit: nat) -> nat
    decreases limit,
{
    if limit <= 1 {
        0
    } else {
        1 + ceil_log2((limit + 1) / 2)
    }
}

/// The serialized integer under `limit` whose bits below `index` gave
/// `value` and whose further bits start at `pos`.
///
/// There is a bit for `2^index` as long as `index` is below
/// `ceil_log2(limit)` and `value + 2^index` does not pass `limit`; the first
/// index without a bit ends the integer.
pub open spec fn u32c_from(bytes: Seq<u8>, pos: int, limit: u32, index: nat, value: nat)
    -> BitParsed<nat>
    decreases ceil_log2(limit as nat) - index,
{
    if index >= ceil_log2(limit as nat) || value + pow2(index) > limit {
        Ok((value, pos))
    } else {
        match bool_at(bytes, pos) {
            Err(e) => Err(e),
            Ok((bit, next)) => u32c_from(
                bytes,
                next,
                limit,
                index + 1,
                if bit {
                    value + pow2(index)
                } else {
                    value
                },
            ),
        }
    }
}

/// The serialized integer under `limit` at position `pos`.
pub open spec fn u32c_at(bytes: Seq<u8>, pos: int, limit: u32) -> BitParsed<U32C> {
    match u32c_from(bytes, pos, limit, 0, 0) {
        Err(e) => Err(e),
        Ok((value, end)) => Ok((U32C { limit, value: value as u32 }, end)),
    }
}

/// A kind of value that stands in the frame stream at a bit position.
pub trait BitDecode: Sized {
    /// The value at position `pos` of `bytes` and the position behind it.
    spec fn bits_value_at(bytes: Seq<u8>, pos: int) -> BitParsed<Self>;

    /// Reads the value under the cursor.
    fn get_bits(get: &mut BitGet) -> (r: Result<Self, BitGetError>)
        ensures
            bit_reads(
                old(get)@,
                final(get)@,
                Self::bits_value_at(old(get)@.bytes, old(get)@.pos),
                bit_plain(r),
            ),
    ;
}

/// The value at position `pos` if `condition` holds, and nothing, from no
/// bits, if it does not.
pub open spec fn bit_option_at<T: BitDecode>(bytes: Seq<u8>, pos: int, condition: bool)
    -> BitParsed<Option<T>> {
    if condition {
        match T::bits_value_at(bytes, pos) {
            Err(e) => Err(e),
            Ok((value, end)) => Ok((Some(value), end)),
        }
    } else {
        Ok((None, pos))
    }
}

/// The outcome of a bit reader whose result is its own model.
pub open spec fn bit_plain<T>(r: Result<T, BitGetError>) -> Result<T, BitGetFault> {
    match r {
        Ok(x) => Ok(x),
        Err(e) => Err(e@),
    }
}

/// The outcome of a bit reader, seen through the view of its result.
pub open spec fn bit_viewed<T: View>(r: Result<T, BitGetError>) -> Result<T::V, BitGetFault> {
    match r {
        Ok(x) => Ok(x@),
        Err(e) => Err(e@),
    }
}

/// A bit reader that went from `before` to `after` and gave `outcome` did
/// what `expected` says: the bytes are untouched; on success the value is the
/// expected one and the cursor stands behind it; on failure the failure is
/// the expected one.
pub open spec fn bit_reads<V>(
    before: BitGetView,
    after: BitGetView,
    expected: BitParsed<V>,
    outcome: Result<V, BitGetFault>,
) -> bool {
    &&& after.bytes == before.bytes
    &&& after.pos >= before.pos
    &&& match outcome {
        Ok(value) => expected == Ok::<(V, int), BitGetFault>((value, after.pos)),
        Err(fault) => expected == Err::<(V, int), BitGetFault>(fault),
    }
}

/// Reading `low + high` bits is reading `low` bits and then `high` more,
/// which count from `2^low` on.
pub proof fn lemma_bits_at_split(bytes: Seq<u8>, pos: int, low: nat, high: nat)
    ensures
        bits_at(bytes, pos, low + high) == match bits_at(bytes, pos, low) {
            Err(e) => Err::<(nat, int), BitGetFault>(e),
            Ok((x, mid)) => match bits_at(bytes, mid, high) {
                Err(e) => Err(e),
                Ok((y, end)) => Ok((x + pow2(low) * y, end)),
            },
        },
    decreases low,
{
    lemma2_to64();
    if low == 0 {
        assert(low + high == high);
    } else {
        lemma_pow2_unfold(low);
        match bool_at(bytes, pos) {
            Err(e) => {},
            Ok((bit, next)) => {
                lemma_bits_at_split(bytes, next, (low - 1) as nat, high);
                assert((low + high - 1) as nat == (low - 1) as nat + high);
                match bits_at(bytes, next, (low - 1) as nat) {
                    Err(e) => {},
                    Ok((x, mid)) => {
                        match bits_at(bytes, mid, high) {
                            Err(e) => {},
                            Ok((y, end)) => {
                                assert(2 * (x + pow2((low - 1) as nat) * y) == 2 * x + pow2(low)
                                    * y) by (nonlinear_arith)
                                    requires
                                        pow2(low) == 2 * pow2((low - 1) as nat),
                                ;
                            },
                        }
                    },
                }
            },
        }
    }
}

/// The failure of a run of bits that reaches past the end of the bytes is
/// that of its first bit past the end.
pub proof fn lemma_bits_at_fails(bytes: Seq<u8>, pos: int, width: nat)
    requires
        0 <= pos,
    ensures
        pos + width <= 8 * bytes.len() ==> bits_at(bytes, pos, width) is Ok,
        width > 0 && pos + width > 8 * bytes.len() ==> bits_at(bytes, pos, width) == Err::<
            (nat, int),
            BitGetFault,
        >(
            out_of_bits(
                bytes,
                if pos < 8 * bytes.len() {
                    8 * bytes.len() as int
                } else {
                    pos
                },
            ),
        ),
    decreases width,
{
    if width > 0 {
        lemma_bits_at_fails(bytes, pos + 1, (width - 1) as nat);
    }
}

/// Eight bits in a row spell the byte that has them as its binary digits,
/// the first bit as the lowest.
pub proof fn lemma_bits_at_eight(
    bytes: Seq<u8>,
    pos: int,
    a: bool,
    b: bool,
    c: bool,
    d: bool,
    e: bool,
    f: bool,
    g: bool,
    h: bool,
)
    requires
        bool_at(bytes, pos) == Ok::<(bool, int), BitGetFault>((a, pos + 1)),
        bool_at(bytes, pos + 1) == Ok::<(bool, int), BitGetFault>((b, pos + 2)),
        bool_at(bytes, pos + 2) == Ok::<(bool, int), BitGetFault>((c, pos + 3)),
        bool_at(bytes, pos + 3) == Ok::<(bool, int), BitGetFault>((d, pos + 4)),
        bool_at(bytes, pos + 4) == Ok::<(bool, int), BitGetFault>((e, pos + 5)),
        bool_at(bytes, pos + 5) == Ok::<(bool, int), BitGetFault>((f, pos + 6)),
        bool_at(bytes, pos + 6) == Ok::<(bool, int), BitGetFault>((g, pos + 7)),
        bool_at(bytes, pos + 7) == Ok::<(bool, int), BitGetFault>((h, pos + 8)),
    ensures
        bits_at(bytes, pos, 8) == Ok::<(nat, int), BitGetFault>(
            (
                ((if a { 1int } else { 0 }) + (if b { 2int } else { 0 }) + (if c { 4int } else { 0 })
                    + (if d { 8int } else { 0 }) + (if e { 16int } else { 0 }) + (if f { 32int } else { 0 })
                    + (if g { 64int } else { 0 }) + (if h { 128int } else { 0 })) as nat,
                pos + 8,
            ),
        ),
{
    assert(bits_at(bytes, pos + 8, 0) == Ok::<(nat, int), BitGetFault>((0, pos + 8)));
    let v7: nat = if h { 1 } else { 0 };
    assert(bits_at(bytes, pos + 7, 1) == Ok::<(nat, int), BitGetFault>((v7, pos + 8)));
    let v6: nat = (if g { 1nat } else { 0nat }) + 2 * v7;
    assert(bits_at(bytes, pos + 6, 2) == Ok::<(nat, int), BitGetFault>((v6, pos + 8)));
    let v5: nat = (if f { 1nat } else { 0nat }) + 2 * v6;
    assert(bits_at(bytes, pos + 5, 3) == Ok::<(nat, int), BitGetFault>((v5, pos + 8)));
    let v4: nat = (if e { 1nat } else { 0nat }) + 2 * v5;
    assert(bits_at(bytes, pos + 4, 4) == Ok::<(nat, int), BitGetFault>((v4, pos + 8)));
    let v3: nat = (if d { 1nat } else { 0nat }) + 2 * v4;
    assert(bits_at(bytes, pos + 3, 5) == Ok::<(nat, int), BitGetFault>((v3, pos + 8)));
    let v2: nat = (if c { 1nat } else { 0nat }) + 2 * v3;
    assert(bits_at(bytes, pos + 2, 6) == Ok::<(nat, int), BitGetFault>((v2, pos + 8)));
    let v1: nat = (if b { 1nat } else { 0nat }) + 2 * v2;
    assert(bits_at(bytes, pos + 1, 7) == Ok::<(nat, int), BitGetFault>((v1, pos + 8)));
    let v0: nat = (if a { 1nat } else { 0nat }) + 2 * v1;
    assert(bits_at(bytes, pos, 8) == Ok::<(nat, int), BitGetFault>((v0, pos + 8)));
}

/// A run of bits that can be read ends where it should and spells a number
/// below `2^width`.
pub proof fn lemma_bits_at_bound(bytes: Seq<u8>, pos: int, width: nat)
    ensures
        bits_at(bytes, pos, width) matches Ok((x, end)) ==> x < pow2(width) && end == pos + width,
    decreases width,
{
    lemma2_to64();
    if width > 0 {
        lemma_pow2_unfold(width);
        if let Ok((bit, next)) = bool_at(bytes, pos) {
            lemma_bits_at_bound(bytes, next, (width - 1) as nat);
        }
    }
}

/// `ceil_log2(limit)` is the least exponent whose power of two reaches
/// `limit`.
pub proof fn lemma_ceil_log2(limit: nat)
    ensures
        limit <= pow2(ceil_log2(limit)),
        ceil_log2(limit) > 0 ==> pow2((ceil_log2(limit) - 1) as nat) < limit,
    decreases limit,
{
    lemma2_to64();
    if limit > 1 {
        let half = (limit + 1) / 2;
        lemma_ceil_log2(half);
        lemma_pow2_unfold(ceil_log2(limit));
        if ceil_log2(half) > 0 {
            lemma_pow2_unfold(ceil_log2(half));
        }
    }
}

/// An exponent that reaches `limit`, while the one before it does not, is
/// `ceil_log2(limit)`.
pub proof fn lemma_ceil_log2_unique(limit: nat, k: nat)
    requires
        limit <= pow2(k),
        k > 0 ==> pow2((k - 1) as nat) < limit,
    ensures
        k == ceil_log2(limit),
{
    lemma_ceil_log2(limit);
    let c = ceil_log2(limit);
    if k < c {
        if k < c - 1 {
            lemma_pow2_strictly_increases(k, (c - 1) as nat);
        }
    } else if c < k {
        if c < k - 1 {
            lemma_pow2_strictly_increases(c, (k - 1) as nat);
        }
    }
}

/// A serialized integer never passes its limit.
pub proof fn lemma_u32c_from_bounded(bytes: Seq<u8>, pos: int, limit: u32, index: nat, value: nat)
    requires
        value <= limit,
    ensures
        u32c_from(bytes, pos, limit, index, value) matches Ok((x, end)) ==> x <= limit && end
            >= pos,
    decreases ceil_log2(limit as nat) - index,
{
    if index >= ceil_log2(limit as nat) || value + pow2(index) > limit {
    } else {
        if let Ok((bit, next)) = bool_at(bytes, pos) {
            lemma_u32c_from_bounded(
                bytes,
                next,
                limit,
                index + 1,
                if bit {
                    value + pow2(index)
                } else {
                    value
                },
            );
        }
    }
}

/// A serialized integer lies between zero and its limit, whatever the bits.
pub proof fn lemma_u32c_at_bounded(bytes: Seq<u8>, pos: int, limit: u32)
    ensures
        u32c_at(bytes, pos, limit) matches Ok((x, end)) ==> 0 <= x.value <= limit && x.limit
            == limit && end >= pos,
{
    lemma_u32c_from_bounded(bytes, pos, limit, 0, 0);
}

/// Under the limit zero a serialized integer is zero and takes no bits.
pub proof fn lemma_u32c_at_zero(bytes: Seq<u8>, pos: int)
    ensures
        u32c_at(bytes, pos, 0) == Ok::<(U32C, int), BitGetFault>(
            (U32C { limit: 0, value: 0 }, pos),
        ),
{
}

impl BitGet {
    #[verifier::type_invariant]
    spec fn within_byte(&self) -> bool {
        self.bit_index < 8
    }

    /// A cursor at the first bit of `bytes`.
    pub fn new(bytes: Vec<u8>) -> (r: Self)
        ensures
            r@ == (BitGetView { bytes: bytes@, pos: 0 }),
    {
        Self { bytes, byte_index: 0, bit_index: 0 }
    }

    /// The number of bytes under the cursor, read or not.
    pub fn len(&self) -> (r: usize)
        ensures
            r == self@.bytes.len(),
    {
        self.bytes.len()
    }

    /// The byte in which the next bit lies, and the place of the bit in it.
    pub fn position(&self) -> (r: (usize, usize))
        ensures
            r.0 * 8 + r.1 == self@.pos,
            r.1 < 8,
    {
        proof {
            use_type_invariant(self);
        }
        (self.byte_index, self.bit_index)
    }

    /// Reads one bit.
    pub fn get_bool(&mut self) -> (r: Result<bool, BitGetError>)
        ensures
            bit_reads(
                old(self)@,
                final(self)@,
                bool_at(old(self)@.bytes, old(self)@.pos),
                bit_plain(r),
            ),
            r is Err ==> final(self)@ == old(self)@,
    {
        proof {
            use_type_invariant(&*self);
        }
        let total = self.bytes.len();
        if self.byte_index < total {
            let byte: u8 = self.bytes[self.byte_index];
            let k: u8 = self.bit_index as u8;
            let bit = byte & (1u8 << k) != 0;
            assert((byte & (1u8 << k) != 0) == ((byte >> k) & 1 == 1)) by (bit_vector)
                requires
                    k < 8,
            ;
            if self.bit_index == 7 {
                self.bit_index = 0;
                self.byte_index += 1;
            } else {
                self.bit_index += 1;
            }
            Ok(bit)
        } else {
            Err(BitGetError::IndexOutOfBounds { index: self.byte_index, len: total })
        }
    }

    /// Reads an 8-bit integer.
    pub fn get_u8(&mut self) -> (r: Result<u8, BitGetError>)
        ensures
            bit_reads(
                old(self)@,
                final(self)@,
                bit_u8_at(old(self)@.bytes, old(self)@.pos),
                bit_plain(r),
            ),
    {
        proof {
            lemma_bits_at_fails(self@.bytes, self@.pos, 8);
        }
        let a = self.get_bool()?;
        let b = self.get_bool()?;
        let c = self.get_bool()?;
        let d = self.get_bool()?;
        let e = self.get_bool()?;
        let f = self.get_bool()?;
        let g = self.get_bool()?;
        let h = self.get_bool()?;
        proof {
            lemma_bits_at_eight(old(self)@.bytes, old(self)@.pos, a, b, c, d, e, f, g, h);
        }
        let a: u8 = if a { 0b0000_0001 } else { 0 };
        let b: u8 = if b { 0b0000_0010 } else { 0 };
        let c: u8 = if c { 0b0000_0100 } else { 0 };
        let d: u8 = if d { 0b0000_1000 } else { 0 };
        let e: u8 = if e { 0b0001_0000 } else { 0 };
        let f: u8 = if f { 0b0010_0000 } else { 0 };
        let g: u8 = if g { 0b0100_0000 } else { 0 };
        let h: u8 = if h { 0b1000_0000 } else { 0 };
        assert(a | b | c | d | e | f | g | h == a + b + c + d + e + f + g + h) by (bit_vector)
            requires
                a == 0 || a == 0b0000_0001,
                b == 0 || b == 0b0000_0010,
                c == 0 || c == 0b0000_0100,
                d == 0 || d == 0b0000_1000,
                e == 0 || e == 0b0001_0000,
                f == 0 || f == 0b0010_0000,
                g == 0 || g == 0b0100_0000,
                h == 0 || h == 0b1000_0000,
        ;
        Ok(a | b | c | d | e | f | g | h)
    }

    /// Reads an 8-bit integer in two's complement.
    pub fn get_i8(&mut self) -> (r: Result<i8, BitGetError>)
        ensures
            bit_reads(
                old(self)@,
                final(self)@,
                bit_i8_at(old(self)@.bytes, old(self)@.pos),
                bit_plain(r),
            ),
    {
        let x = self.get_u8()?;
        Ok(u8_i8(x))
    }

    /// Reads a 16-bit integer.
    pub fn get_u16(&mut self) -> (r: Result<u16, BitGetError>)
        ensures
            bit_reads(
                old(self)@,
                final(self)@,
                bit_u16_at(old(self)@.bytes, old(self)@.pos),
                bit_plain(r),
            ),
    {
        proof {
            lemma2_to64();
            lemma_bits_at_split(self@.bytes, self@.pos, 8, 8);
            lemma_bits_at_bound(self@.bytes, self@.pos, 8);
            lemma_bits_at_bound(self@.bytes, self@.pos + 8, 8);
        }
        let lower = self.get_u8()?;
        let upper = self.get_u8()?;
        let lower = u8_u16(lower);
        let upper = u8_u16(upper);
        assert(lower | upper << 8 == lower + 0x100 * upper) by (bit_vector)
            requires
                lower < 0x100,
                upper < 0x100,
        ;
        Ok(lower | upper << 8)
    }

    /// Reads a 32-bit integer.
    pub fn get_u32(&mut self) -> (r: Result<u32, BitGetError>)
        ensures
            bit_reads(
                old(self)@,
                final(self)@,
                bit_u32_at(old(self)@.bytes, old(self)@.pos),
                bit_plain(r),
            ),
    {
        proof {
            lemma2_to64();
            lemma_bits_at_split(self@.bytes, self@.pos, 16, 16);
            lemma_bits_at_bound(self@.bytes, self@.pos, 16);
            lemma_bits_at_bound(self@.bytes, self@.pos + 16, 16);
        }
        let lower = self.get_u16()?;
        let upper = self.get_u16()?;
        let lower = u16_u32(lower);
        let upper = u16_u32(upper);
        assert(lower | upper << 16 == lower + 0x1_0000 * upper) by (bit_vector)
            requires
                lower < 0x1_0000,
                upper < 0x1_0000,
        ;
        Ok(lower | upper << 16)
    }

    /// Reads a value if `condition` holds, and nothing if it does not.
    pub fn get_option<T: BitDecode>(&mut self, condition: bool) -> (r: Result<
        Option<T>,
        BitGetError,
    >)
        ensures
            bit_reads(
                old(self)@,
                final(self)@,
                bit_option_at::<T>(old(self)@.bytes, old(self)@.pos, condition),
                bit_plain(r),
            ),
    {
        if condition {
            let value = T::get_bits(self)?;
            Ok(Some(value))
        } else {
            Ok(None)
        }
    }

    /// Reads an integer between zero and `limit` in as few bits as `limit`
    /// allows.
    pub fn get_u32c(&mut self, limit: u32) -> (r: Result<U32C, BitGetError>)
        ensures
            bit_reads(
                old(self)@,
                final(self)@,
                u32c_at(old(self)@.bytes, old(self)@.pos, limit),
                bit_plain(r),
            ),
            r matches Ok(x) ==> x.value <= limit && x.limit == limit,
    {
        let max_index = bits_for(limit);
        let mut value: u32 = 0;
        let mut index: u32 = 0;
        let ghost bytes = self@.bytes;
        let ghost start = self@.pos;
        proof {
            lemma_u32c_at_bounded(bytes, start, limit);
        }
        loop
            invariant
                bytes == old(self)@.bytes,
                start == old(self)@.pos,
                self@.bytes == bytes,
                self@.pos >= start,
                max_index == ceil_log2(limit as nat),
                max_index <= 32,
                index <= max_index,
                value <= limit,
                u32c_from(bytes, start, limit, 0, 0) == u32c_from(
                    bytes,
                    self@.pos,
                    limit,
                    index as nat,
                    value as nat,
                ),
            ensures
                self@.bytes == bytes,
                self@.pos >= start,
                value <= limit,
                u32c_from(bytes, start, limit, 0, 0) == Ok::<(nat, int), BitGetFault>(
                    (value as nat, self@.pos),
                ),
            decreases max_index - index,
        {
            if index >= max_index {
                break ;
            }
            proof {
                lemma_u32_pow2_no_overflow(index as nat);
                lemma_u32_shl_is_mul(1, index);
            }
            let step: u32 = 1u32 << index;
            if step > limit - value {
                break ;
            }
            let flag = self.get_bool()?;
            if flag {
                value = value + step;
            }
            index += 1;
        }
        Ok(U32C { limit, value })
    }
}

impl BitDecode for i8 {
    open spec fn bits_value_at(bytes: Seq<u8>, pos: int) -> BitParsed<i8> {
        bit_i8_at(bytes, pos)
    }

    fn get_bits(get: &mut BitGet) -> (r: Result<Self, BitGetError>) {
        get.get_i8()
    }
}

impl BitDecode for u32 {
    open spec fn bits_value_at(bytes: Seq<u8>, pos: int) -> BitParsed<u32> {
        bit_u32_at(bytes, pos)
    }

    fn get_bits(get: &mut BitGet) -> (r: Result<Self, BitGetError>) {
        get.get_u32()
    }
}

/// The number of bits that a serialized integer under `limit` has at most.
pub fn bits_for(limit: u32) -> (k: u32)
    ensures
        k == ceil_log2(limit as nat),
        k <= 32,
{
    let mut k: u32 = 0;
    let mut reach: u64 = 1;
    proof {
        lemma2_to64();
    }
    while reach < limit as u64
        invariant
            k <= 32,
            reach == pow2(k as nat),
            k > 0 ==> pow2((k - 1) as nat) < limit,
            reach <= 0x1_0000_0000,
        decreases 0x1_0000_0000 - reach,
    {
        proof {
            lemma2_to64();
            lemma_pow2_unfold((k + 1) as nat);
            if k > 32 {
                lemma_pow2_strictly_increases(32, k as nat);
            }
        }
        reach = reach * 2;
        k += 1;
    }
    proof {
        lemma_ceil_log2_unique(limit as nat, k as nat);
    }
    k
}

} // verus!
