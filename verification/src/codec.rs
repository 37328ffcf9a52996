//! The two encodings in which a replay stores text.
//!
//! A text is either Windows-1252, one byte to a character, or UTF-16 in
//! little-endian byte order. Both decoders are total: they answer `None` for
//! bytes that the encoding does not define.

use vstd::prelude::*;
use vstd::utf8::is_scalar;

verus! {

/// `String::push` appends one character to the end of the string.
pub assume_specification[ String::push ](s: &mut String, ch: char)
    ensures
        final(s)@ == old(s)@.push(ch),
;

/// `char::from_u32` gives the character with the given scalar value, and
/// `None` for a surrogate or a value above `0x10ffff`.
pub assume_specification[ char::from_u32 ](i: u32) -> (r: Option<char>)
    ensures
        is_scalar(i) ==> r == Some(i as char),
        !is_scalar(i) ==> r is None,
;

/// The character that Windows-1252 assigns to `byte`, if it assigns one.
///
/// The encoding agrees with Latin-1 outside `0x80..=0x9f`; inside that range
/// it places typographic characters and leaves five bytes undefined.
pub open spec fn windows_1252_char(byte: u8) -> Option<char> {
    if byte < 0x80 || byte >= 0xa0 {
        Some(byte as char)
    } else {
        match byte {
            0x80 => Some('\u{20ac}'),
            0x82 => Some('\u{201a}'),
            0x83 => Some('\u{0192}'),
            0x84 => Some('\u{201e}'),
            0x85 => Some('\u{2026}'),
            0x86 => Some('\u{2020}'),
            0x87 => Some('\u{2021}'),
            0x88 => Some('\u{02c6}'),
            0x89 => Some('\u{2030}'),
            0x8a => Some('\u{0160}'),
            0x8b => Some('\u{2039}'),
            0x8c => Some('\u{0152}'),
            0x8e => Some('\u{017d}'),
            0x91 => Some('\u{2018}'),
            0x92 => Some('\u{2019}'),
            0x93 => Some('\u{201c}'),
            0x94 => Some('\u{201d}'),
            0x95 => Some('\u{2022}'),
            0x96 => Some('\u{2013}'),
            0x97 => Some('\u{2014}'),
            0x98 => Some('\u{02dc}'),
            0x99 => Some('\u{2122}'),
            0x9a => Some('\u{0161}'),
            0x9b => Some('\u{203a}'),
            0x9c => Some('\u{0153}'),
            0x9e => Some('\u{017e}'),
            0x9f => Some('\u{0178}'),
            _ => None,
        }
    }
}

/// The byte that Windows-1252 uses for `c`, if it has one.
pub open spec fn windows_1252_byte(c: char) -> Option<u8> {
    if exists|b: u8| windows_1252_char(b) == Some(c) {
        Some(choose|b: u8| windows_1252_char(b) == Some(c))
    } else {
        None
    }
}

/// Whether every byte of `bytes` is defined in Windows-1252.
pub open spec fn windows_1252_defined(bytes: Seq<u8>) -> bool {
    forall|i: int| 0 <= i < bytes.len() ==> (#[trigger] windows_1252_char(bytes[i])) is Some
}

/// The text that `bytes` spell in Windows-1252: one character for each byte,
/// or nothing at all where a byte is undefined.
pub open spec fn windows_1252_of(bytes: Seq<u8>) -> Option<Seq<char>> {
    if windows_1252_defined(bytes) {
        Some(Seq::new(bytes.len(), |i: int| windows_1252_char(bytes[i])->0))
    } else {
        None
    }
}

/// The bytes that spell `chars` in Windows-1252, where every character has one.
pub open spec fn windows_1252_bytes(chars: Seq<char>) -> Option<Seq<u8>> {
    if forall|i: int| 0 <= i < chars.len() ==> (#[trigger] windows_1252_byte(chars[i])) is Some {
        Some(Seq::new(chars.len(), |i: int| windows_1252_byte(chars[i])->0))
    } else {
        None
    }
}

/// Decodes one byte of Windows-1252.
pub fn windows_1252_decode_byte(byte: u8) -> (r: Option<char>)
    ensures
        r == windows_1252_char(byte),
{
    if byte < 0x80 || byte >= 0xa0 {
        Some(byte as char)
    } else {
        match byte {
            0x80 => Some('\u{20ac}'),
            0x82 => Some('\u{201a}'),
            0x83 => Some('\u{0192}'),
            0x84 => Some('\u{201e}'),
            0x85 => Some('\u{2026}'),
            0x86 => Some('\u{2020}'),
            0x87 => Some('\u{2021}'),
            0x88 => Some('\u{02c6}'),
            0x89 => Some('\u{2030}'),
            0x8a => Some('\u{0160}'),
            0x8b => Some('\u{2039}'),
            0x8c => Some('\u{0152}'),
            0x8e => Some('\u{017d}'),
            0x91 => Some('\u{2018}'),
            0x92 => Some('\u{2019}'),
            0x93 => Some('\u{201c}'),
            0x94 => Some('\u{201d}'),
            0x95 => Some('\u{2022}'),
            0x96 => Some('\u{2013}'),
            0x97 => Some('\u{2014}'),
            0x98 => Some('\u{02dc}'),
            0x99 => Some('\u{2122}'),
            0x9a => Some('\u{0161}'),
            0x9b => Some('\u{203a}'),
            0x9c => Some('\u{0153}'),
            0x9e => Some('\u{017e}'),
            0x9f => Some('\u{0178}'),
            _ => None,
        }
    }
}

/// Decodes `bytes` as Windows-1252.
pub fn windows_1252(bytes: &[u8]) -> (r: Option<String>)
    ensures
        match r {
            Some(s) => windows_1252_of(bytes@) == Some(s@),
            None => windows_1252_of(bytes@) is None,
        },
{
    let mut text = String::new();
    let mut i: usize = 0;
    while i < bytes.len()
        invariant
            i <= bytes.len(),
            text@.len() == i,
            forall|j: int| 0 <= j < i ==> windows_1252_char(bytes@[j]) == Some(#[trigger] text@[j]),
        decreases bytes.len() - i,
    {
        match windows_1252_decode_byte(bytes[i]) {
            None => {
                assert(windows_1252_char(bytes@[i as int]) is None);
                return None;
            },
            Some(c) => {
                text.push(c);
            },
        }
        i += 1;
    }
    proof {
        assert forall|j: int| 0 <= j < bytes@.len() implies (#[trigger] windows_1252_char(
            bytes@[j],
        )) is Some by {
            assert(windows_1252_char(bytes@[j]) == Some(text@[j]));
        }
        assert(text@ =~= windows_1252_of(bytes@)->0);
    }
    Some(text)
}

/// No two bytes of Windows-1252 stand for the same character.
pub proof fn lemma_windows_1252_char_injective(a: u8, b: u8)
    requires
        windows_1252_char(a) is Some,
        windows_1252_char(a) == windows_1252_char(b),
    ensures
        a == b,
{
}

/// Encoding is the inverse of decoding, one character at a time: a byte that
/// decodes to `c` is the byte that encodes `c`, and the other way round.
pub proof fn lemma_windows_1252_char_round_trip(b: u8, c: char)
    ensures
        windows_1252_char(b) == Some(c) <==> windows_1252_byte(c) == Some(b),
{
    if windows_1252_char(b) == Some(c) {
        let chosen = choose|x: u8| windows_1252_char(x) == Some(c);
        lemma_windows_1252_char_injective(b, chosen);
    }
}

/// Every text that Windows-1252 can spell decodes from its encoding to itself.
pub proof fn lemma_windows_1252_decode_encode(chars: Seq<char>)
    requires
        windows_1252_bytes(chars) is Some,
    ensures
        windows_1252_of(windows_1252_bytes(chars)->0) == Some(chars),
{
    let bytes = windows_1252_bytes(chars)->0;
    assert forall|i: int| 0 <= i < bytes.len() implies windows_1252_char(#[trigger] bytes[i])
        == Some(chars[i]) by {
        assert(windows_1252_byte(chars[i]) is Some);
        lemma_windows_1252_char_round_trip(bytes[i], chars[i]);
    }
    assert(windows_1252_defined(bytes));
    assert(windows_1252_of(bytes)->0 =~= chars);
}

/// Every byte string that decodes in Windows-1252 is the encoding of what it
/// decodes to.
pub proof fn lemma_windows_1252_encode_decode(bytes: Seq<u8>)
    requires
        windows_1252_of(bytes) is Some,
    ensures
        windows_1252_bytes(windows_1252_of(bytes)->0) == Some(bytes),
{
    let chars = windows_1252_of(bytes)->0;
    assert forall|i: int| 0 <= i < chars.len() implies windows_1252_byte(#[trigger] chars[i])
        == Some(bytes[i]) by {
        assert(windows_1252_char(bytes[i]) is Some);
        lemma_windows_1252_char_round_trip(bytes[i], chars[i]);
    }
    assert(windows_1252_bytes(chars)->0 =~= bytes);
}

/// The 16-bit unit with low byte `lo` and high byte `hi`.
pub open spec fn utf_16_unit(lo: u8, hi: u8) -> u16 {
    (lo + 0x100 * hi) as u16
}

/// The 16-bit units that `bytes` hold in little-endian order, two bytes to a
/// unit. A last byte without a partner is not part of any unit.
pub open spec fn utf_16_units(bytes: Seq<u8>) -> Seq<u16> {
    Seq::new((bytes.len() / 2) as nat, |i: int| utf_16_unit(bytes[2 * i], bytes[2 * i + 1]))
}

/// A unit that opens a surrogate pair.
pub open spec fn is_high_surrogate(unit: u16) -> bool {
    0xd800 <= unit <= 0xdbff
}

/// A unit that closes a surrogate pair.
pub open spec fn is_low_surrogate(unit: u16) -> bool {
    0xdc00 <= unit <= 0xdfff
}

/// The character outside the basic plane that a surrogate pair stands for.
pub open spec fn surrogate_pair_char(high: u16, low: u16) -> char {
    ((0x10000 + (high - 0xd800) * 0x400 + (low - 0xdc00)) as u32) as char
}

/// The text that `units` spell in UTF-16, or nothing where a surrogate stands
/// without its partner.
pub open spec fn utf_16_chars(units: Seq<u16>) -> Option<Seq<char>>
    decreases units.len(),
{
    if units.len() == 0 {
        Some(Seq::empty())
    } else if !is_high_surrogate(units[0]) && !is_low_surrogate(units[0]) {
        match utf_16_chars(units.skip(1)) {
            Some(rest) => Some(seq![(units[0] as u32) as char] + rest),
            None => None,
        }
    } else if is_high_surrogate(units[0]) && units.len() >= 2 && is_low_surrogate(units[1]) {
        match utf_16_chars(units.skip(2)) {
            Some(rest) => Some(seq![surrogate_pair_char(units[0], units[1])] + rest),
            None => None,
        }
    } else {
        None
    }
}

/// The text that `bytes` spell in little-endian UTF-16. An odd number of
/// bytes spells nothing.
pub open spec fn utf_16_of(bytes: Seq<u8>) -> Option<Seq<char>> {
    if bytes.len() % 2 == 1 {
        None
    } else {
        utf_16_chars(utf_16_units(bytes))
    }
}

/// The units that spell `c` in UTF-16: one inside the basic plane, a
/// surrogate pair outside it.
pub open spec fn utf_16_char_units(c: char) -> Seq<u16> {
    let v = c as u32;
    if v < 0x10000 {
        seq![v as u16]
    } else {
        seq![(0xd800 + (v - 0x10000) / 0x400) as u16, (0xdc00 + (v - 0x10000) % 0x400) as u16]
    }
}

/// The units that spell `chars` in UTF-16.
pub open spec fn utf_16_encode(chars: Seq<char>) -> Seq<u16>
    decreases chars.len(),
{
    if chars.len() == 0 {
        Seq::empty()
    } else {
        utf_16_char_units(chars[0]) + utf_16_encode(chars.skip(1))
    }
}

/// `done` followed by `rest`, where there is a rest.
pub open spec fn text_then(done: Seq<char>, rest: Option<Seq<char>>) -> Option<Seq<char>> {
    match rest {
        Some(more) => Some(done + more),
        None => None,
    }
}

/// Pairs the bytes of an even-length slice into little-endian units.
fn pair_units(bytes: &[u8]) -> (units: Vec<u16>)
    requires
        bytes@.len() % 2 == 0,
    ensures
        units@ == utf_16_units(bytes@),
{
    let count: usize = bytes.len() / 2;
    let mut units: Vec<u16> = Vec::with_capacity(count);
    let mut i: usize = 0;
    while i < count
        invariant
            2 * count == bytes@.len(),
            bytes@.len() <= usize::MAX,
            i <= count,
            units@.len() == i,
            forall|j: int| 0 <= j < i ==> #[trigger] units@[j] == utf_16_unit(
                bytes@[2 * j],
                bytes@[2 * j + 1],
            ),
        decreases count - i,
    {
        let lower: u16 = bytes[2 * i] as u16;
        let upper: u16 = bytes[2 * i + 1] as u16;
        assert(lower | upper << 8 == lower + 0x100 * upper) by (bit_vector)
            requires
                lower < 0x100,
                upper < 0x100,
        ;
        units.push(lower | upper << 8);
        i += 1;
    }
    assert(units@ =~= utf_16_units(bytes@));
    units
}

/// Decodes `bytes` as little-endian UTF-16.
pub fn utf_16(bytes: &[u8]) -> (r: Option<String>)
    ensures
        match r {
            Some(s) => utf_16_of(bytes@) == Some(s@),
            None => utf_16_of(bytes@) is None,
        },
{
    if bytes.len() % 2 != 0 {
        return None;
    }
    let units = pair_units(bytes);
    let mut text = String::new();
    let mut i: usize = 0;
    assert(units@.skip(0) =~= units@);
    assert(Seq::<char>::empty() + utf_16_chars(units@)->0 =~= utf_16_chars(units@)->0);
    while i < units.len()
        invariant
            i <= units.len(),
            bytes@.len() % 2 == 0,
            units@ == utf_16_units(bytes@),
            utf_16_chars(units@) == text_then(text@, utf_16_chars(units@.skip(i as int))),
        decreases units.len() - i,
    {
        let ghost rest = units@.skip(i as int);
        let ghost done = text@;
        let unit: u16 = units[i];
        assert(rest[0] == unit);
        if unit < 0xd800 || unit > 0xdfff {
            match char::from_u32(unit as u32) {
                Some(c) => {
                    text.push(c);
                    i += 1;
                    proof {
                        assert(rest.skip(1) =~= units@.skip(i as int));
                        lemma_text_then_push(done, c, utf_16_chars(rest.skip(1)));
                    }
                },
                None => {
                    return None;
                },
            }
        } else if unit <= 0xdbff && i + 1 < units.len() && units[i + 1] >= 0xdc00 && units[i + 1]
            <= 0xdfff {
            let low: u16 = units[i + 1];
            assert(rest[1] == low);
            let scalar: u32 = 0x10000 + ((unit - 0xd800) as u32) * 0x400 + ((low - 0xdc00) as u32);
            match char::from_u32(scalar) {
                Some(c) => {
                    text.push(c);
                    i += 2;
                    proof {
                        assert(rest.skip(2) =~= units@.skip(i as int));
                        lemma_text_then_push(done, c, utf_16_chars(rest.skip(2)));
                    }
                },
                None => {
                    return None;
                },
            }
        } else {
            assert(utf_16_chars(rest) is None);
            return None;
        }
    }
    proof {
        assert(units@.skip(i as int).len() == 0);
        assert(text@ + Seq::<char>::empty() =~= text@);
    }
    Some(text)
}

proof fn lemma_text_then_push(done: Seq<char>, c: char, rest: Option<Seq<char>>)
    ensures
        text_then(
            done,
            match rest {
                Some(more) => Some(seq![c] + more),
                None => None,
            },
        ) == text_then(done.push(c), rest),
{
    if let Some(more) = rest {
        assert(done + (seq![c] + more) =~= done.push(c) + more);
    }
}

/// Every text decodes from its UTF-16 encoding to itself.
pub proof fn lemma_utf_16_decode_encode(chars: Seq<char>)
    ensures
        utf_16_chars(utf_16_encode(chars)) == Some(chars),
    decreases chars.len(),
{
    if chars.len() == 0 {
    } else {
        let c = chars[0];
        let v = c as u32;
        let tail = chars.skip(1);
        let head = utf_16_char_units(c);
        let units = utf_16_encode(chars);
        lemma_utf_16_decode_encode(tail);
        vstd::utf8::char_is_scalar(c);
        vstd::utf8::char_u32_cast(c, v);
        if v < 0x10000 {
            assert(units.skip(1) =~= utf_16_encode(tail));
            assert(units[0] == v as u16);
            assert(seq![c] + tail =~= chars);
        } else {
            assert(units.skip(2) =~= utf_16_encode(tail));
            assert(units[0] == head[0]);
            assert(units[1] == head[1]);
            assert(0x10000 + (units[0] - 0xd800) * 0x400 + (units[1] - 0xdc00) == v);
            assert(seq![c] + tail =~= chars);
        }
    }
}

/// Every unit string that decodes in UTF-16 is the encoding of what it
/// decodes to; in particular the encoding has as many units.
pub proof fn lemma_utf_16_encode_decode(units: Seq<u16>)
    requires
        utf_16_chars(units) is Some,
    ensures
        utf_16_encode(utf_16_chars(units)->0) == units,
    decreases units.len(),
{
    if units.len() == 0 {
    } else if !is_high_surrogate(units[0]) && !is_low_surrogate(units[0]) {
        let rest = utf_16_chars(units.skip(1))->0;
        let chars = utf_16_chars(units)->0;
        lemma_utf_16_encode_decode(units.skip(1));
        assert(chars.skip(1) =~= rest);
        assert(chars[0] == (units[0] as u32) as char);
        assert(utf_16_encode(chars) =~= units);
    } else {
        let rest = utf_16_chars(units.skip(2))->0;
        let chars = utf_16_chars(units)->0;
        lemma_utf_16_encode_decode(units.skip(2));
        assert(chars.skip(1) =~= rest);
        let v = (0x10000 + (units[0] - 0xd800) * 0x400 + (units[1] - 0xdc00)) as u32;
        assert(chars[0] == v as char);
        assert(chars[0] as u32 == v);
        assert(utf_16_encode(chars) =~= units);
    }
}

/// Whether two strings hold the same characters.
pub fn text_eq(a: &str, b: &str) -> (r: bool)
    ensures
        r == (a@ == b@),
{
    let left = a.as_bytes();
    let right = b.as_bytes();
    proof {
        vstd::utf8::encode_utf8_decode_utf8(a@);
        vstd::utf8::encode_utf8_decode_utf8(b@);
    }
    if left.len() != right.len() {
        return false;
    }
    let mut i: usize = 0;
    while i < left.len()
        invariant
            i <= left.len(),
            left@.len() == right@.len(),
            left@ == vstd::utf8::encode_utf8(a@),
            right@ == vstd::utf8::encode_utf8(b@),
            forall|j: int| 0 <= j < i ==> left@[j] == right@[j],
        decreases left.len() - i,
    {
        if left[i] != right[i] {
            return false;
        }
        i += 1;
    }
    assert(left@ =~= right@);
    true
}

} // verus!
