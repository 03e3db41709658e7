//! Bit-level codecs: the packed 64-bit timestamp word and little-endian
//! 32-bit values (the raw bits of IEEE-754 single-precision prices).

use vstd::prelude::*;
use vstd::bytes::*;
use vstd::slice::slice_subrange;

verus! {

/// A packed timestamp. Each field occupies a fixed run of bits of a
/// little-endian 64-bit word, most significant first: year (12 bits),
/// month (4), day (5), hour (5), minute (6), second (6), millisecond (10),
/// microsecond (10), reserved (3), future flag (1).
#[derive(Debug, Clone, Copy, PartialEq, Eq, Structural, Default)]
pub struct Date {
    pub year: u16,
    pub month: u8,
    pub day: u8,
    pub hour: u8,
    pub minute: u8,
    pub second: u8,
    pub milli_sec: u16,
    pub micro_sec: u16,
    pub reserved: u8,
    pub is_future: u8,
}

impl Date {
    /// Every field lies within the bit width that the packed word gives it.
    pub open spec fn fits(self) -> bool {
        &&& self.year < 4096
        &&& self.month < 16
        &&& self.day < 32
        &&& self.hour < 32
        &&& self.minute < 64
        &&& self.second < 64
        &&& self.milli_sec < 1024
        &&& self.micro_sec < 1024
        &&& self.reserved < 8
        &&& self.is_future < 2
    }
}

/// The 64-bit word that a timestamp packs into. A field wider than its bit
/// width is not checked: its high bits spill into the neighbouring fields.
pub open spec fn date_word(d: Date) -> u64 {
    ((d.year as u64) << 52u64) | ((d.month as u64) << 48u64) | ((d.day as u64) << 43u64) | ((
    d.hour as u64) << 38u64) | ((d.minute as u64) << 32u64) | ((d.second as u64) << 26u64) | ((
    d.milli_sec as u64) << 16u64) | ((d.micro_sec as u64) << 6u64) | ((d.reserved as u64) << 1u64)
        | (d.is_future as u64)
}

/// The timestamp held in a 64-bit word; every word decodes.
pub open spec fn word_date(w: u64) -> Date {
    Date {
        year: (w >> 52u64) as u16,
        month: ((w >> 48u64) & 0xFu64) as u8,
        day: ((w >> 43u64) & 0x1Fu64) as u8,
        hour: ((w >> 38u64) & 0x1Fu64) as u8,
        minute: ((w >> 32u64) & 0x3Fu64) as u8,
        second: ((w >> 26u64) & 0x3Fu64) as u8,
        milli_sec: ((w >> 16u64) & 0x3FFu64) as u16,
        micro_sec: ((w >> 6u64) & 0x3FFu64) as u16,
        reserved: ((w & 0xEu64) >> 1u64) as u8,
        is_future: (w & 1u64) as u8,
    }
}

/// The eight bytes of a packed timestamp.
pub open spec fn date_bytes(d: Date) -> Seq<u8> {
    spec_u64_to_le_bytes(date_word(d))
}

/// The timestamp held in the first eight bytes of `b`.
pub open spec fn bytes_date(b: Seq<u8>) -> Date {
    word_date(spec_u64_from_le_bytes(b.subrange(0, 8)))
}

/// Bit `i` of a byte, counting from the least significant.
pub open spec fn bit(b: u8, i: u8) -> bool {
    (b >> i) & 1u8 == 1u8
}

/// Packing a timestamp whose fields fit their widths and unpacking the word
/// gives the timestamp back.
pub proof fn lemma_date_word_round_trip(d: Date)
    requires
        d.fits(),
    ensures
        word_date(date_word(d)) == d,
{
    let (y, mo, da, h, mi, s, ms, us, r, f) = (
        d.year,
        d.month,
        d.day,
        d.hour,
        d.minute,
        d.second,
        d.milli_sec,
        d.micro_sec,
        d.reserved,
        d.is_future,
    );
    let w = date_word(d);
    assert({
        let w = ((y as u64) << 52u64) | ((mo as u64) << 48u64) | ((da as u64) << 43u64) | ((
        h as u64) << 38u64) | ((mi as u64) << 32u64) | ((s as u64) << 26u64) | ((ms as u64)
            << 16u64) | ((us as u64) << 6u64) | ((r as u64) << 1u64) | (f as u64);
        &&& (w >> 52u64) as u16 == y
        &&& ((w >> 48u64) & 0xFu64) as u8 == mo
        &&& ((w >> 43u64) & 0x1Fu64) as u8 == da
        &&& ((w >> 38u64) & 0x1Fu64) as u8 == h
        &&& ((w >> 32u64) & 0x3Fu64) as u8 == mi
        &&& ((w >> 26u64) & 0x3Fu64) as u8 == s
        &&& ((w >> 16u64) & 0x3FFu64) as u16 == ms
        &&& ((w >> 6u64) & 0x3FFu64) as u16 == us
        &&& ((w & 0xEu64) >> 1u64) as u8 == r
        &&& (w & 1u64) as u8 == f
    }) by (bit_vector)
        requires
            y < 4096,
            mo < 16,
            da < 32,
            h < 32,
            mi < 64,
            s < 64,
            ms < 1024,
            us < 1024,
            r < 8,
            f < 2,
    ;
}

/// Encoding a timestamp whose fields fit their widths to its eight bytes and
/// decoding them gives the timestamp back.
pub proof fn lemma_date_bytes_round_trip(d: Date)
    requires
        d.fits(),
    ensures
        date_bytes(d).len() == 8,
        bytes_date(date_bytes(d)) == d,
{
    lemma_auto_spec_u64_to_from_le_bytes();
    let b = date_bytes(d);
    assert(b.subrange(0, 8) =~= b);
    lemma_date_word_round_trip(d);
}

/// Reverses the order of the bits of a byte: bit 0 trades places with bit 7,
/// bit 1 with bit 6, and so on.
pub fn reverse_bits(byte: u8) -> (r: u8)
    ensures
        forall|i: u8| i < 8 ==> #[trigger] bit(r, i) == bit(byte, (7 - i) as u8),
{
    let b = byte;
    let r: u8 = ((b & 0x01) << 7) | ((b & 0x02) << 5) | ((b & 0x04) << 3) | ((b & 0x08) << 1) | ((b
        & 0x10) >> 1) | ((b & 0x20) >> 3) | ((b & 0x40) >> 5) | ((b & 0x80) >> 7);
    assert(forall|i: u8| i < 8 ==> #[trigger] bit(r, i) == bit(b, (7 - i) as u8)) by (bit_vector)
        requires
            r == ((b & 0x01) << 7) | ((b & 0x02) << 5) | ((b & 0x04) << 3) | ((b & 0x08) << 1) | ((
            b & 0x10) >> 1) | ((b & 0x20) >> 3) | ((b & 0x40) >> 5) | ((b & 0x80) >> 7),
    ;
    r
}

/// Packs a timestamp into its 64-bit word.
pub fn pack_date(d: &Date) -> (w: u64)
    ensures
        w == date_word(*d),
{
    ((d.year as u64) << 52u64) | ((d.month as u64) << 48u64) | ((d.day as u64) << 43u64) | ((
    d.hour as u64) << 38u64) | ((d.minute as u64) << 32u64) | ((d.second as u64) << 26u64) | ((
    d.milli_sec as u64) << 16u64) | ((d.micro_sec as u64) << 6u64) | ((d.reserved as u64) << 1u64)
        | (d.is_future as u64)
}

/// Unpacks a 64-bit word into a timestamp.
pub fn unpack_date(w: u64) -> (d: Date)
    ensures
        d == word_date(w),
{
    Date {
        year: (w >> 52u64) as u16,
        month: ((w >> 48u64) & 0xFu64) as u8,
        day: ((w >> 43u64) & 0x1Fu64) as u8,
        hour: ((w >> 38u64) & 0x1Fu64) as u8,
        minute: ((w >> 32u64) & 0x3Fu64) as u8,
        second: ((w >> 26u64) & 0x3Fu64) as u8,
        milli_sec: ((w >> 16u64) & 0x3FFu64) as u16,
        micro_sec: ((w >> 6u64) & 0x3FFu64) as u16,
        reserved: ((w & 0xEu64) >> 1u64) as u8,
        is_future: (w & 1u64) as u8,
    }
}

/// Decodes the timestamp held in the first eight bytes of `bytes`; `None`
/// when fewer than eight bytes are given. Decoding never fails on content.
pub fn read_date(bytes: &[u8]) -> (r: Option<Date>)
    ensures
        bytes@.len() < 8 ==> r is None,
        bytes@.len() >= 8 ==> r == Some(bytes_date(bytes@)),
{
    if bytes.len() < 8 {
        return None;
    }
    let w = u64_from_le_bytes(slice_subrange(bytes, 0, 8));
    Some(unpack_date(w))
}

/// Encodes a timestamp, reserved bits and future flag included, to its eight
/// little-endian bytes.
pub fn encode_date(d: &Date) -> (r: Vec<u8>)
    ensures
        r@ == date_bytes(*d),
        r@.len() == 8,
{
    u64_to_le_bytes(pack_date(d))
}

/// Encodes a date and time of day to the eight bytes of a packed timestamp,
/// with the reserved bits and the future flag clear.
pub fn date_to_bin(
    day: u8,
    month: u8,
    year: u16,
    hour: u8,
    minute: u8,
    second: u8,
    micro_sec: u16,
    milli_sec: u16,
) -> (r: [u8; 8])
    ensures
        r@ == date_bytes(
            Date {
                year,
                month,
                day,
                hour,
                minute,
                second,
                milli_sec,
                micro_sec,
                reserved: 0,
                is_future: 0,
            },
        ),
{
    let d = Date {
        year,
        month,
        day,
        hour,
        minute,
        second,
        milli_sec,
        micro_sec,
        reserved: 0,
        is_future: 0,
    };
    let v = encode_date(&d);
    [v[0], v[1], v[2], v[3], v[4], v[5], v[6], v[7]]
}

/// Reads the little-endian 32-bit value held in the first four bytes of
/// `bytes` (the raw bits of a single-precision float); `None` when fewer
/// than four bytes are given.
pub fn read_u32_le(bytes: &[u8]) -> (r: Option<u32>)
    ensures
        bytes@.len() < 4 ==> r is None,
        bytes@.len() >= 4 ==> r == Some(spec_u32_from_le_bytes(bytes@.subrange(0, 4))),
{
    if bytes.len() < 4 {
        return None;
    }
    Some(u32_from_le_bytes(slice_subrange(bytes, 0, 4)))
}

/// The four little-endian bytes of a 32-bit value.
pub fn write_u32_le(bits: u32) -> (r: [u8; 4])
    ensures
        r@ == spec_u32_to_le_bytes(bits),
{
    let v = u32_to_le_bytes(bits);
    [v[0], v[1], v[2], v[3]]
}

} // verus!
