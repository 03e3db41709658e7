//! The 40-byte quote record and the per-symbol data file: a 1184-byte opaque
//! header followed by records in the order they were written.

use vstd::prelude::*;
use vstd::bytes::*;
use vstd::slice::{slice_subrange, slice_to_vec};

use crate::bitparser::{Date, date_bytes, bytes_date, lemma_date_bytes_round_trip, unpack_date, encode_date};
use crate::error::AmiError;

verus! {

/// Size of the opaque header at the start of a symbol file.
pub const SYMBOL_HEADER_SIZE: usize = 1184;

/// Size of one encoded quote record.
pub const SYMBOL_ENTRY_SIZE: usize = 40;

/// One quote record. The eight price fields hold the raw bits of IEEE-754
/// single-precision floats (`f32::to_bits`), so that records compare and
/// round-trip bit for bit.
#[derive(Debug, Clone, Copy, PartialEq, Eq, Structural)]
pub struct Quote {
    pub day: u8,
    pub month: u8,
    pub year: u16,
    pub hour: u8,
    pub minute: u8,
    pub second: u8,
    pub milli_sec: u16,
    pub micro_sec: u16,
    pub reserved: u8,
    pub future: u8,
    pub close: u32,
    pub open: u32,
    pub high: u32,
    pub low: u32,
    pub volume: u32,
    pub aux1: u32,
    pub aux2: u32,
    pub terminator: u32,
}

impl Quote {
    /// The record's packed timestamp.
    pub open spec fn date(self) -> Date {
        Date {
            year: self.year,
            month: self.month,
            day: self.day,
            hour: self.hour,
            minute: self.minute,
            second: self.second,
            milli_sec: self.milli_sec,
            micro_sec: self.micro_sec,
            reserved: self.reserved,
            is_future: self.future,
        }
    }

    /// Every timestamp field lies within its bit width.
    pub open spec fn fits(self) -> bool {
        self.date().fits()
    }

    /// A daily record: the given date and prices, with every time-of-day,
    /// flag and auxiliary field zero.
    pub fn daily(
        year: u16,
        month: u8,
        day: u8,
        open: u32,
        high: u32,
        low: u32,
        close: u32,
        volume: u32,
    ) -> (q: Quote)
        ensures
            q == (Quote {
                day,
                month,
                year,
                hour: 0,
                minute: 0,
                second: 0,
                milli_sec: 0,
                micro_sec: 0,
                reserved: 0,
                future: 0,
                close,
                open,
                high,
                low,
                volume,
                aux1: 0,
                aux2: 0,
                terminator: 0,
            }),
    {
        Quote {
            day,
            month,
            year,
            hour: 0,
            minute: 0,
            second: 0,
            milli_sec: 0,
            micro_sec: 0,
            reserved: 0,
            future: 0,
            close,
            open,
            high,
            low,
            volume,
            aux1: 0,
            aux2: 0,
            terminator: 0,
        }
    }
}

/// A sequence of `n` zero bytes.
pub open spec fn zeros(n: nat) -> Seq<u8> {
    Seq::new(n, |i: int| 0u8)
}

/// The little-endian 32-bit value at offset `at` of `b`.
pub open spec fn le32_at(b: Seq<u8>, at: int) -> u32 {
    spec_u32_from_le_bytes(b.subrange(at, at + 4))
}

/// The 40 bytes of a record: the packed timestamp, then close, open, high,
/// low, volume, aux1, aux2 and terminator, four little-endian bytes each.
pub open spec fn quote_bytes(q: Quote) -> Seq<u8> {
    date_bytes(q.date()) + spec_u32_to_le_bytes(q.close) + spec_u32_to_le_bytes(q.open)
        + spec_u32_to_le_bytes(q.high) + spec_u32_to_le_bytes(q.low) + spec_u32_to_le_bytes(
        q.volume,
    ) + spec_u32_to_le_bytes(q.aux1) + spec_u32_to_le_bytes(q.aux2) + spec_u32_to_le_bytes(
        q.terminator,
    )
}

/// The record held in the first 40 bytes of `b`.
pub open spec fn bytes_quote(b: Seq<u8>) -> Quote {
    let d = bytes_date(b);
    Quote {
        day: d.day,
        month: d.month,
        year: d.year,
        hour: d.hour,
        minute: d.minute,
        second: d.second,
        milli_sec: d.milli_sec,
        micro_sec: d.micro_sec,
        reserved: d.reserved,
        future: d.is_future,
        close: le32_at(b, 8),
        open: le32_at(b, 12),
        high: le32_at(b, 16),
        low: le32_at(b, 20),
        volume: le32_at(b, 24),
        aux1: le32_at(b, 28),
        aux2: le32_at(b, 32),
        terminator: le32_at(b, 36),
    }
}

/// The records held in a stream of record bytes: one for each whole 40-byte
/// chunk, in order; a trailing fragment is ignored.
pub open spec fn records_of(b: Seq<u8>) -> Seq<Quote> {
    Seq::new(b.len() / 40, |i: int| bytes_quote(b.subrange(40 * i, 40 * i + 40)))
}

/// The bytes of a sequence of records, one after the other.
pub open spec fn records_bytes(qs: Seq<Quote>) -> Seq<u8>
    decreases qs.len(),
{
    if qs.len() == 0 {
        Seq::empty()
    } else {
        records_bytes(qs.drop_last()) + quote_bytes(qs.last())
    }
}

/// The records that a symbol file holds after its header (none when the
/// file is shorter than a header).
pub open spec fn stored_records(file: Seq<u8>) -> Seq<Quote> {
    if file.len() < 1184 {
        Seq::empty()
    } else {
        records_of(file.subrange(1184, file.len() as int))
    }
}

/// How many zero bytes must precede the first record appended to a file of
/// `len` bytes so that records start after a whole header.
pub open spec fn header_fill(len: nat) -> nat {
    if len < 1184 {
        (1184 - len) as nat
    } else {
        0
    }
}

/// What appending `qs` adds to a symbol file of `len` bytes.
pub open spec fn append_model(len: nat, qs: Seq<Quote>) -> Seq<u8> {
    zeros(header_fill(len)) + records_bytes(qs)
}

proof fn lemma_quote_bytes_len(q: Quote)
    ensures
        quote_bytes(q).len() == 40,
{
    lemma_auto_spec_u64_to_from_le_bytes();
    lemma_auto_spec_u32_to_from_le_bytes();
}

/// Encoding a record whose timestamp fields fit their widths and decoding the
/// 40 bytes gives the record back.
pub proof fn lemma_quote_round_trip(q: Quote)
    requires
        q.fits(),
    ensures
        quote_bytes(q).len() == 40,
        bytes_quote(quote_bytes(q)) == q,
{
    lemma_auto_spec_u64_to_from_le_bytes();
    lemma_auto_spec_u32_to_from_le_bytes();
    lemma_date_bytes_round_trip(q.date());
    let b = quote_bytes(q);
    assert(b.subrange(0, 8) =~= date_bytes(q.date()));
    assert(b.subrange(8, 12) =~= spec_u32_to_le_bytes(q.close));
    assert(b.subrange(12, 16) =~= spec_u32_to_le_bytes(q.open));
    assert(b.subrange(16, 20) =~= spec_u32_to_le_bytes(q.high));
    assert(b.subrange(20, 24) =~= spec_u32_to_le_bytes(q.low));
    assert(b.subrange(24, 28) =~= spec_u32_to_le_bytes(q.volume));
    assert(b.subrange(28, 32) =~= spec_u32_to_le_bytes(q.aux1));
    assert(b.subrange(32, 36) =~= spec_u32_to_le_bytes(q.aux2));
    assert(b.subrange(36, 40) =~= spec_u32_to_le_bytes(q.terminator));
    assert(date_bytes(q.date()).subrange(0, 8) =~= date_bytes(q.date()));
}

proof fn lemma_records_bytes_layout(qs: Seq<Quote>)
    ensures
        records_bytes(qs).len() == 40 * qs.len(),
        forall|i: int|
            0 <= i < qs.len() ==> #[trigger] records_bytes(qs).subrange(40 * i, 40 * i + 40)
                == quote_bytes(qs[i]),
    decreases qs.len(),
{
    if qs.len() > 0 {
        let init = qs.drop_last();
        lemma_records_bytes_layout(init);
        lemma_quote_bytes_len(qs.last());
        let b = records_bytes(qs);
        assert forall|i: int| 0 <= i < qs.len() implies #[trigger] b.subrange(40 * i, 40 * i + 40)
            == quote_bytes(qs[i]) by {
            if i < init.len() {
                assert(b.subrange(40 * i, 40 * i + 40) =~= records_bytes(init).subrange(
                    40 * i,
                    40 * i + 40,
                ));
            } else {
                assert(b.subrange(40 * i, 40 * i + 40) =~= quote_bytes(qs.last()));
            }
        }
    }
}

/// Decoding the bytes of records whose timestamp fields fit, placed after a
/// stream of whole records, gives the earlier records followed by them.
pub proof fn lemma_records_round_trip(prefix: Seq<u8>, qs: Seq<Quote>)
    requires
        prefix.len() % 40 == 0,
        forall|i: int| 0 <= i < qs.len() ==> (#[trigger] qs[i]).fits(),
    ensures
        records_of(prefix + records_bytes(qs)) == records_of(prefix) + qs,
{
    lemma_records_bytes_layout(qs);
    let b = prefix + records_bytes(qs);
    let k = prefix.len() / 40;
    assert(prefix.len() == 40 * k);
    assert(b.len() / 40 == k + qs.len()) by (nonlinear_arith)
        requires
            b.len() == 40 * k + 40 * qs.len(),
    ;
    assert forall|i: int| 0 <= i < k + qs.len() implies #[trigger] records_of(b)[i] == (
    records_of(prefix) + qs)[i] by {
        if i < k {
            assert(40 * i + 40 <= 40 * k) by (nonlinear_arith)
                requires
                    i < k,
            ;
            assert(b.subrange(40 * i, 40 * i + 40) =~= prefix.subrange(40 * i, 40 * i + 40));
        } else {
            let j = i - k;
            assert(40 * i == 40 * k + 40 * j) by (nonlinear_arith)
                requires
                    j == i - k,
            ;
            assert(b.subrange(40 * i, 40 * i + 40) =~= records_bytes(qs).subrange(
                40 * j,
                40 * j + 40,
            ));
            lemma_quote_round_trip(qs[j]);
        }
    }
    assert(records_of(b) =~= records_of(prefix) + qs);
}

/// Appending records (timestamp fields within their widths) to a symbol
/// file, fresh or holding whole records after its header, and reading the
/// file back yields the records it held followed by the appended ones; the
/// file then holds a whole header.
pub proof fn lemma_append_then_read(file: Seq<u8>, qs: Seq<Quote>)
    requires
        file.len() < 1184 || (file.len() - 1184) % 40 == 0,
        forall|i: int| 0 <= i < qs.len() ==> (#[trigger] qs[i]).fits(),
    ensures
        (file + append_model(file.len(), qs)).len() >= 1184,
        stored_records(file + append_model(file.len(), qs)) == stored_records(file) + qs,
{
    let whole = file + append_model(file.len(), qs);
    lemma_records_bytes_layout(qs);
    if file.len() < 1184 {
        let head = file + zeros(header_fill(file.len()));
        assert(whole =~= head + records_bytes(qs));
        assert(whole.subrange(1184, whole.len() as int) =~= Seq::<u8>::empty() + records_bytes(
            qs,
        ));
        lemma_records_round_trip(Seq::empty(), qs);
        assert(records_of(Seq::<u8>::empty()) =~= Seq::<Quote>::empty());
        assert(stored_records(file) + qs =~= qs);
    } else {
        let body = file.subrange(1184, file.len() as int);
        assert(whole.subrange(1184, whole.len() as int) =~= body + records_bytes(qs));
        lemma_records_round_trip(body, qs);
    }
}

fn chunk_quote(chunk: &[u8]) -> (q: Quote)
    requires
        chunk@.len() >= 40,
    ensures
        q == bytes_quote(chunk@),
{
    let d = unpack_date(u64_from_le_bytes(slice_subrange(chunk, 0, 8)));
    Quote {
        day: d.day,
        month: d.month,
        year: d.year,
        hour: d.hour,
        minute: d.minute,
        second: d.second,
        milli_sec: d.milli_sec,
        micro_sec: d.micro_sec,
        reserved: d.reserved,
        future: d.is_future,
        close: u32_from_le_bytes(slice_subrange(chunk, 8, 12)),
        open: u32_from_le_bytes(slice_subrange(chunk, 12, 16)),
        high: u32_from_le_bytes(slice_subrange(chunk, 16, 20)),
        low: u32_from_le_bytes(slice_subrange(chunk, 20, 24)),
        volume: u32_from_le_bytes(slice_subrange(chunk, 24, 28)),
        aux1: u32_from_le_bytes(slice_subrange(chunk, 28, 32)),
        aux2: u32_from_le_bytes(slice_subrange(chunk, 32, 36)),
        terminator: u32_from_le_bytes(slice_subrange(chunk, 36, 40)),
    }
}

/// Decodes one record from the first 40 bytes of `bytes`; fails with
/// `FormatError` exactly when fewer than 40 bytes are given.
pub fn decode_quote(bytes: &[u8]) -> (r: Result<Quote, AmiError>)
    ensures
        bytes@.len() < 40 ==> r == Err::<Quote, AmiError>(AmiError::FormatError),
        bytes@.len() >= 40 ==> r == Ok::<Quote, AmiError>(bytes_quote(bytes@)),
{
    if bytes.len() < SYMBOL_ENTRY_SIZE {
        Err(AmiError::FormatError)
    } else {
        Ok(chunk_quote(bytes))
    }
}

/// Encodes one record to its 40 bytes.
pub fn quote_to_bytes(q: &Quote) -> (r: Vec<u8>)
    ensures
        r@ == quote_bytes(*q),
        r@.len() == 40,
{
    let d = Date {
        year: q.year,
        month: q.month,
        day: q.day,
        hour: q.hour,
        minute: q.minute,
        second: q.second,
        milli_sec: q.milli_sec,
        micro_sec: q.micro_sec,
        reserved: q.reserved,
        is_future: q.future,
    };
    let mut out = encode_date(&d);
    let mut part = u32_to_le_bytes(q.close);
    out.append(&mut part);
    let mut part = u32_to_le_bytes(q.open);
    out.append(&mut part);
    let mut part = u32_to_le_bytes(q.high);
    out.append(&mut part);
    let mut part = u32_to_le_bytes(q.low);
    out.append(&mut part);
    let mut part = u32_to_le_bytes(q.volume);
    out.append(&mut part);
    let mut part = u32_to_le_bytes(q.aux1);
    out.append(&mut part);
    let mut part = u32_to_le_bytes(q.aux2);
    out.append(&mut part);
    let mut part = u32_to_le_bytes(q.terminator);
    out.append(&mut part);
    proof {
        lemma_quote_bytes_len(*q);
    }
    out
}

/// Decodes a stream of record bytes: one record per whole 40-byte chunk, in
/// order; a trailing fragment shorter than a record is dropped.
pub fn parse_symbol_entries(data: &[u8]) -> (r: Vec<Quote>)
    ensures
        r@ == records_of(data@),
{
    let mut entries: Vec<Quote> = Vec::new();
    let mut offset: usize = 0;
    while data.len() - offset >= SYMBOL_ENTRY_SIZE
        invariant
            offset <= data@.len(),
            offset == 40 * entries@.len(),
            forall|i: int|
                0 <= i < entries@.len() ==> #[trigger] entries@[i] == bytes_quote(
                    data@.subrange(40 * i, 40 * i + 40),
                ),
        decreases data@.len() - offset,
    {
        let chunk = slice_subrange(data, offset, offset + SYMBOL_ENTRY_SIZE);
        let q = chunk_quote(chunk);
        entries.push(q);
        offset = offset + SYMBOL_ENTRY_SIZE;
    }
    let ghost n = entries@.len();
    assert(data@.len() / 40 == n) by (nonlinear_arith)
        requires
            40 * n <= data@.len(),
            data@.len() - 40 * n < 40,
    ;
    assert(entries@ =~= records_of(data@));
    entries
}

/// Encodes records one after the other.
pub fn encode_records(quotes: &[Quote]) -> (r: Vec<u8>)
    ensures
        r@ == records_bytes(quotes@),
{
    let mut out: Vec<u8> = Vec::new();
    let mut i: usize = 0;
    while i < quotes.len()
        invariant
            i <= quotes@.len(),
            out@ == records_bytes(quotes@.subrange(0, i as int)),
        decreases quotes@.len() - i,
    {
        let mut part = quote_to_bytes(&quotes[i]);
        out.append(&mut part);
        assert(quotes@.subrange(0, i + 1).drop_last() =~= quotes@.subrange(0, i as int));
        i = i + 1;
    }
    assert(quotes@.subrange(0, quotes@.len() as int) =~= quotes@);
    out
}

/// A vector of `n` zero bytes.
pub fn zero_bytes(n: usize) -> (r: Vec<u8>)
    ensures
        r@ == zeros(n as nat),
{
    let mut out: Vec<u8> = Vec::new();
    let mut i: usize = 0;
    while i < n
        invariant
            i <= n,
            out@ == zeros(i as nat),
        decreases n - i,
    {
        out.push(0u8);
        i = i + 1;
        assert(out@ =~= zeros(i as nat));
    }
    out
}

/// A symbol file split into its opaque header and its records.
#[derive(Debug)]
pub struct SymbolFile {
    pub header: Vec<u8>,
    pub records: Vec<Quote>,
}

/// Splits the bytes of a symbol file into its 1184-byte header and the
/// records after it. A file shorter than a header fails with `FormatError`:
/// no record is decoded before a whole header has been read.
pub fn parse_symbol_file(data: &[u8]) -> (r: Result<SymbolFile, AmiError>)
    ensures
        data@.len() < 1184 ==> r matches Err(AmiError::FormatError),
        data@.len() >= 1184 ==> (r matches Ok(f) && f.header@ == data@.subrange(0, 1184)
            && f.records@ == stored_records(data@)),
{
    if data.len() < SYMBOL_HEADER_SIZE {
        return Err(AmiError::FormatError);
    }
    let header = slice_to_vec(slice_subrange(data, 0, SYMBOL_HEADER_SIZE));
    let records = parse_symbol_entries(slice_subrange(data, SYMBOL_HEADER_SIZE, data.len()));
    Ok(SymbolFile { header, records })
}

/// The bytes to add to the end of a symbol file of `current_len` bytes to
/// append `quotes`: zero bytes that complete the header when the file is
/// absent (length 0) or shorter than a header, then the encoded records.
pub fn append_bytes(current_len: usize, quotes: &[Quote]) -> (r: Vec<u8>)
    ensures
        r@ == append_model(current_len as nat, quotes@),
{
    let fill: usize = if current_len < SYMBOL_HEADER_SIZE {
        SYMBOL_HEADER_SIZE - current_len
    } else {
        0
    };
    let mut out = zero_bytes(fill);
    let mut recs = encode_records(quotes);
    out.append(&mut recs);
    out
}

} // verus!
