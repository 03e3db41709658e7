//! The master index `broker.master`: an 8-byte opaque header, a
//! little-endian 32-bit entry count, then one 1172-byte entry per symbol in
//! registration order. An entry is a NUL-padded 492-byte name, 16 reserved
//! bytes and a 664-byte opaque metadata block.

use vstd::prelude::*;
use vstd::bytes::*;
use vstd::slice::{slice_subrange, slice_to_vec};
use vstd::utf8::*;

use crate::quote::{zeros, zero_bytes};
use crate::text::{run_len, run_length, lemma_run_len};

verus! {

/// Size of the opaque header at the start of the master index.
pub const MASTER_HEADER_SIZE: usize = 8;

/// Size of the header and the entry count together.
pub const MASTER_PREFIX_SIZE: usize = 12;

/// Size of one entry of the master index.
pub const MASTER_ENTRY_SIZE: usize = 1172;

/// Size of the NUL-padded name field at the start of an entry.
pub const NAME_FIELD_SIZE: usize = 492;

/// Offset of the opaque metadata block within an entry.
pub const REST_OFFSET: usize = 508;

/// Size of the opaque metadata block of an entry.
pub const REST_SIZE: usize = 664;

/// The text that `String::from_utf8_lossy` makes of bytes that are not
/// valid UTF-8.
pub uninterp spec fn lossy_text(b: Seq<u8>) -> Seq<char>;

/// The text held in a run of bytes: its UTF-8 decoding where it is valid
/// UTF-8.
pub open spec fn utf8_text(b: Seq<u8>) -> Seq<char> {
    if valid_utf8(b) {
        decode_utf8(b)
    } else {
        lossy_text(b)
    }
}

/// Relies on `String::from_utf8_lossy`: valid UTF-8 decodes to the text it
/// encodes; other bytes to a text that depends on the bytes alone.
#[verifier::external_body]
fn text_from_bytes(b: &[u8]) -> (r: String)
    ensures
        valid_utf8(b@) ==> r@ == decode_utf8(b@),
        !valid_utf8(b@) ==> r@ == lossy_text(b@),
{
    String::from_utf8_lossy(b).into_owned()
}

/// `b` cut or padded with zero bytes to exactly `n` bytes.
pub open spec fn fit(b: Seq<u8>, n: nat) -> Seq<u8> {
    if b.len() >= n {
        b.subrange(0, n as int)
    } else {
        b + zeros((n - b.len()) as nat)
    }
}

/// A master entry as plain values: the symbol's text and its metadata block.
pub type EntryView = (Seq<char>, Seq<u8>);

/// A master index as plain values: its header and its entries.
pub type MasterView = (Seq<u8>, Seq<EntryView>);

/// One symbol of the master index.
#[derive(Debug, Clone)]
pub struct MasterEntry {
    pub symbol: String,
    pub rest: Vec<u8>,
}

impl View for MasterEntry {
    type V = EntryView;

    open spec fn view(&self) -> EntryView {
        (self.symbol@, self.rest@)
    }
}

/// The master index: its opaque header and its entries in registration
/// order.
#[derive(Debug, Clone)]
pub struct MasterIndex {
    pub header: Vec<u8>,
    pub entries: Vec<MasterEntry>,
}

impl View for MasterIndex {
    type V = MasterView;

    open spec fn view(&self) -> MasterView {
        (self.header@, self.entries@.map_values(|e: MasterEntry| e@))
    }
}

/// The entry held in the first 1172 bytes of `b`: the name is the text
/// before the first NUL of the name field.
pub open spec fn entry_of(b: Seq<u8>) -> EntryView {
    let field = b.subrange(0, 492);
    (utf8_text(field.subrange(0, run_len(field, 0) as int)), b.subrange(508, 1172))
}

/// The entry count that the file declares.
pub open spec fn declared_count(d: Seq<u8>) -> nat {
    spec_u32_from_le_bytes(d.subrange(8, 12)) as nat
}

/// How many entries are read from a master file: the declared count, cut to
/// the whole entries that the file holds; none when the file is shorter than
/// header and count.
pub open spec fn stored_count(d: Seq<u8>) -> nat {
    if d.len() < 12 {
        0
    } else {
        let whole = ((d.len() - 12) / 1172) as nat;
        if declared_count(d) < whole {
            declared_count(d)
        } else {
            whole
        }
    }
}

/// The master index held in the bytes of a master file. A file shorter than
/// header and count holds an empty index with a zero header.
pub open spec fn master_of(d: Seq<u8>) -> MasterView {
    (
        if d.len() < 12 {
            zeros(8)
        } else {
            d.subrange(0, 8)
        },
        Seq::new(
            stored_count(d),
            |i: int| entry_of(d.subrange(12 + 1172 * i, 12 + 1172 * i + 1172)),
        ),
    )
}

/// The 1172 bytes of an entry: the name's UTF-8 bytes cut or NUL-padded to
/// 492 bytes, 16 zero bytes, and the metadata block cut or padded to 664.
pub open spec fn entry_bytes(e: EntryView) -> Seq<u8> {
    fit(encode_utf8(e.0), 492) + zeros(16) + fit(e.1, 664)
}

/// The bytes of a sequence of entries, one after the other.
pub open spec fn entries_bytes(es: Seq<EntryView>) -> Seq<u8>
    decreases es.len(),
{
    if es.len() == 0 {
        Seq::empty()
    } else {
        entries_bytes(es.drop_last()) + entry_bytes(es.last())
    }
}

/// The bytes of a master file: the header cut or padded to 8 bytes, the
/// number of entries, and the entries.
pub open spec fn master_bytes(m: MasterView) -> Seq<u8> {
    fit(m.0, 8) + spec_u32_to_le_bytes(m.1.len() as u32) + entries_bytes(m.1)
}

/// An entry that reads back as written: a name with no NUL character whose
/// UTF-8 encoding fits the name field, and a whole metadata block.
pub open spec fn entry_fits(e: EntryView) -> bool {
    &&& encode_utf8(e.0).len() <= 492
    &&& forall|i: int| 0 <= i < e.0.len() ==> e.0[i] != '\0'
    &&& e.1.len() == 664
}

/// A master index that reads back as written: an 8-byte header, a count
/// that fits 32 bits, and entries that read back as written.
pub open spec fn master_fits(m: MasterView) -> bool {
    &&& m.0.len() == 8
    &&& m.1.len() <= u32::MAX
    &&& forall|i: int| 0 <= i < m.1.len() ==> entry_fits(#[trigger] m.1[i])
}

proof fn lemma_scalar_no_nul(c: u32)
    requires
        is_scalar(c),
        c != 0,
    ensures
        forall|k: int| 0 <= k < encode_scalar(c).len() ==> #[trigger] encode_scalar(c)[k] != 0,
{
    assert(c <= 0x7F ==> (c & 0x7F) as u8 != 0) by (bit_vector)
        requires
            c != 0,
    ;
    assert(0xC0u8 | ((c >> 6) & 0x1F) as u8 != 0) by (bit_vector);
    assert(0xE0u8 | ((c >> 12) & 0x0F) as u8 != 0) by (bit_vector);
    assert(0xF0u8 | ((c >> 18) & 0x7) as u8 != 0) by (bit_vector);
    assert(0x80u8 | (c & 0x3F) as u8 != 0) by (bit_vector);
    assert(0x80u8 | ((c >> 6) & 0x3F) as u8 != 0) by (bit_vector);
    assert(0x80u8 | ((c >> 12) & 0x3F) as u8 != 0) by (bit_vector);
}

proof fn lemma_utf8_no_nul(s: Seq<char>)
    requires
        forall|i: int| 0 <= i < s.len() ==> s[i] != '\0',
    ensures
        forall|j: int| 0 <= j < encode_utf8(s).len() ==> #[trigger] encode_utf8(s)[j] != 0,
    decreases s.len(),
{
    if s.len() > 0 {
        let rest = s.drop_first();
        lemma_utf8_no_nul(rest);
        let c = s[0] as u32;
        char_is_scalar(s[0]);
        char_u32_cast(s[0], c);
        assert(c != 0);
        lemma_scalar_no_nul(c);
        let head = encode_scalar(c);
        assert forall|j: int| 0 <= j < encode_utf8(s).len() implies #[trigger] encode_utf8(s)[j]
            != 0 by {
            if j < head.len() {
                assert(encode_utf8(s)[j] == head[j]);
            } else {
                assert(encode_utf8(s)[j] == encode_utf8(rest)[j - head.len()]);
            }
        }
    }
}

proof fn lemma_entry_round_trip(e: EntryView)
    requires
        entry_fits(e),
    ensures
        entry_bytes(e).len() == 1172,
        entry_of(entry_bytes(e)) == e,
{
    let name = encode_utf8(e.0);
    let b = entry_bytes(e);
    let field = fit(name, 492);
    assert(b.subrange(0, 492) =~= field);
    assert(b.subrange(508, 1172) =~= e.1);
    lemma_utf8_no_nul(e.0);
    lemma_run_len(field, 0, name.len());
    assert(field.subrange(0, name.len() as int) =~= name);
    encode_utf8_valid_utf8(e.0);
    encode_utf8_decode_utf8(e.0);
}

proof fn lemma_entries_layout(es: Seq<EntryView>)
    ensures
        entries_bytes(es).len() == 1172 * es.len(),
        forall|i: int|
            0 <= i < es.len() ==> #[trigger] entries_bytes(es).subrange(
                1172 * i,
                1172 * i + 1172,
            ) == entry_bytes(es[i]),
    decreases es.len(),
{
    if es.len() > 0 {
        let init = es.drop_last();
        lemma_entries_layout(init);
        let last = es.last();
        assert(fit(encode_utf8(last.0), 492).len() == 492);
        assert(fit(last.1, 664).len() == 664);
        let b = entries_bytes(es);
        assert forall|i: int| 0 <= i < es.len() implies #[trigger] b.subrange(
            1172 * i,
            1172 * i + 1172,
        ) == entry_bytes(es[i]) by {
            if i < init.len() {
                assert(1172 * i + 1172 <= 1172 * init.len()) by (nonlinear_arith)
                    requires
                        i < init.len(),
                ;
                assert(b.subrange(1172 * i, 1172 * i + 1172) =~= entries_bytes(init).subrange(
                    1172 * i,
                    1172 * i + 1172,
                ));
            } else {
                assert(b.subrange(1172 * i, 1172 * i + 1172) =~= entry_bytes(last));
            }
        }
    }
}

/// Writing a master index whose header, count and entries fit the layout
/// and reading the bytes back gives the same index.
pub proof fn lemma_master_round_trip(m: MasterView)
    requires
        master_fits(m),
    ensures
        master_of(master_bytes(m)) == m,
{
    lemma_auto_spec_u32_to_from_le_bytes();
    lemma_entries_layout(m.1);
    let d = master_bytes(m);
    let n = m.1.len();
    let count = spec_u32_to_le_bytes(n as u32);
    assert(d.subrange(0, 8) =~= m.0);
    assert(d.subrange(8, 12) =~= count);
    assert(declared_count(d) == n);
    assert((d.len() - 12) / 1172 == n) by (nonlinear_arith)
        requires
            d.len() == 12 + 1172 * n,
    ;
    assert forall|i: int| 0 <= i < n implies #[trigger] entry_of(
        d.subrange(12 + 1172 * i, 12 + 1172 * i + 1172),
    ) == m.1[i] by {
        assert(1172 * i + 1172 <= 1172 * n) by (nonlinear_arith)
            requires
                i < n,
        ;
        assert(d.subrange(12 + 1172 * i, 12 + 1172 * i + 1172) =~= entries_bytes(m.1).subrange(
            1172 * i,
            1172 * i + 1172,
        ));
        lemma_entry_round_trip(m.1[i]);
    }
    assert(master_of(d).1 =~= m.1);
}

/// Writing a master index, reading the file back and writing it again gives
/// byte-identical files.
pub proof fn lemma_write_idempotent(m: MasterView)
    requires
        master_fits(m),
    ensures
        master_bytes(master_of(master_bytes(m))) == master_bytes(m),
{
    lemma_master_round_trip(m);
}

/// `b` cut or padded with zero bytes to exactly `n` bytes.
pub fn fit_bytes(b: &[u8], n: usize) -> (r: Vec<u8>)
    ensures
        r@ == fit(b@, n as nat),
{
    if b.len() >= n {
        slice_to_vec(slice_subrange(b, 0, n))
    } else {
        let mut out = slice_to_vec(b);
        let mut pad = zero_bytes(n - b.len());
        out.append(&mut pad);
        out
    }
}

/// Decodes the entry held in the first 1172 bytes of `entry`.
fn parse_entry(entry: &[u8]) -> (e: MasterEntry)
    requires
        entry@.len() >= 1172,
    ensures
        e@ == entry_of(entry@),
{
    let field = slice_subrange(entry, 0, NAME_FIELD_SIZE);
    let len = run_length(field, 0);
    let name = slice_subrange(field, 0, len);
    let symbol = text_from_bytes(name);
    let rest = slice_to_vec(slice_subrange(entry, REST_OFFSET, MASTER_ENTRY_SIZE));
    MasterEntry { symbol, rest }
}

/// Reads a master file. Bytes too short for header and count give an empty
/// index (with a zero header); entries past the declared count, or cut off by
/// the end of the file, are dropped.
pub fn parse_master(data: &[u8]) -> (m: MasterIndex)
    ensures
        m@ == master_of(data@),
{
    if data.len() < MASTER_PREFIX_SIZE {
        let m = MasterIndex { header: zero_bytes(MASTER_HEADER_SIZE), entries: Vec::new() };
        assert(m@.1 =~= master_of(data@).1);
        return m;
    }
    let header = slice_to_vec(slice_subrange(data, 0, MASTER_HEADER_SIZE));
    let declared = u32_from_le_bytes(slice_subrange(data, 8, MASTER_PREFIX_SIZE)) as usize;
    let whole = (data.len() - MASTER_PREFIX_SIZE) / MASTER_ENTRY_SIZE;
    let count = if declared < whole {
        declared
    } else {
        whole
    };
    let mut entries: Vec<MasterEntry> = Vec::new();
    let mut offset: usize = MASTER_PREFIX_SIZE;
    let mut i: usize = 0;
    while i < count
        invariant
            count == stored_count(data@),
            count <= whole,
            whole == (data@.len() - 12) / 1172,
            data@.len() >= 12,
            i <= count,
            entries@.len() == i,
            offset == 12 + 1172 * i,
            forall|k: int|
                0 <= k < i ==> #[trigger] entries@[k]@ == entry_of(
                    data@.subrange(12 + 1172 * k, 12 + 1172 * k + 1172),
                ),
        decreases count - i,
    {
        assert(12 + 1172 * i + 1172 <= data@.len()) by (nonlinear_arith)
            requires
                i < whole,
                whole == (data@.len() - 12) / 1172,
                data@.len() >= 12,
        ;
        assert(offset + 1172 <= data.len());
        let entry = slice_subrange(data, offset, offset + MASTER_ENTRY_SIZE);
        let e = parse_entry(entry);
        entries.push(e);
        offset = offset + MASTER_ENTRY_SIZE;
        i = i + 1;
    }
    let m = MasterIndex { header, entries };
    assert(m@.1 =~= master_of(data@).1);
    m
}

/// Encodes one entry to its 1172 bytes.
fn entry_to_bytes(e: &MasterEntry) -> (r: Vec<u8>)
    ensures
        r@ == entry_bytes(e@),
{
    let mut out = fit_bytes(e.symbol.as_str().as_bytes(), NAME_FIELD_SIZE);
    let mut reserved = zero_bytes(REST_OFFSET - NAME_FIELD_SIZE);
    out.append(&mut reserved);
    let mut rest = fit_bytes(e.rest.as_slice(), REST_SIZE);
    out.append(&mut rest);
    out
}

/// Encodes a master index: its header cut or padded to 8 bytes, the number
/// of entries it holds (never a count of its own), then each entry in order.
pub fn write_master(m: &MasterIndex) -> (r: Vec<u8>)
    requires
        m.entries@.len() <= u32::MAX,
    ensures
        r@ == master_bytes(m@),
{
    let mut out = fit_bytes(m.header.as_slice(), MASTER_HEADER_SIZE);
    let mut count = u32_to_le_bytes(m.entries.len() as u32);
    out.append(&mut count);
    let ghost views = m@.1;
    let mut i: usize = 0;
    while i < m.entries.len()
        invariant
            i <= m.entries@.len(),
            views == m@.1,
            out@ == fit(m.header@, 8) + spec_u32_to_le_bytes(m.entries@.len() as u32)
                + entries_bytes(views.subrange(0, i as int)),
        decreases m.entries@.len() - i,
    {
        let mut part = entry_to_bytes(&m.entries[i]);
        out.append(&mut part);
        assert(views.subrange(0, i + 1).drop_last() =~= views.subrange(0, i as int));
        i = i + 1;
    }
    assert(views.subrange(0, views.len() as int) =~= views);
    out
}

} // verus!
