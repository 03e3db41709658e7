//! Daily quotes in comma-separated text: a header row, then rows of
//! `Date(YYYY-MM-DD),Open,High,Low,Close,Volume`, with an optional extra
//! column before the volume.

use vstd::prelude::*;
use vstd::slice::slice_to_vec;
use vstd::string::StringSliceAdditionalSpecFns;

use crate::text::{split, lines, decimal_upto, byte_views, split_bytes, split_lines, parse_decimal};

verus! {

/// The date written `YYYY-MM-DD`: three unsigned decimals separated by `-`,
/// the year at most 65535 and month and day at most 255.
pub open spec fn date_of(field: Seq<u8>) -> Option<(u16, u8, u8)> {
    let p = split(field, 45);
    if p.len() != 3 {
        None
    } else {
        match (decimal_upto(p[0], 65535), decimal_upto(p[1], 255), decimal_upto(p[2], 255)) {
            (Some(y), Some(m), Some(d)) => Some((y as u16, m as u8, d as u8)),
            _ => None,
        }
    }
}

/// A data row as plain values: year, month, day, and the texts of the open,
/// high, low, close and volume columns.
pub type RowView = (u16, u8, u8, Seq<Seq<u8>>);

/// The row that a line holds: none when it has fewer than six columns or its
/// first column is not a date. The volume is the seventh column where there
/// are more than six, else the sixth.
pub open spec fn row_of(line: Seq<u8>) -> Option<RowView> {
    let parts = split(line, 44);
    if parts.len() < 6 {
        None
    } else {
        match date_of(parts[0]) {
            Some(d) => Some(
                (
                    d.0,
                    d.1,
                    d.2,
                    seq![
                        parts[1],
                        parts[2],
                        parts[3],
                        parts[4],
                        if parts.len() > 6 {
                            parts[6]
                        } else {
                            parts[5]
                        },
                    ],
                ),
            ),
            None => None,
        }
    }
}

/// The rows of a CSV text: every line after the first that holds a row, in
/// order; malformed lines are skipped.
pub open spec fn csv_rows(data: Seq<u8>) -> Seq<RowView> {
    if lines(data).len() == 0 {
        Seq::empty()
    } else {
        lines(data).drop_first().filter_map(|l: Seq<u8>| row_of(l))
    }
}

/// One data row of a CSV text. The price and volume columns stay text: what
/// number each one writes is read by the caller.
#[derive(Debug, Clone)]
pub struct CsvRow {
    pub year: u16,
    pub month: u8,
    pub day: u8,
    pub open: Vec<u8>,
    pub high: Vec<u8>,
    pub low: Vec<u8>,
    pub close: Vec<u8>,
    pub volume: Vec<u8>,
}

impl View for CsvRow {
    type V = RowView;

    open spec fn view(&self) -> RowView {
        (
            self.year,
            self.month,
            self.day,
            seq![self.open@, self.high@, self.low@, self.close@, self.volume@],
        )
    }
}

/// Reads a date written `YYYY-MM-DD` from bytes (see `date_of`).
pub fn date_field(field: &[u8]) -> (r: Option<(u16, u8, u8)>)
    ensures
        r == date_of(field@),
{
    let p = split_bytes(field, 45);
    assert(p@.len() == split(field@, 45).len());
    if p.len() != 3 {
        return None;
    }
    assert(p@[0]@ == split(field@, 45)[0]);
    assert(p@[1]@ == split(field@, 45)[1]);
    assert(p@[2]@ == split(field@, 45)[2]);
    let y = parse_decimal(p[0].as_slice(), 65535);
    let m = parse_decimal(p[1].as_slice(), 255);
    let d = parse_decimal(p[2].as_slice(), 255);
    match (y, m, d) {
        (Some(y), Some(m), Some(d)) => Some((y as u16, m as u8, d as u8)),
        _ => None,
    }
}

/// Reads a date written `YYYY-MM-DD` (see `date_of`); `None` when the text
/// is not three unsigned decimals separated by `-` or a part is out of range.
pub fn parse_date(s: &str) -> (r: Option<(u16, u8, u8)>)
    ensures
        r == date_of(s.spec_bytes()),
{
    date_field(s.as_bytes())
}

/// Reads the row that one line holds (see `row_of`).
fn parse_row(line: &[u8]) -> (r: Option<CsvRow>)
    ensures
        match r {
            Some(row) => row_of(line@) == Some(row@),
            None => row_of(line@) is None,
        },
{
    let parts = split_bytes(line, 44);
    let ghost p = split(line@, 44);
    assert(parts@.len() == p.len());
    if parts.len() < 6 {
        return None;
    }
    assert(forall|i: int| 0 <= i < p.len() ==> parts@[i]@ == #[trigger] p[i]);
    match date_field(parts[0].as_slice()) {
        Some((year, month, day)) => {
            let vol: usize = if parts.len() > 6 {
                6
            } else {
                5
            };
            let row = CsvRow {
                year,
                month,
                day,
                open: slice_to_vec(parts[1].as_slice()),
                high: slice_to_vec(parts[2].as_slice()),
                low: slice_to_vec(parts[3].as_slice()),
                close: slice_to_vec(parts[4].as_slice()),
                volume: slice_to_vec(parts[vol].as_slice()),
            };
            assert(row@.3 =~= row_of(line@).unwrap().3);
            Some(row)
        },
        None => None,
    }
}

/// The data rows of a CSV text (see `csv_rows`): the first line is a header
/// and is skipped, as is every malformed line.
pub fn parse_csv(data: &[u8]) -> (r: Vec<CsvRow>)
    ensures
        r@.map_values(|row: CsvRow| row@) == csv_rows(data@),
{
    let ls = split_lines(data);
    let ghost all = lines(data@);
    let ghost f = |l: Seq<u8>| row_of(l);
    assert(ls@.len() == all.len());
    let mut rows: Vec<CsvRow> = Vec::new();
    if ls.len() == 0 {
        assert(rows@.map_values(|row: CsvRow| row@) =~= csv_rows(data@));
        return rows;
    }
    let ghost body = all.drop_first();
    let mut i: usize = 1;
    assert(body.take(0).filter_map(f) =~= Seq::<RowView>::empty());
    while i < ls.len()
        invariant
            1 <= i <= ls@.len(),
            ls@.len() == all.len(),
            byte_views(ls@) == all,
            body == all.drop_first(),
            f == (|l: Seq<u8>| row_of(l)),
            rows@.map_values(|row: CsvRow| row@) == body.take(i - 1).filter_map(f),
        decreases ls@.len() - i,
    {
        assert(ls@[i as int]@ == all[i as int]);
        assert(body[i - 1] == all[i as int]);
        let ghost before = rows@;
        proof {
            body.lemma_filter_map_take_succ(f, i - 1);
        }
        match parse_row(ls[i].as_slice()) {
            Some(row) => {
                rows.push(row);
                assert(rows@.map_values(|row: CsvRow| row@) =~= before.map_values(
                    |row: CsvRow| row@,
                ) + seq![row@]);
            },
            None => {},
        }
        i = i + 1;
    }
    assert(body.take(body.len() as int) =~= body);
    rows
}

} // verus!
