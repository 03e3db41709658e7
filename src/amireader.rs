//! Read access to a database folder: its master index, and the records of a
//! symbol given the bytes of that symbol's file.

use vstd::prelude::*;

use crate::error::AmiError;
use crate::master::{MasterIndex, MasterView, parse_master, master_of};
use crate::paths::{symbol_path, symbol_file_path};
use crate::quote::{Quote, stored_records, append_model, parse_symbol_file, append_bytes};

verus! {

/// The symbol names of a master index, in registration order.
pub open spec fn symbol_names(m: MasterView) -> Seq<Seq<char>> {
    m.1.map_values(|e: (Seq<char>, Seq<u8>)| e.0)
}

/// The views of a vector of strings.
pub open spec fn string_views(v: Seq<String>) -> Seq<Seq<char>> {
    v.map_values(|s: String| s@)
}

/// The view of a symbol file's bytes, `None` where the file does not exist.
pub open spec fn file_view(file: Option<&[u8]>) -> Option<Seq<u8>> {
    match file {
        Some(d) => Some(d@),
        None => None,
    }
}

/// What reading a symbol's records gives: `NotFound` without a file,
/// `FormatError` for a file shorter than its header, else the records after
/// the header.
pub open spec fn read_outcome(file: Option<Seq<u8>>) -> Result<Seq<Quote>, AmiError> {
    match file {
        None => Err(AmiError::NotFound),
        Some(d) => if d.len() < 1184 {
            Err(AmiError::FormatError)
        } else {
            Ok(stored_records(d))
        },
    }
}

/// The date `(year, month, day)` of a record.
pub open spec fn quote_day(q: Quote) -> (u16, u8, u8) {
    (q.year, q.month, q.day)
}

/// The date of the last record in file order, if there is one.
pub open spec fn last_day(qs: Seq<Quote>) -> Option<(u16, u8, u8)> {
    if qs.len() == 0 {
        None
    } else {
        Some(quote_day(qs.last()))
    }
}

/// Reader of a database folder.
#[derive(Debug)]
pub struct AmiReader {
    pub folder: String,
    pub master: MasterIndex,
}

impl AmiReader {
    /// Opens the database in `folder`, given the bytes of its master file
    /// (empty where the file does not exist, which gives an empty index).
    pub fn new(folder: &str, master_data: &[u8]) -> (r: AmiReader)
        ensures
            r.folder@ == folder@,
            r.master@ == master_of(master_data@),
    {
        AmiReader { folder: String::from_str(folder), master: parse_master(master_data) }
    }

    /// The symbols of the master index, in registration order.
    pub fn get_symbols(&self) -> (r: Vec<String>)
        ensures
            string_views(r@) == symbol_names(self.master@),
    {
        let mut out: Vec<String> = Vec::new();
        let mut i: usize = 0;
        while i < self.master.entries.len()
            invariant
                i <= self.master.entries@.len(),
                string_views(out@) == symbol_names(self.master@).take(i as int),
            decreases self.master.entries@.len() - i,
        {
            let name = self.master.entries[i].symbol.clone();
            let ghost before = out@;
            out.push(name);
            assert(self.master@.1[i as int] == self.master.entries@[i as int]@);
            assert(string_views(out@) =~= string_views(before).push(name@));
            assert(string_views(out@) =~= symbol_names(self.master@).take(i + 1));
            i = i + 1;
        }
        assert(symbol_names(self.master@).take(i as int) =~= symbol_names(self.master@));
        out
    }

    /// The path of a symbol's data file in this database.
    pub fn symbol_file(&self, symbol: &str) -> (r: String)
        ensures
            r@ == symbol_file_path(self.folder@, symbol@),
    {
        symbol_path(self.folder.as_str(), symbol)
    }

    /// The records of a symbol, given its file's bytes (`None` where the
    /// file does not exist); see `read_outcome`.
    pub fn read_quotes(&self, file: Option<&[u8]>) -> (r: Result<Vec<Quote>, AmiError>)
        ensures
            match r {
                Ok(v) => read_outcome(file_view(file)) == Ok::<Seq<Quote>, AmiError>(v@),
                Err(e) => read_outcome(file_view(file)) == Err::<Seq<Quote>, AmiError>(e),
            },
    {
        match file {
            None => Err(AmiError::NotFound),
            Some(data) => match parse_symbol_file(data) {
                Ok(f) => Ok(f.records),
                Err(e) => Err(e),
            },
        }
    }

    /// The date of a symbol's last record in file order (`None` for a file
    /// with no records), given its file's bytes; errors as `read_quotes`.
    pub fn last_time_stamp(&self, file: Option<&[u8]>) -> (r: Result<
        Option<(u16, u8, u8)>,
        AmiError,
    >)
        ensures
            match read_outcome(file_view(file)) {
                Ok(qs) => r == Ok::<Option<(u16, u8, u8)>, AmiError>(last_day(qs)),
                Err(e) => r == Err::<Option<(u16, u8, u8)>, AmiError>(e),
            },
    {
        match self.read_quotes(file) {
            Ok(quotes) => {
                if quotes.len() == 0 {
                    Ok(None)
                } else {
                    let q = quotes[quotes.len() - 1];
                    Ok(Some((q.year, q.month, q.day)))
                }
            },
            Err(e) => Err(e),
        }
    }

    /// The bytes to add at the end of a symbol's file, of `current_len`
    /// bytes (0 where it does not exist), to append `quotes`; a missing or
    /// short header is completed with zero bytes first.
    pub fn append_quotes(&self, current_len: usize, quotes: &[Quote]) -> (r: Vec<u8>)
        ensures
            r@ == append_model(current_len as nat, quotes@),
    {
        append_bytes(current_len, quotes)
    }
}

} // verus!
