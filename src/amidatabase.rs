//! The database: its master index held in memory, symbol registration, the
//! bytes that persist the index, and quote reads with date-range filtering.

use vstd::prelude::*;
use vstd::string::*;

use crate::amireader::{AmiReader, symbol_names, string_views, file_view, read_outcome, quote_day, last_day};
use crate::error::AmiError;
use crate::master::{MasterEntry, MasterView, master_of, master_bytes, write_master, REST_SIZE};
use crate::paths::{join_path, master_path, symbol_file_path, MASTER_FILE_NAME};
use crate::quote::{Quote, append_model, zeros, zero_bytes};

verus! {

/// Whether date `a` is on or before date `b`, comparing `(year, month, day)`
/// in that order.
pub open spec fn date_le(a: (u16, u8, u8), b: (u16, u8, u8)) -> bool {
    a.0 < b.0 || (a.0 == b.0 && (a.1 < b.1 || (a.1 == b.1 && a.2 <= b.2)))
}

/// Whether a record's date lies within the inclusive bounds; a missing bound
/// does not limit.
pub open spec fn in_range(q: Quote, start: Option<(u16, u8, u8)>, end: Option<(u16, u8, u8)>) -> bool {
    &&& match start {
        Some(s) => date_le(s, quote_day(q)),
        None => true,
    }
    &&& match end {
        Some(e) => date_le(quote_day(q), e),
        None => true,
    }
}

/// The master index after registering `name`: unchanged where an entry
/// already has that name (case counts), else with a new last entry of that
/// name and a zero metadata block.
pub open spec fn with_symbol(m: MasterView, name: Seq<char>) -> MasterView {
    if exists|i: int| 0 <= i < m.1.len() && (#[trigger] m.1[i]).0 == name {
        m
    } else {
        (m.0, m.1.push((name, zeros(664))))
    }
}

/// Registering a symbol a second time changes nothing.
pub proof fn lemma_add_symbol_idempotent(m: MasterView, name: Seq<char>)
    ensures
        with_symbol(with_symbol(m, name), name) == with_symbol(m, name),
{
    let once = with_symbol(m, name);
    if !(exists|i: int| 0 <= i < m.1.len() && (#[trigger] m.1[i]).0 == name) {
        let last = m.1.len() as int;
        assert(once.1[last].0 == name);
    }
}

fn day_le(a: (u16, u8, u8), b: (u16, u8, u8)) -> (r: bool)
    ensures
        r == date_le(a, b),
{
    a.0 < b.0 || (a.0 == b.0 && (a.1 < b.1 || (a.1 == b.1 && a.2 <= b.2)))
}

/// The records whose dates lie within the inclusive bounds, in their order.
pub fn filter_quotes_in_range(
    quotes: &[Quote],
    start: Option<(u16, u8, u8)>,
    end: Option<(u16, u8, u8)>,
) -> (r: Vec<Quote>)
    ensures
        r@ == quotes@.filter(|q: Quote| in_range(q, start, end)),
{
    let ghost pred = |q: Quote| in_range(q, start, end);
    let mut out: Vec<Quote> = Vec::new();
    let mut i: usize = 0;
    assert(quotes@.take(0) =~= Seq::<Quote>::empty());
    proof {
        reveal(Seq::filter);
    }
    while i < quotes.len()
        invariant
            i <= quotes@.len(),
            pred == (|q: Quote| in_range(q, start, end)),
            out@ == quotes@.take(i as int).filter(pred),
        decreases quotes@.len() - i,
    {
        let q = quotes[i];
        let day = (q.year, q.month, q.day);
        let after_start = match start {
            Some(s) => day_le(s, day),
            None => true,
        };
        let before_end = match end {
            Some(e) => day_le(day, e),
            None => true,
        };
        proof {
            assert(quotes@.take(i + 1) =~= quotes@.take(i as int).push(q));
            quotes@.take(i as int).lemma_filter_push(q, pred);
        }
        if after_start && before_end {
            out.push(q);
        }
        i = i + 1;
    }
    assert(quotes@.take(quotes@.len() as int) =~= quotes@);
    out
}

/// A database folder: its master index in memory, and what to read and
/// write to keep the files in step with it.
#[derive(Debug)]
pub struct AmiDataBase {
    pub folder: String,
    pub reader: AmiReader,
}

impl AmiDataBase {
    /// Opens (or starts) the database in `folder`, given the bytes of its
    /// master file (empty where the file does not exist: a new database).
    pub fn new(folder: &str, master_data: &[u8]) -> (r: AmiDataBase)
        ensures
            r.folder@ == folder@,
            r.reader.folder@ == folder@,
            r.reader.master@ == master_of(master_data@),
    {
        AmiDataBase { folder: String::from_str(folder), reader: AmiReader::new(folder, master_data) }
    }

    /// The symbols in registration order.
    pub fn get_symbols(&self) -> (r: Vec<String>)
        ensures
            string_views(r@) == symbol_names(self.reader.master@),
    {
        self.reader.get_symbols()
    }

    /// Registers a symbol in the master index held in memory, unless it is
    /// there already; nothing is written until `write_database`.
    pub fn add_symbol(&mut self, symbol: &str)
        requires
            old(self).reader.master.entries@.len() < u32::MAX,
        ensures
            final(self).reader.master@ == with_symbol(old(self).reader.master@, symbol@),
            final(self).folder == old(self).folder,
            final(self).reader.folder == old(self).reader.folder,
    {
        let name = String::from_str(symbol);
        let ghost m = self.reader.master@;
        let mut i: usize = 0;
        while i < self.reader.master.entries.len()
            invariant
                i <= self.reader.master.entries@.len(),
                self.reader.master@ == m,
                self.reader.master == old(self).reader.master,
                self.folder == old(self).folder,
                self.reader.folder == old(self).reader.folder,
                name@ == symbol@,
                forall|j: int| 0 <= j < i ==> (#[trigger] m.1[j]).0 != symbol@,
            decreases self.reader.master.entries@.len() - i,
        {
            assert(m.1[i as int] == self.reader.master.entries@[i as int]@);
            if self.reader.master.entries[i].symbol == name {
                return;
            }
            i = i + 1;
        }
        let entry = MasterEntry { symbol: name, rest: zero_bytes(REST_SIZE) };
        self.reader.master.entries.push(entry);
        assert(self.reader.master@.1 =~= m.1.push((symbol@, zeros(664))));
    }

    /// The path of the master file.
    pub fn master_file(&self) -> (r: String)
        ensures
            r@ == join_path(self.folder@, MASTER_FILE_NAME@),
    {
        master_path(self.folder.as_str())
    }

    /// The path of a symbol's data file.
    pub fn symbol_file(&self, symbol: &str) -> (r: String)
        ensures
            r@ == symbol_file_path(self.reader.folder@, symbol@),
    {
        self.reader.symbol_file(symbol)
    }

    /// The bytes of the master file for the index held in memory: the header
    /// it was read with (so an existing index keeps its header), the number
    /// of entries, and the entries. The same index always gives the same
    /// bytes.
    pub fn write_database(&self) -> (r: Vec<u8>)
        requires
            self.reader.master.entries@.len() <= u32::MAX,
        ensures
            r@ == master_bytes(self.reader.master@),
    {
        write_master(&self.reader.master)
    }

    /// The date of a symbol's last record in file order, given its file's
    /// bytes (`None` where the file does not exist).
    pub fn get_last_time_stamp(&self, file: Option<&[u8]>) -> (r: Result<
        Option<(u16, u8, u8)>,
        AmiError,
    >)
        ensures
            match read_outcome(file_view(file)) {
                Ok(qs) => r == Ok::<Option<(u16, u8, u8)>, AmiError>(last_day(qs)),
                Err(e) => r == Err::<Option<(u16, u8, u8)>, AmiError>(e),
            },
    {
        self.reader.last_time_stamp(file)
    }

    /// The records of a symbol, given its file's bytes (`None` where the file
    /// does not exist).
    pub fn list_quotes(&self, file: Option<&[u8]>) -> (r: Result<Vec<Quote>, AmiError>)
        ensures
            match r {
                Ok(v) => read_outcome(file_view(file)) == Ok::<Seq<Quote>, AmiError>(v@),
                Err(e) => read_outcome(file_view(file)) == Err::<Seq<Quote>, AmiError>(e),
            },
    {
        self.reader.read_quotes(file)
    }

    /// The records of a symbol whose dates lie within the inclusive bounds,
    /// in file order; errors as `list_quotes`.
    pub fn list_quotes_in_range(
        &self,
        file: Option<&[u8]>,
        start: Option<(u16, u8, u8)>,
        end: Option<(u16, u8, u8)>,
    ) -> (r: Result<Vec<Quote>, AmiError>)
        ensures
            match read_outcome(file_view(file)) {
                Ok(qs) => (r matches Ok(v) && v@ == qs.filter(|q: Quote| in_range(q, start, end))),
                Err(e) => r == Err::<Vec<Quote>, AmiError>(e),
            },
    {
        match self.reader.read_quotes(file) {
            Ok(quotes) => Ok(filter_quotes_in_range(quotes.as_slice(), start, end)),
            Err(e) => Err(e),
        }
    }

    /// The bytes to add at the end of a symbol's file of `current_len` bytes
    /// (0 where it does not exist) to append `quotes`, header first where the
    /// file has none.
    pub fn add_quotes(&self, current_len: usize, quotes: &[Quote]) -> (r: Vec<u8>)
        ensures
            r@ == append_model(current_len as nat, quotes@),
    {
        self.reader.append_quotes(current_len, quotes)
    }
}

} // verus!
