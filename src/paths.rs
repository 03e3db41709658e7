//! Where each file of a database lives: `root/broker.master` for the master
//! index and `root/<shard>/<symbol>` for each symbol's data.

use vstd::prelude::*;
use vstd::string::*;

verus! {

/// The name of the master index file.
pub const MASTER_FILE_NAME: &'static str = "broker.master";

/// ASCII lower case of one character; other characters are kept.
pub open spec fn ascii_lower_char(c: char) -> char {
    if 'A' <= c && c <= 'Z' {
        ((c as u32) + 32) as char
    } else {
        c
    }
}

/// ASCII lower case of a text, character by character.
pub open spec fn ascii_lower(s: Seq<char>) -> Seq<char> {
    s.map_values(|c: char| ascii_lower_char(c))
}

/// Relies on `str::to_ascii_lowercase`: ASCII upper-case letters become
/// lower case, every other character is kept.
#[verifier::external_body]
fn to_ascii_lower(s: &str) -> (r: String)
    ensures
        r@ == ascii_lower(s@),
{
    s.to_ascii_lowercase()
}

/// Relies on `str::eq_ignore_ascii_case`: equal after ASCII lower-casing.
#[verifier::external_body]
fn same_ignoring_ascii_case(a: &str, b: &str) -> (r: bool)
    ensures
        r == (ascii_lower(a@) == ascii_lower(b@)),
{
    a.eq_ignore_ascii_case(b)
}

/// The shard folder of a symbol: `_` when its first character is `^`, `~` or
/// `@`, else that character in ASCII lower case; a single space for an empty
/// name.
pub open spec fn shard_folder(symbol: Seq<char>) -> Seq<char> {
    if symbol.len() == 0 {
        seq![' ']
    } else if symbol[0] == '^' || symbol[0] == '~' || symbol[0] == '@' {
        seq!['_']
    } else {
        seq![ascii_lower_char(symbol[0])]
    }
}

/// `part` appended to `base` as a path: a part that starts with `/` replaces
/// the base; a separator is added unless the base is empty or ends in one.
pub open spec fn join_path(base: Seq<char>, part: Seq<char>) -> Seq<char> {
    if part.len() > 0 && part[0] == '/' {
        part
    } else if base.len() == 0 || base.last() == '/' {
        base + part
    } else {
        base + seq!['/'] + part
    }
}

/// Whether a symbol names the master index itself (ASCII case ignored).
pub open spec fn is_master_name(symbol: Seq<char>) -> bool {
    ascii_lower(symbol) == ascii_lower(MASTER_FILE_NAME@)
}

/// The path of a symbol's data file under `root`: the master name stays at
/// the top level, any other symbol goes into its shard folder. The file name
/// keeps the symbol's own case.
pub open spec fn symbol_file_path(root: Seq<char>, symbol: Seq<char>) -> Seq<char> {
    if is_master_name(symbol) {
        join_path(root, symbol)
    } else {
        join_path(join_path(root, shard_folder(symbol)), symbol)
    }
}

/// Joins `part` to `base` as a path.
pub fn join(base: &str, part: &str) -> (r: String)
    ensures
        r@ == join_path(base@, part@),
{
    proof {
        reveal_strlit("/");
    }
    if !part.is_empty() && part.get_char(0) == '/' {
        return String::from_str(part);
    }
    let mut out = String::from_str(base);
    if base.is_empty() {
        out.append(part);
        return out;
    }
    let last = base.get_char(base.unicode_len() - 1);
    if last != '/' {
        out.append("/");
    }
    out.append(part);
    out
}

/// The shard folder of a symbol (see `shard_folder`).
pub fn symbol_root_folder(symbol: &str) -> (r: String)
    ensures
        r@ == shard_folder(symbol@),
{
    proof {
        reveal_strlit(" ");
        reveal_strlit("_");
    }
    if symbol.is_empty() {
        return String::from_str(" ");
    }
    let c = symbol.get_char(0);
    if c == '^' || c == '~' || c == '@' {
        String::from_str("_")
    } else {
        let r = to_ascii_lower(symbol.substring_char(0, 1));
        assert(r@ =~= shard_folder(symbol@));
        r
    }
}

/// The path of the master index file under `root`.
pub fn master_path(root: &str) -> (r: String)
    ensures
        r@ == join_path(root@, MASTER_FILE_NAME@),
{
    join(root, MASTER_FILE_NAME)
}

/// The path of a symbol's data file under `root` (see `symbol_file_path`).
pub fn symbol_path(root: &str, symbol: &str) -> (r: String)
    ensures
        r@ == symbol_file_path(root@, symbol@),
{
    if same_ignoring_ascii_case(symbol, MASTER_FILE_NAME) {
        join(root, symbol)
    } else {
        let folder = symbol_root_folder(symbol);
        let dir = join(root, folder.as_str());
        join(dir.as_str(), symbol)
    }
}

} // verus!
