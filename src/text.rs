//! Plain-text helpers over bytes: splitting at a separator byte, splitting
//! into lines, and reading unsigned decimal numbers.

use vstd::prelude::*;
use vstd::slice::{slice_subrange, slice_to_vec};

verus! {

/// The number of bytes of `b` before the first `sep` (all of them when there
/// is none).
pub open spec fn run_len(b: Seq<u8>, sep: u8) -> nat
    decreases b.len(),
{
    if b.len() == 0 || b[0] == sep {
        0
    } else {
        1 + run_len(b.drop_first(), sep)
    }
}

/// The pieces of `s` between occurrences of `sep`, in order; there is always
/// one more piece than there are separators.
pub open spec fn split(s: Seq<u8>, sep: u8) -> Seq<Seq<u8>>
    decreases s.len(),
{
    let k = run_len(s, sep);
    if k >= s.len() {
        seq![s]
    } else {
        seq![s.subrange(0, k as int)] + split(s.subrange(k as int + 1, s.len() as int), sep)
    }
}

/// A line without the carriage return that ends it, if any.
pub open spec fn strip_cr(l: Seq<u8>) -> Seq<u8> {
    if l.len() > 0 && l.last() == 13 {
        l.drop_last()
    } else {
        l
    }
}

/// The lines of a text, as `str::lines` gives them: split at each line feed;
/// a line that ended in a line feed loses one carriage return before it; the
/// text after the last line feed is a line unless it is empty.
pub open spec fn lines(s: Seq<u8>) -> Seq<Seq<u8>> {
    let p = split(s, 10);
    let ended = p.drop_last().map_values(|l: Seq<u8>| strip_cr(l));
    if p.last().len() == 0 {
        ended
    } else {
        ended.push(p.last())
    }
}

/// The views of a vector of byte vectors.
pub open spec fn byte_views(v: Seq<Vec<u8>>) -> Seq<Seq<u8>> {
    v.map_values(|x: Vec<u8>| x@)
}

/// Whether every byte of `s` is an ASCII digit.
pub open spec fn all_digits(s: Seq<u8>) -> bool {
    forall|i: int| 0 <= i < s.len() ==> 48 <= #[trigger] s[i] <= 57
}

/// The number that a run of ASCII digits writes in decimal.
pub open spec fn digits_value(s: Seq<u8>) -> nat
    decreases s.len(),
{
    if s.len() == 0 {
        0
    } else {
        digits_value(s.drop_last()) * 10 + (s.last() - 48) as nat
    }
}

/// The number that `s` writes as an unsigned decimal, the way std reads an
/// unsigned integer: an optional `+`, then one or more ASCII digits.
pub open spec fn decimal(s: Seq<u8>) -> Option<nat> {
    let d = if s.len() > 0 && s[0] == 43 {
        s.drop_first()
    } else {
        s
    };
    if d.len() > 0 && all_digits(d) {
        Some(digits_value(d))
    } else {
        None
    }
}

/// The unsigned decimal that `s` writes, where it is at most `max`.
pub open spec fn decimal_upto(s: Seq<u8>, max: nat) -> Option<nat> {
    match decimal(s) {
        Some(v) => if v <= max {
            Some(v)
        } else {
            None
        },
        None => None,
    }
}

pub proof fn lemma_run_len(b: Seq<u8>, sep: u8, k: nat)
    requires
        k <= b.len(),
        forall|j: int| 0 <= j < k ==> b[j] != sep,
        k == b.len() || b[k as int] == sep,
    ensures
        run_len(b, sep) == k,
    decreases k,
{
    if k > 0 {
        lemma_run_len(b.drop_first(), sep, (k - 1) as nat);
    }
}

proof fn lemma_digits_grow(s: Seq<u8>, i: int)
    requires
        0 <= i <= s.len(),
        all_digits(s),
    ensures
        digits_value(s.subrange(0, i)) <= digits_value(s),
    decreases s.len() - i,
{
    if i < s.len() {
        lemma_digits_grow(s, i + 1);
        assert(s.subrange(0, i + 1).drop_last() =~= s.subrange(0, i));
    } else {
        assert(s.subrange(0, i) =~= s);
    }
}

/// The number of bytes of `s` before the first `sep`.
pub fn run_length(s: &[u8], sep: u8) -> (n: usize)
    ensures
        n == run_len(s@, sep),
        n <= s@.len(),
{
    let mut i: usize = 0;
    while i < s.len() && s[i] != sep
        invariant
            i <= s@.len(),
            forall|j: int| 0 <= j < i ==> s@[j] != sep,
        decreases s@.len() - i,
    {
        i = i + 1;
    }
    proof {
        lemma_run_len(s@, sep, i as nat);
    }
    i
}

/// A copy of `l` without the carriage return that ends it, if any.
fn strip_cr_bytes(l: &[u8]) -> (r: Vec<u8>)
    ensures
        r@ == strip_cr(l@),
{
    if l.len() > 0 && l[l.len() - 1] == 13 {
        slice_to_vec(slice_subrange(l, 0, l.len() - 1))
    } else {
        slice_to_vec(l)
    }
}

/// Splits a text into its lines (see `lines`).
pub fn split_lines(s: &[u8]) -> (r: Vec<Vec<u8>>)
    ensures
        byte_views(r@) == lines(s@),
{
    let parts = split_bytes(s, 10);
    let ghost p = split(s@, 10);
    assert(p.len() >= 1);
    assert(parts@.len() == p.len());
    let n = parts.len();
    let mut out: Vec<Vec<u8>> = Vec::new();
    let mut i: usize = 0;
    while i + 1 < n
        invariant
            n == parts@.len(),
            n >= 1,
            i + 1 <= n,
            byte_views(parts@) == p,
            byte_views(out@) == p.subrange(0, i as int).map_values(|l: Seq<u8>| strip_cr(l)),
        decreases n - i,
    {
        let line = strip_cr_bytes(parts[i].as_slice());
        let ghost before = out@;
        out.push(line);
        proof {
            assert(parts@[i as int]@ == p[i as int]);
            assert(byte_views(out@) =~= byte_views(before).push(line@));
            assert(byte_views(out@) =~= p.subrange(0, i + 1).map_values(
                |l: Seq<u8>| strip_cr(l),
            ));
        }
        i = i + 1;
    }
    assert(p.drop_last() =~= p.subrange(0, n - 1));
    assert(parts@[n - 1]@ == p.last());
    if parts[n - 1].len() > 0 {
        let last = slice_to_vec(parts[n - 1].as_slice());
        let ghost before = out@;
        out.push(last);
        assert(byte_views(out@) =~= byte_views(before).push(p.last()));
    }
    out
}

/// Reads an unsigned decimal of at most `max` (see `decimal`); `None` when
/// `s` writes no such number or one above `max`.
pub fn parse_decimal(s: &[u8], max: u32) -> (r: Option<u32>)
    ensures
        decimal_upto(s@, max as nat) == (match r {
            Some(v) => Some(v as nat),
            None => None::<nat>,
        }),
{
    let start: usize = if s.len() > 0 && s[0] == 43 {
        1
    } else {
        0
    };
    let ghost d = s@.subrange(start as int, s@.len() as int);
    assert(d =~= (if s@.len() > 0 && s@[0] == 43 {
        s@.drop_first()
    } else {
        s@
    }));
    if start >= s.len() {
        return None;
    }
    let mut v: u64 = 0;
    let mut i: usize = start;
    assert(d.subrange(0, 0) =~= Seq::<u8>::empty());
    while i < s.len()
        invariant
            start <= i <= s@.len(),
            d == s@.subrange(start as int, s@.len() as int),
            d == (if s@.len() > 0 && s@[0] == 43 {
                s@.drop_first()
            } else {
                s@
            }),
            d.len() > 0,
            forall|j: int| 0 <= j < i - start ==> 48 <= #[trigger] d[j] <= 57,
            v == digits_value(d.subrange(0, i - start)),
            v <= max,
        decreases s@.len() - i,
    {
        let c = s[i];
        if c < 48 || c > 57 {
            assert(d[i - start] == c);
            assert(!all_digits(d));
            assert(decimal(s@) is None);
            return None;
        }
        let next = v * 10 + (c - 48) as u64;
        assert(d.subrange(0, i + 1 - start).drop_last() =~= d.subrange(0, i - start));
        if next > max as u64 {
            proof {
                if all_digits(d) {
                    lemma_digits_grow(d, i + 1 - start);
                    assert(decimal(s@) == Some(digits_value(d)));
                } else {
                    assert(decimal(s@) is None);
                }
            }
            return None;
        }
        v = next;
        i = i + 1;
    }
    assert(d.subrange(0, d.len() as int) =~= d);
    Some(v as u32)
}
/// Splits `s` at every `sep` byte.
pub fn split_bytes(s: &[u8], sep: u8) -> (r: Vec<Vec<u8>>)
    ensures
        byte_views(r@) == split(s@, sep),
{
    let mut pieces: Vec<Vec<u8>> = Vec::new();
    let mut start: usize = 0;
    let mut i: usize = 0;
    assert(s@.subrange(0, s@.len() as int) =~= s@);
    assert(byte_views(pieces@) =~= Seq::<Seq<u8>>::empty());
    assert(byte_views(pieces@) + split(s@, sep) =~= split(s@, sep));
    while i < s.len()
        invariant
            start <= i <= s@.len(),
            forall|j: int| start <= j < i ==> s@[j] != sep,
            byte_views(pieces@) + split(s@.subrange(start as int, s@.len() as int), sep) == split(
                s@,
                sep,
            ),
        decreases s@.len() - i,
    {
        if s[i] == sep {
            let ghost t = s@.subrange(start as int, s@.len() as int);
            let ghost k = (i - start) as nat;
            proof {
                lemma_run_len(t, sep, k);
                assert(t.subrange(0, k as int) =~= s@.subrange(start as int, i as int));
                assert(t.subrange(k as int + 1, t.len() as int) =~= s@.subrange(i + 1, s@.len() as int));
            }
            let piece = slice_to_vec(slice_subrange(s, start, i));
            let ghost before = pieces@;
            pieces.push(piece);
            proof {
                let rest = split(s@.subrange(i + 1, s@.len() as int), sep);
                assert(byte_views(pieces@) =~= byte_views(before).push(piece@));
                assert(byte_views(pieces@) + rest =~= byte_views(before) + split(t, sep));
            }
            start = i + 1;
        }
        i = i + 1;
    }
    let ghost t = s@.subrange(start as int, s@.len() as int);
    proof {
        lemma_run_len(t, sep, t.len());
    }
    let piece = slice_to_vec(slice_subrange(s, start, s.len()));
    let ghost before = pieces@;
    pieces.push(piece);
    proof {
        assert(byte_views(pieces@) =~= byte_views(before) + split(t, sep));
    }
    pieces
}

} // verus!
