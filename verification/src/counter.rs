//! The text of a usage-counter record: an unsigned decimal number in ASCII,
//! which white space may surround.

use vstd::prelude::*;
use crate::error::StoreError;

verus! {

/// Whether `b` is an ASCII decimal digit.
pub open spec fn is_digit(b: u8) -> bool {
    48 <= b <= 57
}

/// Whether every byte of `s` is an ASCII decimal digit.
pub open spec fn all_digits(s: Seq<u8>) -> bool {
    forall|i: int| 0 <= i < s.len() ==> is_digit(#[trigger] s[i])
}

/// The number that a string of decimal digits denotes, most significant
/// digit first.
pub open spec fn digits_value(s: Seq<u8>) -> nat
    decreases s.len(),
{
    if s.len() == 0 {
        0
    } else {
        digits_value(s.drop_last()) * 10 + (s.last() - 48) as nat
    }
}

/// The decimal text of `n`, without leading zeros.
pub open spec fn decimal(n: nat) -> Seq<u8>
    decreases n,
{
    if n < 10 {
        seq![(48 + n) as u8]
    } else {
        decimal(n / 10).push((48 + n % 10) as u8)
    }
}

/// Whether `b` is ASCII white space: a blank, a tab, or one of the line and
/// page breaks.
pub open spec fn is_space(b: u8) -> bool {
    b == 32 || 9 <= b <= 13
}

/// `s` without the white space it starts with.
pub open spec fn trim_start(s: Seq<u8>) -> Seq<u8>
    decreases s.len(),
{
    if s.len() > 0 && is_space(s[0]) {
        trim_start(s.drop_first())
    } else {
        s
    }
}

/// `s` without the white space it ends with.
pub open spec fn trim_end(s: Seq<u8>) -> Seq<u8>
    decreases s.len(),
{
    if s.len() > 0 && is_space(s.last()) {
        trim_end(s.drop_last())
    } else {
        s
    }
}

/// `s` without the white space around it.
pub open spec fn trim(s: Seq<u8>) -> Seq<u8> {
    trim_end(trim_start(s))
}

/// The counter that a record holds: `Some` exactly where, white space
/// around it apart, the record is a non-empty string of decimal digits whose
/// value fits in 32 bits. Anything else is a damaged record.
pub open spec fn parse_counter(s: Seq<u8>) -> Option<u32> {
    let t = trim(s);
    if t.len() > 0 && all_digits(t) && digits_value(t) <= u32::MAX {
        Some(digits_value(t) as u32)
    } else {
        None
    }
}

/// The value of a digit string is at least the value of each of its prefixes.
proof fn lemma_prefix_value(s: Seq<u8>, i: int)
    requires
        0 <= i <= s.len(),
        all_digits(s),
    ensures
        digits_value(s.take(i)) <= digits_value(s),
    decreases s.len(),
{
    if i == s.len() {
        assert(s.take(i) =~= s);
    } else {
        assert(s.drop_last().take(i) =~= s.take(i));
        assert(is_digit(s.last()));
        assert(all_digits(s.drop_last())) by {
            assert forall|j: int| 0 <= j < s.drop_last().len() implies is_digit(
                #[trigger] s.drop_last()[j],
            ) by {
                assert(s.drop_last()[j] == s[j]);
            }
        }
        lemma_prefix_value(s.drop_last(), i);
    }
}

/// Writing a number and reading it back gives the number: the text of `n` is
/// a non-empty string of digits whose value is `n`.
pub proof fn lemma_decimal_round_trip(n: nat)
    ensures
        decimal(n).len() > 0,
        all_digits(decimal(n)),
        digits_value(decimal(n)) == n,
    decreases n,
{
    if n < 10 {
        let s = decimal(n);
        assert(s.drop_last() =~= Seq::<u8>::empty());
        assert(digits_value(s.drop_last()) == 0);
        assert(s.last() == (48 + n) as u8);
    } else {
        lemma_decimal_round_trip(n / 10);
        let p = decimal(n / 10);
        let d = (48 + n % 10) as u8;
        let s = p.push(d);
        assert(s.drop_last() =~= p);
        assert(s.last() == d);
        assert forall|i: int| 0 <= i < s.len() implies is_digit(#[trigger] s[i]) by {
            if i < p.len() {
                assert(s[i] == p[i]);
            }
        }
    }
}

/// A record written for a 32-bit counter reads back as that counter.
pub proof fn lemma_counter_round_trip(n: u32)
    ensures
        parse_counter(decimal(n as nat)) == Some(n),
{
    lemma_decimal_round_trip(n as nat);
    let s = decimal(n as nat);
    assert(is_digit(s[0]));
    assert(is_digit(s.last()));
    assert(trim(s) == s);
}

/// Whether `b` is ASCII white space.
fn is_space_byte(b: u8) -> (r: bool)
    ensures
        r == is_space(b),
{
    b == 32 || (9 <= b && b <= 13)
}

/// Where in `record` its text without the white space around it lies.
fn trimmed_bounds(record: &[u8]) -> (r: (usize, usize))
    ensures
        r.0 <= r.1 <= record@.len(),
        record@.subrange(r.0 as int, r.1 as int) == trim(record@),
{
    let n = record.len();
    let mut lo: usize = 0;
    proof {
        assert(record@.subrange(0, n as int) =~= record@);
    }
    while lo < n && is_space_byte(record[lo])
        invariant
            0 <= lo <= n,
            n == record@.len(),
            trim_start(record@) == trim_start(record@.subrange(lo as int, n as int)),
        decreases n - lo,
    {
        proof {
            let t = record@.subrange(lo as int, n as int);
            assert(t[0] == record@[lo as int]);
            assert(t.drop_first() =~= record@.subrange(lo + 1, n as int));
        }
        lo += 1;
    }
    proof {
        let t = record@.subrange(lo as int, n as int);
        if lo < n {
            assert(t[0] == record@[lo as int]);
        }
        assert(trim_start(record@) == t);
    }
    let mut hi: usize = n;
    while hi > lo && is_space_byte(record[hi - 1])
        invariant
            lo <= hi <= n,
            n == record@.len(),
            trim(record@) == trim_end(record@.subrange(lo as int, hi as int)),
        decreases hi - lo,
    {
        proof {
            let t = record@.subrange(lo as int, hi as int);
            assert(t.last() == record@[hi - 1]);
            assert(t.drop_last() =~= record@.subrange(lo as int, hi - 1));
        }
        hi -= 1;
    }
    proof {
        let t = record@.subrange(lo as int, hi as int);
        if hi > lo {
            assert(t.last() == record@[hi - 1]);
        }
        assert(trim(record@) == t);
    }
    (lo, hi)
}

/// Reads a counter record. `None` means that the record is damaged: white
/// space apart it is empty, holds a byte that is no digit, or denotes a
/// number beyond 32 bits.
pub fn read_counter(record: &[u8]) -> (r: Option<u32>)
    ensures
        r == parse_counter(record@),
{
    let (lo, hi) = trimmed_bounds(record);
    let ghost t = record@.subrange(lo as int, hi as int);
    if lo == hi {
        return None;
    }
    let mut acc: u64 = 0;
    let mut i: usize = lo;
    while i < hi
        invariant
            lo <= i <= hi <= record@.len(),
            t == record@.subrange(lo as int, hi as int),
            t == trim(record@),
            acc == digits_value(t.take(i - lo)),
            acc <= u32::MAX,
            forall|j: int| 0 <= j < i - lo ==> is_digit(#[trigger] t[j]),
        decreases hi - i,
    {
        let b = record[i];
        assert(t[i - lo] == b);
        if b < 48 || b > 57 {
            assert(!is_digit(t[i - lo]));
            return None;
        }
        let next: u64 = acc * 10 + (b - 48) as u64;
        proof {
            let p = t.take(i - lo + 1);
            assert(p.drop_last() =~= t.take(i - lo));
            assert(p.last() == b);
            assert(next == digits_value(p));
        }
        if next > 0xffff_ffff {
            proof {
                if all_digits(t) {
                    lemma_prefix_value(t, i - lo + 1);
                }
            }
            return None;
        }
        acc = next;
        i += 1;
    }
    proof {
        assert(t.take(hi - lo) =~= t);
    }
    Some(acc as u32)
}

/// Appends the decimal text of `n` to `out`.
fn push_decimal(n: u32, out: &mut Vec<u8>)
    ensures
        final(out)@ == old(out)@ + decimal(n as nat),
    decreases n,
{
    if n >= 10 {
        push_decimal(n / 10, out);
    }
    let d: u8 = (n % 10) as u8 + 48;
    out.push(d);
    proof {
        if n >= 10 {
            assert(final(out)@ =~= old(out)@ + decimal((n / 10) as nat).push(d));
        } else {
            assert(final(out)@ =~= old(out)@ + seq![d]);
        }
    }
}

/// Writes the record for counter `n`.
pub fn write_counter(n: u32) -> (r: Vec<u8>)
    ensures
        r@ == decimal(n as nat),
        parse_counter(r@) == Some(n),
{
    let mut out: Vec<u8> = Vec::new();
    push_decimal(n, &mut out);
    proof {
        assert(out@ =~= decimal(n as nat));
        lemma_counter_round_trip(n);
    }
    out
}

/// What a read-and-increment makes of a counter record: the counter to hand
/// out and the text of the record to persist. An absent record counts as
/// zero; a damaged one is an error, and so is a counter that cannot grow.
pub open spec fn advance_spec(record: Option<Seq<u8>>) -> Result<(u32, Seq<u8>), StoreError> {
    match record {
        None => Ok((0u32, decimal(1))),
        Some(text) => match parse_counter(text) {
            None => Err(StoreError::CorruptCounter),
            Some(n) => if n == u32::MAX {
                Err(StoreError::CounterExhausted)
            } else {
                Ok((n, decimal(n as nat + 1)))
            },
        },
    }
}

/// The plain value of an optional record.
pub open spec fn record_view(record: Option<&[u8]>) -> Option<Seq<u8>> {
    match record {
        None => None,
        Some(text) => Some(text@),
    }
}

/// Reads the counter of a record as it was found, `None` where there is no
/// record yet, and gives the counter before the increment together with the
/// text of the record that is to replace it.
pub fn advance(record: Option<&[u8]>) -> (r: Result<(u32, Vec<u8>), StoreError>)
    ensures
        match advance_spec(record_view(record)) {
            Ok((n, text)) => r.is_ok() && r.unwrap().0 == n && r.unwrap().1@ == text,
            Err(e) => r == Err::<(u32, Vec<u8>), StoreError>(e),
        },
{
    match record {
        None => Ok((0, write_counter(1))),
        Some(text) => match read_counter(text) {
            None => Err(StoreError::CorruptCounter),
            Some(n) => {
                if n == u32::MAX {
                    Err(StoreError::CounterExhausted)
                } else {
                    Ok((n, write_counter(n + 1)))
                }
            },
        },
    }
}

} // verus!
