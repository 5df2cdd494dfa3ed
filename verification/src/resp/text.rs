//! Byte-level building blocks of the wire format: line breaks, decimal
//! numbers and the byte order used for map keys.

use vstd::prelude::*;
use vstd::utf8::valid_utf8;

verus! {

pub const CR: u8 = 13;

pub const LF: u8 = 10;

pub const PLUS: u8 = 43;

pub const MINUS: u8 = 45;

/// A byte that may not occur inside a line.
pub open spec fn is_break(b: u8) -> bool {
    b == CR || b == LF
}

/// No byte of `s` is a carriage return or a line feed.
pub open spec fn no_breaks(s: Seq<u8>) -> bool {
    forall|i: int| 0 <= i < s.len() ==> !is_break(#[trigger] s[i])
}

/// The two-byte line terminator.
pub open spec fn crlf() -> Seq<u8> {
    seq![CR, LF]
}

pub open spec fn is_digit(b: u8) -> bool {
    48 <= b <= 57
}

pub open spec fn all_digits(s: Seq<u8>) -> bool {
    forall|i: int| 0 <= i < s.len() ==> is_digit(#[trigger] s[i])
}

/// The ASCII digit for `d`, where `d < 10`.
pub open spec fn digit_byte(d: nat) -> u8 {
    (48 + d) as u8
}

/// The number a digit byte stands for.
pub open spec fn digit_of(b: u8) -> nat {
    if b >= 48 {
        (b - 48) as nat
    } else {
        0
    }
}

/// The shortest decimal rendering of `n`.
pub open spec fn decimal(n: nat) -> Seq<u8>
    decreases n,
{
    if n < 10 {
        seq![digit_byte(n)]
    } else {
        decimal(n / 10).push(digit_byte(n % 10))
    }
}

/// The number that a run of digits denotes, most significant digit first.
pub open spec fn digits_value(s: Seq<u8>) -> nat
    decreases s.len(),
{
    if s.len() == 0 {
        0
    } else {
        digits_value(s.drop_last()) * 10 + digit_of(s.last())
    }
}

/// The number written in `s`, if `s` is a non-empty run of digits.
pub open spec fn decimal_value(s: Seq<u8>) -> Option<nat> {
    if s.len() > 0 && all_digits(s) {
        Some(digits_value(s))
    } else {
        None
    }
}

/// A decimal rendering is a non-empty run of digits that reads back as the
/// number it was made from.
pub proof fn lemma_decimal_round_trip(n: nat)
    ensures
        decimal(n).len() >= 1,
        all_digits(decimal(n)),
        no_breaks(decimal(n)),
        digits_value(decimal(n)) == n,
        decimal_value(decimal(n)) == Some(n),
    decreases n,
{
    if n >= 10 {
        lemma_decimal_round_trip(n / 10);
        let d = decimal(n / 10);
        assert(decimal(n).drop_last() =~= d);
        assert(decimal(n).last() == digit_byte(n % 10));
        assert forall|i: int| 0 <= i < decimal(n).len() implies is_digit(#[trigger] decimal(n)[i]) by {
            if i < d.len() {
                assert(decimal(n)[i] == d[i]);
            }
        }
    } else {
        assert(decimal(n).drop_last() =~= Seq::<u8>::empty());
        assert(digits_value(decimal(n).drop_last()) == 0);
    }
}

/// Reading more digits never makes the number smaller.
pub proof fn lemma_digits_value_prefix(s: Seq<u8>, k: int)
    requires
        0 <= k <= s.len(),
    ensures
        digits_value(s.take(k)) <= digits_value(s),
    decreases s.len() - k,
{
    if k == s.len() {
        assert(s.take(k) =~= s);
    } else {
        lemma_digits_value_prefix(s, k + 1);
        assert(s.take(k + 1).drop_last() =~= s.take(k));
    }
}

/// Appends the decimal rendering of `n` to `out`.
pub fn push_decimal(out: &mut Vec<u8>, n: u64)
    ensures
        final(out)@ == old(out)@ + decimal(n as nat),
    decreases n,
{
    if n >= 10 {
        push_decimal(out, n / 10);
    }
    let d: u8 = (n % 10) as u8;
    out.push(48u8 + d);
    assert(out@ =~= old(out)@ + decimal(n as nat));
}

/// Reads the decimal number written in `buf[start..end]`, if it is a
/// non-empty run of digits whose value fits 64 bits.
pub fn read_decimal(buf: &[u8], start: usize, end: usize) -> (r: Option<u64>)
    requires
        start <= end <= buf.len(),
    ensures
        r == match decimal_value(buf@.subrange(start as int, end as int)) {
            Some(v) => if v <= u64::MAX {
                Some(v as u64)
            } else {
                None
            },
            None => None,
        },
{
    let ghost s = buf@.subrange(start as int, end as int);
    if start == end {
        return None;
    }
    let mut acc: u64 = 0;
    let mut i: usize = start;
    while i < end
        invariant
            start <= i <= end <= buf.len(),
            s == buf@.subrange(start as int, end as int),
            all_digits(s.take(i - start)),
            acc == digits_value(s.take(i - start)),
        decreases end - i,
    {
        let b: u8 = buf[i];
        if b < 48 || b > 57 {
            assert(!is_digit(s[i - start]));
            return None;
        }
        let d: u64 = (b - 48) as u64;
        proof {
            assert(s.take(i - start + 1).drop_last() =~= s.take(i - start));
            assert(s.take(i - start + 1).last() == b);
            lemma_digits_value_prefix(s, i - start + 1);
        }
        if acc > (u64::MAX - d) / 10 {
            return None;
        }
        acc = acc * 10 + d;
        i += 1;
    }
    assert(s.take(end - start) =~= s);
    Some(acc)
}

/// Whether `bytes` are well-formed UTF-8, as `std::str::from_utf8` judges
/// it: the call succeeds on exactly the well-formed byte strings.
#[verifier::external_body]
pub(crate) fn is_utf8(bytes: &[u8]) -> (ok: bool)
    ensures
        ok == valid_utf8(bytes@),
{
    std::str::from_utf8(bytes).is_ok()
}

/// Whether `t` holds neither a carriage return nor a line feed.
pub fn has_no_breaks(t: &[u8]) -> (r: bool)
    ensures
        r == no_breaks(t@),
{
    let mut i: usize = 0;
    while i < t.len()
        invariant
            i <= t.len(),
            forall|j: int| 0 <= j < i ==> !is_break(#[trigger] t[j]),
        decreases t.len() - i,
    {
        if t[i] == CR || t[i] == LF {
            return false;
        }
        i += 1;
    }
    true
}

/// Whether two byte strings hold the same bytes.
pub fn bytes_eq(a: &[u8], b: &[u8]) -> (r: bool)
    ensures
        r == (a@ == b@),
{
    if a.len() != b.len() {
        return false;
    }
    let mut i: usize = 0;
    while i < a.len()
        invariant
            i <= a.len(),
            a.len() == b.len(),
            forall|j: int| 0 <= j < i ==> a[j] == b[j],
        decreases a.len() - i,
    {
        if a[i] != b[i] {
            return false;
        }
        i += 1;
    }
    assert(a@ =~= b@);
    true
}

} // verus!
