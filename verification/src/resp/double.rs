//! The decimal text of a floating-point value.
//!
//! A double travels as text and is kept as text: an optional sign, then
//! digits with an optional fraction and an optional exponent, or `inf`;
//! or the unsigned word `nan`.
//!
//! The text of a number is made from its sign, its significant digits and
//! the power of ten of the first digit. Numbers from 1e8 on and numbers
//! below 1e-8 are written with an exponent, all others without; the sign
//! is always written.

use vstd::prelude::*;
use vstd::slice::slice_subrange;
use crate::resp::frame::RespDouble;
use crate::resp::text::{
    all_digits, decimal, is_break, is_digit, lemma_decimal_round_trip, no_breaks, push_decimal,
    MINUS, PLUS,
};

verus! {

pub const DOT: u8 = 46;

pub open spec fn is_sign(b: u8) -> bool {
    b == PLUS || b == MINUS
}

/// The mark that introduces an exponent, `e` or `E`.
pub open spec fn is_exponent_mark(b: u8) -> bool {
    b == 101 || b == 69
}

/// The bytes of `inf`.
pub open spec fn inf_text() -> Seq<u8> {
    seq![105u8, 110u8, 102u8]
}

/// The bytes of `nan`.
pub open spec fn nan_text() -> Seq<u8> {
    seq![110u8, 97u8, 110u8]
}

/// The index just behind a sign at `i`, or `i` where there is none.
pub open spec fn after_sign(t: Seq<u8>, i: int) -> int {
    if 0 <= i < t.len() && is_sign(t[i]) {
        i + 1
    } else {
        i
    }
}

/// The index just behind the run of digits that starts at `i`.
pub open spec fn digits_end(t: Seq<u8>, i: int) -> int
    decreases t.len() - i,
{
    if 0 <= i < t.len() && is_digit(t[i]) {
        digits_end(t, i + 1)
    } else {
        i
    }
}

/// The index just behind a fraction (a dot and its digits) at `i`, or `i`
/// where no dot stands.
pub open spec fn fraction_end(t: Seq<u8>, i: int) -> int {
    if 0 <= i < t.len() && t[i] == DOT {
        digits_end(t, i + 1)
    } else {
        i
    }
}

/// Whether the text from `i` on is a number: digits, an optional fraction
/// with at least one digit, an optional exponent with at least one digit,
/// and nothing behind.
pub open spec fn is_number_from(t: Seq<u8>, i: int) -> bool {
    let int_end = digits_end(t, i);
    let frac_end = fraction_end(t, int_end);
    &&& i < int_end
    &&& frac_end != int_end + 1
    &&& if frac_end < t.len() {
        let exp_digits = after_sign(t, frac_end + 1);
        &&& is_exponent_mark(t[frac_end])
        &&& exp_digits < digits_end(t, exp_digits)
        &&& digits_end(t, exp_digits) == t.len()
    } else {
        true
    }
}

/// Whether `t` is the text of a double.
pub open spec fn is_double_text(t: Seq<u8>) -> bool {
    let body = after_sign(t, 0);
    ||| t == nan_text()
    ||| t.skip(body) == inf_text()
    ||| is_number_from(t, body)
}

/// Walks over the digits that start at `i`.
fn scan_digits(t: &[u8], i: usize) -> (j: usize)
    requires
        i <= t.len(),
    ensures
        j == digits_end(t@, i as int),
        i <= j <= t.len(),
{
    let mut j: usize = i;
    while j < t.len() && t[j] >= 48 && t[j] <= 57
        invariant
            i <= j <= t.len(),
            digits_end(t@, i as int) == digits_end(t@, j as int),
        decreases t.len() - j,
    {
        j += 1;
    }
    j
}

fn skip_sign(t: &[u8], i: usize) -> (j: usize)
    requires
        i <= t.len(),
    ensures
        j == after_sign(t@, i as int),
        i <= j <= t.len(),
{
    if i < t.len() && (t[i] == PLUS || t[i] == MINUS) {
        i + 1
    } else {
        i
    }
}

/// Decides whether `t` is the text of a double.
pub fn is_double(t: &[u8]) -> (r: bool)
    ensures
        r == is_double_text(t@),
{
    let n: usize = t.len();
    if n == 3 && t[0] == 110 && t[1] == 97 && t[2] == 110 {
        assert(t@ =~= nan_text());
        return true;
    }
    assert(t@ != nan_text()) by {
        if t@ == nan_text() {
            assert(nan_text().len() == 3);
            assert(nan_text()[0] == 110u8 && nan_text()[1] == 97u8 && nan_text()[2] == 110u8);
        }
    }
    let body: usize = skip_sign(t, 0);
    if n - body == 3 && t[body] == 105 && t[body + 1] == 110 && t[body + 2] == 102 {
        assert(t@.skip(body as int) =~= inf_text());
        return true;
    }
    assert(t@.skip(body as int) != inf_text()) by {
        if t@.skip(body as int) == inf_text() {
            assert(inf_text().len() == 3);
            assert(inf_text()[0] == 105u8 && inf_text()[1] == 110u8 && inf_text()[2] == 102u8);
            assert(t@.skip(body as int)[0] == t@[body as int]);
            assert(t@.skip(body as int)[1] == t@[body + 1]);
            assert(t@.skip(body as int)[2] == t@[body + 2]);
        }
    }
    let int_end: usize = scan_digits(t, body);
    if int_end == body {
        return false;
    }
    let frac_end: usize = if int_end < n && t[int_end] == DOT {
        scan_digits(t, int_end + 1)
    } else {
        int_end
    };
    if frac_end - int_end == 1 {
        return false;
    }
    if frac_end == n {
        return true;
    }
    if t[frac_end] != 101 && t[frac_end] != 69 {
        return false;
    }
    let exp_digits: usize = skip_sign(t, frac_end + 1);
    let end: usize = scan_digits(t, exp_digits);
    exp_digits < end && end == n
}

pub const ZERO: u8 = 48;

/// The small letter `e`, the exponent mark that is written.
pub const EXPONENT_MARK: u8 = 101;

/// The significant digits of a number: at least one digit, and a zero in
/// front only where the number is zero, written as the one digit `0`.
pub open spec fn is_significand(digits: Seq<u8>) -> bool {
    digits.len() >= 1 && all_digits(digits) && (digits[0] != ZERO || digits.len() == 1)
}

/// `n` zeros.
pub open spec fn zeros(n: nat) -> Seq<u8> {
    Seq::new(n, |i: int| ZERO)
}

/// An exponent: a minus sign where it is negative, and its digits.
pub open spec fn exponent_text(exponent: int) -> Seq<u8> {
    if exponent < 0 {
        seq![MINUS] + decimal((-exponent) as nat)
    } else {
        decimal(exponent as nat)
    }
}

/// The number with an exponent: the first digit, the other digits behind
/// a dot where there are any, the mark and the exponent.
pub open spec fn scientific_text(digits: Seq<u8>, exponent: int) -> Seq<u8> {
    let fraction = if digits.len() > 1 {
        seq![DOT] + digits.skip(1)
    } else {
        Seq::empty()
    };
    digits.take(1) + fraction + seq![EXPONENT_MARK] + exponent_text(exponent)
}

/// The number without an exponent: the dot stands behind `exponent + 1`
/// digits, with zeros filled in before or behind the digits where they do
/// not reach it, and is left out where no digit follows it.
pub open spec fn fixed_text(digits: Seq<u8>, exponent: int) -> Seq<u8> {
    if exponent < 0 {
        seq![ZERO, DOT] + zeros((-exponent - 1) as nat) + digits
    } else if digits.len() <= exponent + 1 {
        digits + zeros((exponent + 1 - digits.len()) as nat)
    } else {
        digits.take(exponent + 1) + seq![DOT] + digits.skip(exponent + 1)
    }
}

/// Whether a number is written with an exponent: where it is not zero
/// and is at least 1e8 or below 1e-8.
pub open spec fn takes_exponent(digits: Seq<u8>, exponent: int) -> bool {
    digits[0] != ZERO && (exponent >= 8 || exponent < -8)
}

/// The digits of a number without its sign.
pub open spec fn magnitude_text(digits: Seq<u8>, exponent: int) -> Seq<u8> {
    if digits[0] == ZERO {
        seq![ZERO]
    } else if takes_exponent(digits, exponent) {
        scientific_text(digits, exponent)
    } else {
        fixed_text(digits, exponent)
    }
}

/// The text of the number with the significant digits `digits`, the
/// first of which stands for that many times ten to the power `exponent`.
/// The sign is always written.
pub open spec fn number_text(negative: bool, digits: Seq<u8>, exponent: int) -> Seq<u8> {
    seq![if negative {
        MINUS
    } else {
        PLUS
    }] + magnitude_text(digits, exponent)
}

/// Whether `digits` are the significant digits of a number.
fn check_significand(digits: &[u8]) -> (r: bool)
    ensures
        r == is_significand(digits@),
{
    if digits.len() == 0 {
        return false;
    }
    let mut i: usize = 0;
    while i < digits.len()
        invariant
            i <= digits.len(),
            forall|j: int| 0 <= j < i ==> is_digit(#[trigger] digits[j]),
        decreases digits.len() - i,
    {
        if digits[i] < 48 || digits[i] > 57 {
            return false;
        }
        i += 1;
    }
    digits[0] != ZERO || digits.len() == 1
}

/// Appends `n` zeros.
fn push_zeros(out: &mut Vec<u8>, n: usize)
    ensures
        final(out)@ == old(out)@ + zeros(n as nat),
{
    let mut i: usize = 0;
    while i < n
        invariant
            i <= n,
            out@ == old(out)@ + zeros(i as nat),
        decreases n - i,
    {
        out.push(ZERO);
        i += 1;
        assert(out@ =~= old(out)@ + zeros(i as nat));
    }
}

/// Appends `data`.
fn push_all(out: &mut Vec<u8>, data: &[u8])
    ensures
        final(out)@ == old(out)@ + data@,
{
    out.extend_from_slice(data);
    assert(out@ =~= old(out)@ + data@);
}

/// Appends the number with an exponent.
fn push_scientific(out: &mut Vec<u8>, digits: &[u8], exponent: i32)
    requires
        digits.len() >= 1,
    ensures
        final(out)@ == old(out)@ + scientific_text(digits@, exponent as int),
{
    out.push(digits[0]);
    if digits.len() > 1 {
        out.push(DOT);
        push_all(out, slice_subrange(digits, 1, digits.len()));
    }
    out.push(EXPONENT_MARK);
    if exponent < 0 {
        out.push(MINUS);
        push_decimal(out, (-(exponent as i64)) as u64);
    } else {
        push_decimal(out, exponent as u64);
    }
    assert(out@ =~= old(out)@ + scientific_text(digits@, exponent as int));
}

/// Appends the number without an exponent.
fn push_fixed(out: &mut Vec<u8>, digits: &[u8], exponent: i32)
    requires
        -8 <= exponent < 8,
    ensures
        final(out)@ == old(out)@ + fixed_text(digits@, exponent as int),
{
    if exponent < 0 {
        out.push(ZERO);
        out.push(DOT);
        push_zeros(out, (-exponent - 1) as usize);
        push_all(out, digits);
    } else {
        let whole: usize = exponent as usize + 1;
        if digits.len() <= whole {
            push_all(out, digits);
            push_zeros(out, whole - digits.len());
        } else {
            push_all(out, slice_subrange(digits, 0, whole));
            out.push(DOT);
            push_all(out, slice_subrange(digits, whole, digits.len()));
        }
    }
    assert(out@ =~= old(out)@ + fixed_text(digits@, exponent as int));
}

impl RespDouble {
    /// The double with the given sign and significant digits, the first of
    /// which stands for that many times ten to the power `exponent`.
    /// Hands back nothing where `digits` are not the significant digits of
    /// a number.
    pub fn from_decimal(negative: bool, digits: &[u8], exponent: i32) -> (r: Option<RespDouble>)
        ensures
            match r {
                Some(d) => is_significand(digits@) && d@ == number_text(
                    negative,
                    digits@,
                    exponent as int,
                ) && is_double_text(d@) && no_breaks(d@),
                None => !is_significand(digits@),
            },
    {
        if !check_significand(digits) {
            return None;
        }
        proof {
            lemma_number_text_is_double(negative, digits@, exponent as int);
        }
        let mut out: Vec<u8> = Vec::new();
        out.push(
            if negative {
                MINUS
            } else {
                PLUS
            },
        );
        if digits[0] == ZERO {
            out.push(ZERO);
        } else if exponent >= 8 || exponent < -8 {
            push_scientific(&mut out, digits, exponent);
        } else {
            push_fixed(&mut out, digits, exponent);
        }
        assert(out@ =~= number_text(negative, digits@, exponent as int));
        Some(RespDouble(out))
    }
}

/// Digits from `i` up to `j`, with no digit at `j`, are the run of digits
/// that starts at `i`.
proof fn lemma_digits_run(t: Seq<u8>, i: int, j: int)
    requires
        0 <= i <= j <= t.len(),
        forall|k: int| i <= k < j ==> is_digit(#[trigger] t[k]),
        j == t.len() || !is_digit(t[j]),
    ensures
        digits_end(t, i) == j,
    decreases j - i,
{
    if i < j {
        lemma_digits_run(t, i + 1, j);
    }
}

/// A byte that the text of a number is made of.
spec fn is_plain(b: u8) -> bool {
    is_digit(b) || is_sign(b) || b == DOT || b == EXPONENT_MARK
}

spec fn all_plain(t: Seq<u8>) -> bool {
    forall|i: int| 0 <= i < t.len() ==> is_plain(#[trigger] t[i])
}

proof fn lemma_plain_concat(a: Seq<u8>, b: Seq<u8>)
    requires
        all_plain(a),
        all_plain(b),
    ensures
        all_plain(a + b),
{
    assert forall|i: int| 0 <= i < (a + b).len() implies is_plain(#[trigger] (a + b)[i]) by {
        if i < a.len() {
            assert((a + b)[i] == a[i]);
        } else {
            assert((a + b)[i] == b[i - a.len()]);
        }
    }
}

proof fn lemma_digits_plain(d: Seq<u8>)
    requires
        all_digits(d),
    ensures
        all_plain(d),
{
    assert forall|i: int| 0 <= i < d.len() implies is_plain(#[trigger] d[i]) by {
        assert(is_digit(d[i]));
    }
}

/// The text of an exponent is an optional sign and at least one digit.
proof fn lemma_exponent_text(exponent: int)
    ensures
        all_plain(exponent_text(exponent)),
        exponent_text(exponent).len() >= 1,
        after_sign(exponent_text(exponent), 0) < exponent_text(exponent).len(),
        forall|k: int|
            after_sign(exponent_text(exponent), 0) <= k < exponent_text(exponent).len()
                ==> is_digit(#[trigger] exponent_text(exponent)[k]),
{
    let x = exponent_text(exponent);
    if exponent < 0 {
        let m = decimal((-exponent) as nat);
        lemma_decimal_round_trip((-exponent) as nat);
        lemma_digits_plain(m);
        lemma_plain_concat(seq![MINUS], m);
        assert forall|k: int| 1 <= k < x.len() implies is_digit(#[trigger] x[k]) by {
            assert(x[k] == m[k - 1]);
        }
    } else {
        lemma_decimal_round_trip(exponent as nat);
        lemma_digits_plain(x);
        assert(is_digit(x[0]));
    }
}

proof fn lemma_scientific_is_number(sign: u8, digits: Seq<u8>, exponent: int)
    requires
        is_sign(sign),
        is_significand(digits),
    ensures
        is_number_from(seq![sign] + scientific_text(digits, exponent), 1),
        all_plain(seq![sign] + scientific_text(digits, exponent)),
{
    let x = exponent_text(exponent);
    let n = digits.len() as int;
    let t = seq![sign] + scientific_text(digits, exponent);
    let mark: int = if n > 1 {
        2 + n
    } else {
        2
    };
    lemma_exponent_text(exponent);
    assert(t.len() == mark + 1 + x.len());
    assert(t[1] == digits[0]);
    assert(t[mark] == EXPONENT_MARK);
    assert forall|k: int| mark < k < t.len() implies t[k] == x[k - mark - 1] by {}
    if n > 1 {
        assert(t[2] == DOT);
        assert forall|k: int| 3 <= k < mark implies is_digit(#[trigger] t[k]) by {
            assert(t[k] == digits[k - 2]);
        }
        lemma_digits_run(t, 3, mark);
    }
    lemma_digits_run(t, 1, 2);
    let start = after_sign(t, mark + 1);
    assert(t[mark + 1] == x[0]);
    assert(start == mark + 1 + after_sign(x, 0));
    assert forall|k: int| start <= k < t.len() implies is_digit(#[trigger] t[k]) by {
        assert(t[k] == x[k - mark - 1]);
    }
    lemma_digits_run(t, start, t.len() as int);
    assert forall|k: int| 0 <= k < t.len() implies is_plain(#[trigger] t[k]) by {
        if k == 0 {
        } else if k == 1 {
        } else if k < mark {
            if k == 2 {
            } else {
                assert(t[k] == digits[k - 2]);
            }
        } else if k == mark {
        } else {
            assert(t[k] == x[k - mark - 1]);
        }
    }
}

proof fn lemma_fixed_is_number(sign: u8, digits: Seq<u8>, exponent: int)
    requires
        is_sign(sign),
        is_significand(digits),
    ensures
        is_number_from(seq![sign] + fixed_text(digits, exponent), 1),
        all_plain(seq![sign] + fixed_text(digits, exponent)),
{
    let n = digits.len() as int;
    let t = seq![sign] + fixed_text(digits, exponent);
    if exponent < 0 {
        let z = -exponent - 1;
        assert(t.len() == 3 + z + n);
        assert(t[1] == ZERO);
        assert(t[2] == DOT);
        assert forall|k: int| 3 <= k < t.len() implies is_digit(#[trigger] t[k]) by {
            if k < 3 + z {
                assert(t[k] == zeros(z as nat)[k - 3]);
            } else {
                assert(t[k] == digits[k - 3 - z]);
            }
        }
        lemma_digits_run(t, 1, 2);
        lemma_digits_run(t, 3, t.len() as int);
    } else if n <= exponent + 1 {
        assert forall|k: int| 1 <= k < t.len() implies is_digit(#[trigger] t[k]) by {
            if k < 1 + n {
                assert(t[k] == digits[k - 1]);
            } else {
                assert(t[k] == zeros((exponent + 1 - n) as nat)[k - 1 - n]);
            }
        }
        lemma_digits_run(t, 1, t.len() as int);
    } else {
        let w = exponent + 1;
        assert(t.len() == n + 2);
        assert(t[1 + w] == DOT);
        assert forall|k: int| 1 <= k < 1 + w implies is_digit(#[trigger] t[k]) by {
            assert(t[k] == digits[k - 1]);
        }
        assert forall|k: int| 2 + w <= k < t.len() implies is_digit(#[trigger] t[k]) by {
            assert(t[k] == digits[k - 2]);
        }
        lemma_digits_run(t, 1, 1 + w);
        lemma_digits_run(t, 2 + w, t.len() as int);
    }
    assert forall|k: int| 0 <= k < t.len() implies is_plain(#[trigger] t[k]) by {
        if k > 0 && !is_digit(t[k]) {
            if exponent < 0 {
                assert(k == 1 || k == 2);
            } else if n <= exponent + 1 {
            } else {
                assert(k == 2 + exponent);
            }
        }
    }
}

/// The text of a number is the text of a double, and has no line break.
pub proof fn lemma_number_text_is_double(negative: bool, digits: Seq<u8>, exponent: int)
    requires
        is_significand(digits),
    ensures
        is_double_text(number_text(negative, digits, exponent)),
        no_breaks(number_text(negative, digits, exponent)),
{
    let sign = if negative {
        MINUS
    } else {
        PLUS
    };
    let t = number_text(negative, digits, exponent);
    assert(t[0] == sign);
    assert(after_sign(t, 0) == 1);
    if digits[0] == ZERO {
        assert(t.len() == 2 && t[1] == ZERO);
        lemma_digits_run(t, 1, 2);
    } else if takes_exponent(digits, exponent) {
        lemma_scientific_is_number(sign, digits, exponent);
    } else {
        lemma_fixed_is_number(sign, digits, exponent);
    }
    assert forall|k: int| 0 <= k < t.len() implies !is_break(#[trigger] t[k]) by {
        assert(is_plain(t[k]));
    }
}

} // verus!
