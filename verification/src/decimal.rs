//! The decimal text of 32-bit signed integers: reading it and rendering it.
//!
//! A literal is an optional sign, `+` or `-`, and then one decimal digit or
//! more; nothing may stand around it. A rendering is the shortest literal of
//! a value without a `+`.
use crate::Fault;
use vstd::prelude::*;

verus! {

/// The byte `-`.
pub const MINUS: u8 = 0x2D;

/// The byte `+`.
pub const PLUS: u8 = 0x2B;

/// The byte `0`, from which the digits count up.
pub const ZERO: u8 = 0x30;

/// Whether a byte is one of the digits `0` to `9`.
pub open spec fn is_digit(b: u8) -> bool {
    ZERO <= b <= ZERO + 9
}

/// Whether a text consists of digits alone.
pub open spec fn all_digits(s: Seq<u8>) -> bool {
    forall|i: int| 0 <= i < s.len() ==> is_digit(#[trigger] s[i])
}

/// The number that a text of digits denotes in base ten.
pub open spec fn digits_value(s: Seq<u8>) -> nat
    decreases s.len(),
{
    if s.len() == 0 {
        0
    } else {
        digits_value(s.drop_last()) * 10 + (s.last() - ZERO) as nat
    }
}

/// Whether a text starts with a sign.
pub open spec fn is_signed(s: Seq<u8>) -> bool {
    s.len() > 0 && (s[0] == PLUS || s[0] == MINUS)
}

/// The integer that a text denotes, where it is a decimal literal.
pub open spec fn decimal_value(s: Seq<u8>) -> Option<int> {
    let body = if is_signed(s) {
        s.skip(1)
    } else {
        s
    };
    if body.len() > 0 && all_digits(body) {
        if is_signed(s) && s[0] == MINUS {
            Some(-(digits_value(body) as int))
        } else {
            Some(digits_value(body) as int)
        }
    } else {
        None
    }
}

/// The 32-bit integer that a text denotes, where it is a decimal literal of
/// a value in range.
pub open spec fn int32_of(s: Seq<u8>) -> Option<i32> {
    match decimal_value(s) {
        Some(v) => if i32::MIN <= v <= i32::MAX {
            Some(v as i32)
        } else {
            None
        },
        None => None,
    }
}

/// The digits of a natural number in base ten, without leading zeros.
pub open spec fn digits(n: nat) -> Seq<u8>
    decreases n,
{
    if n < 10 {
        seq![(ZERO + n) as u8]
    } else {
        digits(n / 10).push((ZERO + n % 10) as u8)
    }
}

/// The decimal text of an integer: its digits, after a `-` where it is
/// negative.
pub open spec fn decimal_text(v: int) -> Seq<u8> {
    if v < 0 {
        seq![MINUS] + digits((-v) as nat)
    } else {
        digits(v as nat)
    }
}

/// The digits of a number are digits, at least one, and denote the number.
pub proof fn lemma_digits(n: nat)
    ensures
        digits(n).len() >= 1,
        all_digits(digits(n)),
        digits_value(digits(n)) == n,
    decreases n,
{
    if n < 10 {
        let s = digits(n);
        assert(s.drop_last() =~= Seq::<u8>::empty());
        assert(digits_value(s.drop_last()) == 0);
    } else {
        lemma_digits(n / 10);
        let s = digits(n);
        assert(s.drop_last() =~= digits(n / 10));
    }
}

/// A number below a power of ten has no more digits than the power has zeros.
pub proof fn lemma_digits_len(n: nat, width: nat, bound: nat)
    requires
        width >= 1,
        n < bound,
        bound == vstd::arithmetic::power::pow(10, width),
    ensures
        digits(n).len() <= width,
    decreases width,
{
    vstd::arithmetic::power::lemma_pow1(10);
    vstd::arithmetic::power::lemma_pow_positive(10, (width - 1) as nat);
    if n >= 10 {
        if width == 1 {
        } else {
            let below = vstd::arithmetic::power::pow(10, (width - 1) as nat);
            assert(bound == 10 * below) by {
                vstd::arithmetic::power::lemma_pow_adds(10, 1, (width - 1) as nat);
            }
            lemma_digits_len(n / 10, (width - 1) as nat, below as nat);
        }
    }
}

/// The text of a 32-bit integer is at most eleven bytes long.
pub proof fn lemma_decimal_text_len(v: i32)
    ensures
        1 <= decimal_text(v as int).len() <= 11,
{
    let magnitude: nat = if v < 0 {
        (-(v as int)) as nat
    } else {
        v as nat
    };
    lemma_digits(magnitude);
    assert(vstd::arithmetic::power::pow(10, 10) == 10_000_000_000int) by {
        reveal_with_fuel(vstd::arithmetic::power::pow, 11);
    }
    lemma_digits_len(magnitude, 10, 10_000_000_000nat);
}

/// Reading the text of an integer gives the integer back.
pub proof fn lemma_decimal_round_trip(v: int)
    ensures
        decimal_value(decimal_text(v)) == Some(v),
{
    if v < 0 {
        let n = (-v) as nat;
        lemma_digits(n);
        assert(decimal_text(v).skip(1) =~= digits(n));
    } else {
        lemma_digits(v as nat);
    }
}

/// Rendering a 32-bit integer and reading the text gives the value back.
pub proof fn lemma_int32_round_trip(v: i32)
    ensures
        int32_of(decimal_text(v as int)) == Some(v),
{
    lemma_decimal_round_trip(v as int);
}

/// A text of digits denotes no less than any of its prefixes does.
pub proof fn lemma_digits_value_grows(s: Seq<u8>, k: int)
    requires
        all_digits(s),
        0 <= k <= s.len(),
    ensures
        digits_value(s.take(k)) <= digits_value(s),
    decreases s.len(),
{
    if k == s.len() {
        assert(s.take(k) =~= s);
    } else {
        assert(is_digit(s.last()));
        assert(s.drop_last().take(k) =~= s.take(k));
        lemma_digits_value_grows(s.drop_last(), k);
    }
}

/// Reads a decimal literal of a 32-bit integer.
///
/// Returns the value where `text` is a literal, as `int32_of` has it: an
/// optional sign and then digits alone, denoting a value in range. Returns
/// `None` for every other text: an empty one, a sign alone, one with any
/// other byte, whitespace included, and one whose value is out of range.
pub fn parse_int32(text: &[u8]) -> (value: Option<i32>)
    ensures
        value == int32_of(text@),
{
    let n = text.len();
    if n == 0 {
        return None;
    }
    let negative = text[0] == MINUS;
    let start: usize = if text[0] == MINUS || text[0] == PLUS {
        1
    } else {
        0
    };
    if start == n {
        return None;
    }
    let ghost body = text@.skip(start as int);
    assert(text@.skip(0) =~= text@);
    let mut magnitude: i64 = 0;
    let mut i: usize = start;
    while i < n
        invariant
            start <= i <= n == text@.len(),
            start < n,
            start == if is_signed(text@) { 1int } else { 0int },
            negative == (text@[0] == MINUS),
            body == if is_signed(text@) { text@.skip(1) } else { text@ },
            body.len() == n - start,
            all_digits(body.take(i - start)),
            magnitude == digits_value(body.take(i - start)),
            magnitude <= 0x8000_0000,
        decreases n - i,
    {
        let b = text[i];
        if b < ZERO || b > ZERO + 9 {
            assert(!is_digit(body[i - start]));
            return None;
        }
        let ghost before = body.take(i - start);
        let ghost after = body.take(i - start + 1);
        assert(after.drop_last() =~= before);
        assert(after.last() == b);
        assert forall|j: int| 0 <= j < after.len() implies is_digit(#[trigger] after[j]) by {
            if j < before.len() {
                assert(is_digit(before[j]));
            }
        }
        magnitude = magnitude * 10 + (b - ZERO) as i64;
        if magnitude > 0x8000_0000 {
            proof {
                if all_digits(body) {
                    lemma_digits_value_grows(body, i - start + 1);
                }
            }
            return None;
        }
        i += 1;
    }
    assert(body.take(n - start) =~= body);
    if negative {
        Some((-magnitude) as i32)
    } else if magnitude <= 0x7FFF_FFFF {
        Some(magnitude as i32)
    } else {
        None
    }
}

/// Renders `value` by `itoa::write` into a byte vector of its own.
///
/// The contract claims what itoa's documentation says of the call: that it
/// writes what the standard formatting of integers gives, which is the
/// digits of the value in base ten, without leading zeros, after a `-` where
/// the value is negative; and that writing to a vector does not fail.
#[verifier::external_body]
fn itoa_write(value: i32) -> (text: Vec<u8>)
    ensures
        text@ == decimal_text(value as int),
{
    let mut text = Vec::new();
    let _ = itoa::write(&mut text, value);
    text
}

/// The decimal text of a value.
pub fn render_int32(value: i32) -> (text: Vec<u8>)
    ensures
        text@ == decimal_text(value as int),
        1 <= text@.len() <= 11,
{
    proof {
        lemma_decimal_text_len(value);
    }
    itoa_write(value)
}

/// The buffer `buffer` with `bytes` written over it from index `at` on.
pub open spec fn overwritten(buffer: Seq<u8>, at: int, bytes: Seq<u8>) -> Seq<u8> {
    buffer.take(at) + bytes + buffer.skip(at + bytes.len())
}

/// Writes `bytes` into `output` from index `at` on, if they fit.
///
/// Returns the index behind the bytes written. Where fewer than
/// `bytes.len()` bytes are left from `at` on, nothing is written and the
/// call fails with `BufferTooSmall`.
pub fn put(output: &mut [u8], at: usize, bytes: &[u8]) -> (end: Result<usize, Fault>)
    ensures
        final(output)@.len() == old(output)@.len(),
        match end {
            Ok(end) => {
                &&& end == at + bytes@.len()
                &&& end <= old(output)@.len()
                &&& final(output)@ == overwritten(old(output)@, at as int, bytes@)
            },
            Err(fault) => {
                &&& fault == Fault::BufferTooSmall
                &&& at + bytes@.len() > old(output)@.len()
                &&& final(output)@ == old(output)@
            },
        },
{
    let n = bytes.len();
    if at > output.len() || n > output.len() - at {
        return Err(Fault::BufferTooSmall);
    }
    let mut i: usize = 0;
    while i < n
        invariant
            i <= n == bytes@.len(),
            at + n <= output@.len() == old(output)@.len() <= usize::MAX,
            output@ == overwritten(old(output)@, at as int, bytes@.take(i as int)),
        decreases n - i,
    {
        output[at + i] = bytes[i];
        i += 1;
    }
    assert(bytes@.take(n as int) =~= bytes@);
    Ok(at + n)
}

} // verus!
