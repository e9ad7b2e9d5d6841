//! Reading plain values out of command text.
use vstd::prelude::*;

use crate::model::VerificationResult;
use crate::text::{chars_of, lemma_text_order, text_less};

verus! {

pub open spec fn is_digit(c: char) -> bool {
    48 <= (c as int) <= 57
}

/// The value of a sequence of decimal digits.
pub open spec fn digits_value(s: Seq<char>) -> nat
    decreases s.len(),
{
    if s.len() == 0 {
        0
    } else {
        digits_value(s.drop_last()) * 10 + ((s.last() as int) - 48) as nat
    }
}

/// The digits of an unsigned numeral: all of `s`, or all but a leading `+`.
pub open spec fn numeral_digits(s: Seq<char>) -> Seq<char> {
    if s.len() > 0 && s[0] == '+' {
        s.drop_first()
    } else {
        s
    }
}

/// The unsigned 64-bit value that `s` denotes, as `u64::from_str` reads it:
/// an optional `+`, then one or more decimal digits, of a value that fits.
pub open spec fn unsigned_value(s: Seq<char>) -> Option<u64> {
    let d = numeral_digits(s);
    if d.len() > 0 && (forall|i: int| 0 <= i < d.len() ==> is_digit(#[trigger] d[i]))
        && digits_value(d) <= u64::MAX {
        Some(digits_value(d) as u64)
    } else {
        None
    }
}

proof fn lemma_digits_value_grows(s: Seq<char>, n: int)
    requires
        0 <= n <= s.len(),
        forall|i: int| 0 <= i < s.len() ==> is_digit(#[trigger] s[i]),
    ensures
        digits_value(s.take(n)) <= digits_value(s),
    decreases s.len() - n,
{
    if n < s.len() {
        lemma_digits_value_grows(s, n + 1);
        let t = s.take(n + 1);
        assert(t.drop_last() =~= s.take(n));
        let v = digits_value(s.take(n));
        assert(v * 10 >= v) by (nonlinear_arith)
            requires
                v >= 0,
        ;
    } else {
        assert(s.take(n) =~= s);
    }
}

/// Reads an unsigned 64-bit numeral.
pub fn parse_unsigned(text: &str) -> (r: Option<u64>)
    ensures
        r == unsigned_value(text@),
{
    let chars = chars_of(text);
    let mut start: usize = 0;
    if chars.len() > 0 && chars[0] == '+' {
        start = 1;
    }
    let ghost d = numeral_digits(text@);
    assert(d =~= chars@.skip(start as int));
    if start == chars.len() {
        return None;
    }
    let mut value: u64 = 0;
    let mut i: usize = start;
    while i < chars.len()
        invariant
            chars@ == text@,
            d == chars@.skip(start as int),
            d == numeral_digits(text@),
            start <= i <= chars@.len(),
            forall|k: int| 0 <= k < i - start ==> is_digit(#[trigger] d[k]),
            value == digits_value(d.take(i - start)),
        decreases chars.len() - i,
    {
        let c = chars[i];
        assert(c == d[i - start]);
        if !('0' <= c && c <= '9') {
            assert(!is_digit(d[i - start]));
            return None;
        }
        let digit: u64 = (c as u32 - 48) as u64;
        assert(d.take(i - start + 1).drop_last() =~= d.take(i - start));
        if value > (u64::MAX - digit) / 10 {
            proof {
                assert(value * 10 + digit > u64::MAX) by (nonlinear_arith)
                    requires
                        value > (u64::MAX - digit) / 10,
                        digit <= 9,
                ;
                if forall|k: int| 0 <= k < d.len() ==> is_digit(#[trigger] d[k]) {
                    lemma_digits_value_grows(d, i - start + 1);
                }
            }
            return None;
        }
        proof {
            assert(value * 10 + digit <= u64::MAX) by (nonlinear_arith)
                requires
                    value <= (u64::MAX - digit) / 10,
                    digit <= 9,
            ;
        }
        value = value * 10 + digit;
        i = i + 1;
    }
    assert(d.take(i - start) =~= d);
    Some(value)
}

/// Whether two texts are the same.
pub fn text_equal(a: &str, b: &str) -> (r: bool)
    ensures
        r == (a@ == b@),
{
    proof {
        lemma_text_order();
    }
    !text_less(a, b) && !text_less(b, a)
}

/// The verification result named by `text`: `pass`, `fail`, `inconclusive`
/// or `waived`.
pub open spec fn result_named(text: Seq<char>) -> Option<VerificationResult> {
    if text == "pass"@ {
        Some(VerificationResult::Pass)
    } else if text == "fail"@ {
        Some(VerificationResult::Fail)
    } else if text == "inconclusive"@ {
        Some(VerificationResult::Inconclusive)
    } else if text == "waived"@ {
        Some(VerificationResult::Waived)
    } else {
        None
    }
}

/// Reads the name of a verification result.
pub fn parse_verification_result(text: &str) -> (r: Option<VerificationResult>)
    ensures
        r == result_named(text@),
{
    if text_equal(text, "pass") {
        Some(VerificationResult::Pass)
    } else if text_equal(text, "fail") {
        Some(VerificationResult::Fail)
    } else if text_equal(text, "inconclusive") {
        Some(VerificationResult::Inconclusive)
    } else if text_equal(text, "waived") {
        Some(VerificationResult::Waived)
    } else {
        None
    }
}

} // verus!
