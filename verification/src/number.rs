//! Decimal integers as std's `i64::from_str` reads them: an optional `+` or
//! `-` sign followed by one or more ASCII digits, within the range of `i64`.
use vstd::prelude::*;

verus! {

/// Whether `c` is an ASCII decimal digit.
pub open spec fn is_digit(c: char) -> bool {
    '0' <= c && c <= '9'
}

/// The value of a decimal digit.
pub open spec fn digit_value(c: char) -> int {
    c as int - '0' as int
}

/// Whether every character of `s` is a decimal digit.
pub open spec fn all_digits(s: Seq<char>) -> bool {
    forall|i: int| 0 <= i < s.len() ==> #[trigger] is_digit(s[i])
}

/// The value of a string of decimal digits, most significant first.
pub open spec fn decimal_value(s: Seq<char>) -> int
    decreases s.len(),
{
    if s.len() == 0 {
        0
    } else {
        decimal_value(s.drop_last()) * 10 + digit_value(s.last())
    }
}

/// The integer that `text` denotes as an `i64`, or `None` where `text` is not
/// an optional sign followed by at least one digit, or its value does not fit.
pub open spec fn parsed_i64(text: Seq<char>) -> Option<i64> {
    let negative = text.len() > 0 && text[0] == '-';
    let digits = if text.len() > 0 && (text[0] == '-' || text[0] == '+') {
        text.drop_first()
    } else {
        text
    };
    let value = if negative {
        -decimal_value(digits)
    } else {
        decimal_value(digits)
    };
    if digits.len() == 0 || !all_digits(digits) {
        None
    } else if i64::MIN <= value <= i64::MAX {
        Some(value as i64)
    } else {
        None
    }
}

/// The value of a digit string is never negative, and it never decreases
/// when digits are appended.
pub proof fn lemma_decimal_value_grows(s: Seq<char>, k: int)
    requires
        all_digits(s),
        0 <= k <= s.len(),
    ensures
        0 <= decimal_value(s.take(k)) <= decimal_value(s),
    decreases s.len(),
{
    if s.len() > 0 {
        assert(all_digits(s.drop_last())) by {
            assert forall|i: int| 0 <= i < s.drop_last().len() implies #[trigger] is_digit(s.drop_last()[i]) by {
                assert(is_digit(s[i]));
            }
        }
        assert(is_digit(s[s.len() - 1]));
        if k == s.len() {
            assert(s.take(k) =~= s);
            lemma_decimal_value_grows(s.drop_last(), 0);
        } else {
            lemma_decimal_value_grows(s.drop_last(), k);
            assert(s.drop_last().take(k) =~= s.take(k));
        }
    } else {
        assert(s.take(k) =~= s);
    }
}

/// A `+` before digits changes nothing, and a `-` negates: if `digits` reads
/// as `v`, then `+digits` reads as `v` and `-digits` as `-v`.
pub proof fn lemma_sign_prefix(digits: Seq<char>)
    requires
        digits.len() > 0,
        is_digit(digits[0]),
    ensures
        parsed_i64(seq!['+'] + digits) == parsed_i64(digits),
        parsed_i64(digits) matches Some(v) ==> parsed_i64(seq!['-'] + digits) == Some((-v) as i64),
{
    assert((seq!['+'] + digits).drop_first() =~= digits);
    assert((seq!['-'] + digits).drop_first() =~= digits);
    assert(digits[0] != '-' && digits[0] != '+');
    if parsed_i64(digits) is Some {
        lemma_decimal_value_grows(digits, 0);
    }
}

/// Reads `text` as std's `i64::from_str` does.
pub fn parse_i64(text: &str) -> (r: Option<i64>)
    ensures
        r == parsed_i64(text@),
{
    let n = text.unicode_len();
    let mut negative = false;
    let mut start: usize = 0;
    if n > 0 {
        let c = text.get_char(0);
        if c == '-' {
            negative = true;
            start = 1;
        } else if c == '+' {
            start = 1;
        }
    }
    let ghost s = text@;
    let ghost digits = s.subrange(start as int, n as int);
    proof {
        if start == 1 {
            assert(digits =~= s.drop_first());
        } else {
            assert(digits =~= s);
        }
    }
    if start == n {
        return None;
    }
    // the magnitude read so far; it stays within 2^63
    let mut acc: u64 = 0;
    let mut i: usize = start;
    while i < n
        invariant
            n == s.len(),
            s == text@,
            start <= i <= n,
            start < n,
            digits == s.subrange(start as int, n as int),
            start == 0 || start == 1,
            (start == 1) == (s.len() > 0 && (s[0] == '-' || s[0] == '+')),
            negative == (s.len() > 0 && s[0] == '-'),
            start == 1 ==> digits == s.drop_first(),
            start == 0 ==> digits == s,
            all_digits(digits.take(i - start)),
            acc == decimal_value(digits.take(i - start)),
            acc <= 0x8000_0000_0000_0000u64,
        decreases n - i,
    {
        let c = text.get_char(i);
        let ghost k = i - start;
        proof {
            assert(digits[k] == c);
            assert(digits.take(k + 1).drop_last() =~= digits.take(k));
            assert(digits.take(k + 1).last() == c);
        }
        if !('0' <= c && c <= '9') {
            proof {
                assert(!is_digit(digits[k]));
            }
            return None;
        }
        let d = (c as u32 - '0' as u32) as u64;
        if acc > 0x0CCC_CCCC_CCCC_CCCCu64 || acc * 10 + d > 0x8000_0000_0000_0000u64 {
            proof {
                assert(all_digits(digits.take(k + 1))) by {
                    assert forall|j: int| 0 <= j < k + 1 implies #[trigger] is_digit(digits.take(k + 1)[j]) by {
                        if j < k {
                            assert(is_digit(digits.take(k)[j]));
                        }
                    }
                }
                assert(decimal_value(digits.take(k + 1)) == acc * 10 + d);
                assert(decimal_value(digits.take(k + 1)) > 0x8000_0000_0000_0000u64);
                if all_digits(digits) {
                    lemma_decimal_value_grows(digits, k + 1);
                }
            }
            return None;
        }
        proof {
            assert(all_digits(digits.take(k + 1))) by {
                assert forall|j: int| 0 <= j < k + 1 implies #[trigger] is_digit(digits.take(k + 1)[j]) by {
                    if j < k {
                        assert(is_digit(digits.take(k)[j]));
                    }
                }
            }
        }
        acc = acc * 10 + d;
        i = i + 1;
    }
    proof {
        assert(digits.take(n - start) =~= digits);
    }
    if negative {
        if acc == 0x8000_0000_0000_0000u64 {
            Some(i64::MIN)
        } else {
            Some(-(acc as i64))
        }
    } else {
        if acc > 0x7FFF_FFFF_FFFF_FFFFu64 {
            None
        } else {
            Some(acc as i64)
        }
    }
}

} // verus!
