//! Decimal numerals: the text of a number literal and the integer it denotes.

use vstd::prelude::*;
use vstd::string::StrSliceExecFns;

verus! {

/// Whether a character is one of the ten decimal digits.
pub open spec fn is_digit(c: char) -> bool {
    48 <= c as int <= 57
}

/// The number that a decimal digit denotes.
pub open spec fn digit_value(c: char) -> int {
    c as int - 48
}

/// Whether every character of a text is a decimal digit.
pub open spec fn all_digits(s: Seq<char>) -> bool {
    forall|i: int| 0 <= i < s.len() ==> is_digit(#[trigger] s[i])
}

/// The number that a run of decimal digits denotes, most significant first.
pub open spec fn digits_value(s: Seq<char>) -> int
    decreases s.len(),
{
    if s.len() == 0 {
        0
    } else {
        digits_value(s.drop_last()) * 10 + digit_value(s.last())
    }
}

/// The integer that a numeral denotes: one or more decimal digits, with a
/// minus sign before them or none. Any other text denotes nothing.
pub open spec fn numeral_value(s: Seq<char>) -> Option<int> {
    if s.len() > 0 && s[0] == '-' {
        if s.len() > 1 && all_digits(s.drop_first()) {
            Some(-digits_value(s.drop_first()))
        } else {
            None
        }
    } else if s.len() > 0 && all_digits(s) {
        Some(digits_value(s))
    } else {
        None
    }
}

/// The number of a 64-bit integer that a numeral denotes, if it denotes one.
pub open spec fn numeral_i64(s: Seq<char>) -> Option<i64> {
    match numeral_value(s) {
        Some(n) => if i64::MIN <= n <= i64::MAX {
            Some(n as i64)
        } else {
            None
        },
        None => None,
    }
}

/// A longer run of digits denotes no less than its beginning.
pub proof fn lemma_digits_value_grows(s: Seq<char>, k: int)
    requires
        all_digits(s),
        0 <= k <= s.len(),
    ensures
        0 <= digits_value(s.take(k)) <= digits_value(s),
    decreases s.len() - k,
{
    lemma_digits_value_nonnegative(s.take(k));
    if k == s.len() {
        assert(s.take(k) == s);
    } else {
        lemma_digits_value_grows(s, k + 1);
        assert(s.take(k + 1).drop_last() == s.take(k));
        assert(is_digit(s[k]));
    }
}

/// A run of digits denotes no negative number.
pub proof fn lemma_digits_value_nonnegative(s: Seq<char>)
    requires
        all_digits(s),
    ensures
        0 <= digits_value(s),
    decreases s.len(),
{
    if s.len() > 0 {
        lemma_digits_value_nonnegative(s.drop_last());
        assert(is_digit(s.last()));
    }
}

/// The character of a decimal digit.
pub open spec fn digit_char(d: nat) -> char {
    (48 + d) as char
}

/// The decimal numeral of a natural number, without leading zeros.
pub open spec fn decimal(n: nat) -> Seq<char>
    decreases n,
{
    if n < 10 {
        seq![digit_char(n)]
    } else {
        decimal(n / 10).push(digit_char(n % 10))
    }
}

/// The decimal numeral of an integer: a minus sign before a negative one.
pub open spec fn int_numeral(n: int) -> Seq<char> {
    if n < 0 {
        seq!['-'] + decimal((-n) as nat)
    } else {
        decimal(n as nat)
    }
}

/// A numeral of a natural number is made of digits and denotes the number.
pub proof fn lemma_decimal_value(n: nat)
    ensures
        decimal(n).len() > 0,
        all_digits(decimal(n)),
        digits_value(decimal(n)) == n,
    decreases n,
{
    if n < 10 {
        let s = decimal(n);
        assert(s.len() == 1);
        assert(s[0] == digit_char(n));
        assert(s.drop_last() =~= Seq::<char>::empty());
        assert(digits_value(s.drop_last()) == 0);
    } else {
        lemma_decimal_value(n / 10);
        let head = decimal(n / 10);
        let s = decimal(n);
        assert(s.drop_last() =~= head);
        assert(s.last() == digit_char(n % 10));
        assert forall|i: int| 0 <= i < s.len() implies is_digit(#[trigger] s[i]) by {
            if i < head.len() {
                assert(s[i] == head[i]);
            }
        }
    }
}

/// The numeral of an integer denotes that integer.
pub proof fn lemma_int_numeral_value(n: int)
    ensures
        numeral_value(int_numeral(n)) == Some(n),
{
    if n < 0 {
        lemma_decimal_value((-n) as nat);
        let s = int_numeral(n);
        assert(s[0] == '-');
        assert(s.drop_first() =~= decimal((-n) as nat));
    } else {
        lemma_decimal_value(n as nat);
        let s = decimal(n as nat);
        assert(is_digit(s[0]));
        assert(s[0] != '-');
    }
}

/// Reads a numeral as a 64-bit integer.
pub fn parse_numeral(text: &str) -> (r: Option<i64>)
    ensures
        r == numeral_i64(text@),
{
    let n: usize = text.unicode_len();
    if n == 0 {
        return None;
    }
    let negative: bool = text.get_char(0) == '-';
    let start: usize = if negative { 1 } else { 0 };
    if start == n {
        return None;
    }
    let ghost digits: Seq<char> = text@.skip(start as int);
    let limit: i128 = 0x8000_0000_0000_0000;
    let mut acc: i128 = 0;
    let mut i: usize = start;
    while i < n
        invariant
            start <= i <= n,
            n == text@.len(),
            n > 0,
            negative == (text@[0] == '-'),
            start == (if negative { 1usize } else { 0usize }),
            digits == text@.skip(start as int),
            all_digits(digits.take(i - start)),
            acc == digits_value(digits.take(i - start)),
            0 <= acc <= limit,
            limit == 0x8000_0000_0000_0000,
        decreases n - i,
    {
        let c: char = text.get_char(i);
        if !(c >= '0' && c <= '9') {
            proof {
                assert(digits[i - start] == c);
                assert(!is_digit(digits[i - start]));
                if negative {
                    assert(text@.drop_first() =~= digits);
                } else {
                    assert(text@ =~= digits);
                }
            }
            return None;
        }
        let d: i128 = (c as u32 - 48) as i128;
        proof {
            let next = digits.take(i - start + 1);
            assert(next.drop_last() == digits.take(i - start));
            assert(next.last() == c);
            assert forall|j: int| 0 <= j < next.len() implies is_digit(#[trigger] next[j]) by {
                if j < i - start {
                    assert(next[j] == digits.take(i - start)[j]);
                }
            }
        }
        acc = acc * 10 + d;
        if acc > limit {
            proof {
                if all_digits(digits) {
                    lemma_digits_value_grows(digits, i - start + 1);
                }
                if negative {
                    assert(text@.drop_first() =~= digits);
                } else {
                    assert(text@ =~= digits);
                }
            }
            return None;
        }
        i += 1;
    }
    proof {
        assert(digits.take(n - start) == digits);
        if negative {
            assert(text@.drop_first() =~= digits);
        } else {
            assert(text@ =~= digits);
            assert(text@[0] != '-');
        }
    }
    if negative {
        Some((-acc) as i64)
    } else if acc == limit {
        None
    } else {
        Some(acc as i64)
    }
}

} // verus!
