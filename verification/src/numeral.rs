//! Decimal numerals: writing integers as text and reading them back.
use crate::text::to_chars;
use vstd::prelude::*;

verus! {

/// The character of a decimal digit.
pub open spec fn digit_char(d: nat) -> char
    recommends
        d < 10,
{
    (0x30 + d) as char
}

/// The decimal numeral of `n`, without leading zeros.
pub open spec fn decimal(n: nat) -> Seq<char>
    decreases n,
{
    if n < 10 {
        seq![digit_char(n)]
    } else {
        decimal(n / 10).push(digit_char(n % 10))
    }
}

/// The decimal numeral of `n`, with a minus sign where it is negative.
pub open spec fn signed_decimal(n: int) -> Seq<char> {
    if n < 0 {
        seq!['-'] + decimal((-n) as nat)
    } else {
        decimal(n as nat)
    }
}

/// The decimal numeral of `n`, filled up with a zero to two digits.
pub open spec fn two_digits(n: nat) -> Seq<char> {
    if n < 10 {
        seq!['0'] + decimal(n)
    } else {
        decimal(n)
    }
}

fn push_decimal(out: &mut String, n: u64)
    ensures
        final(out)@ == old(out)@ + decimal(n as nat),
    decreases n,
{
    if n >= 10 {
        push_decimal(out, n / 10);
    }
    let ghost before = out@;
    let d: u8 = (n % 10) as u8;
    out.push((0x30u8 + d) as char);
    assert(out@ =~= old(out)@ + decimal(n as nat));
}

/// Writes `n` in decimal.
pub fn write_decimal(n: u64) -> (out: String)
    ensures
        out@ == decimal(n as nat),
{
    let mut out = String::new();
    push_decimal(&mut out, n);
    assert(Seq::<char>::empty() + decimal(n as nat) =~= decimal(n as nat));
    out
}

/// Writes `n` in decimal, with a minus sign where it is negative.
pub fn write_signed(n: i64) -> (out: String)
    ensures
        out@ == signed_decimal(n as int),
{
    if n >= 0 {
        write_decimal(n as u64)
    } else {
        let mut out = String::new();
        out.push('-');
        let magnitude: u64 = if n == i64::MIN {
            0x8000_0000_0000_0000u64
        } else {
            (-n) as u64
        };
        push_decimal(&mut out, magnitude);
        assert(out@ =~= signed_decimal(n as int));
        out
    }
}

/// Writes `n` in decimal, with at least two digits.
pub fn write_two_digits(n: u64) -> (out: String)
    ensures
        out@ == two_digits(n as nat),
{
    let mut out = String::new();
    if n < 10 {
        out.push('0');
    }
    push_decimal(&mut out, n);
    assert(out@ =~= two_digits(n as nat));
    out
}

/// Whether `c` is one of `0` to `9`.
pub open spec fn is_digit(c: char) -> bool {
    '0' <= c <= '9'
}

/// Whether every character of `s` is a digit.
pub open spec fn all_digits(s: Seq<char>) -> bool {
    forall|i: int| 0 <= i < s.len() ==> is_digit(#[trigger] s[i])
}

/// The number that the digits of `s` denote.
pub open spec fn digits_value(s: Seq<char>) -> nat
    decreases s.len(),
{
    if s.len() == 0 {
        0
    } else {
        10 * digits_value(s.drop_last()) + (s.last() as u32 - 0x30) as nat
    }
}

/// The digits of a numeral: what follows an optional plus sign.
pub open spec fn numeral_digits(s: Seq<char>) -> Seq<char> {
    if s.len() > 0 && s[0] == '+' {
        s.drop_first()
    } else {
        s
    }
}

/// The number that `s` spells: an optional plus sign and at least one digit,
/// and nothing else.
pub open spec fn numeral_value(s: Seq<char>) -> Option<nat> {
    let digits = numeral_digits(s);
    if digits.len() > 0 && all_digits(digits) {
        Some(digits_value(digits))
    } else {
        None
    }
}

/// Reads a `usize`; nothing where `s` spells no number, or one that is too large.
pub fn parse_usize(s: &str) -> (r: Option<usize>)
    ensures
        match numeral_value(s@) {
            Some(n) if n <= usize::MAX => r == Some(n as usize),
            _ => r is None,
        },
{
    let chars = to_chars(s);
    let from: usize = if chars.len() > 0 && chars[0] == '+' {
        1
    } else {
        0
    };
    let ghost digits = numeral_digits(s@);
    assert(digits =~= s@.skip(from as int));
    if from == chars.len() {
        return None;
    }
    let mut value: usize = 0;
    let mut i: usize = from;
    let mut fits: bool = true;
    while i < chars.len()
        invariant
            from <= i <= chars@.len(),
            chars@ == s@,
            digits == s@.skip(from as int),
            digits == numeral_digits(s@),
            forall|j: int| 0 <= j < i - from ==> is_digit(#[trigger] digits[j]),
            fits ==> value == digits_value(digits.take(i - from)),
            !fits ==> digits_value(digits.take(i - from)) > usize::MAX,
        decreases chars@.len() - i,
    {
        let c = chars[i];
        assert(c == digits[i - from]);
        if !('0' <= c && c <= '9') {
            return None;
        }
        let d: usize = (c as u32 - 0x30) as usize;
        assert(digits.take(i - from + 1).drop_last() =~= digits.take(i - from));
        match value.checked_mul(10) {
            Some(tens) if fits => match tens.checked_add(d) {
                Some(sum) => {
                    value = sum;
                },
                None => {
                    fits = false;
                },
            },
            _ => {
                fits = false;
            },
        }
        i += 1;
    }
    assert(digits.take(i - from) =~= digits);
    if fits {
        Some(value)
    } else {
        None
    }
}

/// Reading what was written gives the number back.
pub proof fn law_decimal_reads_back(n: nat)
    ensures
        numeral_value(decimal(n)) == Some(n),
{
    lemma_decimal_digits(n);
    assert(is_digit(decimal(n)[0]));
}

proof fn lemma_decimal_digits(n: nat)
    ensures
        decimal(n).len() > 0,
        all_digits(decimal(n)),
        digits_value(decimal(n)) == n,
    decreases n,
{
    if n < 10 {
        assert(decimal(n).drop_last() =~= Seq::<char>::empty());
        assert(digits_value(Seq::<char>::empty()) == 0);
    } else {
        lemma_decimal_digits(n / 10);
        assert(decimal(n).drop_last() =~= decimal(n / 10));
    }
}

/// The last digit of a numeral is the remainder of the number by ten, and the digits
/// in front are the numeral of the quotient; a number below ten has one digit.
pub proof fn law_decimal_digits(n: nat)
    ensures
        decimal(n).len() > 0,
        decimal(n).last() as int == '0' as int + n % 10,
        n < 10 ==> decimal(n).len() == 1,
        n >= 10 ==> decimal(n).drop_last() == decimal(n / 10),
{
    if n >= 10 {
        assert(decimal(n).drop_last() =~= decimal(n / 10));
    }
}

/// A negative number has a minus sign in front of the numeral of its amount, any other
/// is written as it is.
pub proof fn law_signed_decimal(n: nat)
    ensures
        signed_decimal(n as int) == decimal(n),
        n > 0 ==> signed_decimal(-(n as int)) == seq!['-'] + decimal(n),
{
}

/// A number below ten gets a zero in front, and any other nothing.
pub proof fn law_two_digits(n: nat)
    ensures
        n < 10 ==> two_digits(n) == seq!['0'] + decimal(n),
        n >= 10 ==> two_digits(n) == decimal(n),
{
}

/// A numeral is one digit or more behind an optional plus sign, and each digit counts
/// ten times what the one behind it counts.
pub proof fn law_numeral_value(digits: Seq<char>, last: char)
    ensures
        numeral_value(Seq::empty()) is None,
        numeral_value(seq!['+']) is None,
        (forall|i: int| 0 <= i < digits.len() ==> '0' <= #[trigger] digits[i] <= '9') && '0'
            <= last <= '9' ==> {
            let before = if digits.len() == 0 {
                0
            } else {
                numeral_value(digits)->Some_0
            };
            let value = 10 * before + (last as int - '0' as int);
            &&& digits.len() > 0 ==> numeral_value(digits) is Some
            &&& numeral_value(digits.push(last)) == Some(value as nat)
            &&& numeral_value(seq!['+'] + digits.push(last)) == Some(value as nat)
        },
{
    let all = digits.push(last);
    assert(seq!['+'].drop_first() =~= Seq::<char>::empty());
    if (forall|i: int| 0 <= i < digits.len() ==> '0' <= #[trigger] digits[i] <= '9') && '0'
        <= last <= '9' {
        assert(all.drop_last() =~= digits);
        assert(all_digits(all));
        assert(all_digits(digits));
        assert(all[0] != '+') by {
            if digits.len() > 0 {
                assert(all[0] == digits[0]);
            }
        }
        assert((seq!['+'] + all).drop_first() =~= all);
        if digits.len() > 0 {
            assert(digits[0] != '+');
        }
    }
}

/// What holds any character but digits, behind an optional plus sign, is no numeral.
pub proof fn law_no_numeral(s: Seq<char>, i: int)
    requires
        0 <= i < s.len(),
        !('0' <= s[i] <= '9'),
        i == 0 ==> s[0] != '+',
    ensures
        numeral_value(s) is None,
{
    let digits = numeral_digits(s);
    if s[0] == '+' {
        assert(digits[i - 1] == s[i]);
        assert(!is_digit(digits[i - 1]));
    } else {
        assert(!is_digit(digits[i]));
    }
}

} // verus!
