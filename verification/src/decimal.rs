//! Decimal numerals: what a string of digits is worth, how a number is
//! written, and that the two agree.

use vstd::prelude::*;

verus! {

/// Whether `c` is one of the ten ASCII digits.
pub open spec fn is_digit(c: char) -> bool {
    48 <= c as u32 <= 57
}

/// The number that the digit `c` stands for.
pub open spec fn digit_value(c: char) -> int {
    c as u32 - 48
}

/// The digit that stands for `d`, for `d` from 0 to 9.
pub open spec fn digit_char(d: int) -> char {
    (d + 48) as u32 as char
}

/// Whether `s` consists of digits only.
pub open spec fn all_digits(s: Seq<char>) -> bool {
    forall|i: int| 0 <= i < s.len() ==> is_digit(#[trigger] s[i])
}

/// The number that a string of digits is worth, read in base ten with the
/// most significant digit first. The empty string is worth 0.
pub open spec fn digits_value(s: Seq<char>) -> int
    decreases s.len(),
{
    if s.len() == 0 {
        0
    } else {
        digits_value(s.drop_last()) * 10 + digit_value(s.last())
    }
}

/// The shortest decimal numeral of `n`.
pub open spec fn decimal(n: nat) -> Seq<char>
    decreases n,
{
    if n < 10 {
        seq![digit_char(n as int)]
    } else {
        decimal(n / 10).push(digit_char((n % 10) as int))
    }
}

/// The decimal numeral of `v`, with `'-'` in front where `v` is negative.
pub open spec fn signed_decimal(v: int) -> Seq<char> {
    if v < 0 {
        seq!['-'] + decimal((-v) as nat)
    } else {
        decimal(v as nat)
    }
}

/// What a signed decimal numeral is worth: an optional sign, `'+'` or
/// `'-'`, and then at least one digit and nothing else. Anything else is
/// worth nothing.
pub open spec fn signed_value(s: Seq<char>) -> Option<int> {
    let signed = s.len() > 0 && (s[0] == '-' || s[0] == '+');
    let digits = if signed {
        s.skip(1)
    } else {
        s
    };
    if digits.len() == 0 || !all_digits(digits) {
        None
    } else if signed && s[0] == '-' {
        Some(-digits_value(digits))
    } else {
        Some(digits_value(digits))
    }
}

/// What a string is worth as an `i16`: its value as a signed numeral, if it
/// has one that an `i16` can hold.
pub open spec fn i16_value(s: Seq<char>) -> Option<i16> {
    match signed_value(s) {
        Some(v) => if i16::MIN <= v <= i16::MAX {
            Some(v as i16)
        } else {
            None
        },
        None => None,
    }
}

/// A numeral is made of digits, has at least one, and is worth the number
/// it was written for.
pub proof fn lemma_decimal_value(n: nat)
    ensures
        decimal(n).len() > 0,
        all_digits(decimal(n)),
        digits_value(decimal(n)) == n,
        n > 0 ==> decimal(n)[0] != '0',
    decreases n,
{
    if n < 10 {
        assert(decimal(n).drop_last() =~= Seq::<char>::empty());
        assert(digits_value(decimal(n).drop_last()) == 0);
    } else {
        lemma_decimal_value(n / 10);
        assert(decimal(n).drop_last() =~= decimal(n / 10));
    }
}

/// Digits appended to a string of digits never make it worth less.
pub proof fn lemma_digits_value_grows(s: Seq<char>, shorter: int)
    requires
        all_digits(s),
        0 <= shorter <= s.len(),
    ensures
        0 <= digits_value(s.take(shorter)) <= digits_value(s),
    decreases s.len() - shorter,
{
    if shorter == s.len() {
        assert(s.take(shorter) =~= s);
        lemma_digits_value_nonnegative(s);
    } else {
        lemma_digits_value_grows(s, shorter + 1);
        let longer = s.take(shorter + 1);
        assert(longer.drop_last() =~= s.take(shorter));
        assert(is_digit(s[shorter]));
        assert(longer.last() == s[shorter]);
    }
}

proof fn lemma_digits_value_nonnegative(s: Seq<char>)
    requires
        all_digits(s),
    ensures
        digits_value(s) >= 0,
    decreases s.len(),
{
    if s.len() > 0 {
        lemma_digits_value_nonnegative(s.drop_last());
        assert(is_digit(s[s.len() - 1]));
    }
}

/// Writing a number and reading the numeral gives the number back.
pub proof fn lemma_signed_decimal_round_trip(v: int)
    ensures
        signed_value(signed_decimal(v)) == Some(v),
{
    if v < 0 {
        let digits = decimal((-v) as nat);
        lemma_decimal_value((-v) as nat);
        assert(signed_decimal(v).skip(1) =~= digits);
        assert(signed_decimal(v)[0] == '-');
    } else {
        let digits = decimal(v as nat);
        lemma_decimal_value(v as nat);
        assert(is_digit(digits[0]));
    }
}

/// Reads a signed decimal numeral as an `i16`: an optional `'+'` or `'-'`,
/// then digits only and at least one. Returns `None` for any other string
/// and for a numeral whose value an `i16` cannot hold.
pub fn parse_i16(s: &str) -> (value: Option<i16>)
    ensures
        value == i16_value(s@),
{
    let n: usize = s.unicode_len();
    if n == 0 {
        return None;
    }
    let first: char = s.get_char(0);
    let negative: bool = first == '-';
    let start: usize = if first == '-' || first == '+' {
        1
    } else {
        0
    };
    if start == n {
        return None;
    }
    let ghost digits = s@.skip(start as int);
    let mut magnitude: i32 = 0;
    let mut i: usize = start;
    proof {
        assert(digits.take(0) =~= Seq::<char>::empty());
        assert(start == 0 ==> digits =~= s@);
    }
    while i < n
        invariant
            start <= i <= n,
            n == s@.len(),
            n > 0,
            negative == (s@[0] == '-'),
            start == (if s@[0] == '-' || s@[0] == '+' {
                1int
            } else {
                0int
            }),
            start == 0 ==> digits == s@,
            digits == s@.skip(start as int),
            all_digits(digits.take(i - start)),
            magnitude == digits_value(digits.take(i - start)),
            0 <= magnitude <= 32768,
        decreases n - i,
    {
        let c: char = s.get_char(i);
        let code: u32 = c as u32;
        if code < 48 || code > 57 {
            proof {
                assert(digits[i - start] == c);
                assert(!is_digit(digits[i - start]));
            }
            return None;
        }
        let ghost shorter = digits.take(i - start);
        let ghost longer = digits.take(i - start + 1);
        proof {
            assert(longer.drop_last() =~= shorter);
            assert(longer.last() == c);
            assert forall|k: int| 0 <= k < longer.len() implies is_digit(#[trigger] longer[k]) by {
                if k < shorter.len() {
                    assert(longer[k] == shorter[k]);
                }
            }
        }
        magnitude = magnitude * 10 + (code - 48) as i32;
        if magnitude > 32768 {
            proof {
                if all_digits(digits) {
                    lemma_digits_value_grows(digits, i - start + 1);
                }
            }
            return None;
        }
        i = i + 1;
    }
    proof {
        assert(digits.take(n - start) =~= digits);
    }
    if negative {
        Some((-magnitude) as i16)
    } else if magnitude == 32768 {
        None
    } else {
        Some(magnitude as i16)
    }
}

/// The one-letter string of a digit.
fn digit_text(d: u32) -> (text: &'static str)
    requires
        d < 10,
    ensures
        text@ == seq![digit_char(d as int)],
{
    proof {
        reveal_strlit("0");
        reveal_strlit("1");
        reveal_strlit("2");
        reveal_strlit("3");
        reveal_strlit("4");
        reveal_strlit("5");
        reveal_strlit("6");
        reveal_strlit("7");
        reveal_strlit("8");
        reveal_strlit("9");
    }
    let text: &'static str = match d {
        0 => "0",
        1 => "1",
        2 => "2",
        3 => "3",
        4 => "4",
        5 => "5",
        6 => "6",
        7 => "7",
        8 => "8",
        _ => "9",
    };
    assert(text@ =~= seq![digit_char(d as int)]);
    text
}

/// Writes `n` in decimal, without leading zeros.
pub fn decimal_string(n: u32) -> (text: String)
    ensures
        text@ == decimal(n as nat),
    decreases n,
{
    if n < 10 {
        String::from_str(digit_text(n))
    } else {
        let mut text: String = decimal_string(n / 10);
        text.append(digit_text(n % 10));
        assert(text@ =~= decimal(n as nat));
        text
    }
}

/// Writes `v` in decimal, with a minus sign in front where it is negative.
pub fn signed_decimal_string(v: i16) -> (text: String)
    ensures
        text@ == signed_decimal(v as int),
{
    if v < 0 {
        proof {
            reveal_strlit("-");
        }
        let mut text: String = String::from_str("-");
        let digits: String = decimal_string((-(v as i32)) as u32);
        text.append(digits.as_str());
        assert(text@ =~= signed_decimal(v as int));
        text
    } else {
        decimal_string(v as u32)
    }
}

} // verus!
