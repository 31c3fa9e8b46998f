//! Whole numbers read from text and written as text, in decimal.

use crate::text::{chars_of, digit, is_digit};
use vstd::prelude::*;

verus! {

/// The number that a digit stands for.
pub open spec fn digit_value(c: char) -> int {
    c as int - '0' as int
}

/// The digit that stands for a number below ten.
pub open spec fn digit_char(d: int) -> char {
    ('0' as int + d) as char
}

/// Every character is a digit.
pub open spec fn all_digits(s: Seq<char>) -> bool {
    forall|i: int| 0 <= i < s.len() ==> is_digit(#[trigger] s[i])
}

/// The number that a run of digits stands for.
pub open spec fn digits_value(s: Seq<char>) -> int
    decreases s.len(),
{
    if s.len() == 0 {
        0
    } else {
        digits_value(s.drop_last()) * 10 + digit_value(s.last())
    }
}

/// The number that one or more digits stand for.
pub open spec fn run_value(s: Seq<char>) -> Option<int> {
    if s.len() > 0 && all_digits(s) {
        Some(digits_value(s))
    } else {
        None
    }
}

/// The number that an optional plus sign and one or more digits stand for.
pub open spec fn unsigned_value(s: Seq<char>) -> Option<int> {
    if s.len() > 0 && s[0] == '+' {
        run_value(s.skip(1))
    } else {
        run_value(s)
    }
}

/// The number that an optional sign and one or more digits stand for.
pub open spec fn signed_value(s: Seq<char>) -> Option<int> {
    if s.len() > 0 && s[0] == '-' {
        match run_value(s.skip(1)) {
            Some(v) => Some(-v),
            None => None,
        }
    } else {
        unsigned_value(s)
    }
}

/// The number `v`, if it lies between `lo` and `hi`.
pub open spec fn within(v: Option<int>, lo: int, hi: int) -> Option<int> {
    match v {
        Some(n) => if lo <= n <= hi {
            Some(n)
        } else {
            None
        },
        None => None,
    }
}

/// What the text reads as a number of type `i64`.
pub open spec fn as_i64(s: Seq<char>) -> Option<int> {
    within(signed_value(s), i64::MIN as int, i64::MAX as int)
}

/// What the text reads as a number of type `i32`.
pub open spec fn as_i32(s: Seq<char>) -> Option<int> {
    within(signed_value(s), i32::MIN as int, i32::MAX as int)
}

/// What the text reads as a number of type `u32`.
pub open spec fn as_u32(s: Seq<char>) -> Option<int> {
    within(unsigned_value(s), 0, u32::MAX as int)
}

/// What the text reads as a number of type `u64`.
pub open spec fn as_u64(s: Seq<char>) -> Option<int> {
    within(unsigned_value(s), 0, u64::MAX as int)
}

/// What the text reads as a number of type `usize`.
pub open spec fn as_usize(s: Seq<char>) -> Option<int> {
    within(unsigned_value(s), 0, usize::MAX as int)
}

/// The decimal digits of a number.
pub open spec fn decimal(n: nat) -> Seq<char>
    decreases n,
{
    if n < 10 {
        seq![digit_char(n as int)]
    } else {
        decimal(n / 10).push(digit_char((n % 10) as int))
    }
}

/// A number as text: its digits, behind a minus sign if it is negative.
pub open spec fn number_text(n: int) -> Seq<char> {
    if n < 0 {
        seq!['-'] + decimal((-n) as nat)
    } else {
        decimal(n as nat)
    }
}

/// A number as text of two characters or more, filled up with a zero.
pub open spec fn two_digits(n: int) -> Seq<char> {
    if 0 <= n < 10 {
        seq!['0'] + decimal(n as nat)
    } else {
        number_text(n)
    }
}

/// Digits stand for a number that is not negative.
proof fn lemma_digits_value(s: Seq<char>)
    requires
        all_digits(s),
    ensures
        digits_value(s) >= 0,
    decreases s.len(),
{
    if s.len() > 0 {
        lemma_digits_value(s.drop_last());
        assert(is_digit(s[s.len() - 1]));
    }
}

/// Text without a minus sign stands for a number that is not negative.
proof fn lemma_unsigned_value(s: Seq<char>)
    ensures
        unsigned_value(s) matches Some(v) ==> v >= 0,
{
    if s.len() > 0 && s[0] == '+' {
        if all_digits(s.skip(1)) {
            lemma_digits_value(s.skip(1));
        }
    } else if all_digits(s) {
        lemma_digits_value(s);
    }
}

/// The digits of a number are digits and read as that number.
pub proof fn lemma_decimal(n: nat)
    ensures
        decimal(n).len() > 0,
        all_digits(decimal(n)),
        digits_value(decimal(n)) == n,
    decreases n,
{
    if n < 10 {
        let s = decimal(n);
        assert(s.drop_last() =~= Seq::<char>::empty());
        assert(digits_value(s.drop_last()) == 0);
    } else {
        lemma_decimal(n / 10);
        let s = decimal(n);
        assert(s.drop_last() =~= decimal(n / 10));
    }
}

/// What is written as a number reads as that number.
pub proof fn lemma_number_text(n: int)
    ensures
        number_text(n).len() > 0,
        signed_value(number_text(n)) == Some(n),
        n >= 0 ==> unsigned_value(number_text(n)) == Some(n),
        forall|i: int|
            0 <= i < number_text(n).len() ==> #[trigger] number_text(n)[i] == '-' || is_digit(
                number_text(n)[i],
            ),
{
    if n < 0 {
        lemma_decimal((-n) as nat);
        assert(number_text(n).skip(1) =~= decimal((-n) as nat));
    } else {
        lemma_decimal(n as nat);
        assert(is_digit(decimal(n as nat)[0]));
    }
}

/// What is written with two digits or more reads as the number.
pub proof fn lemma_two_digits(n: int)
    ensures
        two_digits(n).len() > 0,
        signed_value(two_digits(n)) == Some(n),
        forall|i: int|
            0 <= i < two_digits(n).len() ==> #[trigger] two_digits(n)[i] == '-' || is_digit(
                two_digits(n)[i],
            ),
{
    lemma_number_text(n);
    if 0 <= n < 10 {
        let s = two_digits(n);
        lemma_decimal(n as nat);
        assert(s.drop_last() =~= seq!['0']);
        assert(s.drop_last().drop_last() =~= Seq::<char>::empty());
        assert(digits_value(s.drop_last().drop_last()) == 0);
        assert(digits_value(s.drop_last()) == 0);
    }
}

/// The number that the digits behind index `from` stand for. Above 2^64 only
/// that it is above 2^64 is told.
fn read_run(chars: &Vec<char>, from: usize) -> (r: Option<u128>)
    requires
        from <= chars@.len(),
    ensures
        match (r, run_value(chars@.skip(from as int))) {
            (Some(v), Some(w)) => if w <= 0x1_0000_0000_0000_0000 {
                v == w
            } else {
                v > 0x1_0000_0000_0000_0000
            },
            (None, None) => true,
            _ => false,
        },
{
    let ghost run = chars@.skip(from as int);
    if from == chars.len() {
        return None;
    }
    let mut i: usize = from;
    let mut acc: u128 = 0;
    while i < chars.len()
        invariant
            from <= i <= chars@.len(),
            run == chars@.skip(from as int),
            forall|j: int| 0 <= j < i - from ==> is_digit(#[trigger] run[j]),
            ({
                let w = digits_value(run.take(i - from));
                if w <= 0x1_0000_0000_0000_0000 {
                    acc == w
                } else {
                    acc > 0x1_0000_0000_0000_0000
                }
            }),
            acc <= 0xF_0000_0000_0000_0000,
            digits_value(run.take(i - from)) >= 0,
        decreases chars@.len() - i,
    {
        let c = chars[i];
        proof {
            assert(run[i - from] == c);
            assert(run.take(i - from + 1).drop_last() =~= run.take(i - from));
            assert(run.take(i - from + 1).last() == c);
        }
        if !digit(c) {
            return None;
        }
        if acc <= 0x1_0000_0000_0000_0000 {
            acc = acc * 10 + (c as u32 - '0' as u32) as u128;
        }
        i += 1;
    }
    proof {
        assert(run.take(i - from) =~= run);
    }
    Some(acc)
}

/// Reads a number of type `u64`: an optional plus sign, then digits.
pub fn parse_u64(s: &str) -> (r: Option<u64>)
    ensures
        match r {
            Some(v) => as_u64(s@) == Some(v as int),
            None => as_u64(s@) is None,
        },
{
    let chars = chars_of(s);
    proof {
        assert(chars@.skip(0) == s@);
    }
    let from: usize = if chars.len() > 0 && chars[0] == '+' {
        1
    } else {
        0
    };
    match read_run(&chars, from) {
        Some(v) => if v <= u64::MAX as u128 {
            Some(v as u64)
        } else {
            None
        },
        None => None,
    }
}

/// Reads a number of type `u32`: an optional plus sign, then digits.
pub fn parse_u32(s: &str) -> (r: Option<u32>)
    ensures
        match r {
            Some(v) => as_u32(s@) == Some(v as int),
            None => as_u32(s@) is None,
        },
{
    match parse_u64(s) {
        Some(v) => if v <= u32::MAX as u64 {
            Some(v as u32)
        } else {
            None
        },
        None => None,
    }
}

/// Reads a number of type `usize`: an optional plus sign, then digits.
pub fn parse_usize(s: &str) -> (r: Option<usize>)
    ensures
        match r {
            Some(v) => as_usize(s@) == Some(v as int),
            None => as_usize(s@) is None,
        },
{
    match parse_u64(s) {
        Some(v) => if v <= usize::MAX as u64 {
            Some(v as usize)
        } else {
            None
        },
        None => None,
    }
}

/// Reads a number of type `i64`: an optional sign, then digits.
pub fn parse_i64(s: &str) -> (r: Option<i64>)
    ensures
        match r {
            Some(v) => as_i64(s@) == Some(v as int),
            None => as_i64(s@) is None,
        },
{
    let chars = chars_of(s);
    proof {
        assert(chars@.skip(0) == s@);
    }
    proof {
        lemma_unsigned_value(s@);
    }
    if chars.len() > 0 && chars[0] == '-' {
        match read_run(&chars, 1) {
            Some(v) => if v <= 0x8000_0000_0000_0000 {
                Some((0 - v as i128) as i64)
            } else {
                None
            },
            None => None,
        }
    } else {
        match parse_u64(s) {
            Some(v) => if v <= i64::MAX as u64 {
                Some(v as i64)
            } else {
                None
            },
            None => None,
        }
    }
}

/// Reads a number of type `i32`: an optional sign, then digits.
pub fn parse_i32(s: &str) -> (r: Option<i32>)
    ensures
        match r {
            Some(v) => as_i32(s@) == Some(v as int),
            None => as_i32(s@) is None,
        },
{
    match parse_i64(s) {
        Some(v) => if i32::MIN as i64 <= v && v <= i32::MAX as i64 {
            Some(v as i32)
        } else {
            None
        },
        None => None,
    }
}

/// Writes the digits of `n` behind `s`.
fn push_decimal(s: &mut String, n: u64)
    ensures
        final(s)@ == old(s)@ + decimal(n as nat),
    decreases n,
{
    let ghost before = s@;
    if n >= 10 {
        push_decimal(s, n / 10);
    }
    let d: u32 = (n % 10) as u32;
    let c: char = (48 + d as u8) as char;
    s.push(c);
    proof {
        assert(s@ =~= before + decimal(n as nat));
    }
}

/// A number as text.
pub fn u64_text(n: u64) -> (r: String)
    ensures
        r@ == number_text(n as int),
{
    let mut s = String::new();
    push_decimal(&mut s, n);
    proof {
        assert(s@ =~= decimal(n as nat));
    }
    s
}

/// A number as text.
pub fn i64_text(n: i64) -> (r: String)
    ensures
        r@ == number_text(n as int),
{
    if n < 0 {
        let mut s = String::new();
        s.push('-');
        push_decimal(&mut s, (0 - n as i128) as u64);
        proof {
            assert(s@ =~= number_text(n as int));
        }
        s
    } else {
        u64_text(n as u64)
    }
}

/// A number as text of two characters or more.
pub fn two_digit_text(n: i64) -> (r: String)
    ensures
        r@ == two_digits(n as int),
{
    if 0 <= n && n < 10 {
        let mut s = String::new();
        s.push('0');
        push_decimal(&mut s, n as u64);
        proof {
            assert(s@ =~= two_digits(n as int));
        }
        s
    } else {
        i64_text(n)
    }
}

// ----- what holds of these -----

/// A number is written with its decimal digits, the last digit last, and a
/// negative one behind a minus sign.
pub proof fn law_numbers_are_written_in_digits(n: int, d: int)
    requires
        0 <= d <= 9,
        n > 0,
    ensures
        number_text(d) == seq![('0' as int + d) as char],
        number_text(10 * n + d) == number_text(n) + number_text(d),
        number_text(-n) == seq!['-'] + number_text(n),
        two_digits(d) == seq!['0'] + number_text(d),
        n >= 10 ==> two_digits(n) == number_text(n),
{
    let m = (10 * n + d) as nat;
    assert(m / 10 == n && m % 10 == d);
    assert(number_text(10 * n + d) =~= number_text(n) + number_text(d));
}

/// A text with anything but digits behind its first character is no number, nor
/// is an empty one.
pub proof fn law_other_texts_are_no_numbers(s: Seq<char>, i: int)
    requires
        s.len() == 0 || (0 < i < s.len() && !('0' <= s[i] <= '9')),
    ensures
        as_i64(s) is None,
        as_i32(s) is None,
        as_u64(s) is None,
        as_u32(s) is None,
        as_usize(s) is None,
{
    if s.len() > 0 {
        assert(!is_digit(s[i]));
        assert(s.skip(1)[i - 1] == s[i]);
        assert(!all_digits(s));
        assert(!all_digits(s.skip(1)));
    }
}

/// A number is read just if its type can hold it; a plus sign does not matter,
/// and a minus sign is read only where the type has one.
pub proof fn law_numbers_are_read_if_they_fit(n: int)
    ensures
        as_i64(number_text(n)) == if i64::MIN <= n <= i64::MAX {
            Some(n)
        } else {
            None
        },
        as_i32(number_text(n)) == if i32::MIN <= n <= i32::MAX {
            Some(n)
        } else {
            None
        },
        as_u64(number_text(n)) == if 0 <= n <= u64::MAX {
            Some(n)
        } else {
            None
        },
        as_u32(number_text(n)) == if 0 <= n <= u32::MAX {
            Some(n)
        } else {
            None
        },
        as_usize(number_text(n)) == if 0 <= n <= usize::MAX {
            Some(n)
        } else {
            None
        },
        0 <= n <= u32::MAX ==> as_u32(seq!['+'] + number_text(n)) == Some(n),
        0 <= n <= i64::MAX ==> as_i64(seq!['+'] + number_text(n)) == Some(n),
{
    lemma_number_text(n);
    if n < 0 {
        assert(number_text(n)[0] == '-');
        assert(!is_digit(number_text(n)[0]));
        assert(!all_digits(number_text(n)));
    } else {
        let text = seq!['+'] + number_text(n);
        assert(text.skip(1) =~= number_text(n));
        assert(number_text(n)[0] != '+');
    }
}

} // verus!
