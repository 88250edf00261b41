//! Decimal rendering of unsigned integers, verified against a recursive
//! specification of the digit sequence.

use vstd::prelude::*;

use crate::error::ReadoutError;

verus! {

/// The character for a single decimal digit value.
pub open spec fn digit_char(d: int) -> char {
    if d == 0 {
        '0'
    } else if d == 1 {
        '1'
    } else if d == 2 {
        '2'
    } else if d == 3 {
        '3'
    } else if d == 4 {
        '4'
    } else if d == 5 {
        '5'
    } else if d == 6 {
        '6'
    } else if d == 7 {
        '7'
    } else if d == 8 {
        '8'
    } else {
        '9'
    }
}

/// The decimal digit string of `n`, most significant digit first,
/// with no leading zeros (a single `'0'` for zero).
pub open spec fn dec_str(n: nat) -> Seq<char>
    decreases n,
{
    if n < 10 {
        seq![digit_char(n as int)]
    } else {
        dec_str(n / 10).push(digit_char((n % 10) as int))
    }
}

/// Whether a character is a decimal digit.
pub open spec fn is_digit_char(c: char) -> bool {
    c == '0' || c == '1' || c == '2' || c == '3' || c == '4' || c == '5' || c == '6' || c == '7'
        || c == '8' || c == '9'
}

/// Every character of a decimal rendering is a digit, and the rendering is
/// never empty. In particular a decimal rendering never starts or ends with
/// whitespace.
pub proof fn lemma_dec_str_digits(n: nat)
    ensures
        dec_str(n).len() >= 1,
        forall|i: int| 0 <= i < dec_str(n).len() ==> is_digit_char(#[trigger] dec_str(n)[i]),
    decreases n,
{
    if n < 10 {
    } else {
        lemma_dec_str_digits(n / 10);
    }
}

/// The value of a decimal digit character; unconstrained elsewhere.
pub open spec fn digit_val(c: char) -> nat {
    if c == '0' {
        0
    } else if c == '1' {
        1
    } else if c == '2' {
        2
    } else if c == '3' {
        3
    } else if c == '4' {
        4
    } else if c == '5' {
        5
    } else if c == '6' {
        6
    } else if c == '7' {
        7
    } else if c == '8' {
        8
    } else {
        9
    }
}

/// The number denoted by a sequence of decimal digit characters, most
/// significant digit first.
pub open spec fn digits_val(s: Seq<char>) -> nat
    decreases s.len(),
{
    if s.len() == 0 {
        0
    } else {
        digits_val(s.drop_last()) * 10 + digit_val(s.last())
    }
}

/// The length of the longest digit prefix of `s`.
pub open spec fn digits_prefix_len(s: Seq<char>) -> nat
    decreases s.len(),
{
    if s.len() == 0 || !is_digit_char(s[0]) {
        0
    } else {
        1 + digits_prefix_len(s.drop_first())
    }
}

/// Whether `s` reads as a non-negative decimal number: a digit run,
/// optionally followed by a dot and a further digit run, with at least one
/// digit somewhere.
pub open spec fn valid_reading(s: Seq<char>) -> bool {
    let k = digits_prefix_len(s) as int;
    s.len() > 0 && (k == s.len() || (s[k] == '.' && (forall|j: int|
        k < j < s.len() ==> is_digit_char(#[trigger] s[j])) && (k > 0 || s.len() > k + 1)))
}

/// The whole seconds denoted by a reading: the value of its digit prefix.
pub open spec fn reading_seconds(s: Seq<char>) -> nat {
    digits_val(s.take(digits_prefix_len(s) as int))
}

/// Appending one digit multiplies the prefix value by ten and adds it.
proof fn lemma_digits_val_extend(s: Seq<char>, i: int)
    requires
        0 <= i < s.len(),
    ensures
        digits_val(s.take(i + 1)) == digits_val(s.take(i)) * 10 + digit_val(s[i]),
{
    assert(s.take(i + 1).drop_last() =~= s.take(i));
    assert(s.take(i + 1).last() == s[i]);
}

/// The digit prefix is exactly the run of digits that stops at the first
/// non-digit (or at the end).
proof fn lemma_digits_prefix_len(s: Seq<char>, i: int)
    requires
        0 <= i <= s.len(),
        forall|j: int| 0 <= j < i ==> is_digit_char(#[trigger] s[j]),
        i == s.len() || !is_digit_char(s[i]),
    ensures
        digits_prefix_len(s) == i,
    decreases s.len(),
{
    if s.len() == 0 {
    } else if i == 0 {
    } else {
        assert(forall|j: int|
            0 <= j < i - 1 ==> is_digit_char(#[trigger] s.drop_first()[j]) == is_digit_char(
                s[j + 1],
            ));
        lemma_digits_prefix_len(s.drop_first(), i - 1);
    }
}

/// Parses a textual seconds reading, keeping the whole seconds and
/// discarding any fractional part. Fails when the text is not a decimal
/// number or its whole part exceeds `u64`.
pub fn parse_seconds(reading: &str) -> (r: Result<u64, ReadoutError>)
    ensures
        valid_reading(reading@) && reading_seconds(reading@) <= u64::MAX ==> (r matches Ok(v) && v
            as nat == reading_seconds(reading@)),
        !(valid_reading(reading@) && reading_seconds(reading@) <= u64::MAX) ==> (r matches Err(e)
            && e == ReadoutError::MetricNotAvailable),
{
    let n = reading.unicode_len();
    if n == 0 {
        return Err(ReadoutError::MetricNotAvailable);
    }
    let mut i: usize = 0;
    let mut acc: u64 = 0;
    let mut overflow: bool = false;
    proof {
        assert(reading@.take(0) =~= Seq::<char>::empty());
    }
    let mut stop: bool = false;
    while i < n && !stop
        invariant
            n == reading@.len(),
            i <= n,
            forall|j: int| 0 <= j < i ==> is_digit_char(#[trigger] reading@[j]),
            !overflow ==> acc as nat == digits_val(reading@.take(i as int)),
            overflow ==> digits_val(reading@.take(i as int)) > u64::MAX,
            stop ==> i < n && !is_digit_char(reading@[i as int]),
        decreases n - i, 1int - (if stop { 1int } else { 0int }),
    {
        let c = reading.get_char(i);
        match digit_of(c) {
            Some(dv) => {
                proof {
                    lemma_digits_val_extend(reading@, i as int);
                }
                if overflow {
                } else if acc > (u64::MAX - dv) / 10 {
                    overflow = true;
                    proof {
                        assert(acc as nat * 10 + dv as nat > u64::MAX) by (nonlinear_arith)
                            requires
                                acc > (u64::MAX - dv) / 10,
                                dv <= 9,
                        ;
                    }
                } else {
                    acc = acc * 10 + dv;
                }
                i += 1;
            },
            None => {
                stop = true;
            },
        }
    }
    proof {
        lemma_digits_prefix_len(reading@, i as int);
    }
    if i == n {
        if overflow {
            return Err(ReadoutError::MetricNotAvailable);
        }
        return Ok(acc);
    }
    let c = reading.get_char(i);
    if c != '.' {
        return Err(ReadoutError::MetricNotAvailable);
    }
    if i == 0 && n == 1 {
        return Err(ReadoutError::MetricNotAvailable);
    }
    let mut j: usize = i + 1;
    while j < n
        invariant
            n == reading@.len(),
            i < j <= n,
            digits_prefix_len(reading@) == i,
            reading@[i as int] == '.',
            forall|k: int| i < k < j ==> is_digit_char(#[trigger] reading@[k]),
        decreases n - j,
    {
        let c = reading.get_char(j);
        if digit_of(c).is_none() {
            proof {
                assert(!is_digit_char(reading@[j as int]));
                assert(!valid_reading(reading@));
            }
            return Err(ReadoutError::MetricNotAvailable);
        }
        j += 1;
    }
    if overflow {
        return Err(ReadoutError::MetricNotAvailable);
    }
    Ok(acc)
}

/// The digit value of a character, or nothing for a non-digit.
fn digit_of(c: char) -> (r: Option<u64>)
    ensures
        is_digit_char(c) ==> (r matches Some(v) && v as nat == digit_val(c) && v <= 9),
        !is_digit_char(c) ==> r is None,
{
    match c {
        '0' => Some(0u64),
        '1' => Some(1u64),
        '2' => Some(2u64),
        '3' => Some(3u64),
        '4' => Some(4u64),
        '5' => Some(5u64),
        '6' => Some(6u64),
        '7' => Some(7u64),
        '8' => Some(8u64),
        '9' => Some(9u64),
        _ => None,
    }
}

/// A one-character string for a digit value.
fn digit_str(d: u64) -> (r: &'static str)
    requires
        d < 10,
    ensures
        r@ == seq![digit_char(d as int)],
{
    let r: &'static str = if d == 0 {
        "0"
    } else if d == 1 {
        "1"
    } else if d == 2 {
        "2"
    } else if d == 3 {
        "3"
    } else if d == 4 {
        "4"
    } else if d == 5 {
        "5"
    } else if d == 6 {
        "6"
    } else if d == 7 {
        "7"
    } else if d == 8 {
        "8"
    } else {
        "9"
    };
    proof {
        reveal_strlit("0");
        reveal_strlit("1");
        reveal_strlit("2");
        reveal_strlit("3");
        reveal_strlit("4");
        reveal_strlit("5");
        reveal_strlit("6");
        reveal_strlit("7");
        reveal_strlit("8");
        reveal_strlit("9");
        assert(r@ =~= seq![digit_char(d as int)]);
    }
    r
}

/// Renders `n` in decimal.
pub fn u64_to_string(n: u64) -> (r: String)
    ensures
        r@ == dec_str(n as nat),
    decreases n,
{
    if n < 10 {
        let mut s = String::new();
        s.append(digit_str(n));
        proof {
            assert(s@ =~= dec_str(n as nat));
        }
        s
    } else {
        let mut s = u64_to_string(n / 10);
        s.append(digit_str(n % 10));
        proof {
            assert(s@ =~= dec_str(n as nat));
        }
        s
    }
}

} // verus!
