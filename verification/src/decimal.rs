//! Decimal rendering of integers.
//!
//! Pasting fuses an identifier with the current loop value, so the engine
//! needs the decimal digits of that value as text.  `dec_str` is the
//! mathematical definition; `i64_dec_string` computes it.

use vstd::prelude::*;
use vstd::string::StringExecFns;

verus! {

/// The character for a single decimal digit.
pub open spec fn digit_char(d: nat) -> char
    recommends
        d < 10,
{
    if d == 0 {
        '0'
    } else if d == 1 {
        '1'
    } else if d == 2 {
        '2'
    } else if d == 3 {
        '3'
    } else if d == 4 {
        '4'
    } else if d == 5 {
        '5'
    } else if d == 6 {
        '6'
    } else if d == 7 {
        '7'
    } else if d == 8 {
        '8'
    } else {
        '9'
    }
}

/// The decimal digits of a non-negative integer, most significant first,
/// with no leading zeros (a lone `0` for zero).
pub open spec fn dec_digits(n: nat) -> Seq<char>
    decreases n,
{
    if n < 10 {
        seq![digit_char(n)]
    } else {
        dec_digits(n / 10) + seq![digit_char(n % 10)]
    }
}

/// The decimal rendering of an integer: a `-` sign for negative values,
/// then the digits of the magnitude.
pub open spec fn dec_str(v: int) -> Seq<char> {
    if v < 0 {
        seq!['-'] + dec_digits((-v) as nat)
    } else {
        dec_digits(v as nat)
    }
}

/// The one-character text of a single decimal digit.
fn digit_str(d: u64) -> (r: &'static str)
    requires
        d < 10,
    ensures
        r@ == seq![digit_char(d as nat)],
{
    if d == 0 {
        proof {
            reveal_strlit("0");
            assert("0"@ =~= seq![digit_char(0)]);
        }
        "0"
    } else if d == 1 {
        proof {
            reveal_strlit("1");
            assert("1"@ =~= seq![digit_char(1)]);
        }
        "1"
    } else if d == 2 {
        proof {
            reveal_strlit("2");
            assert("2"@ =~= seq![digit_char(2)]);
        }
        "2"
    } else if d == 3 {
        proof {
            reveal_strlit("3");
            assert("3"@ =~= seq![digit_char(3)]);
        }
        "3"
    } else if d == 4 {
        proof {
            reveal_strlit("4");
            assert("4"@ =~= seq![digit_char(4)]);
        }
        "4"
    } else if d == 5 {
        proof {
            reveal_strlit("5");
            assert("5"@ =~= seq![digit_char(5)]);
        }
        "5"
    } else if d == 6 {
        proof {
            reveal_strlit("6");
            assert("6"@ =~= seq![digit_char(6)]);
        }
        "6"
    } else if d == 7 {
        proof {
            reveal_strlit("7");
            assert("7"@ =~= seq![digit_char(7)]);
        }
        "7"
    } else if d == 8 {
        proof {
            reveal_strlit("8");
            assert("8"@ =~= seq![digit_char(8)]);
        }
        "8"
    } else {
        proof {
            reveal_strlit("9");
            assert("9"@ =~= seq![digit_char(9)]);
        }
        "9"
    }
}

/// The decimal digits of an unsigned integer.
pub fn u64_dec_string(n: u64) -> (r: String)
    ensures
        r@ == dec_digits(n as nat),
    decreases n,
{
    if n < 10 {
        let s = digit_str(n);
        s.to_owned()
    } else {
        let high = u64_dec_string(n / 10);
        let low = digit_str(n % 10);
        high.concat(low)
    }
}

/// The decimal rendering of a signed integer.
pub fn i64_dec_string(v: i64) -> (r: String)
    ensures
        r@ == dec_str(v as int),
{
    if v >= 0 {
        u64_dec_string(v as u64)
    } else {
        let mag: u64 = (-(v as i128)) as u64;
        assert(mag as nat == (-(v as int)) as nat);
        let digits = u64_dec_string(mag);
        let sign = "-".to_owned();
        proof {
            reveal_strlit("-");
            assert(sign@ =~= seq!['-']);
        }
        sign.concat(digits.as_str())
    }
}

/// Whether `c` is a decimal digit.
pub open spec fn is_dec_digit(c: char) -> bool {
    ||| c == '0'
    ||| c == '1'
    ||| c == '2'
    ||| c == '3'
    ||| c == '4'
    ||| c == '5'
    ||| c == '6'
    ||| c == '7'
    ||| c == '8'
    ||| c == '9'
}

/// The value of one decimal digit character.
pub open spec fn dec_digit_val(c: char) -> int
    recommends
        is_dec_digit(c),
{
    if c == '1' {
        1
    } else if c == '2' {
        2
    } else if c == '3' {
        3
    } else if c == '4' {
        4
    } else if c == '5' {
        5
    } else if c == '6' {
        6
    } else if c == '7' {
        7
    } else if c == '8' {
        8
    } else if c == '9' {
        9
    } else {
        0
    }
}

/// Whether every character of `s` is a decimal digit.
pub open spec fn all_dec_digits(s: Seq<char>) -> bool {
    forall|i: int| 0 <= i < s.len() ==> is_dec_digit(s[i])
}

/// The integer a digit string denotes, most significant digit first.
pub open spec fn dec_val(s: Seq<char>) -> int
    recommends
        all_dec_digits(s),
    decreases s.len(),
{
    if s.len() == 0 {
        0
    } else {
        10 * dec_val(s.drop_last()) + dec_digit_val(s.last())
    }
}

/// A decimal numeral: an optional leading `-`, then one or more digits.
pub open spec fn is_dec_numeral(s: Seq<char>) -> bool {
    if s.len() > 0 && s[0] == '-' {
        s.len() > 1 && all_dec_digits(s.subrange(1, s.len() as int))
    } else {
        s.len() > 0 && all_dec_digits(s)
    }
}

/// The integer a decimal numeral denotes.
pub open spec fn numeral_val(s: Seq<char>) -> int
    recommends
        is_dec_numeral(s),
{
    if s.len() > 0 && s[0] == '-' {
        -dec_val(s.subrange(1, s.len() as int))
    } else {
        dec_val(s)
    }
}

/// A digit string never denotes a negative integer.
proof fn lemma_dec_val_nonneg(s: Seq<char>)
    ensures
        dec_val(s) >= 0,
    decreases s.len(),
{
    if s.len() > 0 {
        lemma_dec_val_nonneg(s.drop_last());
    }
}

/// Reading one more digit multiplies the prefix value by ten and adds it.
proof fn lemma_dec_val_step(s: Seq<char>, j: int)
    requires
        0 <= j < s.len(),
    ensures
        dec_val(s.subrange(0, j + 1)) == 10 * dec_val(s.subrange(0, j)) + dec_digit_val(s[j]),
{
    assert(s.subrange(0, j + 1).drop_last() =~= s.subrange(0, j));
    assert(s.subrange(0, j + 1).last() == s[j]);
}

/// A longer digit prefix never denotes a smaller integer.
proof fn lemma_dec_val_prefix_le(s: Seq<char>, j: int, k: int)
    requires
        0 <= j <= k <= s.len(),
    ensures
        dec_val(s.subrange(0, j)) <= dec_val(s.subrange(0, k)),
    decreases k - j,
{
    if j < k {
        lemma_dec_val_step(s, j);
        lemma_dec_val_nonneg(s.subrange(0, j));
        lemma_dec_val_prefix_le(s, j + 1, k);
    }
}

/// The value of one decimal digit character, or nothing.
fn dec_digit_of(c: char) -> (r: Option<u64>)
    ensures
        r is Some <==> is_dec_digit(c),
        r matches Some(d) ==> d == dec_digit_val(c),
{
    match c {
        '0' => Some(0),
        '1' => Some(1),
        '2' => Some(2),
        '3' => Some(3),
        '4' => Some(4),
        '5' => Some(5),
        '6' => Some(6),
        '7' => Some(7),
        '8' => Some(8),
        '9' => Some(9),
        _ => None,
    }
}

/// Parses a base-10 signed numeral: an optional `-` sign and then decimal
/// digits, nothing else.  Succeeds exactly when the text has that shape and
/// its value fits an `i64`, and then returns that value.
pub fn parse_dec_i64(s: &str) -> (r: Option<i64>)
    ensures
        r is Some <==> is_dec_numeral(s@) && i64::MIN <= numeral_val(s@) <= i64::MAX,
        r matches Some(v) ==> v as int == numeral_val(s@),
{
    let n = s.unicode_len();
    let neg = n > 0 && s.get_char(0) == '-';
    let start: usize = if neg {
        1
    } else {
        0
    };
    let ghost dp = s@.subrange(start as int, s@.len() as int);
    if n == start {
        return None;
    }
    let mut mag: u64 = 0;
    let mut i = start;
    while i < n
        invariant
            start <= i <= n,
            n == s@.len(),
            start == 0 || start == 1,
            (s@.len() > 0 && s@[0] == '-') <==> start == 1,
            dp == s@.subrange(start as int, s@.len() as int),
            forall|j: int| start <= j < i ==> is_dec_digit(s@[j]),
            mag as int == dec_val(dp.subrange(0, i - start)),
            mag <= 0x8000000000000000,
        decreases n - i,
    {
        let c = s.get_char(i);
        let ghost m = i - start;
        assert(dp[m] == s@[i as int]);
        let d = match dec_digit_of(c) {
            Some(d) => d,
            None => {
                proof {
                    if is_dec_numeral(s@) {
                        if start == 1 {
                            assert(s@.subrange(1, s@.len() as int)[i - 1] == s@[i as int]);
                            assert(is_dec_digit(s@.subrange(1, s@.len() as int)[i - 1]));
                        } else {
                            assert(is_dec_digit(s@[i as int]));
                        }
                    }
                }
                return None;
            },
        };
        proof {
            lemma_dec_val_step(dp, m);
        }
        if mag > 922337203685477580 || (mag == 922337203685477580 && d > 8) {
            proof {
                lemma_dec_val_prefix_le(dp, m + 1, dp.len() as int);
                assert(dp.subrange(0, dp.len() as int) =~= dp);
                assert(dec_val(dp) > 0x8000000000000000);
                if is_dec_numeral(s@) {
                    if start == 1 {
                        assert(numeral_val(s@) == -dec_val(dp));
                    } else {
                        assert(s@.subrange(0, s@.len() as int) =~= s@);
                        assert(numeral_val(s@) == dec_val(dp));
                    }
                }
            }
            return None;
        }
        mag = mag * 10 + d;
        i = i + 1;
    }
    proof {
        assert(dp.subrange(0, dp.len() as int) =~= dp);
        if start == 0 {
            assert(s@.subrange(0, s@.len() as int) =~= s@);
        }
    }
    if neg {
        let v: i64 = (-(mag as i128)) as i64;
        Some(v)
    } else {
        if mag > 0x7fffffffffffffff {
            return None;
        }
        Some(mag as i64)
    }
}

} // verus!
