//! Rendering numbers into the messages that the library reports.

use vstd::prelude::*;
use vstd::string::*;

verus! {

/// The character of a decimal digit.
pub open spec fn digit_char(d: nat) -> char {
    (48 + d) as char
}

/// The decimal representation of `n`, without leading zeros.
pub open spec fn decimal(n: nat) -> Seq<char>
    decreases n,
{
    if n < 10 {
        seq![digit_char(n)]
    } else {
        decimal(n / 10).push(digit_char(n % 10))
    }
}

/// The decimal digit `d`.
fn digit_text(d: u8) -> (r: String)
    requires
        d < 10,
    ensures
        r@ == seq![digit_char(d as nat)],
{
    match d {
        0 => {
            proof {
                reveal_strlit("0");
            }
            String::from_str("0")
        },
        1 => {
            proof {
                reveal_strlit("1");
            }
            String::from_str("1")
        },
        2 => {
            proof {
                reveal_strlit("2");
            }
            String::from_str("2")
        },
        3 => {
            proof {
                reveal_strlit("3");
            }
            String::from_str("3")
        },
        4 => {
            proof {
                reveal_strlit("4");
            }
            String::from_str("4")
        },
        5 => {
            proof {
                reveal_strlit("5");
            }
            String::from_str("5")
        },
        6 => {
            proof {
                reveal_strlit("6");
            }
            String::from_str("6")
        },
        7 => {
            proof {
                reveal_strlit("7");
            }
            String::from_str("7")
        },
        8 => {
            proof {
                reveal_strlit("8");
            }
            String::from_str("8")
        },
        _ => {
            proof {
                reveal_strlit("9");
            }
            String::from_str("9")
        },
    }
}

/// The decimal form of `n`, without sign or leading zeros, as `to_string`
/// writes it.
pub fn u64_to_decimal(n: u64) -> (r: String)
    ensures
        r@ == decimal(n as nat),
    decreases n,
{
    if n < 10 {
        digit_text(n as u8)
    } else {
        let head = u64_to_decimal(n / 10);
        let last = digit_text((n % 10) as u8);
        head.concat(last.as_str())
    }
}

/// The decimal form of `n`, without sign or leading zeros, as `to_string`
/// writes it.
pub fn u128_to_decimal(n: u128) -> (r: String)
    ensures
        r@ == decimal(n as nat),
    decreases n,
{
    if n < 10 {
        digit_text(n as u8)
    } else {
        let head = u128_to_decimal(n / 10);
        let last = digit_text((n % 10) as u8);
        head.concat(last.as_str())
    }
}

/// `t` tenths written with one decimal place, as `{:.1}` prints a number.
pub open spec fn one_decimal(t: nat) -> Seq<char> {
    decimal(t / 10) + seq!['.'] + seq![digit_char(t % 10)]
}

/// `t` tenths written with one decimal place, as `{:.1}` prints a number.
pub fn tenths_text(t: u128) -> (r: String)
    ensures
        r@ == one_decimal(t as nat),
{
    let whole = u128_to_decimal(t / 10);
    let frac = u128_to_decimal(t % 10);
    assert(decimal((t % 10) as nat) == seq![digit_char((t % 10) as nat)]);
    let s = whole.concat(".");
    proof {
        reveal_strlit(".");
    }
    s.concat(frac.as_str())
}

/// `a` followed by `b`.
pub fn join2(a: &str, b: &str) -> (r: String)
    ensures
        r@ == a@ + b@,
{
    let s = String::from_str(a);
    s.concat(b)
}

/// `a` followed by the decimal form of `n`.
pub fn text_with_number(a: &str, n: u64) -> (r: String)
    ensures
        r@ == a@ + decimal(n as nat),
{
    let d = u64_to_decimal(n);
    join2(a, d.as_str())
}

/// `a`, the decimal form of `n`, then `b`.
pub fn text_number_text(a: &str, n: u64, b: &str) -> (r: String)
    ensures
        r@ == a@ + decimal(n as nat) + b@,
{
    let s = text_with_number(a, n);
    s.concat(b)
}

/// `a`, `m`, `b`, `n`, each number in decimal.
pub fn text_two_numbers(a: &str, m: u64, b: &str, n: u64) -> (r: String)
    ensures
        r@ == a@ + decimal(m as nat) + b@ + decimal(n as nat),
{
    let s = text_number_text(a, m, b);
    let d = u64_to_decimal(n);
    s.concat(d.as_str())
}

} // verus!
