//! Numbers written out.
use vstd::arithmetic::div_mod::lemma_div_denominator;
use vstd::arithmetic::power::{lemma_pow0, lemma_pow1, lemma_pow_positive, pow};
use vstd::prelude::*;

verus! {

/// The character of a decimal digit.
pub open spec fn digit(d: nat) -> char {
    ('0' as nat + d) as char
}

/// A number in decimal, without leading zeros.
pub open spec fn decimal(n: nat) -> Seq<char>
    decreases n,
{
    if n < 10 {
        seq![digit(n)]
    } else {
        decimal(n / 10).push(digit(n % 10))
    }
}

/// The character of a hexadecimal digit, in lower case.
pub open spec fn hex_character(d: nat) -> char {
    if d < 10 {
        digit(d)
    } else {
        ('a' as nat + d - 10) as char
    }
}

/// A number in hexadecimal, without leading zeros.
pub open spec fn hexadecimal(n: nat) -> Seq<char>
    decreases n,
{
    if n < 16 {
        seq![hex_character(n)]
    } else {
        hexadecimal(n / 16).push(hex_character(n % 16))
    }
}

/// `c` is a decimal digit.
pub open spec fn is_digit(c: char) -> bool {
    '0' <= c <= '9'
}

/// What [`decimal`] gives is never empty and holds only digits.
pub proof fn lemma_decimal_digits(n: nat)
    ensures
        decimal(n).len() > 0,
        forall|i: int| 0 <= i < decimal(n).len() ==> is_digit(#[trigger] decimal(n)[i]),
    decreases n,
{
    if n >= 10 {
        lemma_decimal_digits(n / 10);
    }
}

fn digit_text(d: u16) -> (text: &'static str)
    requires
        d < 10,
    ensures
        text@ == seq![digit(d as nat)],
{
    proof {
        reveal_strlit("0");
        reveal_strlit("1");
        reveal_strlit("2");
        reveal_strlit("3");
        reveal_strlit("4");
        reveal_strlit("5");
        reveal_strlit("6");
        reveal_strlit("7");
        reveal_strlit("8");
        reveal_strlit("9");
    }
    match d {
        0 => "0",
        1 => "1",
        2 => "2",
        3 => "3",
        4 => "4",
        5 => "5",
        6 => "6",
        7 => "7",
        8 => "8",
        _ => "9",
    }
}

/// Writes a number in decimal.
pub fn decimal_text(n: u16) -> (text: String)
    ensures
        text@ == decimal(n as nat),
    decreases n,
{
    if n < 10 {
        String::from_str(digit_text(n))
    } else {
        let text = decimal_text(n / 10).concat(digit_text(n % 10));
        assert(text@ =~= decimal(n as nat));
        text
    }
}

/// A number in decimal is positional: the digit `k` places from the end counts for ten to the
/// power of `k`, and there is no digit too many or too few.
pub proof fn law_decimal_is_positional(n: nat, k: nat)
    ensures
        k < decimal(n).len() ==> decimal(n)[decimal(n).len() - 1 - k] as int == '0' as int + (
        n as int / pow(10, k)) % 10,
        n < pow(10, decimal(n).len()),
        decimal(n).len() > 1 ==> pow(10, (decimal(n).len() - 1) as nat) <= n,
        decimal(n).len() > 0,
    decreases n,
{
    lemma_pow_positive(10, k);
    let len = decimal(n).len();
    if n < 10 {
        lemma_pow0(10);
        lemma_pow1(10);
    } else {
        let front = decimal(n / 10);
        let before = if k == 0 {
            0
        } else {
            (k - 1) as nat
        };
        law_decimal_is_positional(n / 10, before);
        assert(pow(10, len) == 10 * pow(10, front.len())) by {
            reveal(pow);
        }
        if front.len() > 1 {
            assert(pow(10, front.len()) == 10 * pow(10, (front.len() - 1) as nat)) by {
                reveal(pow);
            }
        } else {
            lemma_pow1(10);
        }
        if k == 0 {
            lemma_pow0(10);
        } else if k < len {
            lemma_pow_positive(10, before);
            assert(pow(10, k) == 10 * pow(10, before)) by {
                reveal(pow);
            }
            lemma_div_denominator(n as int, 10, pow(10, before));
            assert(decimal(n)[len - 1 - k] == front[front.len() - 1 - before]);
        }
    }
}

/// A number in hexadecimal is positional: the digit `k` places from the end counts for sixteen
/// to the power of `k`, and there is no digit too many or too few. The digits are `0` to `9` and
/// `a` to `f`.
pub proof fn law_hexadecimal_is_positional(n: nat, k: nat)
    ensures
        k < hexadecimal(n).len() ==> ({
            let value = (n as int / pow(16, k)) % 16;
            hexadecimal(n)[hexadecimal(n).len() - 1 - k] as int == if value < 10 {
                '0' as int + value
            } else {
                'a' as int + value - 10
            }
        }),
        n < pow(16, hexadecimal(n).len()),
        hexadecimal(n).len() > 1 ==> pow(16, (hexadecimal(n).len() - 1) as nat) <= n,
        hexadecimal(n).len() > 0,
    decreases n,
{
    lemma_pow_positive(16, k);
    let len = hexadecimal(n).len();
    if n < 16 {
        lemma_pow0(16);
        lemma_pow1(16);
    } else {
        let front = hexadecimal(n / 16);
        let before = if k == 0 {
            0
        } else {
            (k - 1) as nat
        };
        law_hexadecimal_is_positional(n / 16, before);
        assert(pow(16, len) == 16 * pow(16, front.len())) by {
            reveal(pow);
        }
        if front.len() > 1 {
            assert(pow(16, front.len()) == 16 * pow(16, (front.len() - 1) as nat)) by {
                reveal(pow);
            }
        } else {
            lemma_pow1(16);
        }
        if k == 0 {
            lemma_pow0(16);
        } else if k < len {
            lemma_pow_positive(16, before);
            assert(pow(16, k) == 16 * pow(16, before)) by {
                reveal(pow);
            }
            lemma_div_denominator(n as int, 16, pow(16, before));
            assert(hexadecimal(n)[len - 1 - k] == front[front.len() - 1 - before]);
        }
    }
}

} // verus!
