//! Decimal rendering of durations for the diagnostic view.

use vstd::prelude::*;
use vstd::string::StringExecFns;

verus! {

/// The character for one decimal digit.
pub open spec fn digit_char(d: int) -> char {
    if d == 0 {
        '0'
    } else if d == 1 {
        '1'
    } else if d == 2 {
        '2'
    } else if d == 3 {
        '3'
    } else if d == 4 {
        '4'
    } else if d == 5 {
        '5'
    } else if d == 6 {
        '6'
    } else if d == 7 {
        '7'
    } else if d == 8 {
        '8'
    } else {
        '9'
    }
}

/// The decimal numeral of `n`: most significant digit first, no leading
/// zeros.
pub open spec fn dec_digits(n: nat) -> Seq<char>
    decreases n,
{
    if n < 10 {
        seq![digit_char(n as int)]
    } else {
        dec_digits(n / 10) + seq![digit_char((n % 10) as int)]
    }
}

/// `count` zero characters.
pub open spec fn zeros(count: int) -> Seq<char> {
    Seq::new(count as nat, |i: int| '0')
}

/// The numeral of `n`, zero-padded on the left to at least five characters,
/// as the diagnostic table prints a duration.
pub open spec fn padded5(n: u64) -> Seq<char> {
    if dec_digits(n as nat).len() >= 5 {
        dec_digits(n as nat)
    } else {
        zeros(5 - dec_digits(n as nat).len()) + dec_digits(n as nat)
    }
}

/// How many characters the numeral has, by magnitude.
proof fn lemma_dec_digits_len(n: nat)
    ensures
        1 <= dec_digits(n).len(),
        n < 10 ==> dec_digits(n).len() == 1,
        n < 100 ==> dec_digits(n).len() <= 2,
        n < 1000 ==> dec_digits(n).len() <= 3,
        n < 10000 ==> dec_digits(n).len() <= 4,
        10 <= n ==> dec_digits(n).len() >= 2,
        100 <= n ==> dec_digits(n).len() >= 3,
        1000 <= n ==> dec_digits(n).len() >= 4,
        10000 <= n ==> dec_digits(n).len() >= 5,
    decreases n,
{
    if n >= 10 {
        lemma_dec_digits_len(n / 10);
    }
}

/// Appends the character of one digit.
fn append_digit(text: &mut String, d: u64)
    requires
        d < 10,
    ensures
        final(text)@ == old(text)@ + seq![digit_char(d as int)],
{
    if d == 0 {
        text.append("0");
        proof {
            reveal_strlit("0");
            assert("0"@ =~= seq![digit_char(0)]);
        }
    } else if d == 1 {
        text.append("1");
        proof {
            reveal_strlit("1");
            assert("1"@ =~= seq![digit_char(1)]);
        }
    } else if d == 2 {
        text.append("2");
        proof {
            reveal_strlit("2");
            assert("2"@ =~= seq![digit_char(2)]);
        }
    } else if d == 3 {
        text.append("3");
        proof {
            reveal_strlit("3");
            assert("3"@ =~= seq![digit_char(3)]);
        }
    } else if d == 4 {
        text.append("4");
        proof {
            reveal_strlit("4");
            assert("4"@ =~= seq![digit_char(4)]);
        }
    } else if d == 5 {
        text.append("5");
        proof {
            reveal_strlit("5");
            assert("5"@ =~= seq![digit_char(5)]);
        }
    } else if d == 6 {
        text.append("6");
        proof {
            reveal_strlit("6");
            assert("6"@ =~= seq![digit_char(6)]);
        }
    } else if d == 7 {
        text.append("7");
        proof {
            reveal_strlit("7");
            assert("7"@ =~= seq![digit_char(7)]);
        }
    } else if d == 8 {
        text.append("8");
        proof {
            reveal_strlit("8");
            assert("8"@ =~= seq![digit_char(8)]);
        }
    } else {
        text.append("9");
        proof {
            reveal_strlit("9");
            assert("9"@ =~= seq![digit_char(9)]);
        }
    }
}

/// Appends the decimal numeral of `n`.
fn append_decimal(text: &mut String, n: u64)
    ensures
        final(text)@ == old(text)@ + dec_digits(n as nat),
    decreases n,
{
    if n < 10 {
        append_digit(text, n);
    } else {
        append_decimal(text, n / 10);
        append_digit(text, n % 10);
        proof {
            assert(old(text)@ + dec_digits((n / 10) as nat) + seq![digit_char((n % 10) as int)]
                =~= old(text)@ + dec_digits(n as nat));
        }
    }
}

/// Appends the numeral of `n`, zero-padded on the left to at least five
/// characters.
pub fn append_padded(text: &mut String, n: u64)
    ensures
        final(text)@ == old(text)@ + padded5(n),
{
    proof {
        lemma_dec_digits_len(n as nat);
    }
    if n < 10 {
        text.append("0000");
        proof {
            reveal_strlit("0000");
            assert("0000"@ =~= zeros(4));
        }
    } else if n < 100 {
        text.append("000");
        proof {
            reveal_strlit("000");
            assert("000"@ =~= zeros(3));
        }
    } else if n < 1000 {
        text.append("00");
        proof {
            reveal_strlit("00");
            assert("00"@ =~= zeros(2));
        }
    } else if n < 10000 {
        text.append("0");
        proof {
            reveal_strlit("0");
            assert("0"@ =~= zeros(1));
        }
    }
    append_decimal(text, n);
    proof {
        if n < 10000 {
            assert(old(text)@ + zeros(5 - dec_digits(n as nat).len()) + dec_digits(n as nat)
                =~= old(text)@ + padded5(n));
        } else {
            assert(old(text)@ + dec_digits(n as nat) =~= old(text)@ + padded5(n));
        }
    }
}

} // verus!
