//! Decimal and hexadecimal digits, appended to a `String`.
use vstd::prelude::*;
use vstd::string::StringExecFns;

verus! {

/// The upper-case hexadecimal digit of `d` (which is below 16); below 10 it is also the
/// decimal digit.
pub open spec fn hex_digit(d: nat) -> char {
    if d < 10 {
        (d + 48) as char
    } else {
        (d + 55) as char
    }
}

/// `n` written in decimal, without leading zeros.
pub open spec fn decimal(n: nat) -> Seq<char>
    decreases n,
{
    if n < 10 {
        seq![hex_digit(n)]
    } else {
        decimal(n / 10) + seq![hex_digit(n % 10)]
    }
}

/// `b` written as two upper-case hexadecimal digits, with a leading zero below 16.
pub open spec fn hex2(b: u8) -> Seq<char> {
    seq![hex_digit((b / 16) as nat), hex_digit((b % 16) as nat)]
}

/// The one-character string of the digit `d`.
fn digit_str(d: u8) -> (s: &'static str)
    requires
        d < 16,
    ensures
        s@ == seq![hex_digit(d as nat)],
{
    match d {
        0 => {
            proof {
                reveal_strlit("0");
            }
            "0"
        },
        1 => {
            proof {
                reveal_strlit("1");
            }
            "1"
        },
        2 => {
            proof {
                reveal_strlit("2");
            }
            "2"
        },
        3 => {
            proof {
                reveal_strlit("3");
            }
            "3"
        },
        4 => {
            proof {
                reveal_strlit("4");
            }
            "4"
        },
        5 => {
            proof {
                reveal_strlit("5");
            }
            "5"
        },
        6 => {
            proof {
                reveal_strlit("6");
            }
            "6"
        },
        7 => {
            proof {
                reveal_strlit("7");
            }
            "7"
        },
        8 => {
            proof {
                reveal_strlit("8");
            }
            "8"
        },
        9 => {
            proof {
                reveal_strlit("9");
            }
            "9"
        },
        10 => {
            proof {
                reveal_strlit("A");
            }
            "A"
        },
        11 => {
            proof {
                reveal_strlit("B");
            }
            "B"
        },
        12 => {
            proof {
                reveal_strlit("C");
            }
            "C"
        },
        13 => {
            proof {
                reveal_strlit("D");
            }
            "D"
        },
        14 => {
            proof {
                reveal_strlit("E");
            }
            "E"
        },
        _ => {
            proof {
                reveal_strlit("F");
            }
            "F"
        },
    }
}

/// Appends `n` in decimal to `s`.
pub fn push_decimal(s: &mut String, n: u64)
    ensures
        final(s)@ == old(s)@ + decimal(n as nat),
    decreases n,
{
    if n >= 10 {
        push_decimal(s, n / 10);
    }
    let d: u8 = (n % 10) as u8;
    s.append(digit_str(d));
    assert(s@ =~= old(s)@ + decimal(n as nat));
}

/// Appends `b` as two upper-case hexadecimal digits to `s`.
pub fn push_hex2(s: &mut String, b: u8)
    ensures
        final(s)@ == old(s)@ + hex2(b),
{
    s.append(digit_str(b / 16));
    s.append(digit_str(b % 16));
    assert(s@ =~= old(s)@ + hex2(b));
}

/// The value that a character has as a digit: `0`-`9` are 0 to 9 and `A`-`F` are 10
/// to 15; any other character has none (-1).
pub open spec fn hex_char_value(c: char) -> int {
    if '0' <= c && c <= '9' {
        c as int - '0' as int
    } else if 'A' <= c && c <= 'F' {
        c as int - 'A' as int + 10
    } else {
        -1
    }
}

/// The number that a string of digits in base `radix` is read as.
pub open spec fn digits_value(s: Seq<char>, radix: int) -> int
    decreases s.len(),
{
    if s.len() == 0 {
        0
    } else {
        digits_value(s.drop_last(), radix) * radix + hex_char_value(s.last())
    }
}

/// The digit written for `d` is the standard one: read back as a digit it is `d`; below
/// 10 it is one of `0`-`9`, from 10 on one of `A`-`F`.
pub proof fn lemma_hex_digit_reads_back(d: nat)
    requires
        d < 16,
    ensures
        hex_char_value(hex_digit(d)) == d,
        d < 10 ==> '0' <= hex_digit(d) && hex_digit(d) <= '9',
        d >= 10 ==> 'A' <= hex_digit(d) && hex_digit(d) <= 'F',
{
}

/// Two hexadecimal digits read back as the byte they were written for.
pub proof fn lemma_hex2_reads_back(b: u8)
    ensures
        hex2(b).len() == 2,
        digits_value(hex2(b), 16) == b,
{
    lemma_hex_digit_reads_back((b / 16) as nat);
    lemma_hex_digit_reads_back((b % 16) as nat);
    let s = hex2(b);
    assert(s.drop_last().drop_last() =~= Seq::<char>::empty());
    assert(s.drop_last().last() == hex_digit((b / 16) as nat));
    assert(s.last() == hex_digit((b % 16) as nat));
    assert(digits_value(s.drop_last().drop_last(), 16) == 0);
    assert(digits_value(s.drop_last(), 16) == b / 16);
    assert(digits_value(s, 16) == (b / 16) * 16 + b % 16);
}

/// A number written in decimal reads back as the number, every character is one of
/// `0`-`9`, and there is no leading zero.
pub proof fn lemma_decimal_reads_back(n: nat)
    ensures
        digits_value(decimal(n), 10) == n,
        decimal(n).len() > 0,
        forall|i: int| 0 <= i < decimal(n).len() ==> '0' <= #[trigger] decimal(n)[i] && decimal(n)[i] <= '9',
        decimal(n).len() > 1 ==> decimal(n)[0] != '0',
    decreases n,
{
    if n < 10 {
        lemma_hex_digit_reads_back(n);
        assert(decimal(n).drop_last() =~= Seq::<char>::empty());
        assert(digits_value(decimal(n).drop_last(), 10) == 0);
    } else {
        lemma_decimal_reads_back(n / 10);
        lemma_hex_digit_reads_back(n % 10);
        let s = decimal(n);
        assert(s.drop_last() =~= decimal(n / 10));
        assert(s.last() == hex_digit(n % 10));
        assert(digits_value(s, 10) == digits_value(decimal(n / 10), 10) * 10 + hex_char_value(
            hex_digit(n % 10),
        ));
        assert(n == (n / 10) * 10 + n % 10);
        assert forall|i: int| 0 <= i < s.len() implies '0' <= #[trigger] s[i] && s[i] <= '9' by {
            if i < s.len() - 1 {
                assert(s[i] == decimal(n / 10)[i]);
            }
        }
        assert(s[0] == decimal(n / 10)[0]);
        if n / 10 < 10 {
            assert(decimal(n / 10) == seq![hex_digit(n / 10)]);
            lemma_hex_digit_reads_back(n / 10);
        } else {
            lemma_decimal_reads_back(n / 100);
            assert(n / 10 / 10 == n / 100);
            assert(decimal(n / 10).len() == decimal(n / 100).len() + 1);
        }
    }
}

/// Reading a string followed by two digits.
pub proof fn lemma_digits_value_append2(s: Seq<char>, t: Seq<char>, radix: int)
    requires
        t.len() == 2,
    ensures
        digits_value(s + t, radix) == digits_value(s, radix) * radix * radix + digits_value(t, radix),
{
    let st = s + t;
    assert(st.drop_last() =~= s + seq![t[0]]);
    assert((s + seq![t[0]]).drop_last() =~= s);
    assert(t.drop_last().drop_last() =~= Seq::<char>::empty());
    assert(digits_value(t.drop_last().drop_last(), radix) == 0);
    assert(t.drop_last().last() == t[0]);
    assert(digits_value(t.drop_last(), radix) == 0 * radix + hex_char_value(t[0]));
    assert(digits_value(t, radix) == hex_char_value(t[0]) * radix + hex_char_value(t[1]));
    assert(digits_value(s + seq![t[0]], radix) == digits_value(s, radix) * radix + hex_char_value(
        t[0],
    ));
    assert(digits_value(st, radix) == digits_value(s + seq![t[0]], radix) * radix + hex_char_value(
        t[1],
    ));
    assert((digits_value(s, radix) * radix + hex_char_value(t[0])) * radix == digits_value(s, radix)
        * radix * radix + hex_char_value(t[0]) * radix) by (nonlinear_arith);
}

} // verus!
