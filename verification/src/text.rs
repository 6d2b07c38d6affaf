//! Numbers written as text: digits in a base, left-padded with zeros.

use vstd::prelude::*;

verus! {

/// The character of digit `d` (`0`-`9`, then `A`-`F`).
pub open spec fn digit_char(d: nat) -> char {
    if d == 0 {
        '0'
    } else if d == 1 {
        '1'
    } else if d == 2 {
        '2'
    } else if d == 3 {
        '3'
    } else if d == 4 {
        '4'
    } else if d == 5 {
        '5'
    } else if d == 6 {
        '6'
    } else if d == 7 {
        '7'
    } else if d == 8 {
        '8'
    } else if d == 9 {
        '9'
    } else if d == 10 {
        'A'
    } else if d == 11 {
        'B'
    } else if d == 12 {
        'C'
    } else if d == 13 {
        'D'
    } else if d == 14 {
        'E'
    } else {
        'F'
    }
}

/// The digits of `v` in base `b`, most significant first, with zeros in
/// front up to `w` digits (at least one digit).
pub open spec fn digits(v: nat, b: nat, w: nat) -> Seq<char>
    decreases v + w,
{
    if b < 2 || (v < b && w <= 1) {
        seq![digit_char(v % 16)]
    } else {
        proof {
            assert(v / b <= v && (v >= b ==> v / b < v)) by (nonlinear_arith)
                requires
                    b >= 2,
            ;
        }
        digits(v / b, b, if w > 0 { (w - 1) as nat } else { 0 }) + seq![digit_char(v % b)]
    }
}

/// The text of digit `d`.
fn digit_str(d: u64) -> (r: &'static str)
    requires
        d < 16,
    ensures
        r@ == seq![digit_char(d as nat)],
{
    match d {
        0 => {
            proof {
                reveal_strlit("0");
            }
            "0"
        },
        1 => {
            proof {
                reveal_strlit("1");
            }
            "1"
        },
        2 => {
            proof {
                reveal_strlit("2");
            }
            "2"
        },
        3 => {
            proof {
                reveal_strlit("3");
            }
            "3"
        },
        4 => {
            proof {
                reveal_strlit("4");
            }
            "4"
        },
        5 => {
            proof {
                reveal_strlit("5");
            }
            "5"
        },
        6 => {
            proof {
                reveal_strlit("6");
            }
            "6"
        },
        7 => {
            proof {
                reveal_strlit("7");
            }
            "7"
        },
        8 => {
            proof {
                reveal_strlit("8");
            }
            "8"
        },
        9 => {
            proof {
                reveal_strlit("9");
            }
            "9"
        },
        10 => {
            proof {
                reveal_strlit("A");
            }
            "A"
        },
        11 => {
            proof {
                reveal_strlit("B");
            }
            "B"
        },
        12 => {
            proof {
                reveal_strlit("C");
            }
            "C"
        },
        13 => {
            proof {
                reveal_strlit("D");
            }
            "D"
        },
        14 => {
            proof {
                reveal_strlit("E");
            }
            "E"
        },
        _ => {
            proof {
                reveal_strlit("F");
            }
            "F"
        },
    }
}

/// Append the digits of `v` in base `b`, at least `w` of them.
pub fn push_digits(s: &mut String, v: u64, b: u64, w: u64)
    requires
        2 <= b <= 16,
    ensures
        final(s)@ == old(s)@ + digits(v as nat, b as nat, w as nat),
    decreases v + w,
{
    if v < b && w <= 1 {
        s.append(digit_str(v));
    } else {
        assert(v / b <= v && (v >= b ==> v / b < v)) by (nonlinear_arith)
            requires
                b >= 2,
        ;
        let w2: u64 = if w > 0 { w - 1 } else { 0 };
        push_digits(s, v / b, b, w2);
        s.append(digit_str(v % b));
        assert(final(s)@ =~= old(s)@ + digits(v as nat, b as nat, w as nat)) by {
            assert(digits(v as nat, b as nat, w as nat) == digits((v / b) as nat, b as nat, w2 as nat) + seq![digit_char((v % b) as nat)]);
        }
    }
}

/// The text of a number: the digits of `v` in base `b`, at least `w`.
pub fn digits_text(prefix: &str, v: u64, b: u64, w: u64) -> (r: String)
    requires
        2 <= b <= 16,
    ensures
        r@ == prefix@ + digits(v as nat, b as nat, w as nat),
{
    let mut s = String::from_str(prefix);
    push_digits(&mut s, v, b, w);
    s
}

} // verus!
