//! Decimal text of integers and of fixed-point prices.
use vstd::prelude::*;

verus! {

/// The character of a decimal digit.
pub open spec fn digit_char(d: nat) -> char {
    ((d + 48) as u8) as char
}

/// The decimal digits of `n`, without sign or leading zeros.
pub open spec fn decimal_text(n: nat) -> Seq<char>
    decreases n,
{
    if n < 10 {
        seq![digit_char(n)]
    } else {
        decimal_text(n / 10).push(digit_char(n % 10))
    }
}

/// `n` zeros.
pub open spec fn zeros(n: int) -> Seq<char> {
    Seq::new(if n > 0 { n as nat } else { 0 }, |i: int| '0')
}

/// The fraction digits of `f / 10^width`, trailing zeros dropped.
pub open spec fn fraction_text(f: nat, width: nat) -> Seq<char>
    decreases width,
{
    if f > 0 && f % 10 == 0 && width > 0 {
        fraction_text(f / 10, (width - 1) as nat)
    } else {
        zeros(width - decimal_text(f).len()) + decimal_text(f)
    }
}

/// A fixed-point price as decimal text: the whole part and, when there is a
/// fraction, a point and its digits without trailing zeros.
pub open spec fn price_text(p: u64) -> Seq<char> {
    if p % 10000 == 0 {
        decimal_text((p / 10000) as nat)
    } else {
        decimal_text((p / 10000) as nat) + seq!['.'] + fraction_text((p % 10000) as nat, 4)
    }
}

/// The character of the digit `d` as a one-character text.
fn digit_text(d: u64) -> (r: &'static str)
    requires
        d < 10,
    ensures
        r@ == seq![digit_char(d as nat)],
{
    match d {
        0 => {
            proof {
                reveal_strlit("0");
            }
            "0"
        },
        1 => {
            proof {
                reveal_strlit("1");
            }
            "1"
        },
        2 => {
            proof {
                reveal_strlit("2");
            }
            "2"
        },
        3 => {
            proof {
                reveal_strlit("3");
            }
            "3"
        },
        4 => {
            proof {
                reveal_strlit("4");
            }
            "4"
        },
        5 => {
            proof {
                reveal_strlit("5");
            }
            "5"
        },
        6 => {
            proof {
                reveal_strlit("6");
            }
            "6"
        },
        7 => {
            proof {
                reveal_strlit("7");
            }
            "7"
        },
        8 => {
            proof {
                reveal_strlit("8");
            }
            "8"
        },
        _ => {
            proof {
                reveal_strlit("9");
            }
            "9"
        },
    }
}

/// The decimal digits of `n`, with no sign and no leading zeros.
pub fn decimal(n: u64) -> (r: String)
    ensures
        r@ == decimal_text(n as nat),
    decreases n,
{
    if n < 10 {
        String::from_str(digit_text(n))
    } else {
        let mut r = decimal(n / 10);
        r.append(digit_text(n % 10));
        r
    }
}

fn zero_string(n: usize) -> (r: String)
    ensures
        r@ == zeros(n as int),
{
    let mut r = String::new();
    let mut i: usize = 0;
    while i < n
        invariant
            i <= n,
            r@ == zeros(i as int),
        decreases n - i,
    {
        r.append("0");
        proof {
            reveal_strlit("0");
        }
        i = i + 1;
        assert(r@ =~= zeros(i as int));
    }
    r
}

/// The price `p` as decimal text.
pub fn format_price(p: u64) -> (r: String)
    ensures
        r@ == price_text(p),
{
    let mut r = decimal(p / 10000);
    let frac = p % 10000;
    if frac == 0 {
        return r;
    }
    r.append(".");
    proof {
        reveal_strlit(".");
    }
    let mut f: u64 = frac;
    let mut width: usize = 4;
    while f % 10 == 0 && width > 0
        invariant
            f > 0,
            width <= 4,
            fraction_text(f as nat, width as nat) == fraction_text(frac as nat, 4),
        decreases width,
    {
        f = f / 10;
        width = width - 1;
    }
    let digits = decimal(f);
    let n = digits.unicode_len();
    let pad = if width > n {
        width - n
    } else {
        0
    };
    let zs = zero_string(pad);
    r.append(zs.as_str());
    r.append(digits.as_str());
    proof {
        assert(zeros(pad as int) =~= zeros(width - decimal_text(f as nat).len()));
    }
    r
}

} // verus!
