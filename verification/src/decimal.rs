//! The decimal notation of integers, as `Display` writes it.
use vstd::prelude::*;

verus! {

/// The character of a decimal digit.
pub open spec fn digit_char(d: nat) -> char {
    if d == 0 {
        '0'
    } else if d == 1 {
        '1'
    } else if d == 2 {
        '2'
    } else if d == 3 {
        '3'
    } else if d == 4 {
        '4'
    } else if d == 5 {
        '5'
    } else if d == 6 {
        '6'
    } else if d == 7 {
        '7'
    } else if d == 8 {
        '8'
    } else {
        '9'
    }
}

/// The digits of a natural number, most significant first, without leading
/// zeros (zero is `0`).
pub open spec fn nat_digits(n: nat) -> Seq<char>
    decreases n,
{
    if n < 10 {
        seq![digit_char(n)]
    } else {
        nat_digits(n / 10).push(digit_char(n % 10))
    }
}

/// The decimal notation of an integer: a minus sign in front of a negative
/// number, then its digits.
pub open spec fn decimal(n: int) -> Seq<char> {
    if n < 0 {
        seq!['-'] + nat_digits((-n) as nat)
    } else {
        nat_digits(n as nat)
    }
}

fn digit_str(d: u64) -> (r: &'static str)
    requires
        d < 10,
    ensures
        r@ == seq![digit_char(d as nat)],
{
    if d == 0 {
        proof {
            reveal_strlit("0");
        }
        "0"
    } else if d == 1 {
        proof {
            reveal_strlit("1");
        }
        "1"
    } else if d == 2 {
        proof {
            reveal_strlit("2");
        }
        "2"
    } else if d == 3 {
        proof {
            reveal_strlit("3");
        }
        "3"
    } else if d == 4 {
        proof {
            reveal_strlit("4");
        }
        "4"
    } else if d == 5 {
        proof {
            reveal_strlit("5");
        }
        "5"
    } else if d == 6 {
        proof {
            reveal_strlit("6");
        }
        "6"
    } else if d == 7 {
        proof {
            reveal_strlit("7");
        }
        "7"
    } else if d == 8 {
        proof {
            reveal_strlit("8");
        }
        "8"
    } else {
        proof {
            reveal_strlit("9");
        }
        "9"
    }
}

/// The digits of `n`, most significant first.
pub fn u64_to_decimal(n: u64) -> (r: String)
    ensures
        r@ == nat_digits(n as nat),
{
    let mut m = n;
    let mut s = String::new();
    while m >= 10
        invariant
            nat_digits(n as nat) == nat_digits(m as nat) + s@,
        decreases m,
    {
        let d = m % 10;
        let mut t = digit_str(d).to_owned();
        t.append(s.as_str());
        assert(nat_digits(m as nat) == nat_digits((m / 10) as nat).push(digit_char(d as nat)));
        assert(nat_digits(m as nat) + s@ =~= nat_digits((m / 10) as nat) + t@);
        s = t;
        m = m / 10;
    }
    let mut t = digit_str(m).to_owned();
    t.append(s.as_str());
    assert(nat_digits(n as nat) =~= t@);
    t
}

/// The decimal notation of `n`, as `n.to_string()` gives it.
pub fn i32_to_decimal(n: i32) -> (r: String)
    ensures
        r@ == decimal(n as int),
{
    if n < 0 {
        let abs: u64 = (0 - (n as i64)) as u64;
        let digits = u64_to_decimal(abs);
        proof {
            reveal_strlit("-");
        }
        let mut s = "-".to_owned();
        s.append(digits.as_str());
        s
    } else {
        u64_to_decimal(n as u64)
    }
}

} // verus!
