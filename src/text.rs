use vstd::prelude::*;
use vstd::string::StringExecFns;

verus! {

/// Numbers of the exposition are fixed-point values: an `i64` (or, for sums, an
/// `i128`) counts millionths of a unit.
pub const SCALE: u64 = 1000000;

pub open spec fn digit_char(d: int) -> char {
    if d == 0 {
        '0'
    } else if d == 1 {
        '1'
    } else if d == 2 {
        '2'
    } else if d == 3 {
        '3'
    } else if d == 4 {
        '4'
    } else if d == 5 {
        '5'
    } else if d == 6 {
        '6'
    } else if d == 7 {
        '7'
    } else if d == 8 {
        '8'
    } else {
        '9'
    }
}

/// Decimal digits of `n`, without leading zeros ("0" for zero).
pub open spec fn digits(n: nat) -> Seq<char>
    decreases n,
{
    if n < 10 {
        seq![digit_char(n as int)]
    } else {
        digits(n / 10) + seq![digit_char((n % 10) as int)]
    }
}

/// The last `w` decimal digits of `n`, padded with zeros on the left.
pub open spec fn padded(n: nat, w: nat) -> Seq<char>
    decreases w,
{
    if w == 0 {
        Seq::empty()
    } else {
        padded(n / 10, (w - 1) as nat) + seq![digit_char((n % 10) as int)]
    }
}

/// The fraction `n / 10^w` written after the point, trailing zeros dropped.
pub open spec fn trimmed(n: nat, w: nat) -> Seq<char>
    decreases w,
{
    if w > 0 && n % 10 == 0 {
        trimmed(n / 10, (w - 1) as nat)
    } else {
        padded(n, w)
    }
}

pub open spec fn abs(v: int) -> nat {
    if v < 0 {
        (-v) as nat
    } else {
        v as nat
    }
}

/// Shortest decimal text of the fixed-point value `v` (millionths): an optional
/// minus sign, the integer part, and the fraction only when it is not zero.
pub open spec fn fixed_text(v: int) -> Seq<char> {
    let a = abs(v);
    let sign = if v < 0 {
        seq!['-']
    } else {
        Seq::empty()
    };
    let frac = if a % (SCALE as nat) == 0 {
        Seq::empty()
    } else {
        seq!['.'] + trimmed(a % (SCALE as nat), 6)
    };
    sign + digits(a / (SCALE as nat)) + frac
}

fn digit_str(d: u8) -> (r: &'static str)
    requires
        d < 10,
    ensures
        r@ == seq![digit_char(d as int)],
{
    proof {
        reveal_strlit("0");
        reveal_strlit("1");
        reveal_strlit("2");
        reveal_strlit("3");
        reveal_strlit("4");
        reveal_strlit("5");
        reveal_strlit("6");
        reveal_strlit("7");
        reveal_strlit("8");
        reveal_strlit("9");
    }
    if d == 0 {
        "0"
    } else if d == 1 {
        "1"
    } else if d == 2 {
        "2"
    } else if d == 3 {
        "3"
    } else if d == 4 {
        "4"
    } else if d == 5 {
        "5"
    } else if d == 6 {
        "6"
    } else if d == 7 {
        "7"
    } else if d == 8 {
        "8"
    } else {
        "9"
    }
}

/// Appends the decimal digits of `n`.
pub fn push_digits(s: &mut String, n: u128)
    ensures
        final(s)@ == old(s)@ + digits(n as nat),
    decreases n,
{
    if n < 10 {
        s.append(digit_str(n as u8));
    } else {
        push_digits(s, n / 10);
        s.append(digit_str((n % 10) as u8));
        assert(digits(n as nat) == digits((n / 10) as nat) + seq![digit_char((n % 10) as int)]);
    }
}

fn push_padded(s: &mut String, n: u64, w: u64)
    ensures
        final(s)@ == old(s)@ + padded(n as nat, w as nat),
    decreases w,
{
    if w > 0 {
        push_padded(s, n / 10, w - 1);
        s.append(digit_str((n % 10) as u8));
    }
}

/// Appends the text of the fixed-point value `v`.
pub fn push_fixed(s: &mut String, v: i128)
    ensures
        final(s)@ == old(s)@ + fixed_text(v as int),
{
    let ghost s0 = s@;
    let a: u128 = if v < 0 {
        if v == i128::MIN {
            (i128::MAX as u128) + 1
        } else {
            (-v) as u128
        }
    } else {
        v as u128
    };
    assert(a as nat == abs(v as int));
    if v < 0 {
        proof {
            reveal_strlit("-");
        }
        s.append("-");
    }
    push_digits(s, a / (SCALE as u128));
    let r: u64 = (a % (SCALE as u128)) as u64;
    if r != 0 {
        proof {
            reveal_strlit(".");
        }
        s.append(".");
        let mut n: u64 = r;
        let mut w: u64 = 6;
        while w > 0 && n % 10 == 0
            invariant
                w <= 6,
                n > 0,
                trimmed(r as nat, 6) == trimmed(n as nat, w as nat),
            decreases w,
        {
            n = n / 10;
            w = w - 1;
        }
        push_padded(s, n, w);
    }
    assert(s@ =~= s0 + fixed_text(v as int));
}

} // verus!
