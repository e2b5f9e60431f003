//! Decimal text of integers, as `Display` and `{:0w}` write it.

use vstd::prelude::*;

use vstd::string::StrSliceExecFns;

use crate::codec::concat_str;

verus! {

/// The character of a decimal digit.
pub open spec fn digit_char(d: nat) -> char {
    (48 + d) as char
}

/// Decimal digits of `n`, most significant first, without leading zeros.
pub open spec fn decimal_nat(n: nat) -> Seq<char>
    decreases n,
{
    if n < 10 {
        seq![digit_char(n)]
    } else {
        decimal_nat(n / 10).push(digit_char(n % 10))
    }
}

/// Decimal text of an integer, with a leading `-` when negative.
pub open spec fn decimal_int(n: int) -> Seq<char> {
    if n < 0 {
        seq!['-'] + decimal_nat((-n) as nat)
    } else {
        decimal_nat(n as nat)
    }
}

fn digit_str(d: u64) -> (s: &'static str)
    requires
        d < 10,
    ensures
        s@ == seq![digit_char(d as nat)],
{
    proof {
        reveal_strlit("0");
        reveal_strlit("1");
        reveal_strlit("2");
        reveal_strlit("3");
        reveal_strlit("4");
        reveal_strlit("5");
        reveal_strlit("6");
        reveal_strlit("7");
        reveal_strlit("8");
        reveal_strlit("9");
    }
    if d == 0 {
        "0"
    } else if d == 1 {
        "1"
    } else if d == 2 {
        "2"
    } else if d == 3 {
        "3"
    } else if d == 4 {
        "4"
    } else if d == 5 {
        "5"
    } else if d == 6 {
        "6"
    } else if d == 7 {
        "7"
    } else if d == 8 {
        "8"
    } else {
        "9"
    }
}

pub fn decimal_u64(n: u64) -> (s: String)
    ensures
        s@ == decimal_nat(n as nat),
    decreases n,
{
    if n < 10 {
        digit_str(n).to_string()
    } else {
        let s = decimal_u64(n / 10);
        concat_str(s, digit_str(n % 10))
    }
}

/// Decimal text of an `i32`, as `Display` writes it.
pub fn decimal_i32(n: i32) -> (s: String)
    ensures
        s@ == decimal_int(n as int),
{
    if n < 0 {
        let m: u64 = (-(n as i64)) as u64;
        proof {
            reveal_strlit("-");
        }
        concat_str("-".to_string(), decimal_u64(m).as_str())
    } else {
        decimal_u64(n as u64)
    }
}

/// `s` left-padded with `0` to at least `w` characters.
pub open spec fn zero_padded(s: Seq<char>, w: nat) -> Seq<char> {
    if s.len() >= w {
        s
    } else {
        Seq::new((w - s.len()) as nat, |i: int| '0') + s
    }
}

/// Decimal text of `n` left-padded with zeros to `w` characters, as
/// `format!("{:0w$}", n)` writes it.
pub fn padded_decimal(n: u64, w: usize) -> (s: String)
    ensures
        s@ == zero_padded(decimal_nat(n as nat), w as nat),
{
    let d = decimal_u64(n);
    let len = d.as_str().unicode_len();
    if len >= w {
        return d;
    }
    proof {
        reveal_strlit("0");
    }
    let mut pad = String::new();
    let mut i: usize = 0;
    while i < w - len
        invariant
            i <= w - len,
            len < w,
            pad@ == Seq::new(i as nat, |j: int| '0'),
            "0"@ == seq!['0'],
        decreases w - len - i,
    {
        pad = concat_str(pad, "0");
        i = i + 1;
        assert(pad@ =~= Seq::new(i as nat, |j: int| '0'));
    }
    concat_str(pad, d.as_str())
}

} // verus!
