//! Text building for benchmark names and CSV rows.

use vstd::prelude::*;
use vstd::string::StringExecFns;

verus! {

/// The decimal digit character for a value below ten.
pub open spec fn digit_char(d: u64) -> char {
    if d == 0 {
        '0'
    } else if d == 1 {
        '1'
    } else if d == 2 {
        '2'
    } else if d == 3 {
        '3'
    } else if d == 4 {
        '4'
    } else if d == 5 {
        '5'
    } else if d == 6 {
        '6'
    } else if d == 7 {
        '7'
    } else if d == 8 {
        '8'
    } else {
        '9'
    }
}

/// The decimal digits of `n`, most significant first, without leading zeros
/// (a single `'0'` for zero).
pub open spec fn dec_digits(n: u64) -> Seq<char>
    decreases n,
{
    if n < 10 {
        seq![digit_char(n)]
    } else {
        dec_digits(n / 10).push(digit_char(n % 10))
    }
}

/// The fully qualified name of one benchmark configuration: the set name, the
/// function name and the decimal range value, separated by slashes.
pub open spec fn full_name(set: Seq<char>, func: Seq<char>, size: u64) -> Seq<char> {
    set + seq!['/'] + func + seq!['/'] + dec_digits(size)
}

/// One CSV data row: the configuration name, a comma, and the decimal average
/// time in nanoseconds.
pub open spec fn row_text(name: Seq<char>, avg: u64) -> Seq<char> {
    name + seq![','] + dec_digits(avg)
}

/// The one-character string for a decimal digit.
fn digit_str(d: u64) -> (r: &'static str)
    requires
        d < 10,
    ensures
        r@ == seq![digit_char(d)],
{
    proof {
        reveal_strlit("0");
        reveal_strlit("1");
        reveal_strlit("2");
        reveal_strlit("3");
        reveal_strlit("4");
        reveal_strlit("5");
        reveal_strlit("6");
        reveal_strlit("7");
        reveal_strlit("8");
        reveal_strlit("9");
    }
    if d == 0 {
        "0"
    } else if d == 1 {
        "1"
    } else if d == 2 {
        "2"
    } else if d == 3 {
        "3"
    } else if d == 4 {
        "4"
    } else if d == 5 {
        "5"
    } else if d == 6 {
        "6"
    } else if d == 7 {
        "7"
    } else if d == 8 {
        "8"
    } else {
        "9"
    }
}

/// Renders `n` in decimal.
pub fn to_decimal(n: u64) -> (s: String)
    ensures
        s@ == dec_digits(n),
    decreases n,
{
    if n < 10 {
        digit_str(n).to_owned()
    } else {
        let mut s = to_decimal(n / 10);
        s.append(digit_str(n % 10));
        s
    }
}

/// Composes the fully qualified benchmark name `set/func/size`.
pub fn compose_name(set: &str, func: &str, size: u64) -> (r: String)
    ensures
        r@ == full_name(set@, func@, size),
{
    proof {
        reveal_strlit("/");
    }
    let mut r = set.to_owned();
    r.append("/");
    r.append(func);
    r.append("/");
    let digits = to_decimal(size);
    r.append(digits.as_str());
    proof {
        assert(r@ =~= full_name(set@, func@, size));
    }
    r
}

/// Composes one CSV data row `name,avg`.
pub fn compose_row(name: String, avg: u64) -> (r: String)
    ensures
        r@ == row_text(name@, avg),
{
    proof {
        reveal_strlit(",");
    }
    let ghost n0 = name@;
    let mut r = name;
    r.append(",");
    let digits = to_decimal(avg);
    r.append(digits.as_str());
    proof {
        assert(r@ =~= row_text(n0, avg));
    }
    r
}

/// The last character of a decimal rendering is a digit.
pub proof fn lemma_dec_last_is_digit(n: u64)
    ensures
        dec_digits(n).len() >= 1,
        '0' <= dec_digits(n).last() <= '9',
{
}

} // verus!
