use vstd::prelude::*;
use vstd::string::StringExecFns;

use crate::interval::pow10;
use crate::spacing::pow10_u128;

verus! {

/// The character of a decimal digit.
pub open spec fn digit_char(d: int) -> char {
    seq!['0', '1', '2', '3', '4', '5', '6', '7', '8', '9'][d]
}

/// The decimal digits of `n`, most significant first, with no leading zero.
pub open spec fn digits_of(n: nat) -> Seq<char>
    decreases n,
{
    if n < 10 {
        seq![digit_char(n as int)]
    } else {
        digits_of(n / 10).push(digit_char((n % 10) as int))
    }
}

/// The last `width` decimal digits of `n`, padded with leading zeros.
pub open spec fn padded_digits(n: nat, width: nat) -> Seq<char>
    decreases width,
{
    if width == 0 {
        Seq::empty()
    } else {
        padded_digits(n / 10, (width - 1) as nat).push(digit_char((n % 10) as int))
    }
}

/// The decimal text of an integer, with a leading `-` when it is negative.
pub open spec fn int_text(n: int) -> Seq<char> {
    if n < 0 {
        seq!['-'] + digits_of((-n) as nat)
    } else {
        digits_of(n as nat)
    }
}

/// The decimal text of `n × 10^-d`: the integer part, then, unless the value is whole, a point
/// and the fraction's digits without trailing zeros.
pub open spec fn decimal_text(n: int, d: nat) -> Seq<char>
    decreases d,
{
    if d == 0 {
        int_text(n)
    } else if n % 10 == 0 {
        decimal_text(n / 10, (d - 1) as nat)
    } else {
        let sign = if n < 0 { seq!['-'] } else { Seq::empty() };
        let a = if n < 0 { -n } else { n };
        sign + digits_of((a / pow10(d)) as nat) + seq!['.'] + padded_digits((a % pow10(d)) as nat, d)
    }
}

/// Text that stands for a value on an axis.
pub trait LabelText {
    /// The text.
    spec fn text(&self) -> Seq<char>;

    /// Returns the text.
    fn label(&self) -> (r: String)
        ensures
            r@ == self.text(),
    ;
}

impl LabelText for String {
    open spec fn text(&self) -> Seq<char> {
        self@
    }

    fn label(&self) -> (r: String) {
        self.clone()
    }
}

impl LabelText for &str {
    open spec fn text(&self) -> Seq<char> {
        (*self)@
    }

    fn label(&self) -> (r: String) {
        (*self).to_owned()
    }
}

impl LabelText for i64 {
    open spec fn text(&self) -> Seq<char> {
        int_text(*self as int)
    }

    fn label(&self) -> (r: String) {
        integer_text(*self as i128)
    }
}

fn digit_str(d: u64) -> (r: &'static str)
    requires
        d < 10,
    ensures
        r@ == seq![digit_char(d as int)],
{
    proof {
        reveal_strlit("0");
        reveal_strlit("1");
        reveal_strlit("2");
        reveal_strlit("3");
        reveal_strlit("4");
        reveal_strlit("5");
        reveal_strlit("6");
        reveal_strlit("7");
        reveal_strlit("8");
        reveal_strlit("9");
    }
    if d == 0 {
        "0"
    } else if d == 1 {
        "1"
    } else if d == 2 {
        "2"
    } else if d == 3 {
        "3"
    } else if d == 4 {
        "4"
    } else if d == 5 {
        "5"
    } else if d == 6 {
        "6"
    } else if d == 7 {
        "7"
    } else if d == 8 {
        "8"
    } else {
        "9"
    }
}

fn natural_text(n: u128) -> (r: String)
    ensures
        r@ == digits_of(n as nat),
    decreases n,
{
    if n < 10 {
        String::from_str(digit_str(n as u64))
    } else {
        let mut s = natural_text(n / 10);
        s.append(digit_str((n % 10) as u64));
        s
    }
}

fn padded_text(n: u128, width: u32) -> (r: String)
    ensures
        r@ == padded_digits(n as nat, width as nat),
    decreases width,
{
    if width == 0 {
        String::new()
    } else {
        let mut s = padded_text(n / 10, width - 1);
        s.append(digit_str((n % 10) as u64));
        s
    }
}

/// The decimal text of `n`.
pub fn integer_text(n: i128) -> (r: String)
    requires
        n > i128::MIN,
    ensures
        r@ == int_text(n as int),
{
    proof {
        reveal_strlit("-");
    }
    if n < 0 {
        let digits = natural_text((-n) as u128);
        let mut s = String::from_str("-");
        s.append(digits.as_str());
        s
    } else {
        natural_text(n as u128)
    }
}

/// The decimal text of `n × 10^-d`, as [`decimal_text`] gives it.
pub fn decimal_value_text(n: i128, d: u32) -> (r: String)
    requires
        n > i128::MIN,
        d <= 20,
    ensures
        r@ == decimal_text(n as int, d as nat),
    decreases d,
{
    if d == 0 {
        return integer_text(n);
    }
    let rem = n.checked_rem_euclid(10).unwrap();
    if rem == 0 {
        let q = n.checked_div_euclid(10).unwrap();
        proof {
            vstd::arithmetic::div_mod::lemma_fundamental_div_mod(n as int, 10);
        }
        return decimal_value_text(q, d - 1);
    }
    let a: u128 = if n < 0 { (-n) as u128 } else { n as u128 };
    let p = pow10_u128(d);
    proof {
        crate::spacing::lemma_pow10_positive(d as nat);
    }
    let mut s = if n < 0 { String::from_str("-") } else { String::new() };
    proof {
        reveal_strlit("-");
        reveal_strlit(".");
    }
    let whole = natural_text(a / p);
    s.append(whole.as_str());
    s.append(".");
    let frac = padded_text(a % p, d);
    s.append(frac.as_str());
    proof {
        let sign = if n < 0 { seq!['-'] } else { Seq::<char>::empty() };
        assert(s@ =~= sign + digits_of((a / p) as nat) + seq!['.'] + padded_digits((a % p) as nat, d as nat));
    }
    s
}

} // verus!
