//! Decimal text of integers.
use vstd::prelude::*;

verus! {

pub open spec fn digit_char(d: int) -> char {
    seq!['0', '1', '2', '3', '4', '5', '6', '7', '8', '9'][d]
}

/// The decimal digits of `n`, most significant first, without leading zeros.
pub open spec fn decimal_digits(n: nat) -> Seq<char>
    decreases n,
{
    if n < 10 {
        seq![digit_char(n as int)]
    } else {
        decimal_digits(n / 10).push(digit_char((n % 10) as int))
    }
}

/// The decimal text of `i`: its digits, after a minus sign when negative.
pub open spec fn decimal_text(i: int) -> Seq<char> {
    if i < 0 {
        seq!['-'] + decimal_digits((-i) as nat)
    } else {
        decimal_digits(i as nat)
    }
}

fn digit_str(d: u32) -> (r: &'static str)
    requires
        d < 10,
    ensures
        r@ == seq![digit_char(d as int)],
{
    proof {
        reveal_strlit("0");
        reveal_strlit("1");
        reveal_strlit("2");
        reveal_strlit("3");
        reveal_strlit("4");
        reveal_strlit("5");
        reveal_strlit("6");
        reveal_strlit("7");
        reveal_strlit("8");
        reveal_strlit("9");
    }
    let r = if d == 0 {
        "0"
    } else if d == 1 {
        "1"
    } else if d == 2 {
        "2"
    } else if d == 3 {
        "3"
    } else if d == 4 {
        "4"
    } else if d == 5 {
        "5"
    } else if d == 6 {
        "6"
    } else if d == 7 {
        "7"
    } else if d == 8 {
        "8"
    } else {
        "9"
    };
    assert(r@ =~= seq![digit_char(d as int)]);
    r
}

/// The decimal digits of `n`.
pub fn digits_text(n: u32) -> (r: String)
    ensures
        r@ == decimal_digits(n as nat),
{
    let mut acc = String::from_str(digit_str(n % 10));
    let mut m: u32 = n / 10;
    assert(n < 10 ==> decimal_digits(n as nat) =~= acc@);
    assert(n >= 10 ==> decimal_digits(n as nat) =~= decimal_digits(m as nat) + acc@);
    while m > 0
        invariant
            m > 0 ==> decimal_digits(n as nat) =~= decimal_digits(m as nat) + acc@,
            m == 0 ==> decimal_digits(n as nat) =~= acc@,
        decreases m,
    {
        let ghost old_acc = acc@;
        acc = String::from_str(digit_str(m % 10)).concat(acc.as_str());
        proof {
            if m < 10 {
                assert(m % 10 == m);
                assert(decimal_digits(m as nat) + old_acc =~= acc@);
            } else {
                assert(decimal_digits(m as nat) =~= decimal_digits((m / 10) as nat).push(
                    digit_char((m % 10) as int),
                ));
                assert(decimal_digits(m as nat) + old_acc =~= decimal_digits((m / 10) as nat)
                    + acc@);
            }
        }
        m = m / 10;
    }
    acc
}

/// The decimal text of `i`, as `i.to_string()` writes it.
pub fn int_text(i: i32) -> (r: String)
    ensures
        r@ == decimal_text(i as int),
{
    if i < 0 {
        let abs: u32 = (-(i as i64)) as u32;
        let digits = digits_text(abs);
        proof {
            reveal_strlit("-");
        }
        let r = String::from_str("-").concat(digits.as_str());
        assert(r@ =~= seq!['-'] + decimal_digits((-i) as nat));
        r
    } else {
        digits_text(i as u32)
    }
}

} // verus!
