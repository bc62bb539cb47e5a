//! Decimal notation of integers.

use vstd::prelude::*;
use vstd::string::*;

verus! {

/// The character of a decimal digit.
pub open spec fn digit_char(d: nat) -> char {
    (0x30 + d) as char
}

/// A natural number in decimal notation.
pub open spec fn decimal_nat(n: nat) -> Seq<char>
    decreases n,
{
    if n < 10 {
        seq![digit_char(n)]
    } else {
        decimal_nat(n / 10).push(digit_char(n % 10))
    }
}

/// An integer in decimal notation, with a leading minus sign where it is negative.
pub open spec fn decimal(i: int) -> Seq<char> {
    if i < 0 {
        seq!['-'] + decimal_nat((-i) as nat)
    } else {
        decimal_nat(i as nat)
    }
}

/// The number that a sequence of digits stands for.
pub open spec fn digits_value(s: Seq<char>) -> int
    decreases s.len(),
{
    if s.len() == 0 {
        0
    } else {
        digits_value(s.drop_last()) * 10 + (s.last() as int - 0x30)
    }
}

pub proof fn lemma_decimal_nat(n: nat)
    ensures
        decimal_nat(n).len() > 0,
        digits_value(decimal_nat(n)) == n,
        forall|i: int|
            0 <= i < decimal_nat(n).len() ==> '0' <= #[trigger] decimal_nat(n)[i]
                && decimal_nat(n)[i] <= '9',
    decreases n,
{
    if n < 10 {
        let s = decimal_nat(n);
        assert(s.drop_last() =~= Seq::<char>::empty());
        assert(digits_value(s.drop_last()) == 0);
    } else {
        lemma_decimal_nat(n / 10);
        assert(decimal_nat(n).drop_last() =~= decimal_nat(n / 10));
    }
}

/// Different integers have different decimal notations.
pub proof fn lemma_decimal_injective(a: int, b: int)
    requires
        decimal(a) == decimal(b),
    ensures
        a == b,
{
    let na = if a < 0 { (-a) as nat } else { a as nat };
    let nb = if b < 0 { (-b) as nat } else { b as nat };
    lemma_decimal_nat(na);
    lemma_decimal_nat(nb);
    if a < 0 {
        assert(decimal(a)[0] == '-');
        if b >= 0 {
            assert(decimal(b)[0] == decimal_nat(nb)[0]);
        } else {
            assert(decimal(a).skip(1) =~= decimal_nat(na));
            assert(decimal(b).skip(1) =~= decimal_nat(nb));
        }
    } else if b < 0 {
        assert(decimal(b)[0] == '-');
        assert(decimal(a)[0] == decimal_nat(na)[0]);
    }
}

/// Decimal notation holds only digits and the minus sign.
pub proof fn lemma_decimal_chars(a: int)
    ensures
        decimal(a).len() > 0,
        forall|i: int|
            0 <= i < decimal(a).len() ==> #[trigger] decimal(a)[i] == '-' || '0' <= decimal(a)[i]
                && decimal(a)[i] <= '9',
{
    let na = if a < 0 { (-a) as nat } else { a as nat };
    lemma_decimal_nat(na);
    if a < 0 {
        assert forall|i: int| 0 <= i < decimal(a).len() implies #[trigger] decimal(a)[i] == '-'
            || '0' <= decimal(a)[i] && decimal(a)[i] <= '9' by {
            if i > 0 {
                assert(decimal(a)[i] == decimal_nat(na)[i - 1]);
            }
        }
    }
}

fn digit_text(d: u64) -> (r: &'static str)
    requires
        d < 10,
    ensures
        r@ == seq![digit_char(d as nat)],
{
    proof {
        reveal_strlit("0");
        reveal_strlit("1");
        reveal_strlit("2");
        reveal_strlit("3");
        reveal_strlit("4");
        reveal_strlit("5");
        reveal_strlit("6");
        reveal_strlit("7");
        reveal_strlit("8");
        reveal_strlit("9");
    }
    if d == 0 {
        "0"
    } else if d == 1 {
        "1"
    } else if d == 2 {
        "2"
    } else if d == 3 {
        "3"
    } else if d == 4 {
        "4"
    } else if d == 5 {
        "5"
    } else if d == 6 {
        "6"
    } else if d == 7 {
        "7"
    } else if d == 8 {
        "8"
    } else {
        "9"
    }
}

fn decimal_of_u64(n: u64) -> (r: String)
    ensures
        r@ == decimal_nat(n as nat),
    decreases n,
{
    if n < 10 {
        digit_text(n).to_owned()
    } else {
        let head = decimal_of_u64(n / 10);
        let r = head.concat(digit_text(n % 10));
        assert(r@ =~= decimal_nat((n / 10) as nat).push(digit_char((n % 10) as nat)));
        r
    }
}

/// An integer in decimal notation.
pub fn decimal_text(i: i64) -> (r: String)
    ensures
        r@ == decimal(i as int),
{
    if i < 0 {
        proof {
            reveal_strlit("-");
        }
        let magnitude: u64 = (-(i as i128)) as u64;
        let r = "-".to_owned().concat(decimal_of_u64(magnitude).as_str());
        assert("-"@ =~= seq!['-']);
        r
    } else {
        decimal_of_u64(i as u64)
    }
}

/// The digits of a number in decimal notation count it, each ten times as much as the next, without
/// a zero in front; a negative number has a minus sign before the digits of its magnitude.
pub proof fn law_digits_count_the_number(i: int)
    ensures
        i >= 0 ==> digits_value(decimal(i)) == i,
        i > 0 ==> decimal(i)[0] != '0',
        i == 0 ==> decimal(i) == seq!['0'],
        i < 0 ==> decimal(i)[0] == '-' && decimal(i).skip(1) == decimal(-i),
        i >= 0 ==> forall|k: int|
            0 <= k < decimal(i).len() ==> '0' <= #[trigger] decimal(i)[k] && decimal(i)[k] <= '9',
{
    if i >= 0 {
        lemma_decimal_nat(i as nat);
        lemma_no_zero_in_front(i as nat);
    } else {
        assert(decimal(i).skip(1) =~= decimal(-i));
    }
}

proof fn lemma_no_zero_in_front(n: nat)
    ensures
        n > 0 ==> decimal_nat(n)[0] != '0',
    decreases n,
{
    if n >= 10 {
        lemma_no_zero_in_front(n / 10);
        lemma_decimal_nat(n / 10);
    }
}

} // verus!
