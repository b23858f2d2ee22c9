//! Numbers as decimal text.

use vstd::prelude::*;
use vstd::string::StringExecFns;

verus! {

/// The digit of a number below 10.
pub open spec fn digit_char(n: int) -> char {
    (0x30 + n) as char
}

/// The decimal digits of a number, without leading zeros.
pub open spec fn decimal(n: nat) -> Seq<char>
    decreases n,
{
    if n < 10 {
        seq![digit_char(n as int)]
    } else {
        decimal(n / 10).push(digit_char(n as int % 10))
    }
}

/// Numbers in square brackets, separated by a comma and a space.
pub open spec fn bracketed(numbers: Seq<usize>) -> Seq<char> {
    "["@ + listed(numbers) + "]"@
}

/// Numbers separated by a comma and a space.
pub open spec fn listed(numbers: Seq<usize>) -> Seq<char>
    decreases numbers.len(),
{
    if numbers.len() == 0 {
        Seq::empty()
    } else if numbers.len() == 1 {
        decimal(numbers[0] as nat)
    } else {
        listed(numbers.drop_last()) + ", "@ + decimal(numbers.last() as nat)
    }
}

fn digit_text(n: usize) -> (text: &'static str)
    requires
        n < 10,
    ensures
        text@ == seq![digit_char(n as int)],
{
    proof {
        reveal_strlit("0");
        reveal_strlit("1");
        reveal_strlit("2");
        reveal_strlit("3");
        reveal_strlit("4");
        reveal_strlit("5");
        reveal_strlit("6");
        reveal_strlit("7");
        reveal_strlit("8");
        reveal_strlit("9");
    }
    match n {
        0 => "0",
        1 => "1",
        2 => "2",
        3 => "3",
        4 => "4",
        5 => "5",
        6 => "6",
        7 => "7",
        8 => "8",
        _ => "9",
    }
}

/// Write a number in decimal.
pub fn to_decimal(n: usize) -> (text: String)
    ensures
        text@ == decimal(n as nat),
    decreases n,
{
    let mut text = if n < 10 {
        String::new()
    } else {
        to_decimal(n / 10)
    };
    let ghost before = text@;
    text.append(digit_text(n % 10));
    proof {
        if n < 10 {
            assert(text@ =~= seq![digit_char(n as int)]);
        } else {
            assert(text@ =~= before.push(digit_char(n as int % 10)));
        }
    }
    text
}

/// Write numbers as a list in square brackets.
pub fn to_bracketed(numbers: &[usize]) -> (text: String)
    ensures
        text@ == bracketed(numbers@),
{
    let mut text = String::new();
    text.append("[");
    assert(text@ =~= "["@);
    assert("["@ + listed(numbers@.take(0)) =~= "["@);
    let mut i: usize = 0;
    while i < numbers.len()
        invariant
            i <= numbers.len(),
            text@ == "["@ + listed(numbers@.take(i as int)),
        decreases numbers.len() - i,
    {
        if i > 0 {
            text.append(", ");
        }
        let number = to_decimal(numbers[i]);
        text.append(number.as_str());
        proof {
            let longer = numbers@.take(i + 1);
            assert(longer.drop_last() =~= numbers@.take(i as int));
            assert(longer.last() == numbers@[i as int]);
            if i == 0 {
                assert(longer.len() == 1);
                assert(text@ =~= "["@ + listed(longer));
            } else {
                assert(text@ =~= "["@ + listed(longer));
            }
        }
        i += 1;
    }
    assert(numbers@.take(i as int) =~= numbers@);
    text.append("]");
    text
}

/// The text of a number has a digit at every place.
proof fn decimal_has_digits(n: nat)
    ensures
        decimal(n).len() >= 1,
        n >= 10 ==> decimal(n).len() >= 2,
    decreases n,
{
    if n >= 10 {
        decimal_has_digits(n / 10);
    }
}

/// Different numbers have different texts.
pub proof fn decimal_injective(a: nat, b: nat)
    requires
        decimal(a) == decimal(b),
    ensures
        a == b,
    decreases a,
{
    decimal_has_digits(a);
    decimal_has_digits(b);
    if a >= 10 && b >= 10 {
        assert(decimal(a).drop_last() =~= decimal(a / 10));
        assert(decimal(b).drop_last() =~= decimal(b / 10));
        assert(decimal(a).last() == digit_char(a as int % 10));
        assert(decimal(b).last() == digit_char(b as int % 10));
        decimal_injective(a / 10, b / 10);
    } else if a < 10 && b < 10 {
        assert(decimal(a)[0] == digit_char(a as int));
        assert(decimal(b)[0] == digit_char(b as int));
    }
}

/// A number is written in decimal: a number below ten as its digit, and any
/// other as its tens with the digit of its ones behind them.
pub proof fn decimal_is_positional(tens: nat, ones: nat)
    requires
        ones < 10,
    ensures
        decimal(ones) == seq!["0123456789"@[ones as int]],
        tens > 0 ==> decimal(10 * tens + ones) == decimal(tens).push("0123456789"@[ones as int]),
{
    reveal_strlit("0123456789");
    let n = (10 * tens + ones) as nat;
    assert(n / 10 == tens);
    assert(n % 10 == ones);
}

/// A list is its parts with a comma and a space between them, in brackets.
pub proof fn lists_join(first: Seq<usize>, second: Seq<usize>, n: usize)
    ensures
        bracketed(Seq::empty()) == "[]"@,
        bracketed(seq![n]) == "["@ + decimal(n as nat) + "]"@,
        first.len() > 0 && second.len() > 0 ==> listed(first + second) == listed(first) + ", "@
            + listed(second),
        bracketed(first) == "["@ + listed(first) + "]"@,
    decreases second.len(),
{
    reveal_strlit("[]");
    reveal_strlit("[");
    reveal_strlit("]");
    assert(bracketed(Seq::empty()) =~= "[]"@);
    if first.len() > 0 && second.len() > 0 {
        let whole = first + second;
        let init = second.drop_last();
        assert(whole.drop_last() =~= first + init);
        assert(whole.last() == second.last());
        if second.len() == 1 {
            assert(init =~= Seq::<usize>::empty());
            assert(first + init =~= first);
        } else {
            lists_join(first, init, n);
            assert(listed(whole) =~= listed(first) + ", "@ + listed(second));
        }
    }
}

} // verus!
