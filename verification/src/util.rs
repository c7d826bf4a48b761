use vstd::prelude::*;

verus! {

/// The number of decimal digits of a natural number, where zero has none.
pub open spec fn digit_count(n: nat) -> nat
    decreases n,
{
    if n == 0 {
        0
    } else {
        1 + digit_count(n / 10)
    }
}

/// Ten to the power `k`.
pub open spec fn pow10(k: nat) -> nat
    decreases k,
{
    if k == 0 {
        1
    } else {
        10 * pow10((k - 1) as nat)
    }
}

/// A number below `10^k` has at most `k` digits.
pub proof fn lemma_digit_count_bound(n: nat, k: nat)
    requires
        n < pow10(k),
    ensures
        digit_count(n) <= k,
    decreases k,
{
    if n != 0 {
        if k == 0 {
        } else {
            lemma_digit_count_bound(n / 10, (k - 1) as nat);
        }
    }
}

/// An `i64` has at most 19 digits.
pub proof fn lemma_digits_at_most_19(n: i64)
    ensures
        digit_count(abs(n as int)) <= 19,
{
    reveal_with_fuel(pow10, 20);
    assert(pow10(19) == 10000000000000000000);
    lemma_digit_count_bound(abs(n as int), 19);
}

/// The absolute value of an integer.
pub open spec fn abs(i: int) -> nat {
    if i < 0 {
        (-i) as nat
    } else {
        i as nat
    }
}

/// Counts the decimal digits of `number`, ignoring its sign; zero has no digits.
pub fn digits(number: i64) -> (d: usize)
    ensures
        d == digit_count(abs(number as int)),
{
    let mut n = number;
    let mut digits: usize = 0;
    while n != 0
        invariant
            digits + digit_count(abs(n as int)) == digit_count(abs(number as int)),
        decreases abs(n as int),
    {
        proof {
            lemma_digits_at_most_19(number);
        }
        n = n / 10;
        digits += 1;
    }
    digits
}

} // verus!
