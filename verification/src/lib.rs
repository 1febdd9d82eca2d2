//! Two small verified arithmetic utilities: a classifier that maps an
//! unsigned integer to one of three codes by divisibility, and an
//! iterative factorial over `u32` whose overflow wraps around silently.

use vstd::prelude::*;

verus! {

use vstd::arithmetic::div_mod::lemma_mul_mod_noop_left;
use vstd::arithmetic::div_mod::lemma_small_mod;
use vstd::arithmetic::mul::lemma_mul_inequality;
use vstd::arithmetic::mul::lemma_mul_is_commutative;

/// The mathematical factorial: the product of all positive integers up
/// to and including `n`, with the empty product (`n == 0`) equal to 1.
pub open spec fn fact(n: nat) -> nat
    decreases n,
{
    if n == 0 {
        1
    } else {
        n * fact((n - 1) as nat)
    }
}

/// Classify `n` by divisibility: 12 when `n` is even, otherwise 13 when
/// `n` is divisible by 3, otherwise 17. Evenness is checked first, so a
/// multiple of 6 yields 12.
pub fn magic_number(n: u32) -> (code: u32)
    ensures
        n % 2 == 0 ==> code == 12,
        n % 2 != 0 && n % 3 == 0 ==> code == 13,
        n % 2 != 0 && n % 3 != 0 ==> code == 17,
{
    if n % 2 == 0 {
        12
    } else if n % 3 == 0 {
        13
    } else {
        17
    }
}

/// Iterative factorial over `u32`, accumulating the product of 1 up to
/// `n`. Overflow wraps around, so the result is the true factorial
/// reduced modulo 2^32.
pub fn factorial(n: u32) -> (product: u32)
    ensures
        product == fact(n as nat) % 0x1_0000_0000,
{
    let mut product: u32 = 1;
    let mut i: u32 = 0;
    while i < n
        invariant
            i <= n,
            product == fact(i as nat) % 0x1_0000_0000,
        decreases n - i,
    {
        i = i + 1;
        proof {
            let prev: nat = fact((i - 1) as nat);
            lemma_mul_mod_noop_left(prev as int, i as int, 0x1_0000_0000);
            lemma_mul_is_commutative(prev as int, i as int);
        }
        product = product.wrapping_mul(i);
    }
    product
}

/// The factorial of any number is at least 1.
pub proof fn lemma_fact_pos(n: nat)
    ensures
        fact(n) >= 1,
    decreases n,
{
    if n > 0 {
        lemma_fact_pos((n - 1) as nat);
        lemma_mul_inequality(1, n as int, fact((n - 1) as nat) as int);
    }
}

/// Factorial never decreases as its argument grows.
pub proof fn lemma_fact_monotonic(n1: nat, n2: nat)
    requires
        n1 <= n2,
    ensures
        fact(n1) <= fact(n2),
    decreases n2,
{
    if n1 < n2 {
        lemma_fact_monotonic(n1, (n2 - 1) as nat);
        lemma_fact_pos((n2 - 1) as nat);
        lemma_mul_inequality(1, n2 as int, fact((n2 - 1) as nat) as int);
    }
}

/// The largest factorial that still fits in a `u32` is `fact(12)`.
proof fn lemma_fact_12()
    ensures
        fact(12) == 479001600,
{
    reveal_with_fuel(fact, 13);
}

/// Monotonicity of the wrapped factorial: for `n1 < n2` with `n2` small
/// enough that `fact(n2)` fits in a `u32`, no wraparound occurs and the
/// results of `factorial` are ordered like the true factorials.
pub proof fn lemma_factorial_monotonic(n1: u32, n2: u32)
    requires
        n1 < n2,
        n2 <= 12,
    ensures
        fact(n1 as nat) % 0x1_0000_0000 <= fact(n2 as nat) % 0x1_0000_0000,
        fact(n1 as nat) <= fact(n2 as nat),
{
    lemma_fact_monotonic(n1 as nat, n2 as nat);
    lemma_fact_monotonic(n2 as nat, 12);
    lemma_fact_12();
    lemma_small_mod(fact(n1 as nat), 0x1_0000_0000);
    lemma_small_mod(fact(n2 as nat), 0x1_0000_0000);
}

} // verus!
