//! The sample guest program that the Jolt workspace proves: the 80th
//! Fibonacci number.
use vstd::prelude::*;

verus! {

/// The Fibonacci numbers: 0, 1, 1, 2, 3, 5, ...
pub open spec fn fibonacci(n: nat) -> nat
    decreases n,
{
    if n == 0 {
        0
    } else if n == 1 {
        1
    } else {
        fibonacci((n - 2) as nat) + fibonacci((n - 1) as nat)
    }
}

/// Two to the power `n`.
pub open spec fn two_to(n: nat) -> nat
    decreases n,
{
    if n == 0 {
        1
    } else {
        2 * two_to((n - 1) as nat)
    }
}

/// The `n`-th Fibonacci number is at most `2^n`.
proof fn lemma_fibonacci_bound(n: nat)
    ensures
        fibonacci(n) <= two_to(n),
    decreases n,
{
    if n >= 2 {
        lemma_fibonacci_bound((n - 2) as nat);
        lemma_fibonacci_bound((n - 1) as nat);
        assert(two_to(n) == 2 * two_to((n - 1) as nat));
        assert(two_to((n - 1) as nat) == 2 * two_to((n - 2) as nat));
    } else if n == 1 {
        assert(two_to(1) == 2 * two_to(0));
    }
}

/// Powers of two grow with the exponent.
proof fn lemma_two_to_monotonic(m: nat, n: nat)
    requires
        m <= n,
    ensures
        two_to(m) <= two_to(n),
    decreases n - m,
{
    if m < n {
        lemma_two_to_monotonic(m, (n - 1) as nat);
    }
}

/// The number of steps the guest takes.
pub const FIB_N: u128 = 80;

/// The 80th Fibonacci number, computed by 79 additions from the first two.
pub fn fib() -> (r: u128)
    ensures
        r == fibonacci(80),
{
    proof {
        reveal_with_fuel(two_to, 81);
        assert(two_to(80) == 1208925819614629174706176);
    }
    let n: u128 = FIB_N;
    let mut a: u128 = 0;
    let mut b: u128 = 1;
    let mut i: u128 = 1;
    while i < n
        invariant
            n == 80,
            1 <= i <= n,
            a == fibonacci((i - 1) as nat),
            b == fibonacci(i as nat),
            two_to(80) == 1208925819614629174706176,
        decreases n - i,
    {
        proof {
            lemma_fibonacci_bound((i + 1) as nat);
            lemma_two_to_monotonic((i + 1) as nat, 80);
            assert(fibonacci((i + 1) as nat) == a + b);
        }
        let sum = a + b;
        a = b;
        b = sum;
        i += 1;
    }
    b
}

} // verus!
