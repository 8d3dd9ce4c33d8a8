//! The Fibonacci sequence, with overflow ruled out rather than risked.

use vstd::prelude::*;

verus! {

/// The Fibonacci numbers: zero, one, then each the sum of the previous two.
pub open spec fn spec_fib(n: nat) -> nat
    decreases n,
{
    if n == 0 {
        0
    } else if n == 1 {
        1
    } else {
        spec_fib((n - 2) as nat) + spec_fib((n - 1) as nat)
    }
}

/// The sequence never decreases.
pub proof fn lemma_fib_monotonic(i: nat, j: nat)
    requires
        i <= j,
    ensures
        spec_fib(i) <= spec_fib(j),
    decreases j - i,
{
    if i < 2 && j < 2 {
    } else if i == j {
    } else if i == j - 1 {
        assert(spec_fib(j) == spec_fib((j - 2) as nat) + spec_fib((j - 1) as nat));
    } else {
        lemma_fib_monotonic(i, (j - 1) as nat);
        lemma_fib_monotonic((j - 1) as nat, j);
    }
}

/// Computes the `n`th Fibonacci number, or `None` exactly when it does not
/// fit the result type.
pub fn checked_fib(n: u128) -> (r: Option<u128>)
    ensures
        r is Some <==> spec_fib(n as nat) <= u128::MAX,
        r matches Some(v) ==> v == spec_fib(n as nat),
{
    if n < 2 {
        return Some(n);
    }
    let mut a: u128 = 0;
    let mut b: u128 = 1;
    let mut i: u128 = 1;
    while i < n
        invariant
            1 <= i <= n,
            a == spec_fib((i - 1) as nat),
            b == spec_fib(i as nat),
        decreases n - i,
    {
        if b > u128::MAX - a {
            proof {
                assert(spec_fib((i + 1) as nat) == spec_fib((i - 1) as nat) + spec_fib(
                    i as nat,
                ));
                lemma_fib_monotonic((i + 1) as nat, n as nat);
            }
            return None;
        }
        let c = a + b;
        a = b;
        b = c;
        i = i + 1;
    }
    Some(b)
}

/// Computes the `n`th Fibonacci number, for an `n` whose value fits the
/// result type.
pub fn fib(n: u128) -> (r: u128)
    requires
        spec_fib(n as nat) <= u128::MAX,
    ensures
        r == spec_fib(n as nat),
{
    match checked_fib(n) {
        Some(v) => v,
        None => {
            proof {
                assert(false);
            }
            0
        },
    }
}

} // verus!
