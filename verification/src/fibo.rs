//! The Fibonacci helper of the workspace's command-line exercise.

use vstd::prelude::*;

verus! {

/// The Fibonacci sequence.
pub open spec fn fib(n: nat) -> nat
    decreases n,
{
    if n == 0 {
        0
    } else if n == 1 {
        1
    } else {
        fib((n - 1) as nat) + fib((n - 2) as nat)
    }
}

/// Fibonacci is monotonic.
proof fn lemma_fib_monotonic(i: nat, j: nat)
    requires
        i <= j,
    ensures
        fib(i) <= fib(j),
    decreases j - i,
{
    if i < j {
        lemma_fib_monotonic(i, (j - 1) as nat);
        if j >= 2 {
            assert(fib(j) == fib((j - 1) as nat) + fib((j - 2) as nat));
        } else {
            assert(j == 1 && i == 0);
        }
    }
}

/// `fib(n)` when it fits in a `u32`, `None` when it overflows.
pub fn fibo(n: u32) -> (result: Option<u32>)
    ensures
        fib(n as nat) <= u32::MAX ==> result == Some(fib(n as nat) as u32),
        fib(n as nat) > u32::MAX ==> result is None,
{
    if n == 0 {
        return Some(0);
    }
    if n == 1 {
        return Some(1);
    }
    let mut older: u32 = 0;
    let mut newer: u32 = 1;
    let mut i: u32 = 1;
    while i < n
        invariant
            1 <= i <= n,
            older == fib((i - 1) as nat),
            newer == fib(i as nat),
        decreases n - i,
    {
        if older > u32::MAX - newer {
            proof {
                lemma_fib_monotonic(i as nat + 1, n as nat);
            }
            return None;
        }
        let sum: u32 = older + newer;
        older = newer;
        newer = sum;
        i = i + 1;
    }
    Some(newer)
}

} // verus!
