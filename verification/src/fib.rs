//! The Fibonacci numbers, computed four ways, each proved against the one
//! mathematical definition and free of overflow.

use vstd::prelude::*;

verus! {

/// The Fibonacci number of rank `n`.
pub open spec fn fib(n: nat) -> nat
    decreases n,
{
    if n == 0 {
        0
    } else if n == 1 {
        1
    } else {
        fib((n - 2) as nat) + fib((n - 1) as nat)
    }
}

/// Fibonacci numbers never shrink as the rank grows.
pub proof fn lemma_fib_monotonic(a: nat, b: nat)
    requires
        a <= b,
    ensures
        fib(a) <= fib(b),
    decreases b - a,
{
    if a < b {
        if b < 2 {
            assert(fib(0) <= fib(1));
        } else if a + 1 == b {
            assert(fib(b) == fib((b - 2) as nat) + fib((b - 1) as nat));
        } else {
            lemma_fib_monotonic(a, (b - 1) as nat);
            lemma_fib_monotonic((b - 1) as nat, b);
        }
    }
}

/// Fibonacci by direct recursion.
pub fn recursive(n: u32) -> (r: u32)
    requires
        fib(n as nat) <= u32::MAX,
    ensures
        r == fib(n as nat),
    decreases n,
{
    if n == 0 {
        0
    } else if n == 1 {
        1
    } else {
        proof {
            lemma_fib_monotonic((n - 2) as nat, n as nat);
            lemma_fib_monotonic((n - 1) as nat, n as nat);
        }
        recursive(n - 2) + recursive(n - 1)
    }
}

/// Fibonacci by a loop over a sliding pair.
pub fn iterative(n: u32) -> (r: u32)
    requires
        fib(n as nat) <= u32::MAX,
    ensures
        r == fib(n as nat),
{
    if n == 0 {
        return 0;
    }
    let mut a: u32 = 0;
    let mut b: u32 = 1;
    let mut i: u32 = 1;
    while i < n
        invariant
            1 <= i <= n,
            a == fib((i - 1) as nat),
            b == fib(i as nat),
            fib(n as nat) <= u32::MAX,
        decreases n - i,
    {
        proof {
            lemma_fib_monotonic((i + 1) as nat, n as nat);
        }
        let t = a + b;
        a = b;
        b = t;
        i = i + 1;
    }
    b
}

/// Fibonacci by storing the whole sequence up to rank `n`.
pub fn iterative_storing(n: u32) -> (r: u32)
    requires
        fib(n as nat) <= u32::MAX,
    ensures
        r == fib(n as nat),
{
    let mut values: Vec<u32> = Vec::new();
    values.push(0);
    values.push(1);
    let mut i: u32 = 1;
    while i < n
        invariant
            1 <= i,
            n > 0 ==> i <= n,
            n == 0 ==> i == 1,
            values@.len() == i + 1,
            forall|k: int| 0 <= k < values@.len() ==> values@[k] == fib(k as nat),
            fib(n as nat) <= u32::MAX,
        decreases n - i,
    {
        proof {
            lemma_fib_monotonic((i + 1) as nat, n as nat);
        }
        let x = values[values.len() - 1] + values[values.len() - 2];
        values.push(x);
        i = i + 1;
    }
    values[n as usize]
}

/// Fibonacci by folding a sliding pair over a counter.
pub fn stream(n: u32) -> (r: u32)
    requires
        fib(n as nat) <= u32::MAX,
    ensures
        r == fib(n as nat),
{
    if n == 0 {
        return 0;
    }
    let mut pair: (u32, u32) = (0, 1);
    let mut i: u32 = 1;
    while i < n
        invariant
            1 <= i <= n,
            pair.0 == fib((i - 1) as nat),
            pair.1 == fib(i as nat),
            fib(n as nat) <= u32::MAX,
        decreases n - i,
    {
        proof {
            lemma_fib_monotonic((i + 1) as nat, n as nat);
        }
        pair = (pair.1, pair.0 + pair.1);
        i = i + 1;
    }
    pair.1
}

} // verus!
