//! The Fibonacci numbers.

use vstd::prelude::*;

verus! {

/// The `n`-th Fibonacci number: 0, 1, 1, 2, 3, 5, ...
pub open spec fn fib(n: nat) -> nat
    decreases n,
{
    if n == 0 {
        0
    } else if n == 1 {
        1
    } else {
        fib((n - 1) as nat) + fib((n - 2) as nat)
    }
}

/// The `n`-th Fibonacci number, computed by the defining recursion.
pub fn fibonacci(n: u32) -> (r: u32)
    requires
        fib(n as nat) <= u32::MAX,
    ensures
        r == fib(n as nat),
    decreases n,
{
    match n {
        0 => 0,
        1 => 1,
        _ => fibonacci(n - 1) + fibonacci(n - 2),
    }
}

} // verus!
