//! The Fibonacci sequence, starting 1, 1, 2, 3, 5, ...

use vstd::prelude::*;

verus! {

/// The largest index whose Fibonacci number fits in a `u32`.
pub const MAX_FIB_INDEX: u32 = 46;

/// The sequence itself: both of the first two entries are 1, and every later
/// entry is the sum of the two before it.
pub open spec fn spec_fib(n: nat) -> nat
    decreases n,
{
    if n < 2 {
        1
    } else {
        spec_fib((n - 1) as nat) + spec_fib((n - 2) as nat)
    }
}

/// The sequence never decreases.
pub proof fn lemma_fib_monotonic(i: nat, j: nat)
    requires
        i <= j,
    ensures
        spec_fib(i) <= spec_fib(j),
    decreases j,
{
    if i < j {
        lemma_fib_monotonic(i, (j - 1) as nat);
    }
}

/// The entry at `MAX_FIB_INDEX` and the one after it, which is the first to
/// exceed `u32::MAX`.
pub proof fn lemma_fib_at_limit()
    ensures
        spec_fib(46) == 2971215073,
        spec_fib(47) == 4807526976,
{
    assert(spec_fib(0) == 1);
    assert(spec_fib(1) == 1);
    assert(spec_fib(2) == 2);
    assert(spec_fib(3) == 3);
    assert(spec_fib(4) == 5);
    assert(spec_fib(5) == 8);
    assert(spec_fib(6) == 13);
    assert(spec_fib(7) == 21);
    assert(spec_fib(8) == 34);
    assert(spec_fib(9) == 55);
    assert(spec_fib(10) == 89);
    assert(spec_fib(11) == 144);
    assert(spec_fib(12) == 233);
    assert(spec_fib(13) == 377);
    assert(spec_fib(14) == 610);
    assert(spec_fib(15) == 987);
    assert(spec_fib(16) == 1597);
    assert(spec_fib(17) == 2584);
    assert(spec_fib(18) == 4181);
    assert(spec_fib(19) == 6765);
    assert(spec_fib(20) == 10946);
    assert(spec_fib(21) == 17711);
    assert(spec_fib(22) == 28657);
    assert(spec_fib(23) == 46368);
    assert(spec_fib(24) == 75025);
    assert(spec_fib(25) == 121393);
    assert(spec_fib(26) == 196418);
    assert(spec_fib(27) == 317811);
    assert(spec_fib(28) == 514229);
    assert(spec_fib(29) == 832040);
    assert(spec_fib(30) == 1346269);
    assert(spec_fib(31) == 2178309);
    assert(spec_fib(32) == 3524578);
    assert(spec_fib(33) == 5702887);
    assert(spec_fib(34) == 9227465);
    assert(spec_fib(35) == 14930352);
    assert(spec_fib(36) == 24157817);
    assert(spec_fib(37) == 39088169);
    assert(spec_fib(38) == 63245986);
    assert(spec_fib(39) == 102334155);
    assert(spec_fib(40) == 165580141);
    assert(spec_fib(41) == 267914296);
    assert(spec_fib(42) == 433494437);
    assert(spec_fib(43) == 701408733);
    assert(spec_fib(44) == 1134903170);
    assert(spec_fib(45) == 1836311903);
    assert(spec_fib(46) == 2971215073);
    assert(spec_fib(47) == 4807526976);
}

/// An entry of the sequence fits in a `u32` exactly when its index is at most
/// `MAX_FIB_INDEX`.
pub proof fn lemma_fib_fits_u32(n: nat)
    ensures
        spec_fib(n) <= u32::MAX <==> n <= MAX_FIB_INDEX,
{
    lemma_fib_at_limit();
    if n <= 46 {
        lemma_fib_monotonic(n, 46);
    } else {
        lemma_fib_monotonic(47, n);
    }
}

/// Computes the `n`-th entry of the sequence by the defining recursion.
///
/// The index is limited to `MAX_FIB_INDEX`, beyond which the result would
/// not fit in the return type.
pub fn fib(n: u32) -> (r: u32)
    requires
        n <= MAX_FIB_INDEX,
    ensures
        r == spec_fib(n as nat),
    decreases n,
{
    if n < 2 {
        1
    } else {
        proof {
            lemma_fib_fits_u32(n as nat);
        }
        fib(n - 1) + fib(n - 2)
    }
}

} // verus!
