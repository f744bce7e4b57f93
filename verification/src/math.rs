use vstd::prelude::*;

use vstd::arithmetic::power::pow;
pub use vstd::arithmetic::power2::pow2;
use vstd::arithmetic::power2::{lemma_pow2_strictly_increases, lemma_pow2_unfold};

verus! {

/// The number of doublings that take 1 to at least `n`.
pub open spec fn ceil_log2(n: nat) -> nat
    decreases n,
{
    if n <= 1 {
        0
    } else {
        ceil_log2(((n + 1) / 2) as nat) + 1
    }
}

/// The smallest power of two that is at least `n`.
pub open spec fn spec_next_power_of_two(n: nat) -> nat {
    pow2(ceil_log2(n))
}

/// `n` is a power of two.
pub open spec fn is_power_of_two(n: int) -> bool {
    exists|e: nat| pow2(e) == n
}

/// The largest item of a sequence, 0 for the empty sequence.
pub open spec fn seq_max(s: Seq<usize>) -> usize
    decreases s.len(),
{
    if s.len() == 0 {
        0
    } else {
        let m = seq_max(s.drop_last());
        if s.last() > m {
            s.last()
        } else {
            m
        }
    }
}

proof fn lemma_pow2_zero()
    ensures
        pow2(0) == 1,
{
    reveal(pow);
}

/// `spec_next_power_of_two(n)` is a power of two, at least `n`, and the
/// next smaller power of two is below `n`.
pub proof fn lemma_next_power_of_two_smallest(n: nat)
    ensures
        spec_next_power_of_two(n) >= n,
        spec_next_power_of_two(n) >= 1,
        ceil_log2(n) == 0 || pow2((ceil_log2(n) - 1) as nat) < n,
    decreases n,
{
    lemma_pow2_zero();
    if n > 1 {
        let m = ((n + 1) / 2) as nat;
        lemma_next_power_of_two_smallest(m);
        lemma_pow2_unfold(ceil_log2(n));
        if ceil_log2(m) > 0 {
            lemma_pow2_unfold(ceil_log2(m));
        }
    }
}

/// A power of two that is at least `n` while the next smaller one is below `n`
/// is `spec_next_power_of_two(n)`.
pub proof fn lemma_next_power_of_two_unique(n: nat, e: nat)
    requires
        pow2(e) >= n,
        e == 0 || pow2((e - 1) as nat) < n,
    ensures
        e == ceil_log2(n),
        pow2(e) == spec_next_power_of_two(n),
{
    lemma_next_power_of_two_smallest(n);
    let c = ceil_log2(n);
    if e < c {
        if e < c - 1 {
            lemma_pow2_strictly_increases(e, (c - 1) as nat);
        }
    } else if e > c {
        if c < e - 1 {
            lemma_pow2_strictly_increases(c, (e - 1) as nat);
        }
    }
}

/// The smallest power of two that is at least a `usize` up to half its range
/// plus one is itself a `usize`.
pub proof fn lemma_next_power_of_two_fits(n: nat)
    requires
        n <= usize::MAX / 2 + 1,
    ensures
        spec_next_power_of_two(n) <= usize::MAX,
{
    lemma_next_power_of_two_smallest(n);
    let c = ceil_log2(n);
    if c > 0 {
        lemma_pow2_unfold(c);
        assert(pow2((c - 1) as nat) <= usize::MAX / 2);
        assert(2 * (usize::MAX / 2) <= usize::MAX);
    } else {
        lemma_pow2_zero();
    }
}

/// The smallest power of two that is at least `n`.
pub fn next_power_of_two(n: usize) -> (r: usize)
    requires
        n <= usize::MAX / 2 + 1,
    ensures
        r == spec_next_power_of_two(n as nat),
{
    let mut p: usize = 1;
    let ghost mut e: nat = 0;
    proof {
        lemma_pow2_zero();
    }
    while p < n
        invariant
            p == pow2(e),
            1 <= p,
            e == 0 || pow2((e - 1) as nat) < n,
            n <= usize::MAX / 2 + 1,
        decreases usize::MAX - p,
    {
        proof {
            lemma_pow2_unfold(e + 1);
        }
        p = p * 2;
        proof {
            e = e + 1;
        }
    }
    proof {
        lemma_next_power_of_two_unique(n as nat, e);
    }
    p
}

/// `seq_max` of a nonempty sequence occurs in it and bounds every item.
pub proof fn lemma_seq_max(s: Seq<usize>)
    ensures
        forall|i: int| 0 <= i < s.len() ==> s[i] <= seq_max(s),
        s.len() > 0 ==> s.contains(seq_max(s)),
    decreases s.len(),
{
    if s.len() > 0 {
        let t = s.drop_last();
        lemma_seq_max(t);
        assert forall|i: int| 0 <= i < s.len() implies s[i] <= seq_max(s) by {
            if i < s.len() - 1 {
                assert(s[i] == t[i]);
            }
        }
        if s.last() > seq_max(t) {
            assert(s[s.len() - 1] == seq_max(s));
        } else if t.len() == 0 {
            assert(s[0] == s.last());
        } else {
            let j = choose|j: int| 0 <= j < t.len() && t[j] == seq_max(t);
            assert(s[j] == seq_max(s));
        }
    }
}

/// An item of a sequence that bounds every item is its `seq_max`.
pub proof fn lemma_seq_max_unique(s: Seq<usize>, m: usize)
    requires
        s.contains(m),
        forall|i: int| 0 <= i < s.len() ==> s[i] <= m,
    ensures
        m == seq_max(s),
{
    lemma_seq_max(s);
}

} // verus!
