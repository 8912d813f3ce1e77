//! Sums, maxima and minima over sequences of fixed-point values.
use vstd::prelude::*;

verus! {

/// Sum of the first `i` elements of `s`.
pub open spec fn prefix_sum(s: Seq<u64>, i: int) -> int
    decreases i,
{
    if i <= 0 {
        0
    } else {
        prefix_sum(s, i - 1) + s[i - 1]
    }
}

/// Sum of all elements of `s`.
pub open spec fn seq_sum(s: Seq<u64>) -> int {
    prefix_sum(s, s.len() as int)
}

/// The largest element of a non-empty sequence.
pub open spec fn seq_max(s: Seq<u64>) -> u64
    decreases s.len(),
{
    if s.len() <= 1 {
        s[0]
    } else {
        let m = seq_max(s.drop_last());
        if s.last() > m {
            s.last()
        } else {
            m
        }
    }
}

/// The smallest element of a non-empty sequence.
pub open spec fn seq_min(s: Seq<u64>) -> u64
    decreases s.len(),
{
    if s.len() <= 1 {
        s[0]
    } else {
        let m = seq_min(s.drop_last());
        if s.last() < m {
            s.last()
        } else {
            m
        }
    }
}

/// The last `n` elements of `s`, or all of them when there are fewer.
pub open spec fn last_n(s: Seq<u64>, n: nat) -> Seq<u64> {
    if s.len() <= n {
        s
    } else {
        s.subrange(s.len() - n, s.len() as int)
    }
}

/// Prefix sums only look at the elements they cover.
pub proof fn lemma_prefix_sum_agree(a: Seq<u64>, b: Seq<u64>, i: int)
    requires
        0 <= i <= a.len(),
        i <= b.len(),
        forall|j: int| 0 <= j < i ==> a[j] == b[j],
    ensures
        prefix_sum(a, i) == prefix_sum(b, i),
    decreases i,
{
    if i > 0 {
        lemma_prefix_sum_agree(a, b, i - 1);
    }
}

/// Prefix sums of non-negative values grow with the prefix.
pub proof fn lemma_prefix_sum_mono(s: Seq<u64>, i: int, j: int)
    requires
        0 <= i <= j <= s.len(),
    ensures
        prefix_sum(s, i) <= prefix_sum(s, j),
    decreases j - i,
{
    if i < j {
        lemma_prefix_sum_mono(s, i, j - 1);
    }
}

/// Each prefix sum is at most the count times the largest `u64`.
pub proof fn lemma_prefix_sum_bound(s: Seq<u64>, i: int)
    requires
        0 <= i <= s.len(),
    ensures
        0 <= prefix_sum(s, i) <= i * (u64::MAX as int),
    decreases i,
{
    if i > 0 {
        lemma_prefix_sum_bound(s, i - 1);
    }
}

/// Appending a value adds it to the sum.
pub proof fn lemma_sum_push(s: Seq<u64>, x: u64)
    ensures
        seq_sum(s.push(x)) == seq_sum(s) + x,
{
    lemma_prefix_sum_agree(s, s.push(x), s.len() as int);
}

/// Appending a value updates the maximum and minimum as a comparison would.
pub proof fn lemma_max_min_push(s: Seq<u64>, x: u64)
    requires
        s.len() > 0,
    ensures
        seq_max(s.push(x)) == if x > seq_max(s) { x } else { seq_max(s) },
        seq_min(s.push(x)) == if x < seq_min(s) { x } else { seq_min(s) },
{
    assert(s.push(x).drop_last() =~= s);
}

} // verus!
