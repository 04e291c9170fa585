//! Sizes as text.
//!
//! How many bytes read as is the caller's to say. What is shown here goes by what
//! the caller's function answers.

use vstd::prelude::*;
use crate::order::{exchanged, lemma_any_order};

verus! {

/// Whether a function can be asked of any size.
pub open spec fn takes_sizes<F: Fn(u64) -> String>(size: F) -> bool {
    forall|n: u64| call_requires(size, (n,))
}

/// Whether what a function answers of each size is what `told` says of it.
pub open spec fn says<F: Fn(u64) -> String>(size: F, told: spec_fn(u64) -> Seq<char>) -> bool {
    forall|n: u64, s: String| #[trigger] call_ensures(size, (n,), s) ==> s@ == told(n)
}

/// Asks the function.
pub(crate) fn ask<F: Fn(u64) -> String>(size: &F, n: u64) -> (r: String)
    requires
        takes_sizes(*size),
    ensures
        forall|told: spec_fn(u64) -> Seq<char>| #[trigger] says(*size, told) ==> r@ == told(n),
{
    size(n)
}

/// What some sizes come to together.
pub open spec fn sum_of(s: Seq<u64>) -> nat
    decreases s.len(),
{
    if s.len() == 0 {
        0
    } else {
        sum_of(s.drop_last()) + s.last() as nat
    }
}

/// A sum as far as it fits.
pub open spec fn at_most(sum: nat) -> u64 {
    if sum > u64::MAX {
        u64::MAX
    } else {
        sum as u64
    }
}

/// A sum is no less than any of its parts.
pub proof fn lemma_sum_of_parts(s: Seq<u64>, i: int)
    requires
        0 <= i < s.len(),
    ensures
        sum_of(s) >= s[i],
    decreases s.len(),
{
    if i < s.len() - 1 {
        lemma_sum_of_parts(s.drop_last(), i);
    }
}

proof fn lemma_sum_exchanged(s: Seq<u64>, k: int)
    requires
        0 <= k < s.len() - 1,
    ensures
        sum_of(exchanged(s, k)) == sum_of(s),
    decreases s.len(),
{
    let e = exchanged(s, k);
    if k == s.len() - 2 {
        assert(e.drop_last().drop_last() =~= s.drop_last().drop_last());
        reveal_with_fuel(sum_of, 3);
    } else {
        lemma_sum_exchanged(s.drop_last(), k);
        assert(e.drop_last() =~= exchanged(s.drop_last(), k));
    }
}

/// A sum does not depend on the order of its parts.
pub proof fn lemma_sum_in_any_order(a: Seq<u64>, b: Seq<u64>)
    requires
        a.to_multiset() == b.to_multiset(),
    ensures
        sum_of(a) == sum_of(b),
{
    let f = |s: Seq<u64>| sum_of(s);
    assert forall|s: Seq<u64>, k: int| 0 <= k < s.len() - 1 implies f(#[trigger] exchanged(s, k))
        == f(s) by {
        lemma_sum_exchanged(s, k);
    }
    lemma_any_order(f, a, b);
    assert(f(a) == f(b));
}

} // verus!
