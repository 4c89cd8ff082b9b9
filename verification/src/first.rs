//! The first index at which a property holds.

use vstd::prelude::*;

verus! {

/// The least `i` in `0..n` with `p(i)`, if there is one.
pub open spec fn least(p: spec_fn(int) -> bool, n: int) -> Option<int>
    decreases n,
{
    if n <= 0 {
        None
    } else {
        match least(p, n - 1) {
            Some(i) => Some(i),
            None => if p(n - 1) {
                Some(n - 1)
            } else {
                None
            },
        }
    }
}

/// What `least` finds holds `p`, lies in `0..n`, and has nothing holding `p`
/// before it; it finds nothing only where nothing in `0..n` holds `p`.
pub proof fn lemma_least(p: spec_fn(int) -> bool, n: int)
    ensures
        match least(p, n) {
            Some(i) => 0 <= i < n && p(i) && forall|j: int| 0 <= j < i ==> !#[trigger] p(j),
            None => forall|j: int| 0 <= j < n ==> !#[trigger] p(j),
        },
    decreases n,
{
    if n > 0 {
        lemma_least(p, n - 1);
    }
}

/// An index in `0..n` that holds `p`, with nothing holding `p` before it, is
/// what `least` finds.
pub proof fn lemma_least_is(p: spec_fn(int) -> bool, n: int, i: int)
    requires
        0 <= i < n,
        p(i),
        forall|j: int| 0 <= j < i ==> !#[trigger] p(j),
    ensures
        least(p, n) == Some(i),
{
    lemma_least(p, n);
}

/// Where nothing in `0..n` holds `p`, `least` finds nothing.
pub proof fn lemma_least_none(p: spec_fn(int) -> bool, n: int)
    requires
        forall|j: int| 0 <= j < n ==> !#[trigger] p(j),
    ensures
        least(p, n) is None,
{
    lemma_least(p, n);
}

} // verus!
