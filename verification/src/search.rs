//! First and last index of a predicate over an index range.

use vstd::prelude::*;

verus! {

/// First index `i < n` satisfying `p`.
pub open spec fn first_index(n: int, p: spec_fn(int) -> bool) -> Option<int>
    decreases n,
{
    if n <= 0 {
        None
    } else {
        match first_index(n - 1, p) {
            Some(j) => Some(j),
            None => if p(n - 1) {
                Some(n - 1)
            } else {
                None
            },
        }
    }
}

/// Last index `i < n` satisfying `p`.
pub open spec fn last_index(n: int, p: spec_fn(int) -> bool) -> Option<int>
    decreases n,
{
    if n <= 0 {
        None
    } else if p(n - 1) {
        Some(n - 1)
    } else {
        last_index(n - 1, p)
    }
}

pub proof fn lemma_first_index_props(n: int, p: spec_fn(int) -> bool)
    ensures
        match first_index(n, p) {
            Some(j) => 0 <= j < n && p(j) && forall|k: int| 0 <= k < j ==> !#[trigger] p(k),
            None => forall|k: int| 0 <= k < n ==> !#[trigger] p(k),
        },
    decreases n,
{
    if n > 0 {
        lemma_first_index_props(n - 1, p);
    }
}

pub proof fn lemma_first_index_extends(m: int, n: int, p: spec_fn(int) -> bool)
    requires
        0 <= m <= n,
        first_index(m, p) is Some,
    ensures
        first_index(n, p) == first_index(m, p),
    decreases n - m,
{
    if m < n {
        lemma_first_index_extends(m, n - 1, p);
    }
}

pub proof fn lemma_last_index_props(n: int, p: spec_fn(int) -> bool)
    ensures
        match last_index(n, p) {
            Some(j) => 0 <= j < n && p(j) && forall|k: int| j < k < n ==> !#[trigger] p(k),
            None => forall|k: int| 0 <= k < n ==> !#[trigger] p(k),
        },
    decreases n,
{
    if n > 0 && !p(n - 1) {
        lemma_last_index_props(n - 1, p);
    }
}

} // verus!
