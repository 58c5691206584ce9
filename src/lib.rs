//! Semantic-model construction for a bytecode-oriented contract language, and the
//! per-function intermediate representation that analysis passes rewrite.
use vstd::prelude::*;

pub mod symbol;
pub mod model;
pub mod closure;
pub mod env;
pub mod merge;
pub mod builder;
pub mod bytecode;
pub mod function_target;

verus! {

/// Projects the first element of each pair.
pub fn project_1st<T: Clone, R>(v: &[(T, R)]) -> (r: Vec<T>)
    ensures
        r@.len() == v@.len(),
        forall|i: int| 0 <= i < v@.len() ==> cloned(v@[i].0, #[trigger] r@[i]),
{
    let mut r: Vec<T> = Vec::new();
    let mut i: usize = 0;
    while i < v.len()
        invariant
            i <= v@.len(),
            r@.len() == i,
            forall|j: int| 0 <= j < i ==> cloned(v@[j].0, #[trigger] r@[j]),
        decreases v@.len() - i,
    {
        r.push(v[i].0.clone());
        i += 1;
    }
    r
}

/// Projects the second element of each pair.
pub fn project_2nd<T, R: Clone>(v: &[(T, R)]) -> (r: Vec<R>)
    ensures
        r@.len() == v@.len(),
        forall|i: int| 0 <= i < v@.len() ==> cloned(v@[i].1, #[trigger] r@[i]),
{
    let mut r: Vec<R> = Vec::new();
    let mut i: usize = 0;
    while i < v.len()
        invariant
            i <= v@.len(),
            r@.len() == i,
            forall|j: int| 0 <= j < i ==> cloned(v@[j].1, #[trigger] r@[j]),
        decreases v@.len() - i,
    {
        r.push(v[i].1.clone());
        i += 1;
    }
    r
}

} // verus!
