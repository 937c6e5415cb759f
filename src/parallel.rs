use rayon::iter::{IndexedParallelIterator, IntoParallelRefIterator, ParallelIterator};
use vstd::prelude::*;

use crate::element::Scalar;

verus! {

/// Relies on rayon's indexed `par_iter().zip(..).map(..).collect()`: the
/// collected vector holds the mapped pairs in the order of the inputs.
#[verifier::external_body]
pub(crate) fn par_add<T: Scalar + Send + Sync>(a: &Vec<T>, b: &Vec<T>) -> (r: Vec<T>)
    requires
        a@.len() == b@.len(),
        forall|i: int| 0 <= i < a@.len() ==> T::fits(T::value(#[trigger] a@[i]) + T::value(b@[i])),
    ensures
        r@.len() == a@.len(),
        forall|i: int| 0 <= i < a@.len() ==> T::value(#[trigger] r@[i]) == T::value(a@[i]) + T::value(b@[i]),
{
    a.par_iter().zip(b.par_iter()).map(|(x, y)| T::add_elem(*x, *y)).collect()
}

/// Relies on rayon's indexed `par_iter().map(..).collect()`: the collected
/// vector holds the mapped elements in the order of the input.
#[verifier::external_body]
pub(crate) fn par_scale<T: Scalar + Send + Sync>(a: &Vec<T>, c: T) -> (r: Vec<T>)
    requires
        forall|i: int| 0 <= i < a@.len() ==> T::fits(T::value(#[trigger] a@[i]) * T::value(c)),
    ensures
        r@.len() == a@.len(),
        forall|i: int| 0 <= i < a@.len() ==> T::value(#[trigger] r@[i]) == T::value(a@[i]) * T::value(c),
{
    a.par_iter().map(|x| T::mul_elem(*x, c)).collect()
}

} // verus!
