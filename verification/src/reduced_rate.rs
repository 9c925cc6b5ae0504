//! The rate solve's own equations: the rows that carry a rate, as a function of the rates
//! they carry.
use crate::initialization;
use crate::initialization::{expand_rows, restrict_rows};
use crate::numeric::SolveError;
use crate::scalar::{zeros, Scalar};
use vstd::prelude::*;

verus! {

/// Increasing rows of a vector of the given length.
pub open spec fn rows_within(rows: Seq<usize>, dimension: int) -> bool {
    &&& forall|k: int| 0 <= k < rows.len() ==> (#[trigger] rows[k]) < dimension
    &&& forall|j: int, k: int|
        0 <= j < k < rows.len() ==> (#[trigger] rows[j]) < (#[trigger] rows[k])
}

/// Whether `reduced` holds the values of `full` at the given rows.
pub open spec fn restricts(reduced: Seq<Scalar>, rows: Seq<usize>, full: Seq<Scalar>) -> bool {
    &&& reduced.len() == rows.len()
    &&& forall|k: int| 0 <= k < rows.len() ==> (#[trigger] reduced[k]) == full[rows[k] as int]
}

/// Whether a full evaluation is handed on: its failure as it is, its values at the given
/// rows.
pub open spec fn restricted(
    rows: Seq<usize>,
    value: Result<Vec<Scalar>, SolveError>,
    result: Result<Vec<Scalar>, SolveError>,
) -> bool {
    match value {
        Err(failure) => result == Err::<Vec<Scalar>, SolveError>(failure),
        Ok(full) => result matches Ok(reduced) && restricts(reduced@, rows, full@),
    }
}

/// Whether the result is the residual of the given rows at the rate that carries `rate`
/// there and is zero elsewhere.
pub open spec fn rate_residual<R: Fn(&Vec<Scalar>) -> Result<Vec<Scalar>, SolveError>>(
    rows: Seq<usize>,
    dimension: int,
    rate: Seq<Scalar>,
    residual: R,
    result: Result<Vec<Scalar>, SolveError>,
) -> bool {
    exists|full: Vec<Scalar>, value: Result<Vec<Scalar>, SolveError>|
        {
            &&& initialization::expands(
                full@,
                initialization::row_models(rows),
                rate,
                dimension,
            )
            &&& #[trigger] call_ensures(residual, (&full,), value)
            &&& restricted(rows, value, result)
        }
}

/// The residual of the rate solve: `residual` evaluates the operator at a full rate.
pub fn reduced_rate_residual<R>(
    rows: &Vec<usize>,
    dimension: usize,
    rate: &Vec<Scalar>,
    residual: &R,
) -> (result: Result<Vec<Scalar>, SolveError>) where
    R: Fn(&Vec<Scalar>) -> Result<Vec<Scalar>, SolveError>,

    requires
        rows_within(rows@, dimension as int),
        rate@.len() == rows@.len(),
        forall|full: &Vec<Scalar>| call_requires(*residual, (full,)),
        forall|full: &Vec<Scalar>, value: Result<Vec<Scalar>, SolveError>|
            #[trigger] call_ensures(*residual, (full,), value) && value is Ok
                ==> value->Ok_0@.len() == dimension,
    ensures
        rate_residual(rows@, dimension as int, rate@, *residual, result),
{
    let full = expand_rows(rows, rate, dimension);
    let value = residual(&full);
    assert(call_ensures(*residual, (&full,), value));
    match value {
        Err(failure) => Err(failure),
        Ok(values) => Ok(restrict_rows(rows, &values)),
    }
}

/// Whether the result is the derivative of the given rows along the rate direction that
/// carries `direction` there and is zero elsewhere, with the state held fixed.
pub open spec fn rate_product<P>(
    rows: Seq<usize>,
    dimension: int,
    rate: Seq<Scalar>,
    direction: Seq<Scalar>,
    product: P,
    result: Result<Vec<Scalar>, SolveError>,
) -> bool where
    P: Fn(&Vec<Scalar>, &Vec<Scalar>, &Vec<Scalar>) -> Result<Vec<Scalar>, SolveError>,
 {
    exists|
        full: Vec<Scalar>,
        still: Vec<Scalar>,
        along: Vec<Scalar>,
        value: Result<Vec<Scalar>, SolveError>,
    |
        {
            let models = initialization::row_models(rows);
            &&& initialization::expands(full@, models, rate, dimension)
            &&& initialization::expands(along@, models, direction, dimension)
            &&& still@.len() == dimension
            &&& forall|i: int| 0 <= i < dimension ==> (#[trigger] still@[i]).bits() == 0
            &&& #[trigger] call_ensures(product, (&full, &still, &along), value)
            &&& restricted(rows, value, result)
        }
}

/// The Jacobian-vector product of the rate solve: `product` evaluates the operator's at a
/// full rate along a state direction and a rate direction.
pub fn reduced_rate_product<P>(
    rows: &Vec<usize>,
    dimension: usize,
    rate: &Vec<Scalar>,
    direction: &Vec<Scalar>,
    product: &P,
) -> (result: Result<Vec<Scalar>, SolveError>) where
    P: Fn(&Vec<Scalar>, &Vec<Scalar>, &Vec<Scalar>) -> Result<Vec<Scalar>, SolveError>,

    requires
        rows_within(rows@, dimension as int),
        rate@.len() == rows@.len(),
        direction@.len() == rows@.len(),
        forall|full: &Vec<Scalar>, still: &Vec<Scalar>, along: &Vec<Scalar>|
            call_requires(*product, (full, still, along)),
        forall|
            full: &Vec<Scalar>,
            still: &Vec<Scalar>,
            along: &Vec<Scalar>,
            value: Result<Vec<Scalar>, SolveError>,
        |
            #[trigger] call_ensures(*product, (full, still, along), value) && value is Ok
                ==> value->Ok_0@.len() == dimension,
    ensures
        rate_product(rows@, dimension as int, rate@, direction@, *product, result),
{
    let full = expand_rows(rows, rate, dimension);
    let along = expand_rows(rows, direction, dimension);
    let still = zeros(dimension);
    let value = product(&full, &still, &along);
    assert(call_ensures(*product, (&full, &still, &along), value));
    match value {
        Err(failure) => Err(failure),
        Ok(values) => Ok(restrict_rows(rows, &values)),
    }
}

} // verus!
