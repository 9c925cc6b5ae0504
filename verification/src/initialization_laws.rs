//! What a given rate holds, and when an initial state is accepted.
use crate::consistency;
use crate::error::KrasisError;
use crate::initialization;
use crate::initialization::{ConsistentInitialization, RateSolvePolicy, RowKind};
use crate::numeric::{NewtonConfig, NewtonReport, NumericError, SolveError};
use crate::reduced_rate;
use crate::scalar;
use crate::scalar::Scalar;
use vstd::prelude::*;

verus! {

/// Whether rows are exactly those that a mask marks differential, in increasing order.
pub open spec fn differential_rows(mask: Seq<RowKind>, rows: Seq<usize>) -> bool {
    &&& forall|k: int|
        0 <= k < rows.len() ==> (#[trigger] rows[k]) < mask.len() && mask[rows[k] as int]
            == RowKind::Differential
    &&& forall|row: usize|
        row < mask.len() && (#[trigger] mask[row as int]) == RowKind::Differential
            ==> rows.contains(row)
    &&& forall|j: int, k: int|
        0 <= j < k < rows.len() ==> (#[trigger] rows[j]) < (#[trigger] rows[k])
}

/// Whether every value is positive zero.
pub open spec fn still(values: Seq<Scalar>) -> bool {
    forall|i: int| 0 <= i < values.len() ==> (#[trigger] values[i]).bits() == 0
}

proof fn lemma_differential_rows(mask: Seq<RowKind>, rows: Seq<usize>)
    requires
        initialization::row_models(rows) == initialization::rows_of(
            mask,
            RowKind::Differential,
            mask.len() as int,
        ),
    ensures
        differential_rows(mask, rows),
{
    let models = initialization::row_models(rows);
    initialization::lemma_rows_of(mask, RowKind::Differential, mask.len() as int);
    assert forall|k: int| 0 <= k < rows.len() implies (#[trigger] rows[k]) < mask.len()
        && mask[rows[k] as int] == RowKind::Differential by {
        assert(models[k] == rows[k]);
    }
    assert forall|row: usize|
        row < mask.len() && (#[trigger] mask[row as int])
            == RowKind::Differential implies rows.contains(row) by {
        assert(models.contains(row as int));
        let k = choose|k: int| 0 <= k < models.len() && models[k] == row as int;
        assert(rows[k] == row);
    }
    assert forall|j: int, k: int| 0 <= j < k < rows.len() implies (#[trigger] rows[j]) < (
    #[trigger] rows[k]) by {
        assert(models[j] < models[k]);
    }
}

/// A rate is given only for a mask and a finite state of the operator's size at a finite
/// time. The solve was run once, with the given configuration at that time and state, over
/// exactly the differential rows and from rest, and it converged to finite values. The rate
/// holds those values in the differential rows and zero in every other.
pub proof fn law_given_rate_holds_the_solved_values<S, R, T>(
    dimension: nat,
    mask: Seq<RowKind>,
    newton: NewtonConfig,
    time: Scalar,
    state: Vec<Scalar>,
    solve: S,
    residual: R,
    render: T,
    rate: Vec<Scalar>,
) where
    S: FnOnce(&NewtonConfig, Scalar, &Vec<Scalar>, Vec<usize>, Vec<Scalar>) -> Result<
        NewtonReport,
        SolveError,
    >,
    R: FnOnce(Scalar, &Vec<Scalar>, Vec<Scalar>) -> Result<Vec<Scalar>, SolveError>,
    T: Fn(Scalar) -> String,

    requires
        initialization::rate_solved(
            dimension,
            mask,
            newton,
            time,
            state,
            solve,
            residual,
            render,
            Ok::<Vec<Scalar>, KrasisError>(rate),
        ),
    ensures
        mask.len() == dimension,
        state@.len() == dimension,
        time.finite(),
        forall|i: int| 0 <= i < state@.len() ==> (#[trigger] state@[i]).finite(),
        rate@.len() == dimension,
        exists|rows: Vec<usize>, guess: Vec<Scalar>, report: NewtonReport|
            {
                &&& #[trigger] call_ensures(
                    solve,
                    (&newton, time, &state, rows, guess),
                    Ok::<NewtonReport, SolveError>(report),
                )
                &&& differential_rows(mask, rows@)
                &&& guess@.len() == rows@.len()
                &&& still(guess@)
                &&& report.converged
                &&& forall|k: int|
                    0 <= k < report.state@.len() ==> (#[trigger] report.state@[k]).finite()
                &&& forall|k: int|
                    0 <= k < rows@.len() ==> rate@[(#[trigger] rows@[k]) as int] == report.state@[k]
            },
        forall|row: int|
            0 <= row < dimension && mask[row] == RowKind::Algebraic ==> (
            #[trigger] rate@[row]).bits() == 0,
{
    let differential = initialization::rows_of(mask, RowKind::Differential, mask.len() as int);
    let outcome = Ok::<Vec<Scalar>, KrasisError>(rate);
    let (rows, guess, report) = choose|
        rows: Vec<usize>,
        guess: Vec<Scalar>,
        report: Result<NewtonReport, SolveError>,
    |
        {
            &&& initialization::row_models(rows@) == differential
            &&& guess@.len() == rows@.len()
            &&& forall|i: int| 0 <= i < guess@.len() ==> (#[trigger] guess@[i]).bits() == 0
            &&& #[trigger] call_ensures(solve, (&newton, time, &state, rows, guess), report)
            &&& match initialization::report_failure(report) {
                Some(failure) => false,
                None => initialization::rate_checked(
                    dimension,
                    mask,
                    newton.absolute_tolerance,
                    time,
                    state,
                    initialization::row_models(rows@),
                    report->Ok_0.state@,
                    residual,
                    render,
                    outcome,
                ),
            }
        };
    lemma_differential_rows(mask, rows@);
    let models = initialization::row_models(rows@);
    let solved = report->Ok_0;
    assert(initialization::expands(rate@, models, solved.state@, dimension as int)) by {
        if initialization::rows_of(mask, RowKind::Algebraic, mask.len() as int).len() != 0 {
            let (offered, value) = choose|
                offered: Vec<Scalar>,
                value: Result<Vec<Scalar>, SolveError>,
            |
                {
                    &&& initialization::expands(offered@, models, solved.state@, dimension as int)
                    &&& #[trigger] call_ensures(residual, (time, &state, offered), value)
                    &&& match value {
                        Err(failure) => false,
                        Ok(full) => rate@ == offered@,
                    }
                };
        }
    }
    assert(call_ensures(
        solve,
        (&newton, time, &state, rows, guess),
        Ok::<NewtonReport, SolveError>(solved),
    ));
    assert forall|k: int| 0 <= k < rows@.len() implies rate@[(#[trigger] rows@[k]) as int]
        == solved.state@[k] by {
        assert(models[k] == rows@[k]);
    }
    assert forall|row: int|
        0 <= row < dimension && mask[row] == RowKind::Algebraic implies (
    #[trigger] rate@[row]).bits() == 0 by {
        if models.contains(row) {
            let k = choose|k: int| 0 <= k < models.len() && models[k] == row;
            assert(rows@[k] == row);
        }
    }
}

/// A recorded mask and configuration are the ones that a rate is solved with; without them
/// no rate is given.
pub proof fn law_recorded_rate_is_over_the_recorded_mask<S, R, T>(
    config: Option<ConsistentInitialization>,
    dimension: nat,
    time: Scalar,
    state: Vec<Scalar>,
    solve: S,
    residual: R,
    render: T,
    rate: Vec<Scalar>,
) where
    S: FnOnce(&NewtonConfig, Scalar, &Vec<Scalar>, Vec<usize>, Vec<Scalar>) -> Result<
        NewtonReport,
        SolveError,
    >,
    R: FnOnce(Scalar, &Vec<Scalar>, Vec<Scalar>) -> Result<Vec<Scalar>, SolveError>,
    T: Fn(Scalar) -> String,

    requires
        consistency::recorded_rate_solved(
            config,
            dimension,
            time,
            state,
            solve,
            residual,
            render,
            Ok::<Vec<Scalar>, KrasisError>(rate),
        ),
    ensures
        config is Some,
        config->0.mask@.len() == dimension,
        rate@.len() == dimension,
        exists|rows: Vec<usize>, guess: Vec<Scalar>, report: NewtonReport|
            {
                &&& #[trigger] call_ensures(
                    solve,
                    (&config->0.newton, time, &state, rows, guess),
                    Ok::<NewtonReport, SolveError>(report),
                )
                &&& differential_rows(config->0.mask@, rows@)
                &&& still(guess@)
                &&& report.converged
                &&& forall|k: int|
                    0 <= k < rows@.len() ==> rate@[(#[trigger] rows@[k]) as int] == report.state@[k]
            },
{
    law_given_rate_holds_the_solved_values(
        dimension,
        config->0.mask@,
        config->0.newton,
        time,
        state,
        solve,
        residual,
        render,
        rate,
    );
}

/// An initial state is accepted unseen where no mask is recorded. Where one is, and it marks
/// an algebraic row or the policy always solves, the state is accepted exactly where a rate
/// is given for it.
pub proof fn law_initial_state_needs_a_rate<S, R, T>(
    config: Option<ConsistentInitialization>,
    dimension: nat,
    time: Scalar,
    state: Vec<Scalar>,
    solve: S,
    residual: R,
    render: T,
    result: Result<(), NumericError>,
) where
    S: FnOnce(&NewtonConfig, Scalar, &Vec<Scalar>, Vec<usize>, Vec<Scalar>) -> Result<
        NewtonReport,
        SolveError,
    >,
    R: FnOnce(Scalar, &Vec<Scalar>, Vec<Scalar>) -> Result<Vec<Scalar>, SolveError>,
    T: Fn(Scalar) -> String,

    requires
        initialization::initial_state_checked(
            config,
            dimension,
            time,
            state,
            solve,
            residual,
            render,
            result,
        ),
    ensures
        config is None ==> result is Ok,
        config matches Some(kept) && (kept.policy == RateSolvePolicy::Always || exists|row: int|
            0 <= row < kept.mask@.len() && #[trigger] kept.mask@[row] == RowKind::Algebraic)
            ==> exists|solved: Result<Vec<Scalar>, KrasisError>|
            {
                &&& #[trigger] consistency::recorded_rate_solved(
                    config,
                    dimension,
                    time,
                    state,
                    solve,
                    residual,
                    render,
                    solved,
                )
                &&& solved is Ok <==> result is Ok
            },
{
    if config is Some {
        let kept = config->0;
        if kept.policy == RateSolvePolicy::Always || exists|row: int|
            0 <= row < kept.mask@.len() && #[trigger] kept.mask@[row] == RowKind::Algebraic {
            let solved = choose|solved: Result<Vec<Scalar>, KrasisError>|
                {
                    &&& #[trigger] initialization::rate_solved(
                        dimension,
                        kept.mask@,
                        kept.newton,
                        time,
                        state,
                        solve,
                        residual,
                        render,
                        solved,
                    )
                    &&& match solved {
                        Ok(_) => result is Ok,
                        Err(error) => result is Err,
                    }
                };
            assert(consistency::recorded_rate_solved(
                config,
                dimension,
                time,
                state,
                solve,
                residual,
                render,
                solved,
            ));
        }
    }
}

/// Where every row is differential and the policy solves only for algebraic rows, an initial
/// state of the operator's size is accepted exactly where the residual at rest is finite.
pub proof fn law_initial_state_without_a_rate<S, R, T>(
    config: ConsistentInitialization,
    dimension: nat,
    time: Scalar,
    state: Vec<Scalar>,
    solve: S,
    residual: R,
    render: T,
    result: Result<(), NumericError>,
) where
    S: FnOnce(&NewtonConfig, Scalar, &Vec<Scalar>, Vec<usize>, Vec<Scalar>) -> Result<
        NewtonReport,
        SolveError,
    >,
    R: FnOnce(Scalar, &Vec<Scalar>, Vec<Scalar>) -> Result<Vec<Scalar>, SolveError>,
    T: Fn(Scalar) -> String,

    requires
        initialization::initial_state_checked(
            Some(config),
            dimension,
            time,
            state,
            solve,
            residual,
            render,
            result,
        ),
        config.policy == RateSolvePolicy::WhenAlgebraic,
        forall|row: int|
            0 <= row < config.mask@.len() ==> (#[trigger] config.mask@[row])
                == RowKind::Differential,
    ensures
        state@.len() != dimension ==> result is Err,
        state@.len() == dimension ==> exists|
            rate: Vec<Scalar>,
            value: Result<Vec<Scalar>, SolveError>,
        |
            {
                &&& #[trigger] call_ensures(residual, (time, &state, rate), value)
                &&& rate@.len() == dimension
                &&& still(rate@)
                &&& result is Ok <==> value is Ok && forall|i: int|
                    0 <= i < value->Ok_0@.len() ==> (#[trigger] value->Ok_0@[i]).finite()
            },
{
    if state@.len() == dimension {
        let (rate, value) = choose|rate: Vec<Scalar>, value: Result<Vec<Scalar>, SolveError>|
            {
                &&& rate@.len() == dimension
                &&& forall|i: int| 0 <= i < dimension ==> (#[trigger] rate@[i]).bits() == 0
                &&& #[trigger] call_ensures(residual, (time, &state, rate), value)
                &&& match value {
                    Err(failure) => result is Err,
                    Ok(full) => match result {
                        Ok(_) => scalar::all_finite(full@),
                        Err(error) => exists|index: int|
                            #[trigger] scalar::first_non_finite(full@, index),
                    },
                }
            };
        assert(call_ensures(residual, (time, &state, rate), value));
        assert(still(rate@));
        if value is Ok && result is Err {
            let full = value->Ok_0@;
            let index = choose|index: int| #[trigger] scalar::first_non_finite(full, index);
            assert(!full[index].finite());
        }
    }
}

/// Whether a full vector holds the given values at the given rows and zero elsewhere.
pub open spec fn carries(
    full: Seq<Scalar>,
    rows: Seq<usize>,
    values: Seq<Scalar>,
    dimension: int,
) -> bool {
    &&& full.len() == dimension
    &&& forall|k: int| 0 <= k < rows.len() ==> full[(#[trigger] rows[k]) as int] == values[k]
    &&& forall|i: int|
        0 <= i < dimension && (forall|k: int| 0 <= k < rows.len() ==> (#[trigger] rows[k]) != i)
            ==> (#[trigger] full[i]).bits() == 0
}

proof fn lemma_carries(
    full: Seq<Scalar>,
    rows: Seq<usize>,
    values: Seq<Scalar>,
    dimension: int,
)
    requires
        initialization::expands(full, initialization::row_models(rows), values, dimension),
    ensures
        carries(full, rows, values, dimension),
{
    let models = initialization::row_models(rows);
    assert forall|k: int| 0 <= k < rows.len() implies full[(#[trigger] rows[k]) as int]
        == values[k] by {
        assert(models[k] == rows[k]);
    }
    assert forall|i: int|
        0 <= i < dimension && (forall|k: int|
            0 <= k < rows.len() ==> (#[trigger] rows[k]) != i) implies (#[trigger] full[i]).bits()
        == 0 by {
        if models.contains(i) {
            let k = choose|k: int| 0 <= k < models.len() && models[k] == i;
            assert(rows[k] == i);
        }
    }
}

/// The rate solve's residual at reduced rates is the operator's, at the full rate that
/// carries them in their rows, read in those rows; where the operator fails, its failure is
/// handed on.
pub proof fn law_reduced_residual_is_read_in_its_rows<
    R: Fn(&Vec<Scalar>) -> Result<Vec<Scalar>, SolveError>,
>(
    rows: Seq<usize>,
    dimension: int,
    rate: Seq<Scalar>,
    residual: R,
    result: Result<Vec<Scalar>, SolveError>,
)
    requires
        reduced_rate::rate_residual(rows, dimension, rate, residual, result),
    ensures
        exists|full: Vec<Scalar>, value: Result<Vec<Scalar>, SolveError>|
            {
                &&& #[trigger] call_ensures(residual, (&full,), value)
                &&& carries(full@, rows, rate, dimension)
                &&& reads(rows, value, result)
            },
{
    let (full, value) = choose|full: Vec<Scalar>, value: Result<Vec<Scalar>, SolveError>|
        {
            &&& initialization::expands(
                full@,
                initialization::row_models(rows),
                rate,
                dimension,
            )
            &&& #[trigger] call_ensures(residual, (&full,), value)
            &&& reduced_rate::restricted(rows, value, result)
        };
    lemma_carries(full@, rows, rate, dimension);
    assert(call_ensures(residual, (&full,), value));
}

/// Whether a result reads a full evaluation in the given rows, in their order, or hands its
/// failure on.
pub open spec fn reads(
    rows: Seq<usize>,
    value: Result<Vec<Scalar>, SolveError>,
    result: Result<Vec<Scalar>, SolveError>,
) -> bool {
    match (value, result) {
        (Ok(full), Ok(reduced)) => reduced@.len() == rows.len() && forall|k: int|
            0 <= k < rows.len() ==> reduced@[k] == full@[(#[trigger] rows[k]) as int],
        (Err(failure), Err(error)) => failure == error,
        _ => false,
    }
}

/// The rate solve's product along a reduced direction is the operator's, at the full rate
/// and along the full rate direction that carry both in their rows and with the state held
/// still, read in those rows.
pub proof fn law_reduced_product_is_read_in_its_rows<P>(
    rows: Seq<usize>,
    dimension: int,
    rate: Seq<Scalar>,
    direction: Seq<Scalar>,
    product: P,
    result: Result<Vec<Scalar>, SolveError>,
) where
    P: Fn(&Vec<Scalar>, &Vec<Scalar>, &Vec<Scalar>) -> Result<Vec<Scalar>, SolveError>,

    requires
        reduced_rate::rate_product(rows, dimension, rate, direction, product, result),
    ensures
        exists|
            full: Vec<Scalar>,
            fixed: Vec<Scalar>,
            along: Vec<Scalar>,
            value: Result<Vec<Scalar>, SolveError>,
        |
            {
                &&& #[trigger] call_ensures(product, (&full, &fixed, &along), value)
                &&& carries(full@, rows, rate, dimension)
                &&& carries(along@, rows, direction, dimension)
                &&& fixed@.len() == dimension
                &&& still(fixed@)
                &&& reads(rows, value, result)
            },
{
    let models = initialization::row_models(rows);
    let (full, fixed, along, value) = choose|
        full: Vec<Scalar>,
        fixed: Vec<Scalar>,
        along: Vec<Scalar>,
        value: Result<Vec<Scalar>, SolveError>,
    |
        {
            &&& initialization::expands(full@, models, rate, dimension)
            &&& initialization::expands(along@, models, direction, dimension)
            &&& fixed@.len() == dimension
            &&& forall|i: int| 0 <= i < dimension ==> (#[trigger] fixed@[i]).bits() == 0
            &&& #[trigger] call_ensures(product, (&full, &fixed, &along), value)
            &&& reduced_rate::restricted(rows, value, result)
        };
    lemma_carries(full@, rows, rate, dimension);
    lemma_carries(along@, rows, direction, dimension);
    assert(still(fixed@));
    assert(call_ensures(product, (&full, &fixed, &along), value));
}

} // verus!
