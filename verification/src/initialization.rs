//! Index-1 consistent initialization: which rows carry a rate unknown, what a
//! solved rate has to satisfy, and the identity of the convention.
use crate::digest;
use crate::digest::{append_part, digest_text};
use crate::error::{ErrorModel, KrasisError};
use crate::numeric;
use crate::numeric::{
    krasis_solve_error, methodus_operator_error, NewtonConfig, NewtonReport, NumericError,
    NumericModel, SolveError,
};
use crate::scalar;
use crate::scalar::{find_non_finite, zeros, Scalar};
use crate::text;
use crate::text::size_text;
use vstd::prelude::*;

verus! {

/// Whether a row of a composed residual depends on the state rate.
///
/// A differential row contributes its rate to the unknown of the rate solve. An
/// algebraic row contributes none; its residual must vanish at the given state.
#[derive(Clone, Copy, Debug, PartialEq, Eq, Structural)]
pub enum RowKind {
    Differential,
    Algebraic,
}

/// When a recorded consistent initialization performs its rate solve.
#[derive(Clone, Copy, Debug, PartialEq, Eq, Structural)]
pub enum RateSolvePolicy {
    /// In every case.
    Always,
    /// Only when at least one row is algebraic.
    WhenAlgebraic,
}

/// A recorded row mask with the Newton configuration and policy of its rate solve.
#[derive(Clone, Debug, PartialEq, Eq)]
pub struct ConsistentInitialization {
    pub mask: Vec<RowKind>,
    pub newton: NewtonConfig,
    pub policy: RateSolvePolicy,
}

pub fn copy_kinds(kinds: &Vec<RowKind>) -> (result: Vec<RowKind>)
    ensures
        result@ == kinds@,
{
    let mut result: Vec<RowKind> = Vec::new();
    let mut index: usize = 0;
    while index < kinds.len()
        invariant
            index <= kinds.len(),
            result@ == kinds@.take(index as int),
        decreases kinds.len() - index,
    {
        result.push(kinds[index]);
        index += 1;
    }
    assert(result@ == kinds@);
    result
}

/// The JSON string of a row kind.
pub open spec fn kind_json(kind: RowKind) -> Seq<char> {
    match kind {
        RowKind::Differential => "\"Differential\""@,
        RowKind::Algebraic => "\"Algebraic\""@,
    }
}

/// The JSON array of a row mask.
pub open spec fn mask_json(mask: Seq<RowKind>) -> Seq<char> {
    "["@ + digest::comma_joined(mask.map_values(|kind: RowKind| kind_json(kind))) + "]"@
}

/// The text whose digest identifies an initialization convention.
pub open spec fn initialization_payload(
    mask: Seq<RowKind>,
    newton: Seq<char>,
    policy: RateSolvePolicy,
) -> Seq<char> {
    match policy {
        RateSolvePolicy::Always => "{\"schema\":\"krasis-consistent-init/1\",\"mask\":"@
            + mask_json(mask) + ",\"newton\":"@ + newton + "}"@,
        RateSolvePolicy::WhenAlgebraic => "{\"schema\":\"krasis-consistent-init/2\",\"mask\":"@
            + mask_json(mask) + ",\"newton\":"@ + newton + ",\"policy\":\"when-algebraic\"}"@,
    }
}

pub fn mask_json_text(mask: &Vec<RowKind>) -> (result: String)
    ensures
        result@ == mask_json(mask@),
{
    let ghost parts = mask@.map_values(|kind: RowKind| kind_json(kind));
    let mut list: String = String::new();
    let mut index: usize = 0;
    assert(parts.take(0) =~= Seq::<Seq<char>>::empty());
    while index < mask.len()
        invariant
            index <= mask.len(),
            parts == mask@.map_values(|kind: RowKind| kind_json(kind)),
            list@ == digest::comma_joined(parts.take(index as int)),
        decreases mask.len() - index,
    {
        let part = match mask[index] {
            RowKind::Differential => "\"Differential\"",
            RowKind::Algebraic => "\"Algebraic\"",
        };
        assert(parts.take(index + 1) =~= parts.take(index as int).push(part@));
        list = append_part(list, index, part, Ghost(parts.take(index as int)));
        index += 1;
    }
    assert(parts.take(index as int) =~= parts);
    "[".to_owned().concat(list.as_str()).concat("]")
}

/// The identity of an initialization convention.
pub fn consistent_initialization_identity(
    mask: &Vec<RowKind>,
    newton: &NewtonConfig,
    policy: RateSolvePolicy,
) -> (result: String)
    ensures
        result@ == digest::digest_of(
            initialization_payload(mask@, newton.encoding@, policy),
        ),
{
    let mask_text = mask_json_text(mask);
    let payload = match policy {
        RateSolvePolicy::Always => "{\"schema\":\"krasis-consistent-init/1\",\"mask\":".to_owned().concat(
            mask_text.as_str(),
        ).concat(",\"newton\":").concat(newton.encoding.as_str()).concat("}"),
        RateSolvePolicy::WhenAlgebraic => "{\"schema\":\"krasis-consistent-init/2\",\"mask\":".to_owned().concat(
            mask_text.as_str(),
        ).concat(",\"newton\":").concat(newton.encoding.as_str()).concat(
            ",\"policy\":\"when-algebraic\"}",
        ),
    };
    digest_text(payload.as_str())
}

/// Rows of one kind, in increasing order, among the first `count`.
pub open spec fn rows_of(mask: Seq<RowKind>, kind: RowKind, count: int) -> Seq<int>
    decreases count,
{
    if count <= 0 {
        Seq::empty()
    } else if mask[count - 1] == kind {
        rows_of(mask, kind, count - 1).push(count - 1)
    } else {
        rows_of(mask, kind, count - 1)
    }
}

pub open spec fn row_models(rows: Seq<usize>) -> Seq<int> {
    rows.map_values(|row: usize| row as int)
}

pub proof fn lemma_rows_of(mask: Seq<RowKind>, kind: RowKind, count: int)
    requires
        0 <= count <= mask.len(),
    ensures
        forall|k: int|
            0 <= k < rows_of(mask, kind, count).len() ==> 0 <= (#[trigger] rows_of(
                mask,
                kind,
                count,
            )[k]) < count && mask[rows_of(mask, kind, count)[k]] == kind,
        forall|row: int|
            0 <= row < count && (#[trigger] mask[row]) == kind ==> rows_of(
                mask,
                kind,
                count,
            ).contains(row),
        forall|j: int, k: int|
            0 <= j < k < rows_of(mask, kind, count).len() ==> (#[trigger] rows_of(
                mask,
                kind,
                count,
            )[j]) < (#[trigger] rows_of(mask, kind, count)[k]),
    decreases count,
{
    if count > 0 {
        lemma_rows_of(mask, kind, count - 1);
        let shorter = rows_of(mask, kind, count - 1);
        let rows = rows_of(mask, kind, count);
        assert forall|row: int| 0 <= row < count && (#[trigger] mask[row])
            == kind implies rows.contains(row) by {
            if row < count - 1 {
                assert(shorter.contains(row));
                let k = choose|k: int| 0 <= k < shorter.len() && shorter[k] == row;
                assert(rows[k] == row);
            } else {
                assert(rows[rows.len() - 1] == row);
            }
        }
    }
}

/// The rows of one kind.
pub fn select_rows(mask: &Vec<RowKind>, kind: RowKind) -> (result: Vec<usize>)
    ensures
        row_models(result@) == rows_of(mask@, kind, mask@.len() as int),
{
    let mut result: Vec<usize> = Vec::new();
    let mut index: usize = 0;
    assert(row_models(result@) =~= rows_of(mask@, kind, 0));
    while index < mask.len()
        invariant
            index <= mask.len(),
            row_models(result@) == rows_of(mask@, kind, index as int),
        decreases mask.len() - index,
    {
        if mask[index] == kind {
            let ghost before = result@;
            result.push(index);
            assert(row_models(result@) =~= row_models(before).push(index as int));
        }
        index += 1;
    }
    result
}

/// Whether `full` holds `reduced` at the given rows and positive zero elsewhere.
pub open spec fn expands(
    full: Seq<Scalar>,
    rows: Seq<int>,
    reduced: Seq<Scalar>,
    dimension: int,
) -> bool {
    &&& full.len() == dimension
    &&& forall|k: int| 0 <= k < rows.len() ==> full[#[trigger] rows[k]] == reduced[k]
    &&& forall|i: int|
        0 <= i < dimension && !rows.contains(i) ==> (#[trigger] full[i]).bits() == 0
}

/// The full vector of values given at increasing rows; zero elsewhere.
pub fn expand_rows(rows: &Vec<usize>, reduced: &Vec<Scalar>, dimension: usize) -> (result: Vec<
    Scalar,
>)
    requires
        rows@.len() <= reduced@.len(),
        forall|k: int| 0 <= k < rows@.len() ==> (#[trigger] rows@[k]) < dimension,
        forall|j: int, k: int|
            0 <= j < k < rows@.len() ==> (#[trigger] rows@[j]) < (#[trigger] rows@[k]),
    ensures
        expands(result@, row_models(rows@), reduced@, dimension as int),
{
    let mut result = zeros(dimension);
    let mut index: usize = 0;
    while index < rows.len()
        invariant
            index <= rows.len(),
            rows@.len() <= reduced@.len(),
            result@.len() == dimension,
            forall|k: int| 0 <= k < rows@.len() ==> (#[trigger] rows@[k]) < dimension,
            forall|j: int, k: int|
                0 <= j < k < rows@.len() ==> (#[trigger] rows@[j]) < (#[trigger] rows@[k]),
            forall|k: int| 0 <= k < index ==> result@[(#[trigger] rows@[k]) as int] == reduced@[k],
            forall|i: int|
                0 <= i < dimension && !row_models(rows@).contains(i) ==> (
                #[trigger] result@[i]).bits() == 0,
        decreases rows.len() - index,
    {
        let row: usize = rows[index];
        assert(row_models(rows@)[index as int] == row as int);
        result.set(row, reduced[index]);
        index += 1;
    }
    proof {
        let models = row_models(rows@);
        assert forall|k: int| 0 <= k < models.len() implies result@[#[trigger] models[k]]
            == reduced@[k] by {
            assert(models[k] == rows@[k] as int);
        }
    }
    result
}

/// The values of a full vector at the given rows.
pub fn restrict_rows(rows: &Vec<usize>, full: &Vec<Scalar>) -> (result: Vec<Scalar>)
    requires
        forall|k: int| 0 <= k < rows@.len() ==> (#[trigger] rows@[k]) < full@.len(),
    ensures
        result@.len() == rows@.len(),
        forall|k: int| 0 <= k < rows@.len() ==> (#[trigger] result@[k]) == full@[rows@[k] as int],
{
    let mut result: Vec<Scalar> = Vec::new();
    let mut index: usize = 0;
    while index < rows.len()
        invariant
            index <= rows.len(),
            result@.len() == index,
            forall|k: int| 0 <= k < rows@.len() ==> (#[trigger] rows@[k]) < full@.len(),
            forall|k: int|
                0 <= k < index ==> (#[trigger] result@[k]) == full@[rows@[k] as int],
        decreases rows.len() - index,
    {
        result.push(full[rows[index]]);
        index += 1;
    }
    result
}

/// What is wrong with the inputs of a rate solve.
pub open spec fn input_failure(
    dimension: nat,
    mask: Seq<RowKind>,
    time: Scalar,
    state: Seq<Scalar>,
) -> Option<ErrorModel> {
    if mask.len() != dimension {
        Some(
            ErrorModel::ConsistentInitializationMaskLength {
                actual: mask.len(),
                expected: dimension,
            },
        )
    } else if state.len() != dimension {
        Some(
            ErrorModel::InvalidCoupling(
                "state length "@ + text::decimal(state.len())
                    + " differs from operator dimension "@ + text::decimal(dimension),
            ),
        )
    } else if !time.finite() {
        Some(
            ErrorModel::InvalidCoupling("consistent initialization time must be finite"@),
        )
    } else if !scalar::all_finite(state) {
        Some(
            ErrorModel::InvalidCoupling("consistent initialization state must be finite"@),
        )
    } else {
        None
    }
}

/// Checks the inputs of a rate solve.
pub fn check_rate_inputs(
    dimension: usize,
    mask: &Vec<RowKind>,
    time: Scalar,
    state: &Vec<Scalar>,
) -> (result: Result<(), KrasisError>)
    ensures
        match input_failure(dimension as nat, mask@, time, state@) {
            Some(failure) => result matches Err(error) && error@ == failure,
            None => result is Ok,
        },
{
    if mask.len() != dimension {
        return Err(
            KrasisError::ConsistentInitializationMaskLength {
                actual: mask.len(),
                expected: dimension,
            },
        );
    }
    if state.len() != dimension {
        return Err(
            KrasisError::InvalidCoupling(
                "state length ".to_owned().concat(size_text(state.len()).as_str()).concat(
                    " differs from operator dimension ",
                ).concat(size_text(dimension).as_str()),
            ),
        );
    }
    if !time.is_finite() {
        return Err(
            KrasisError::InvalidCoupling(
                "consistent initialization time must be finite".to_owned(),
            ),
        );
    }
    if find_non_finite(state).is_some() {
        return Err(
            KrasisError::InvalidCoupling(
                "consistent initialization state must be finite".to_owned(),
            ),
        );
    }
    Ok(())
}

/// What is wrong with a reported rate solve.
pub open spec fn report_failure(report: Result<NewtonReport, SolveError>) -> Option<ErrorModel> {
    match report {
        Err(error) => Some(numeric::solve_failure(error@)),
        Ok(report) => if !report.converged {
            Some(
                ErrorModel::Solve("consistent initialization Newton solve did not converge"@),
            )
        } else if !scalar::all_finite(report.state@) {
            Some(
                ErrorModel::Solve("consistent state rate solve produced non-finite values"@),
            )
        } else {
            None
        },
    }
}

/// The full state rate of a reported rate solve over the given rows.
pub fn accept_rate(
    rows: &Vec<usize>,
    dimension: usize,
    report: Result<NewtonReport, SolveError>,
) -> (result: Result<Vec<Scalar>, KrasisError>)
    requires
        report matches Ok(solved) ==> rows@.len() <= solved.state@.len(),
        forall|k: int| 0 <= k < rows@.len() ==> (#[trigger] rows@[k]) < dimension,
        forall|j: int, k: int|
            0 <= j < k < rows@.len() ==> (#[trigger] rows@[j]) < (#[trigger] rows@[k]),
    ensures
        match report_failure(report) {
            Some(failure) => result matches Err(error) && error@ == failure,
            None => result matches Ok(rate) && expands(
                rate@,
                row_models(rows@),
                report->Ok_0.state@,
                dimension as int,
            ),
        },
{
    match report {
        Err(error) => Err(krasis_solve_error(error)),
        Ok(solved) => {
            if !solved.converged {
                return Err(
                    KrasisError::Solve(
                        "consistent initialization Newton solve did not converge".to_owned(),
                    ),
                );
            }
            if find_non_finite(&solved.state).is_some() {
                return Err(
                    KrasisError::Solve(
                        "consistent state rate solve produced non-finite values".to_owned(),
                    ),
                );
            }
            Ok(expand_rows(rows, &solved.state, dimension))
        },
    }
}

/// Whether a row is algebraic and its residual does not vanish within the tolerance. A
/// residual or a tolerance that is NaN vanishes within nothing.
pub open spec fn violates(
    mask: Seq<RowKind>,
    residual: Seq<Scalar>,
    tolerance: Scalar,
    row: int,
) -> bool {
    mask[row] == RowKind::Algebraic && !residual[row].vanishes_within(tolerance)
}

pub open spec fn first_violation(
    mask: Seq<RowKind>,
    residual: Seq<Scalar>,
    tolerance: Scalar,
    row: int,
) -> bool {
    &&& 0 <= row < mask.len()
    &&& violates(mask, residual, tolerance, row)
    &&& forall|i: int| 0 <= i < row ==> !#[trigger] violates(mask, residual, tolerance, i)
}

/// The text of an algebraic row that does not vanish.
pub open spec fn violation_text(row: int, residual: Seq<char>, tolerance: Seq<char>) -> Seq<char> {
    "row "@ + text::decimal(row as nat) + " is marked algebraic but has residual "@ + residual
        + " at the supplied initial state, which exceeds the configured absolute tolerance "@
        + tolerance
        + "; the initial condition is not consistent with the algebraic constraint"@
}

/// Whether the result says what the algebraic rows of a residual say.
pub open spec fn algebraic_checked<T: Fn(Scalar) -> String>(
    mask: Seq<RowKind>,
    residual: Seq<Scalar>,
    tolerance: Scalar,
    render: T,
    result: Result<(), KrasisError>,
) -> bool {
    match result {
        Ok(_) => forall|row: int|
            0 <= row < mask.len() ==> !#[trigger] violates(mask, residual, tolerance, row),
        Err(error) => exists|row: int, shown: String, bound: String|
            {
                &&& #[trigger] first_violation(mask, residual, tolerance, row)
                &&& call_ensures(render, (residual[row],), shown)
                &&& call_ensures(render, (tolerance,), bound)
                &&& error@ == ErrorModel::InvalidCoupling(
                    #[trigger] violation_text(row, shown@, bound@),
                )
            },
    }
}

/// Checks that every algebraic row vanishes within the tolerance.
pub fn check_algebraic_rows<T: Fn(Scalar) -> String>(
    mask: &Vec<RowKind>,
    residual: &Vec<Scalar>,
    tolerance: Scalar,
    render: &T,
) -> (result: Result<(), KrasisError>)
    requires
        residual@.len() == mask@.len(),
        forall|value: Scalar| call_requires(*render, (value,)),
    ensures
        algebraic_checked(mask@, residual@, tolerance, *render, result),
{
    let mut row: usize = 0;
    while row < mask.len()
        invariant
            row <= mask.len(),
            residual@.len() == mask@.len(),
            forall|value: Scalar| call_requires(*render, (value,)),
            forall|i: int| 0 <= i < row ==> !#[trigger] violates(mask@, residual@, tolerance, i),
        decreases mask.len() - row,
    {
        if mask[row] == RowKind::Algebraic && !residual[row].is_within(&tolerance) {
            let shown = render(residual[row]);
            let bound = render(tolerance);
            let message = "row ".to_owned().concat(size_text(row).as_str()).concat(
                " is marked algebraic but has residual ",
            ).concat(shown.as_str()).concat(
                " at the supplied initial state, which exceeds the configured absolute tolerance ",
            ).concat(bound.as_str()).concat(
                "; the initial condition is not consistent with the algebraic constraint",
            );
            proof {
                assert(violates(mask@, residual@, tolerance, row as int));
                assert(first_violation(mask@, residual@, tolerance, row as int));
                assert(message@ == violation_text(row as int, shown@, bound@));
            }
            return Err(KrasisError::InvalidCoupling(message));
        }
        row += 1;
    }
    Ok(())
}

/// What a rate solve returns, whatever its two outside calls gave: `solve` a report of a
/// solve with the Newton configuration over the differential rows at the time and state,
/// started from zero, and `residual` the full residual at the time and state and a rate.
pub open spec fn rate_solved<S, R, T>(
    dimension: nat,
    mask: Seq<RowKind>,
    newton: NewtonConfig,
    time: Scalar,
    state: Vec<Scalar>,
    solve: S,
    residual: R,
    render: T,
    result: Result<Vec<Scalar>, KrasisError>,
) -> bool where
    S: FnOnce(&NewtonConfig, Scalar, &Vec<Scalar>, Vec<usize>, Vec<Scalar>) -> Result<
        NewtonReport,
        SolveError,
    >,
    R: FnOnce(Scalar, &Vec<Scalar>, Vec<Scalar>) -> Result<Vec<Scalar>, SolveError>,
    T: Fn(Scalar) -> String,
 {
    match input_failure(dimension, mask, time, state@) {
        Some(failure) => result matches Err(error) && error@ == failure,
        None => exists|rows: Vec<usize>, guess: Vec<Scalar>, report: Result<
            NewtonReport,
            SolveError,
        >|
            {
                &&& row_models(rows@) == rows_of(mask, RowKind::Differential, mask.len() as int)
                &&& guess@.len() == rows@.len()
                &&& forall|i: int| 0 <= i < guess@.len() ==> (#[trigger] guess@[i]).bits() == 0
                &&& #[trigger] call_ensures(solve, (&newton, time, &state, rows, guess), report)
                &&& match report_failure(report) {
                    Some(failure) => result matches Err(error) && error@ == failure,
                    None => rate_checked(
                        dimension,
                        mask,
                        newton.absolute_tolerance,
                        time,
                        state,
                        row_models(rows@),
                        report->Ok_0.state@,
                        residual,
                        render,
                        result,
                    ),
                }
            },
    }
}

/// What follows a converged rate solve.
pub open spec fn rate_checked<R, T>(
    dimension: nat,
    mask: Seq<RowKind>,
    tolerance: Scalar,
    time: Scalar,
    state: Vec<Scalar>,
    rows: Seq<int>,
    reduced: Seq<Scalar>,
    residual: R,
    render: T,
    result: Result<Vec<Scalar>, KrasisError>,
) -> bool where
    R: FnOnce(Scalar, &Vec<Scalar>, Vec<Scalar>) -> Result<Vec<Scalar>, SolveError>,
    T: Fn(Scalar) -> String,
 {
    if rows_of(mask, RowKind::Algebraic, mask.len() as int).len() == 0 {
        result matches Ok(rate) && expands(rate@, rows, reduced, dimension as int)
    } else {
        exists|rate: Vec<Scalar>, value: Result<Vec<Scalar>, SolveError>|
            {
                &&& expands(rate@, rows, reduced, dimension as int)
                &&& #[trigger] call_ensures(residual, (time, &state, rate), value)
                &&& match value {
                    Err(failure) => result matches Err(error) && error@ == numeric::solve_failure(
                        failure@,
                    ),
                    Ok(full) => match result {
                        Ok(accepted) => accepted@ == rate@ && algebraic_checked(
                            mask,
                            full@,
                            tolerance,
                            render,
                            Ok(()),
                        ),
                        Err(error) => algebraic_checked(
                            mask,
                            full@,
                            tolerance,
                            render,
                            Err(error),
                        ),
                    },
                }
            }
    }
}

/// Solves `F(time, state, rate) = 0` for the rate of the differential rows.
///
/// Algebraic rows keep rate zero; their residual must already vanish within the
/// Newton configuration's absolute tolerance, or no rate is consistent.
pub fn solve_consistent_state_rate_for<S, R, T>(
    dimension: usize,
    mask: &Vec<RowKind>,
    newton: &NewtonConfig,
    time: Scalar,
    state: &Vec<Scalar>,
    solve: S,
    residual: R,
    render: &T,
) -> (result: Result<Vec<Scalar>, KrasisError>) where
    S: FnOnce(&NewtonConfig, Scalar, &Vec<Scalar>, Vec<usize>, Vec<Scalar>) -> Result<
        NewtonReport,
        SolveError,
    >,
    R: FnOnce(Scalar, &Vec<Scalar>, Vec<Scalar>) -> Result<Vec<Scalar>, SolveError>,
    T: Fn(Scalar) -> String,

    requires
        forall|
            newton: &NewtonConfig,
            time: Scalar,
            state: &Vec<Scalar>,
            rows: Vec<usize>,
            guess: Vec<Scalar>,
        |
            call_requires(solve, (newton, time, state, rows, guess)),
        forall|
            newton: &NewtonConfig,
            time: Scalar,
            state: &Vec<Scalar>,
            rows: Vec<usize>,
            guess: Vec<Scalar>,
            report: Result<NewtonReport, SolveError>,
        |
            #[trigger] call_ensures(solve, (newton, time, state, rows, guess), report) && report is Ok
                ==> report->Ok_0.state@.len() == rows@.len(),
        forall|time: Scalar, state: &Vec<Scalar>, rate: Vec<Scalar>|
            call_requires(residual, (time, state, rate)),
        forall|
            time: Scalar,
            state: &Vec<Scalar>,
            rate: Vec<Scalar>,
            value: Result<Vec<Scalar>, SolveError>,
        |
            #[trigger] call_ensures(residual, (time, state, rate), value) && value is Ok
                ==> value->Ok_0@.len() == dimension,
        forall|value: Scalar| call_requires(*render, (value,)),
    ensures
        rate_solved(
            dimension as nat,
            mask@,
            *newton,
            time,
            *state,
            solve,
            residual,
            *render,
            result,
        ),
{
    match check_rate_inputs(dimension, mask, time, state) {
        Err(error) => {
            return Err(error);
        },
        Ok(_) => {},
    }
    let rows = select_rows(mask, RowKind::Differential);
    let kept = select_rows(mask, RowKind::Differential);
    let algebraic = select_rows(mask, RowKind::Algebraic);
    let guess = zeros(rows.len());
    proof {
        lemma_rows_of(mask@, RowKind::Differential, mask@.len() as int);
        let models = rows_of(mask@, RowKind::Differential, mask@.len() as int);
        assert forall|k: int| 0 <= k < kept@.len() implies (#[trigger] kept@[k]) < dimension by {
            assert(row_models(kept@)[k] == kept@[k] as int);
        }
        assert forall|j: int, k: int| 0 <= j < k < kept@.len() implies (#[trigger] kept@[j]) < (
        #[trigger] kept@[k]) by {
            assert(row_models(kept@)[j] == kept@[j] as int);
            assert(row_models(kept@)[k] == kept@[k] as int);
            assert(models[j] < models[k]);
        }
        assert(row_models(rows@).len() == rows@.len());
        assert(row_models(kept@).len() == kept@.len());
        assert(row_models(algebraic@).len() == algebraic@.len());
    }
    let ghost sent = rows;
    let ghost start = guess;
    let report = solve(newton, time, state, rows, guess);
    let ghost returned = report;
    assert(call_ensures(solve, (newton, time, state, sent, start), returned));
    let rate = match accept_rate(&kept, dimension, report) {
        Err(error) => {
            return Err(error);
        },
        Ok(rate) => rate,
    };
    if algebraic.len() == 0 {
        return Ok(rate);
    }
    let offered = scalar::copy_scalars(&rate);
    let ghost asked = offered;
    let value = residual(time, state, offered);
    assert(call_ensures(residual, (time, state, asked), value));
    match value {
        Err(error) => Err(krasis_solve_error(error)),
        Ok(full) => match check_algebraic_rows(
            mask,
            &full,
            newton.absolute_tolerance,
            render,
        ) {
            Err(error) => Err(error),
            Ok(_) => Ok(rate),
        },
    }
}

/// A rate is given only where every algebraic row vanishes: the residual taken at the rate
/// lies within the tolerance there, and is a number.
pub proof fn law_given_rate_is_consistent<S, R, T>(
    dimension: nat,
    mask: Seq<RowKind>,
    newton: NewtonConfig,
    time: Scalar,
    state: Vec<Scalar>,
    solve: S,
    residual: R,
    render: T,
    rate: Vec<Scalar>,
    row: int,
) where
    S: FnOnce(&NewtonConfig, Scalar, &Vec<Scalar>, Vec<usize>, Vec<Scalar>) -> Result<
        NewtonReport,
        SolveError,
    >,
    R: FnOnce(Scalar, &Vec<Scalar>, Vec<Scalar>) -> Result<Vec<Scalar>, SolveError>,
    T: Fn(Scalar) -> String,

    requires
        rate_solved(
            dimension,
            mask,
            newton,
            time,
            state,
            solve,
            residual,
            render,
            Ok::<Vec<Scalar>, KrasisError>(rate),
        ),
        0 <= row < mask.len(),
        mask[row] == RowKind::Algebraic,
    ensures
        exists|offered: Vec<Scalar>, full: Vec<Scalar>|
            {
                &&& offered@ == rate@
                &&& #[trigger] call_ensures(
                    residual,
                    (time, &state, offered),
                    Ok::<Vec<Scalar>, SolveError>(full),
                )
                &&& full@[row].vanishes_within(newton.absolute_tolerance)
                &&& !full@[row].nan()
            },
        rate@[row].bits() == 0,
{
    let tolerance = newton.absolute_tolerance;
    lemma_rows_of(mask, RowKind::Algebraic, mask.len() as int);
    lemma_rows_of(mask, RowKind::Differential, mask.len() as int);
    let differential = rows_of(mask, RowKind::Differential, mask.len() as int);
    assert(rows_of(mask, RowKind::Algebraic, mask.len() as int).contains(row));
    let (rows, guess, report) = choose|
        rows: Vec<usize>,
        guess: Vec<Scalar>,
        report: Result<NewtonReport, SolveError>,
    |
        {
            &&& row_models(rows@) == differential
            &&& guess@.len() == rows@.len()
            &&& forall|i: int| 0 <= i < guess@.len() ==> (#[trigger] guess@[i]).bits() == 0
            &&& #[trigger] call_ensures(solve, (&newton, time, &state, rows, guess), report)
            &&& match report_failure(report) {
                Some(failure) => false,
                None => rate_checked(
                    dimension,
                    mask,
                    newton.absolute_tolerance,
                    time,
                    state,
                    row_models(rows@),
                    report->Ok_0.state@,
                    residual,
                    render,
                    Ok::<Vec<Scalar>, KrasisError>(rate),
                ),
            }
        };
    let reduced = report->Ok_0.state@;
    let (offered, value) = choose|offered: Vec<Scalar>, value: Result<Vec<Scalar>, SolveError>|
        {
            &&& expands(offered@, differential, reduced, dimension as int)
            &&& #[trigger] call_ensures(residual, (time, &state, offered), value)
            &&& value matches Ok(full) && rate@ == offered@ && algebraic_checked(
                mask,
                full@,
                tolerance,
                render,
                Ok(()),
            )
        };
    let full = value->Ok_0;
    assert(!violates(mask, full@, tolerance, row));
    assert(call_ensures(residual, (time, &state, offered), Ok::<Vec<Scalar>, SolveError>(full)));
    assert(!differential.contains(row)) by {
        if differential.contains(row) {
            let k = choose|k: int| 0 <= k < differential.len() && differential[k] == row;
            assert(mask[differential[k]] == RowKind::Differential);
        }
    }
}

/// Whether a policy asks for a rate solve.
pub open spec fn solves_rate(policy: RateSolvePolicy, mask: Seq<RowKind>) -> bool {
    policy == RateSolvePolicy::Always || exists|i: int|
        0 <= i < mask.len() && #[trigger] mask[i] == RowKind::Algebraic
}

impl ConsistentInitialization {
    /// Whether the recorded policy asks for a rate solve.
    pub fn needs_rate_solve(&self) -> (result: bool)
        ensures
            result == solves_rate(self.policy, self.mask@),
    {
        if self.policy == RateSolvePolicy::Always {
            return true;
        }
        let mut index: usize = 0;
        while index < self.mask.len()
            invariant
                index <= self.mask.len(),
                forall|i: int| 0 <= i < index ==> #[trigger] self.mask@[i] != RowKind::Algebraic,
            decreases self.mask.len() - index,
        {
            if self.mask[index] == RowKind::Algebraic {
                return true;
            }
            index += 1;
        }
        false
    }
}

/// What the single residual evaluation of an all-differential structure says.
pub fn check_initial_residual(value: Result<Vec<Scalar>, SolveError>) -> (result: Result<
    (),
    NumericError,
>)
    ensures
        match value {
            Err(failure) => result matches Err(error) && error@ == NumericModel::Reported(
                failure@,
            ),
            Ok(residual) => match result {
                Ok(_) => scalar::all_finite(residual@),
                Err(error) => exists|index: int|
                    {
                        &&& #[trigger] scalar::first_non_finite(residual@, index)
                        &&& error@ == (NumericModel::NonFinite {
                            operation: "consistent initialization residual"@,
                            index: index as nat,
                        })
                    },
            },
        },
{
    match value {
        Err(failure) => Err(NumericError::Reported(failure)),
        Ok(residual) => match find_non_finite(&residual) {
            Some(index) => {
                assert(scalar::first_non_finite(residual@, index as int));
                Err(
                    NumericError::NonFinite {
                        operation: "consistent initialization residual".to_owned(),
                        index,
                    },
                )
            },
            None => Ok(()),
        },
    }
}

/// What validating an initial state gives: nothing is checked without a recorded mask;
/// the rate solve decides where the policy asks for one; otherwise one residual at zero
/// rate does.
pub open spec fn initial_state_checked<S, R, T>(
    config: Option<ConsistentInitialization>,
    dimension: nat,
    time: Scalar,
    state: Vec<Scalar>,
    solve: S,
    residual: R,
    render: T,
    result: Result<(), NumericError>,
) -> bool where
    S: FnOnce(&NewtonConfig, Scalar, &Vec<Scalar>, Vec<usize>, Vec<Scalar>) -> Result<
        NewtonReport,
        SolveError,
    >,
    R: FnOnce(Scalar, &Vec<Scalar>, Vec<Scalar>) -> Result<Vec<Scalar>, SolveError>,
    T: Fn(Scalar) -> String,
 {
    match config {
        None => result is Ok,
        Some(config) => if solves_rate(config.policy, config.mask@) {
            exists|solved: Result<Vec<Scalar>, KrasisError>|
                {
                    &&& #[trigger] rate_solved(
                        dimension,
                        config.mask@,
                        config.newton,
                        time,
                        state,
                        solve,
                        residual,
                        render,
                        solved,
                    )
                    &&& match solved {
                        Ok(_) => result is Ok,
                        Err(error) => result matches Err(outward) && numeric::passed_back(
                            error,
                            render,
                            outward,
                        ),
                    }
                }
        } else if state@.len() != dimension {
            result matches Err(error) && error@ == (NumericModel::DimensionMismatch {
                operation: "consistent initialization state"@,
                expected: dimension,
                actual: state@.len(),
            })
        } else {
            exists|rate: Vec<Scalar>, value: Result<Vec<Scalar>, SolveError>|
                {
                    &&& rate@.len() == dimension
                    &&& forall|i: int|
                        0 <= i < dimension ==> (#[trigger] rate@[i]).bits() == 0
                    &&& #[trigger] call_ensures(residual, (time, &state, rate), value)
                    &&& match value {
                        Err(failure) => result matches Err(error) && error@
                            == NumericModel::Reported(failure@),
                        Ok(full) => match result {
                            Ok(_) => scalar::all_finite(full@),
                            Err(error) => exists|index: int|
                                {
                                    &&& #[trigger] scalar::first_non_finite(full@, index)
                                    &&& error@ == (NumericModel::NonFinite {
                                        operation: "consistent initialization residual"@,
                                        index: index as nat,
                                    })
                                },
                        },
                    }
                }
        },
    }
}

/// Validates that an initial state is consistent; never adjusts it.
///
/// Without a recorded mask nothing is checked. Otherwise the rate solve validates
/// that a consistent rate exists. Where the policy skips the solve, the residual is
/// evaluated once at zero rate, so that a typed evaluation failure still surfaces.
pub fn make_initial_state_consistent_for<S, R, T>(
    config: Option<&ConsistentInitialization>,
    dimension: usize,
    time: Scalar,
    state: &Vec<Scalar>,
    solve: S,
    residual: R,
    render: &T,
) -> (result: Result<(), NumericError>) where
    S: FnOnce(&NewtonConfig, Scalar, &Vec<Scalar>, Vec<usize>, Vec<Scalar>) -> Result<
        NewtonReport,
        SolveError,
    >,
    R: FnOnce(Scalar, &Vec<Scalar>, Vec<Scalar>) -> Result<Vec<Scalar>, SolveError>,
    T: Fn(Scalar) -> String,

    requires
        forall|
            newton: &NewtonConfig,
            time: Scalar,
            state: &Vec<Scalar>,
            rows: Vec<usize>,
            guess: Vec<Scalar>,
        |
            call_requires(solve, (newton, time, state, rows, guess)),
        forall|
            newton: &NewtonConfig,
            time: Scalar,
            state: &Vec<Scalar>,
            rows: Vec<usize>,
            guess: Vec<Scalar>,
            report: Result<NewtonReport, SolveError>,
        |
            #[trigger] call_ensures(solve, (newton, time, state, rows, guess), report) && report is Ok
                ==> report->Ok_0.state@.len() == rows@.len(),
        forall|time: Scalar, state: &Vec<Scalar>, rate: Vec<Scalar>|
            call_requires(residual, (time, state, rate)),
        forall|
            time: Scalar,
            state: &Vec<Scalar>,
            rate: Vec<Scalar>,
            value: Result<Vec<Scalar>, SolveError>,
        |
            #[trigger] call_ensures(residual, (time, state, rate), value) && value is Ok
                ==> value->Ok_0@.len() == dimension,
        forall|value: Scalar| call_requires(*render, (value,)),
    ensures
        initial_state_checked(
            match config {
                Some(config) => Some(*config),
                None => None,
            },
            dimension as nat,
            time,
            *state,
            solve,
            residual,
            *render,
            result,
        ),
{
    let config = match config {
        None => {
            return Ok(());
        },
        Some(config) => config,
    };
    if config.needs_rate_solve() {
        let solved = solve_consistent_state_rate_for(
            dimension,
            &config.mask,
            &config.newton,
            time,
            state,
            solve,
            residual,
            render,
        );
        return match solved {
            Ok(_) => Ok(()),
            Err(error) => Err(methodus_operator_error(error, render)),
        };
    }
    if state.len() != dimension {
        return Err(
            NumericError::DimensionMismatch {
                operation: "consistent initialization state".to_owned(),
                expected: dimension,
                actual: state.len(),
            },
        );
    }
    let rate = zeros(dimension);
    let ghost asked = rate;
    let value = residual(time, state, rate);
    assert(call_ensures(residual, (time, state, asked), value));
    check_initial_residual(value)
}

} // verus!
