//! Consistent initialization of composed operators.
use crate::connected::ConnectedSystemOperator;
use crate::error::{ErrorModel, KrasisError};
use crate::initialization;
use crate::initialization::{
    make_initial_state_consistent_for, solve_consistent_state_rate_for, ConsistentInitialization,
};
use crate::numeric::{NewtonConfig, NewtonReport, NumericError, SolveError};
use crate::operator::{CoupledOperator, TransactionalOperator};
use crate::scalar::Scalar;
use crate::system::CoupledSystemOperator;
use vstd::prelude::*;

verus! {

/// What a rate solve over a recorded mask gives.
pub open spec fn recorded_rate_solved<S, R, T>(
    config: Option<ConsistentInitialization>,
    dimension: nat,
    time: Scalar,
    state: Vec<Scalar>,
    solve: S,
    residual: R,
    render: T,
    result: Result<Vec<Scalar>, KrasisError>,
) -> bool where
    S: FnOnce(&NewtonConfig, Scalar, &Vec<Scalar>, Vec<usize>, Vec<Scalar>) -> Result<
        NewtonReport,
        SolveError,
    >,
    R: FnOnce(Scalar, &Vec<Scalar>, Vec<Scalar>) -> Result<Vec<Scalar>, SolveError>,
    T: Fn(Scalar) -> String,
 {
    match config {
        None => result matches Err(error) && error@ == ErrorModel::InvalidCoupling(
            "operator has no differential/algebraic mask for consistent initialization"@,
        ),
        Some(config) => initialization::rate_solved(
            dimension,
            config.mask@,
            config.newton,
            time,
            state,
            solve,
            residual,
            render,
            result,
        ),
    }
}

/// Whether the outside calls of a rate solve are admitted and give vectors of the right
/// lengths: `solve` one of the rows it is asked for, `residual` a full one.
pub open spec fn rate_calls<S, R, T>(solve: S, residual: R, render: T, dimension: nat) -> bool where
    S: FnOnce(&NewtonConfig, Scalar, &Vec<Scalar>, Vec<usize>, Vec<Scalar>) -> Result<
        NewtonReport,
        SolveError,
    >,
    R: FnOnce(Scalar, &Vec<Scalar>, Vec<Scalar>) -> Result<Vec<Scalar>, SolveError>,
    T: Fn(Scalar) -> String,
 {
    &&& forall|
        newton: &NewtonConfig,
        time: Scalar,
        state: &Vec<Scalar>,
        rows: Vec<usize>,
        guess: Vec<Scalar>,
    |
        call_requires(solve, (newton, time, state, rows, guess))
    &&& forall|
        newton: &NewtonConfig,
        time: Scalar,
        state: &Vec<Scalar>,
        rows: Vec<usize>,
        guess: Vec<Scalar>,
        report: Result<NewtonReport, SolveError>,
    |
        #[trigger] call_ensures(solve, (newton, time, state, rows, guess), report) && report is Ok
            ==> report->Ok_0.state@.len() == rows@.len()
    &&& forall|time: Scalar, state: &Vec<Scalar>, rate: Vec<Scalar>|
        call_requires(residual, (time, state, rate))
    &&& forall|
        time: Scalar,
        state: &Vec<Scalar>,
        rate: Vec<Scalar>,
        value: Result<Vec<Scalar>, SolveError>,
    |
        #[trigger] call_ensures(residual, (time, state, rate), value) && value is Ok
            ==> value->Ok_0@.len() == dimension
    &&& forall|value: Scalar| call_requires(render, (value,))
}

/// Solves for the rate over a recorded mask.
pub(crate) fn solve_recorded_rate<S, R, T>(
    config: Option<&ConsistentInitialization>,
    dimension: usize,
    time: Scalar,
    state: &Vec<Scalar>,
    solve: S,
    residual: R,
    render: &T,
) -> (result: Result<Vec<Scalar>, KrasisError>) where
    S: FnOnce(&NewtonConfig, Scalar, &Vec<Scalar>, Vec<usize>, Vec<Scalar>) -> Result<
        NewtonReport,
        SolveError,
    >,
    R: FnOnce(Scalar, &Vec<Scalar>, Vec<Scalar>) -> Result<Vec<Scalar>, SolveError>,
    T: Fn(Scalar) -> String,

    requires
        rate_calls(solve, residual, *render, dimension as nat),
    ensures
        recorded_rate_solved(
            match config {
                Some(config) => Some(*config),
                None => None,
            },
            dimension as nat,
            time,
            *state,
            solve,
            residual,
            *render,
            result,
        ),
{
    match config {
        None => Err(
            KrasisError::InvalidCoupling(
                "operator has no differential/algebraic mask for consistent initialization".to_owned(),
            ),
        ),
        Some(config) => solve_consistent_state_rate_for(
            dimension,
            &config.mask,
            &config.newton,
            time,
            state,
            solve,
            residual,
            render,
        ),
    }
}

impl CoupledOperator {
    /// Solves for the rate of the differential rows over the recorded mask. `solve` runs a
    /// Newton solve with the recorded configuration over the given rows at the time and
    /// state; `residual` evaluates the residual there at a rate.
    pub fn solve_consistent_state_rate<S, R, T>(
        &self,
        time: Scalar,
        state: &Vec<Scalar>,
        solve: S,
        residual: R,
        render: &T,
    ) -> (result: Result<Vec<Scalar>, KrasisError>) where
        S: FnOnce(&NewtonConfig, Scalar, &Vec<Scalar>, Vec<usize>, Vec<Scalar>) -> Result<
            NewtonReport,
            SolveError,
        >,
        R: FnOnce(Scalar, &Vec<Scalar>, Vec<Scalar>) -> Result<Vec<Scalar>, SolveError>,
        T: Fn(Scalar) -> String,

        requires
            self.wf(),
            rate_calls(solve, residual, *render, self.size()),
        ensures
            recorded_rate_solved(
                self.initialization(),
                self.size(),
                time,
                *state,
                solve,
                residual,
                *render,
                result,
            ),
    {
        solve_recorded_rate(
            self.recorded_initialization(),
            self.dimension(),
            time,
            state,
            solve,
            residual,
            render,
        )
    }

    /// Validates that an initial state is consistent; never adjusts it.
    pub fn make_initial_state_consistent<S, R, T>(
        &self,
        time: Scalar,
        state: &Vec<Scalar>,
        solve: S,
        residual: R,
        render: &T,
    ) -> (result: Result<(), NumericError>) where
        S: FnOnce(&NewtonConfig, Scalar, &Vec<Scalar>, Vec<usize>, Vec<Scalar>) -> Result<
            NewtonReport,
            SolveError,
        >,
        R: FnOnce(Scalar, &Vec<Scalar>, Vec<Scalar>) -> Result<Vec<Scalar>, SolveError>,
        T: Fn(Scalar) -> String,

        requires
            self.wf(),
            rate_calls(solve, residual, *render, self.size()),
        ensures
            initialization::initial_state_checked(
                self.initialization(),
                self.size(),
                time,
                *state,
                solve,
                residual,
                *render,
                result,
            ),
    {
        make_initial_state_consistent_for(
            self.recorded_initialization(),
            self.dimension(),
            time,
            state,
            solve,
            residual,
            render,
        )
    }
}

impl CoupledSystemOperator {
    /// Solves for the rate of the composed differential rows over the recorded mask, so
    /// that the coupling edges take part.
    pub fn solve_consistent_state_rate<S, R, T>(
        &self,
        time: Scalar,
        state: &Vec<Scalar>,
        solve: S,
        residual: R,
        render: &T,
    ) -> (result: Result<Vec<Scalar>, KrasisError>) where
        S: FnOnce(&NewtonConfig, Scalar, &Vec<Scalar>, Vec<usize>, Vec<Scalar>) -> Result<
            NewtonReport,
            SolveError,
        >,
        R: FnOnce(Scalar, &Vec<Scalar>, Vec<Scalar>) -> Result<Vec<Scalar>, SolveError>,
        T: Fn(Scalar) -> String,

        requires
            self.wf(),
            rate_calls(solve, residual, *render, self.size()),
        ensures
            recorded_rate_solved(
                self.initialization(),
                self.size(),
                time,
                *state,
                solve,
                residual,
                *render,
                result,
            ),
    {
        solve_recorded_rate(
            self.recorded_initialization(),
            self.dimension(),
            time,
            state,
            solve,
            residual,
            render,
        )
    }

    /// Validates that a composed initial state is consistent; never adjusts it.
    pub fn make_initial_state_consistent<S, R, T>(
        &self,
        time: Scalar,
        state: &Vec<Scalar>,
        solve: S,
        residual: R,
        render: &T,
    ) -> (result: Result<(), NumericError>) where
        S: FnOnce(&NewtonConfig, Scalar, &Vec<Scalar>, Vec<usize>, Vec<Scalar>) -> Result<
            NewtonReport,
            SolveError,
        >,
        R: FnOnce(Scalar, &Vec<Scalar>, Vec<Scalar>) -> Result<Vec<Scalar>, SolveError>,
        T: Fn(Scalar) -> String,

        requires
            self.wf(),
            rate_calls(solve, residual, *render, self.size()),
        ensures
            initialization::initial_state_checked(
                self.initialization(),
                self.size(),
                time,
                *state,
                solve,
                residual,
                *render,
                result,
            ),
    {
        make_initial_state_consistent_for(
            self.recorded_initialization(),
            self.dimension(),
            time,
            state,
            solve,
            residual,
            render,
        )
    }
}

impl ConnectedSystemOperator {
    /// Validates that a connected initial state is consistent; never adjusts it.
    pub fn make_initial_state_consistent<S, R, T>(
        &self,
        time: Scalar,
        state: &Vec<Scalar>,
        solve: S,
        residual: R,
        render: &T,
    ) -> (result: Result<(), NumericError>) where
        S: FnOnce(&NewtonConfig, Scalar, &Vec<Scalar>, Vec<usize>, Vec<Scalar>) -> Result<
            NewtonReport,
            SolveError,
        >,
        R: FnOnce(Scalar, &Vec<Scalar>, Vec<Scalar>) -> Result<Vec<Scalar>, SolveError>,
        T: Fn(Scalar) -> String,

        requires
            self.wf(),
            rate_calls(solve, residual, *render, self.size()),
        ensures
            initialization::initial_state_checked(
                self.initialization(),
                self.size(),
                time,
                *state,
                solve,
                residual,
                *render,
                result,
            ),
    {
        make_initial_state_consistent_for(
            self.recorded_initialization(),
            self.dimension(),
            time,
            state,
            solve,
            residual,
            render,
        )
    }
}

} // verus!
