//! Evaluation of a single realization: the transient view hands its arguments on, the steady
//! view holds time and rate at zero.
use crate::evaluation;
use crate::evaluation::still_vector;
use crate::numeric::{NumericError, NumericModel, SolveError};
use crate::operator::{CoupledOperator, TransactionalOperator};
use crate::scalar::Scalar;
use vstd::prelude::*;

verus! {

/// Whether what a realization gave is handed on: its values as they are, its failure as a
/// reported one.
pub open spec fn handed_on(
    value: Result<Vec<Scalar>, SolveError>,
    result: Result<Vec<Scalar>, NumericError>,
) -> bool {
    match value {
        Ok(values) => result == Ok::<Vec<Scalar>, NumericError>(values),
        Err(failure) => result matches Err(error) && error@ == NumericModel::Reported(failure@),
    }
}

fn hand_on(value: Result<Vec<Scalar>, SolveError>) -> (result: Result<Vec<Scalar>, NumericError>)
    ensures
        handed_on(value, result),
{
    match value {
        Ok(values) => Ok(values),
        Err(failure) => Err(NumericError::Reported(failure)),
    }
}

/// Whether the result is what the realization's residual gave at the arguments.
pub open spec fn residual_taken<F>(
    call: F,
    time: Scalar,
    state: Vec<Scalar>,
    rate: Vec<Scalar>,
    result: Result<Vec<Scalar>, NumericError>,
) -> bool where F: Fn(Scalar, &Vec<Scalar>, &Vec<Scalar>) -> Result<Vec<Scalar>, SolveError> {
    exists|value: Result<Vec<Scalar>, SolveError>|
        {
            &&& #[trigger] call_ensures(call, (time, &state, &rate), value)
            &&& handed_on(value, result)
        }
}

/// Whether the result is what the realization's product gave at the arguments.
pub open spec fn product_taken<F>(
    call: F,
    time: Scalar,
    state: Vec<Scalar>,
    rate: Vec<Scalar>,
    state_direction: Vec<Scalar>,
    rate_direction: Vec<Scalar>,
    result: Result<Vec<Scalar>, NumericError>,
) -> bool where
    F: Fn(Scalar, &Vec<Scalar>, &Vec<Scalar>, &Vec<Scalar>, &Vec<Scalar>) -> Result<
        Vec<Scalar>,
        SolveError,
    >,
 {
    exists|value: Result<Vec<Scalar>, SolveError>|
        {
            &&& #[trigger] call_ensures(
                call,
                (time, &state, &rate, &state_direction, &rate_direction),
                value,
            )
            &&& handed_on(value, result)
        }
}

impl CoupledOperator {
    /// The residual of the realization; `call` evaluates it at a time, a state and a rate.
    pub fn residual<F>(
        &self,
        time: Scalar,
        state: &Vec<Scalar>,
        state_rate: &Vec<Scalar>,
        call: &F,
    ) -> (result: Result<Vec<Scalar>, NumericError>) where
        F: Fn(Scalar, &Vec<Scalar>, &Vec<Scalar>) -> Result<Vec<Scalar>, SolveError>,

        requires
            call_requires(*call, (time, state, state_rate)),
        ensures
            residual_taken(*call, time, *state, *state_rate, result),
    {
        let value = call(time, state, state_rate);
        assert(call_ensures(*call, (time, state, state_rate), value));
        hand_on(value)
    }

    /// The Jacobian-vector product of the realization; `call` evaluates it at a time, a
    /// state and a rate along a state direction and a rate direction.
    pub fn jacobian_vector_product<F>(
        &self,
        time: Scalar,
        state: &Vec<Scalar>,
        state_rate: &Vec<Scalar>,
        state_direction: &Vec<Scalar>,
        rate_direction: &Vec<Scalar>,
        call: &F,
    ) -> (result: Result<Vec<Scalar>, NumericError>) where
        F: Fn(Scalar, &Vec<Scalar>, &Vec<Scalar>, &Vec<Scalar>, &Vec<Scalar>) -> Result<
            Vec<Scalar>,
            SolveError,
        >,

        requires
            call_requires(*call, (time, state, state_rate, state_direction, rate_direction)),
        ensures
            product_taken(
                *call,
                time,
                *state,
                *state_rate,
                *state_direction,
                *rate_direction,
                result,
            ),
    {
        let value = call(time, state, state_rate, state_direction, rate_direction);
        assert(call_ensures(
            *call,
            (time, state, state_rate, state_direction, rate_direction),
            value,
        ));
        hand_on(value)
    }

    /// The steady residual: at time zero and zero rate.
    pub fn steady_residual<F>(&self, state: &Vec<Scalar>, call: &F) -> (result: Result<
        Vec<Scalar>,
        NumericError,
    >) where F: Fn(Scalar, &Vec<Scalar>, &Vec<Scalar>) -> Result<Vec<Scalar>, SolveError>
        requires
            self.wf(),
            forall|time: Scalar, rate: &Vec<Scalar>| call_requires(*call, (time, state, rate)),
        ensures
            exists|rate: Vec<Scalar>|
                {
                    &&& rate@ == evaluation::still(self.size())
                    &&& #[trigger] residual_taken(*call, Scalar::nil(), *state, rate, result)
                },
    {
        let rate = still_vector(self.dimension());
        self.residual(Scalar::zero(), state, &rate, call)
    }

    /// The steady Jacobian-vector product: at time zero, zero rate and no rate direction.
    pub fn steady_jacobian_vector_product<F>(
        &self,
        state: &Vec<Scalar>,
        direction: &Vec<Scalar>,
        call: &F,
    ) -> (result: Result<Vec<Scalar>, NumericError>) where
        F: Fn(Scalar, &Vec<Scalar>, &Vec<Scalar>, &Vec<Scalar>, &Vec<Scalar>) -> Result<
            Vec<Scalar>,
            SolveError,
        >,

        requires
            self.wf(),
            forall|time: Scalar, rate: &Vec<Scalar>, rate_direction: &Vec<Scalar>|
                call_requires(*call, (time, state, rate, direction, rate_direction)),
        ensures
            exists|rate: Vec<Scalar>|
                {
                    &&& rate@ == evaluation::still(self.size())
                    &&& #[trigger] product_taken(
                        *call,
                        Scalar::nil(),
                        *state,
                        rate,
                        *direction,
                        rate,
                        result,
                    )
                },
    {
        let rate = still_vector(self.dimension());
        self.jacobian_vector_product(Scalar::zero(), state, &rate, direction, &rate, call)
    }
}

} // verus!
