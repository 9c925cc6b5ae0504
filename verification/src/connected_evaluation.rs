//! Evaluation of a connected system: the traces are expanded, the composed system is
//! evaluated, and the eliminated rows state their equality.
use crate::connected::{ConnectedSystemOperator, ConstraintSet};
use crate::evaluation;
use crate::evaluation::{still_vector, SystemCalls};
use crate::numeric::{
    EvaluationRefusal, NumericError, NumericModel, RefusalModel, SolveError,
};
use crate::operator::TransactionalOperator;
use crate::realization::Constraint;
use crate::scalar::Scalar;
use vstd::prelude::*;

verus! {

/// What the elimination of traces takes from outside: `expand` completes a state from its
/// free unknowns, `expand_homogeneous` does so without the constraints' offsets,
/// `restrict_transpose` gathers a residual onto the free unknowns, `difference` subtracts
/// two scalars, and `invalid` words the refusal of an output of the wrong extent.
pub struct TraceCalls<X, H, Q, D, I> where
    X: Fn(&Vec<Scalar>) -> Result<Vec<Scalar>, String>,
    H: Fn(&Vec<Scalar>) -> Result<Vec<Scalar>, String>,
    Q: Fn(&Vec<Scalar>) -> Result<Vec<Scalar>, String>,
    D: Fn(Scalar, Scalar) -> Scalar,
    I: Fn(&str) -> String,
 {
    pub expand: X,
    pub expand_homogeneous: H,
    pub restrict_transpose: Q,
    pub difference: D,
    pub invalid: I,
}

/// Whether a call over vectors is admitted, accepts vectors of the dimension only, and
/// gives them.
pub open spec fn keeps_extent<F: Fn(&Vec<Scalar>) -> Result<Vec<Scalar>, String>>(
    call: F,
    dimension: nat,
) -> bool {
    &&& forall|values: &Vec<Scalar>| call_requires(call, (values,))
    &&& forall|values: &Vec<Scalar>, given: Result<Vec<Scalar>, String>|
        #[trigger] call_ensures(call, (values,), given) && given is Ok ==> values@.len()
            == dimension && given->Ok_0@.len() == dimension
}

impl<X, H, Q, D, I> TraceCalls<X, H, Q, D, I> where
    X: Fn(&Vec<Scalar>) -> Result<Vec<Scalar>, String>,
    H: Fn(&Vec<Scalar>) -> Result<Vec<Scalar>, String>,
    Q: Fn(&Vec<Scalar>) -> Result<Vec<Scalar>, String>,
    D: Fn(Scalar, Scalar) -> Scalar,
    I: Fn(&str) -> String,
 {
    /// Every call is admitted, and vectors have the dimension of the constraints.
    pub open spec fn callable(self, dimension: nat) -> bool {
        &&& keeps_extent(self.expand, dimension)
        &&& keeps_extent(self.expand_homogeneous, dimension)
        &&& keeps_extent(self.restrict_transpose, dimension)
        &&& forall|left: Scalar, right: Scalar| call_requires(self.difference, (left, right))
        &&& forall|label: &str| call_requires(self.invalid, (label,))
    }
}

/// A failed elimination as it is reported to the numerical layer.
pub open spec fn elimination_failure(message: Seq<char>) -> NumericModel {
    NumericModel::Evaluation(
        RefusalModel {
            code: "CONNECTION_ELIMINATION"@,
            origin: "finitum matching trace constraints"@,
            message,
        },
    )
}

pub(crate) fn numerical(message: String) -> (result: NumericError)
    ensures
        result@ == elimination_failure(message@),
{
    NumericError::Evaluation(
        EvaluationRefusal {
            code: "CONNECTION_ELIMINATION".to_owned(),
            origin: "finitum matching trace constraints".to_owned(),
            message,
        },
    )
}

/// Whether a call over vectors failed, and the failure was reported.
pub open spec fn elimination_failed<F, V>(
    call: F,
    values: Vec<Scalar>,
    result: Result<V, NumericError>,
) -> bool where F: Fn(&Vec<Scalar>) -> Result<Vec<Scalar>, String> {
    exists|message: String|
        {
            &&& #[trigger] call_ensures(call, (&values,), Err(message))
            &&& result matches Err(error) && error@ == elimination_failure(message@)
        }
}

pub open spec fn is_target(constraints: Seq<Constraint>, row: int) -> bool {
    exists|c: int| 0 <= c < constraints.len() && (#[trigger] constraints[c]).target == row
}

/// Whether `after` is `before` with every eliminated row holding the difference between the
/// value given and the value its constraint demands.
pub open spec fn rows_closed<D: Fn(Scalar, Scalar) -> Scalar>(
    constraints: Seq<Constraint>,
    given: Seq<Scalar>,
    demanded: Seq<Scalar>,
    difference: D,
    before: Seq<Scalar>,
    after: Seq<Scalar>,
) -> bool {
    &&& after.len() == before.len()
    &&& forall|i: int|
        0 <= i < after.len() ==> if is_target(constraints, i) {
            call_ensures(difference, (given[i], demanded[i]), #[trigger] after[i])
        } else {
            after[i] == before[i]
        }
}

/// What closing an evaluation gives: the raw values are restricted to the free unknowns and
/// the eliminated rows are filled in.
pub open spec fn restricted<X, H, Q, D, I>(
    constraints: Seq<Constraint>,
    given: Seq<Scalar>,
    demanded: Seq<Scalar>,
    raw: Vec<Scalar>,
    output_length: nat,
    label: &str,
    traces: TraceCalls<X, H, Q, D, I>,
    result: Result<Vec<Scalar>, NumericError>,
) -> bool where
    X: Fn(&Vec<Scalar>) -> Result<Vec<Scalar>, String>,
    H: Fn(&Vec<Scalar>) -> Result<Vec<Scalar>, String>,
    Q: Fn(&Vec<Scalar>) -> Result<Vec<Scalar>, String>,
    D: Fn(Scalar, Scalar) -> Scalar,
    I: Fn(&str) -> String,
 {
    ||| elimination_failed(traces.restrict_transpose, raw, result)
    ||| exists|reduced: Vec<Scalar>|
        {
            &&& #[trigger] call_ensures(traces.restrict_transpose, (&raw,), Ok(reduced))
            &&& if output_length != reduced@.len() {
                exists|message: String|
                    {
                        &&& #[trigger] call_ensures(traces.invalid, (label,), message)
                        &&& result matches Err(error) && error@ == elimination_failure(message@)
                    }
            } else {
                result matches Ok(values) && rows_closed(
                    constraints,
                    given,
                    demanded,
                    traces.difference,
                    reduced@,
                    values@,
                )
            }
        }
}

fn close_rows<D: Fn(Scalar, Scalar) -> Scalar>(
    constraints: &ConstraintSet,
    given: &Vec<Scalar>,
    demanded: &Vec<Scalar>,
    difference: &D,
    reduced: &mut Vec<Scalar>,
)
    requires
        constraints.valid(),
        given@.len() == constraints.dof_count,
        demanded@.len() == constraints.dof_count,
        old(reduced)@.len() == constraints.dof_count,
        forall|left: Scalar, right: Scalar| call_requires(*difference, (left, right)),
    ensures
        rows_closed(
            constraints.constraints@,
            given@,
            demanded@,
            *difference,
            old(reduced)@,
            final(reduced)@,
        ),
{
    let ghost before = reduced@;
    let list = &constraints.constraints;
    let mut index: usize = 0;
    assert(rows_closed(list@.take(0), given@, demanded@, *difference, before, reduced@)) by {
        assert forall|i: int| !is_target(list@.take(0), i) by {}
    }
    while index < list.len()
        invariant
            index <= list@.len(),
            list@ == constraints.constraints@,
            constraints.valid(),
            given@.len() == constraints.dof_count,
            demanded@.len() == constraints.dof_count,
            reduced@.len() == constraints.dof_count,
            forall|left: Scalar, right: Scalar| call_requires(*difference, (left, right)),
            rows_closed(
                list@.take(index as int),
                given@,
                demanded@,
                *difference,
                before,
                reduced@,
            ),
        decreases list.len() - index,
    {
        let row: usize = list[index].target;
        let ghost held = reduced@;
        assert(row < constraints.dof_count) by {
            assert(constraints.constraints@[index as int].target < constraints.dof_count);
        }
        let value = difference(given[row], demanded[row]);
        reduced.set(row, value);
        proof {
            let shorter = list@.take(index as int);
            let longer = list@.take(index + 1);
            assert forall|i: int| 0 <= i < reduced@.len() implies if is_target(longer, i) {
                call_ensures(*difference, (given@[i], demanded@[i]), #[trigger] reduced@[i])
            } else {
                reduced@[i] == before[i]
            } by {
                assert(held[i] == held[i]);
                if is_target(longer, i) && i != row {
                    let c = choose|c: int|
                        0 <= c < longer.len() && (#[trigger] longer[c]).target == i;
                    assert(shorter[c] == longer[c]);
                    assert(is_target(shorter, i));
                }
                if is_target(shorter, i) {
                    let c = choose|c: int|
                        0 <= c < shorter.len() && (#[trigger] shorter[c]).target == i;
                    assert(longer[c] == shorter[c]);
                }
                if i == row {
                    assert(longer[index as int].target == i);
                }
            }
        }
        index += 1;
    }
    assert(list@.take(index as int) =~= constraints.constraints@);
}

impl ConnectedSystemOperator {
    fn restrict<X, H, Q, D, I>(
        &self,
        given: &Vec<Scalar>,
        demanded: &Vec<Scalar>,
        raw: Vec<Scalar>,
        output_length: usize,
        label: &'static str,
        traces: &TraceCalls<X, H, Q, D, I>,
    ) -> (result: Result<Vec<Scalar>, NumericError>) where
        X: Fn(&Vec<Scalar>) -> Result<Vec<Scalar>, String>,
        H: Fn(&Vec<Scalar>) -> Result<Vec<Scalar>, String>,
        Q: Fn(&Vec<Scalar>) -> Result<Vec<Scalar>, String>,
        D: Fn(Scalar, Scalar) -> Scalar,
        I: Fn(&str) -> String,

        requires
            self.wf(),
            traces.callable(self.size()),
            given@.len() == self.size(),
            demanded@.len() == self.size(),
        ensures
            restricted(
                self.traces().constraints@,
                given@,
                demanded@,
                raw,
                output_length as nat,
                label,
                *traces,
                result,
            ),
    {
        proof {
            self.lemma_wf();
        }
        let mut reduced = match (traces.restrict_transpose)(&raw) {
            Ok(reduced) => reduced,
            Err(message) => {
                return Err(numerical(message));
            },
        };
        let ghost gathered = reduced;
        close_rows(self.constraints(), given, demanded, &traces.difference, &mut reduced);
        if output_length != reduced.len() {
            let message = (traces.invalid)(label);
            assert(call_ensures(traces.restrict_transpose, (&raw,), Ok(gathered)));
            return Err(numerical(message));
        }
        assert(call_ensures(traces.restrict_transpose, (&raw,), Ok(gathered)));
        Ok(reduced)
    }
}

/// What closing the evaluation of the composed system gives.
pub open spec fn closed_residual<X, H, Q, D, I, L, E, A>(
    operator: ConnectedSystemOperator,
    time: Scalar,
    state: Vec<Scalar>,
    physical: Vec<Scalar>,
    moving: Vec<Scalar>,
    output_length: nat,
    calls: SystemCalls<L, E, A>,
    traces: TraceCalls<X, H, Q, D, I>,
    result: Result<Vec<Scalar>, NumericError>,
) -> bool where
    X: Fn(&Vec<Scalar>) -> Result<Vec<Scalar>, String>,
    H: Fn(&Vec<Scalar>) -> Result<Vec<Scalar>, String>,
    Q: Fn(&Vec<Scalar>) -> Result<Vec<Scalar>, String>,
    D: Fn(Scalar, Scalar) -> Scalar,
    I: Fn(&str) -> String,
    L: Fn(usize, Scalar, &Vec<Vec<Scalar>>) -> Result<Vec<Scalar>, SolveError>,
    E: Fn(usize, &Vec<Scalar>) -> Result<Vec<Scalar>, SolveError>,
    A: Fn(Scalar, Scalar) -> Scalar,
 {
    exists|raw: Result<Vec<Scalar>, NumericError>|
        {
            &&& #[trigger] evaluation::residual_given(
                operator.system(),
                time,
                physical@,
                moving@,
                operator.size(),
                calls,
                raw,
            )
            &&& match raw {
                Err(failure) => result matches Err(error) && error@ == failure@,
                Ok(values) => restricted(
                    operator.traces().constraints@,
                    state@,
                    physical@,
                    values,
                    output_length,
                    "connection residual extent mismatch",
                    traces,
                    result,
                ),
            }
        }
}

/// What the residual gives once the state is expanded.
pub open spec fn residual_expanded<X, H, Q, D, I, L, E, A>(
    operator: ConnectedSystemOperator,
    time: Scalar,
    state: Vec<Scalar>,
    rate: Vec<Scalar>,
    physical: Vec<Scalar>,
    output_length: nat,
    calls: SystemCalls<L, E, A>,
    traces: TraceCalls<X, H, Q, D, I>,
    result: Result<Vec<Scalar>, NumericError>,
) -> bool where
    X: Fn(&Vec<Scalar>) -> Result<Vec<Scalar>, String>,
    H: Fn(&Vec<Scalar>) -> Result<Vec<Scalar>, String>,
    Q: Fn(&Vec<Scalar>) -> Result<Vec<Scalar>, String>,
    D: Fn(Scalar, Scalar) -> Scalar,
    I: Fn(&str) -> String,
    L: Fn(usize, Scalar, &Vec<Vec<Scalar>>) -> Result<Vec<Scalar>, SolveError>,
    E: Fn(usize, &Vec<Scalar>) -> Result<Vec<Scalar>, SolveError>,
    A: Fn(Scalar, Scalar) -> Scalar,
 {
    ||| elimination_failed(traces.expand_homogeneous, rate, result)
    ||| exists|moving: Vec<Scalar>|
        {
            &&& #[trigger] call_ensures(traces.expand_homogeneous, (&rate,), Ok(moving))
            &&& closed_residual(
                operator,
                time,
                state,
                physical,
                moving,
                output_length,
                calls,
                traces,
                result,
            )
        }
}

/// What the residual of a connected system gives: the composed residual at the expanded
/// state and rate, restricted to the free unknowns, and on every eliminated row the
/// difference between the state there and its expanded value.
pub open spec fn connected_residual<X, H, Q, D, I, L, E, A>(
    operator: ConnectedSystemOperator,
    time: Scalar,
    state: Vec<Scalar>,
    rate: Vec<Scalar>,
    output_length: nat,
    calls: SystemCalls<L, E, A>,
    traces: TraceCalls<X, H, Q, D, I>,
    result: Result<Vec<Scalar>, NumericError>,
) -> bool where
    X: Fn(&Vec<Scalar>) -> Result<Vec<Scalar>, String>,
    H: Fn(&Vec<Scalar>) -> Result<Vec<Scalar>, String>,
    Q: Fn(&Vec<Scalar>) -> Result<Vec<Scalar>, String>,
    D: Fn(Scalar, Scalar) -> Scalar,
    I: Fn(&str) -> String,
    L: Fn(usize, Scalar, &Vec<Vec<Scalar>>) -> Result<Vec<Scalar>, SolveError>,
    E: Fn(usize, &Vec<Scalar>) -> Result<Vec<Scalar>, SolveError>,
    A: Fn(Scalar, Scalar) -> Scalar,
 {
    ||| elimination_failed(traces.expand, state, result)
    ||| exists|physical: Vec<Scalar>|
        {
            &&& #[trigger] call_ensures(traces.expand, (&state,), Ok(physical))
            &&& residual_expanded(
                operator,
                time,
                state,
                rate,
                physical,
                output_length,
                calls,
                traces,
                result,
            )
        }
}

/// What closing the product of the composed system gives.
pub open spec fn closed_product<X, H, Q, D, I, L, E, A>(
    operator: ConnectedSystemOperator,
    time: Scalar,
    direction: Vec<Scalar>,
    physical: Vec<Scalar>,
    moving: Vec<Scalar>,
    delta: Vec<Scalar>,
    rate_delta: Vec<Scalar>,
    output_length: nat,
    calls: SystemCalls<L, E, A>,
    traces: TraceCalls<X, H, Q, D, I>,
    result: Result<Vec<Scalar>, NumericError>,
) -> bool where
    X: Fn(&Vec<Scalar>) -> Result<Vec<Scalar>, String>,
    H: Fn(&Vec<Scalar>) -> Result<Vec<Scalar>, String>,
    Q: Fn(&Vec<Scalar>) -> Result<Vec<Scalar>, String>,
    D: Fn(Scalar, Scalar) -> Scalar,
    I: Fn(&str) -> String,
    L: Fn(usize, Scalar, &Vec<Vec<Scalar>>) -> Result<Vec<Scalar>, SolveError>,
    E: Fn(usize, &Vec<Scalar>) -> Result<Vec<Scalar>, SolveError>,
    A: Fn(Scalar, Scalar) -> Scalar,
 {
    exists|raw: Result<Vec<Scalar>, NumericError>|
        {
            &&& #[trigger] evaluation::product_given(
                operator.system(),
                time,
                physical@,
                moving@,
                delta@,
                rate_delta@,
                operator.size(),
                calls,
                raw,
            )
            &&& match raw {
                Err(failure) => result matches Err(error) && error@ == failure@,
                Ok(values) => restricted(
                    operator.traces().constraints@,
                    direction@,
                    delta@,
                    values,
                    output_length,
                    "connection product extent mismatch",
                    traces,
                    result,
                ),
            }
        }
}

/// What the product gives once state, rate and direction are expanded.
pub open spec fn product_directed<X, H, Q, D, I, L, E, A>(
    operator: ConnectedSystemOperator,
    time: Scalar,
    direction: Vec<Scalar>,
    rate_direction: Vec<Scalar>,
    physical: Vec<Scalar>,
    moving: Vec<Scalar>,
    delta: Vec<Scalar>,
    output_length: nat,
    calls: SystemCalls<L, E, A>,
    traces: TraceCalls<X, H, Q, D, I>,
    result: Result<Vec<Scalar>, NumericError>,
) -> bool where
    X: Fn(&Vec<Scalar>) -> Result<Vec<Scalar>, String>,
    H: Fn(&Vec<Scalar>) -> Result<Vec<Scalar>, String>,
    Q: Fn(&Vec<Scalar>) -> Result<Vec<Scalar>, String>,
    D: Fn(Scalar, Scalar) -> Scalar,
    I: Fn(&str) -> String,
    L: Fn(usize, Scalar, &Vec<Vec<Scalar>>) -> Result<Vec<Scalar>, SolveError>,
    E: Fn(usize, &Vec<Scalar>) -> Result<Vec<Scalar>, SolveError>,
    A: Fn(Scalar, Scalar) -> Scalar,
 {
    ||| elimination_failed(traces.expand_homogeneous, rate_direction, result)
    ||| exists|rate_delta: Vec<Scalar>|
        {
            &&& #[trigger] call_ensures(
                traces.expand_homogeneous,
                (&rate_direction,),
                Ok(rate_delta),
            )
            &&& closed_product(
                operator,
                time,
                direction,
                physical,
                moving,
                delta,
                rate_delta,
                output_length,
                calls,
                traces,
                result,
            )
        }
}

/// What the product gives once state and rate are expanded.
pub open spec fn product_moving<X, H, Q, D, I, L, E, A>(
    operator: ConnectedSystemOperator,
    time: Scalar,
    direction: Vec<Scalar>,
    rate_direction: Vec<Scalar>,
    physical: Vec<Scalar>,
    moving: Vec<Scalar>,
    output_length: nat,
    calls: SystemCalls<L, E, A>,
    traces: TraceCalls<X, H, Q, D, I>,
    result: Result<Vec<Scalar>, NumericError>,
) -> bool where
    X: Fn(&Vec<Scalar>) -> Result<Vec<Scalar>, String>,
    H: Fn(&Vec<Scalar>) -> Result<Vec<Scalar>, String>,
    Q: Fn(&Vec<Scalar>) -> Result<Vec<Scalar>, String>,
    D: Fn(Scalar, Scalar) -> Scalar,
    I: Fn(&str) -> String,
    L: Fn(usize, Scalar, &Vec<Vec<Scalar>>) -> Result<Vec<Scalar>, SolveError>,
    E: Fn(usize, &Vec<Scalar>) -> Result<Vec<Scalar>, SolveError>,
    A: Fn(Scalar, Scalar) -> Scalar,
 {
    ||| elimination_failed(traces.expand_homogeneous, direction, result)
    ||| exists|delta: Vec<Scalar>|
        {
            &&& #[trigger] call_ensures(traces.expand_homogeneous, (&direction,), Ok(delta))
            &&& product_directed(
                operator,
                time,
                direction,
                rate_direction,
                physical,
                moving,
                delta,
                output_length,
                calls,
                traces,
                result,
            )
        }
}

/// What the product gives once the state is expanded.
pub open spec fn product_expanded<X, H, Q, D, I, L, E, A>(
    operator: ConnectedSystemOperator,
    time: Scalar,
    rate: Vec<Scalar>,
    direction: Vec<Scalar>,
    rate_direction: Vec<Scalar>,
    physical: Vec<Scalar>,
    output_length: nat,
    calls: SystemCalls<L, E, A>,
    traces: TraceCalls<X, H, Q, D, I>,
    result: Result<Vec<Scalar>, NumericError>,
) -> bool where
    X: Fn(&Vec<Scalar>) -> Result<Vec<Scalar>, String>,
    H: Fn(&Vec<Scalar>) -> Result<Vec<Scalar>, String>,
    Q: Fn(&Vec<Scalar>) -> Result<Vec<Scalar>, String>,
    D: Fn(Scalar, Scalar) -> Scalar,
    I: Fn(&str) -> String,
    L: Fn(usize, Scalar, &Vec<Vec<Scalar>>) -> Result<Vec<Scalar>, SolveError>,
    E: Fn(usize, &Vec<Scalar>) -> Result<Vec<Scalar>, SolveError>,
    A: Fn(Scalar, Scalar) -> Scalar,
 {
    ||| elimination_failed(traces.expand_homogeneous, rate, result)
    ||| exists|moving: Vec<Scalar>|
        {
            &&& #[trigger] call_ensures(traces.expand_homogeneous, (&rate,), Ok(moving))
            &&& product_moving(
                operator,
                time,
                direction,
                rate_direction,
                physical,
                moving,
                output_length,
                calls,
                traces,
                result,
            )
        }
}

/// What the Jacobian-vector product of a connected system gives: the composed product at
/// the expanded arguments, restricted to the free unknowns, and on every eliminated row the
/// difference between the direction there and its expanded value.
pub open spec fn connected_product<X, H, Q, D, I, L, E, A>(
    operator: ConnectedSystemOperator,
    time: Scalar,
    state: Vec<Scalar>,
    rate: Vec<Scalar>,
    direction: Vec<Scalar>,
    rate_direction: Vec<Scalar>,
    output_length: nat,
    calls: SystemCalls<L, E, A>,
    traces: TraceCalls<X, H, Q, D, I>,
    result: Result<Vec<Scalar>, NumericError>,
) -> bool where
    X: Fn(&Vec<Scalar>) -> Result<Vec<Scalar>, String>,
    H: Fn(&Vec<Scalar>) -> Result<Vec<Scalar>, String>,
    Q: Fn(&Vec<Scalar>) -> Result<Vec<Scalar>, String>,
    D: Fn(Scalar, Scalar) -> Scalar,
    I: Fn(&str) -> String,
    L: Fn(usize, Scalar, &Vec<Vec<Scalar>>) -> Result<Vec<Scalar>, SolveError>,
    E: Fn(usize, &Vec<Scalar>) -> Result<Vec<Scalar>, SolveError>,
    A: Fn(Scalar, Scalar) -> Scalar,
 {
    ||| elimination_failed(traces.expand, state, result)
    ||| exists|physical: Vec<Scalar>|
        {
            &&& #[trigger] call_ensures(traces.expand, (&state,), Ok(physical))
            &&& product_expanded(
                operator,
                time,
                rate,
                direction,
                rate_direction,
                physical,
                output_length,
                calls,
                traces,
                result,
            )
        }
}

impl ConnectedSystemOperator {
    /// The state with its eliminated unknowns filled in.
    pub fn physical_state<X>(&self, state: &Vec<Scalar>, expand: &X) -> (result: Result<
        Vec<Scalar>,
        NumericError,
    >) where X: Fn(&Vec<Scalar>) -> Result<Vec<Scalar>, String>
        requires
            call_requires(*expand, (state,)),
        ensures
            match result {
                Ok(values) => call_ensures(*expand, (state,), Ok(values)),
                Err(_) => elimination_failed(*expand, *state, result),
            },
    {
        match expand(state) {
            Ok(values) => Ok(values),
            Err(message) => Err(numerical(message)),
        }
    }

    /// The residual of the connected system, for an output of the given length.
    pub fn residual<X, H, Q, D, I, L, E, A>(
        &self,
        time: Scalar,
        state: &Vec<Scalar>,
        state_rate: &Vec<Scalar>,
        output_length: usize,
        calls: &SystemCalls<L, E, A>,
        traces: &TraceCalls<X, H, Q, D, I>,
    ) -> (result: Result<Vec<Scalar>, NumericError>) where
        X: Fn(&Vec<Scalar>) -> Result<Vec<Scalar>, String>,
        H: Fn(&Vec<Scalar>) -> Result<Vec<Scalar>, String>,
        Q: Fn(&Vec<Scalar>) -> Result<Vec<Scalar>, String>,
        D: Fn(Scalar, Scalar) -> Scalar,
        I: Fn(&str) -> String,
        L: Fn(usize, Scalar, &Vec<Vec<Scalar>>) -> Result<Vec<Scalar>, SolveError>,
        E: Fn(usize, &Vec<Scalar>) -> Result<Vec<Scalar>, SolveError>,
        A: Fn(Scalar, Scalar) -> Scalar,

        requires
            self.wf(),
            calls.callable(self.system()@.leaves, self.system()@.edges),
            traces.callable(self.size()),
        ensures
            connected_residual(
                *self,
                time,
                *state,
                *state_rate,
                output_length as nat,
                *calls,
                *traces,
                result,
            ),
            result matches Ok(values) ==> values@.len() == output_length,
    {
        proof {
            self.lemma_wf();
        }
        let physical = match (traces.expand)(state) {
            Ok(physical) => physical,
            Err(message) => {
                return Err(numerical(message));
            },
        };
        let moving = match (traces.expand_homogeneous)(state_rate) {
            Ok(moving) => moving,
            Err(message) => {
                let result: Result<Vec<Scalar>, NumericError> = Err(numerical(message));
                assert(elimination_failed(traces.expand_homogeneous, *state_rate, result));
                return result;
            },
        };
        let raw = self.inner().residual(time, &physical, &moving, self.dimension(), calls);
        let ghost held = raw;
        let result = match raw {
            Ok(raw) => self.restrict(
                state,
                &physical,
                raw,
                output_length,
                "connection residual extent mismatch",
                traces,
            ),
            Err(error) => Err(error),
        };
        proof {
            assert(evaluation::residual_given(
                self.system(),
                time,
                physical@,
                moving@,
                self.size(),
                *calls,
                held,
            ));
            assert(closed_residual(
                *self,
                time,
                *state,
                physical,
                moving,
                output_length as nat,
                *calls,
                *traces,
                result,
            ));
        }
        result
    }

    /// The Jacobian-vector product of the connected system, for an output of the given
    /// length.
    pub fn jacobian_vector_product<X, H, Q, D, I, L, E, A>(
        &self,
        time: Scalar,
        state: &Vec<Scalar>,
        state_rate: &Vec<Scalar>,
        state_direction: &Vec<Scalar>,
        rate_direction: &Vec<Scalar>,
        output_length: usize,
        calls: &SystemCalls<L, E, A>,
        traces: &TraceCalls<X, H, Q, D, I>,
    ) -> (result: Result<Vec<Scalar>, NumericError>) where
        X: Fn(&Vec<Scalar>) -> Result<Vec<Scalar>, String>,
        H: Fn(&Vec<Scalar>) -> Result<Vec<Scalar>, String>,
        Q: Fn(&Vec<Scalar>) -> Result<Vec<Scalar>, String>,
        D: Fn(Scalar, Scalar) -> Scalar,
        I: Fn(&str) -> String,
        L: Fn(usize, Scalar, &Vec<Vec<Scalar>>) -> Result<Vec<Scalar>, SolveError>,
        E: Fn(usize, &Vec<Scalar>) -> Result<Vec<Scalar>, SolveError>,
        A: Fn(Scalar, Scalar) -> Scalar,

        requires
            self.wf(),
            calls.callable(self.system()@.leaves, self.system()@.edges),
            traces.callable(self.size()),
        ensures
            connected_product(
                *self,
                time,
                *state,
                *state_rate,
                *state_direction,
                *rate_direction,
                output_length as nat,
                *calls,
                *traces,
                result,
            ),
            result matches Ok(values) ==> values@.len() == output_length,
    {
        proof {
            self.lemma_wf();
        }
        let physical = match (traces.expand)(state) {
            Ok(physical) => physical,
            Err(message) => {
                return Err(numerical(message));
            },
        };
        let moving = match (traces.expand_homogeneous)(state_rate) {
            Ok(moving) => moving,
            Err(message) => {
                let result: Result<Vec<Scalar>, NumericError> = Err(numerical(message));
                assert(elimination_failed(traces.expand_homogeneous, *state_rate, result));
                return result;
            },
        };
        let delta = match (traces.expand_homogeneous)(state_direction) {
            Ok(delta) => delta,
            Err(message) => {
                let result: Result<Vec<Scalar>, NumericError> = Err(numerical(message));
                assert(elimination_failed(traces.expand_homogeneous, *state_direction, result));
                return result;
            },
        };
        let rate_delta = match (traces.expand_homogeneous)(rate_direction) {
            Ok(rate_delta) => rate_delta,
            Err(message) => {
                let result: Result<Vec<Scalar>, NumericError> = Err(numerical(message));
                assert(elimination_failed(traces.expand_homogeneous, *rate_direction, result));
                return result;
            },
        };
        let raw = self.inner().jacobian_vector_product(
            time,
            &physical,
            &moving,
            &delta,
            &rate_delta,
            self.dimension(),
            calls,
        );
        let ghost held = raw;
        let result = match raw {
            Ok(raw) => self.restrict(
                state_direction,
                &delta,
                raw,
                output_length,
                "connection product extent mismatch",
                traces,
            ),
            Err(error) => Err(error),
        };
        proof {
            assert(evaluation::product_given(
                self.system(),
                time,
                physical@,
                moving@,
                delta@,
                rate_delta@,
                self.size(),
                *calls,
                held,
            ));
            assert(closed_product(
                *self,
                time,
                *state_direction,
                physical,
                moving,
                delta,
                rate_delta,
                output_length as nat,
                *calls,
                *traces,
                result,
            ));
        }
        result
    }

    /// The steady residual: at time zero and zero rate.
    pub fn steady_residual<X, H, Q, D, I, L, E, A>(
        &self,
        state: &Vec<Scalar>,
        output_length: usize,
        calls: &SystemCalls<L, E, A>,
        traces: &TraceCalls<X, H, Q, D, I>,
    ) -> (result: Result<Vec<Scalar>, NumericError>) where
        X: Fn(&Vec<Scalar>) -> Result<Vec<Scalar>, String>,
        H: Fn(&Vec<Scalar>) -> Result<Vec<Scalar>, String>,
        Q: Fn(&Vec<Scalar>) -> Result<Vec<Scalar>, String>,
        D: Fn(Scalar, Scalar) -> Scalar,
        I: Fn(&str) -> String,
        L: Fn(usize, Scalar, &Vec<Vec<Scalar>>) -> Result<Vec<Scalar>, SolveError>,
        E: Fn(usize, &Vec<Scalar>) -> Result<Vec<Scalar>, SolveError>,
        A: Fn(Scalar, Scalar) -> Scalar,

        requires
            self.wf(),
            calls.callable(self.system()@.leaves, self.system()@.edges),
            traces.callable(self.size()),
        ensures
            exists|rate: Vec<Scalar>|
                {
                    &&& rate@ == evaluation::still(self.size())
                    &&& #[trigger] connected_residual(
                        *self,
                        Scalar::nil(),
                        *state,
                        rate,
                        output_length as nat,
                        *calls,
                        *traces,
                        result,
                    )
                },
            result matches Ok(values) ==> values@.len() == output_length,
    {
        let rate = still_vector(self.dimension());
        self.residual(Scalar::zero(), state, &rate, output_length, calls, traces)
    }

    /// The steady Jacobian-vector product: at time zero, zero rate and no rate direction.
    pub fn steady_jacobian_vector_product<X, H, Q, D, I, L, E, A>(
        &self,
        state: &Vec<Scalar>,
        direction: &Vec<Scalar>,
        output_length: usize,
        calls: &SystemCalls<L, E, A>,
        traces: &TraceCalls<X, H, Q, D, I>,
    ) -> (result: Result<Vec<Scalar>, NumericError>) where
        X: Fn(&Vec<Scalar>) -> Result<Vec<Scalar>, String>,
        H: Fn(&Vec<Scalar>) -> Result<Vec<Scalar>, String>,
        Q: Fn(&Vec<Scalar>) -> Result<Vec<Scalar>, String>,
        D: Fn(Scalar, Scalar) -> Scalar,
        I: Fn(&str) -> String,
        L: Fn(usize, Scalar, &Vec<Vec<Scalar>>) -> Result<Vec<Scalar>, SolveError>,
        E: Fn(usize, &Vec<Scalar>) -> Result<Vec<Scalar>, SolveError>,
        A: Fn(Scalar, Scalar) -> Scalar,

        requires
            self.wf(),
            calls.callable(self.system()@.leaves, self.system()@.edges),
            traces.callable(self.size()),
        ensures
            exists|rate: Vec<Scalar>|
                {
                    &&& rate@ == evaluation::still(self.size())
                    &&& #[trigger] connected_product(
                        *self,
                        Scalar::nil(),
                        *state,
                        rate,
                        *direction,
                        rate,
                        output_length as nat,
                        *calls,
                        *traces,
                        result,
                    )
                },
            result matches Ok(values) ==> values@.len() == output_length,
    {
        let rate = still_vector(self.dimension());
        self.jacobian_vector_product(
            Scalar::zero(),
            state,
            &rate,
            direction,
            &rate,
            output_length,
            calls,
            traces,
        )
    }
}

} // verus!
