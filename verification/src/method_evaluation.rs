//! Evaluation of a pair of operators from distinct method families.
use crate::evaluation;
use crate::evaluation::{cut, require_len, still_vector};
use crate::method::CrossDialectOperator;
use crate::numeric::{NumericError, NumericModel, SolveError};
use crate::scalar;
use crate::scalar::{append_scalars, copy_range, copy_scalars, find_non_finite, Scalar};
use crate::trajectory;
use vstd::prelude::*;

verus! {

/// What the evaluation of a pair takes from outside: `block` evaluates the left (0) or the
/// right (1) operator at a time over its parts of the arguments; `dot` is the product of a
/// matrix row with a vector; `sum` adds two scalars.
pub struct DialectCalls<L, P, A> where
    L: Fn(usize, Scalar, &Vec<Vec<Scalar>>) -> Result<Vec<Scalar>, SolveError>,
    P: Fn(&Vec<Scalar>, &Vec<Scalar>) -> Scalar,
    A: Fn(Scalar, Scalar) -> Scalar,
 {
    pub block: L,
    pub dot: P,
    pub sum: A,
}

impl<L, P, A> DialectCalls<L, P, A> where
    L: Fn(usize, Scalar, &Vec<Vec<Scalar>>) -> Result<Vec<Scalar>, SolveError>,
    P: Fn(&Vec<Scalar>, &Vec<Scalar>) -> Scalar,
    A: Fn(Scalar, Scalar) -> Scalar,
 {
    /// Every call is admitted, and each operator gives a vector of its dimension.
    pub open spec fn callable(self, left: usize, right: usize) -> bool {
        &&& forall|index: usize, time: Scalar, parts: &Vec<Vec<Scalar>>| call_requires(
            self.block,
            (index, time, parts),
        )
        &&& forall|
            index: usize,
            time: Scalar,
            parts: &Vec<Vec<Scalar>>,
            value: Result<Vec<Scalar>, SolveError>,
        |
            #[trigger] call_ensures(self.block, (index, time, parts), value) && value is Ok
                ==> value->Ok_0@.len() == if index == 0 {
                left
            } else {
                right
            }
        &&& forall|row: &Vec<Scalar>, input: &Vec<Scalar>| call_requires(self.dot, (row, input))
        &&& forall|left: Scalar, right: Scalar| call_requires(self.sum, (left, right))
    }
}

/// Whether an argument has the dimension and is finite.
pub open spec fn admitted(values: Seq<Scalar>, dimension: nat) -> bool {
    values.len() == dimension && scalar::all_finite(values)
}

/// Whether an argument was refused for its length or for its first non-finite value.
pub open spec fn argument_refused(
    label: Seq<char>,
    values: Seq<Scalar>,
    dimension: nat,
    error: NumericModel,
) -> bool {
    if values.len() != dimension {
        error == (NumericModel::DimensionMismatch {
            operation: label,
            expected: dimension,
            actual: values.len(),
        })
    } else {
        non_finite(label, values, error)
    }
}

pub open spec fn non_finite(label: Seq<char>, values: Seq<Scalar>, error: NumericModel) -> bool {
    exists|index: int|
        {
            &&& #[trigger] scalar::first_non_finite(values, index)
            &&& error == (NumericModel::NonFinite { operation: label, index: index as nat })
        }
}

/// Whether one of the two operators gave a value over its part of the arguments.
pub open spec fn side_gives<L>(
    block: L,
    side: usize,
    vectors: Seq<Seq<Scalar>>,
    start: int,
    end: int,
    time: Scalar,
    value: Result<Vec<Scalar>, SolveError>,
) -> bool where L: Fn(usize, Scalar, &Vec<Vec<Scalar>>) -> Result<Vec<Scalar>, SolveError> {
    exists|parts: Vec<Vec<Scalar>>|
        {
            &&& trajectory::vectors(parts@) == evaluation::parts_of(vectors, start, end)
            &&& #[trigger] call_ensures(block, (side, time, &parts), value)
        }
}

/// Whether a matrix row acts on a vector with the given result.
pub open spec fn row_acts<P: Fn(&Vec<Scalar>, &Vec<Scalar>) -> Scalar>(
    row: Vec<Scalar>,
    input: Seq<Scalar>,
    dot: P,
    value: Scalar,
) -> bool {
    exists|source: Vec<Scalar>|
        source@ == input && #[trigger] call_ensures(dot, (&row, &source), value)
}

/// Whether a row's action on a vector leads from one entry to another.
pub open spec fn entry_added<P, A>(
    row: Vec<Scalar>,
    input: Seq<Scalar>,
    dot: P,
    sum: A,
    before: Scalar,
    after: Scalar,
) -> bool where
    P: Fn(&Vec<Scalar>, &Vec<Scalar>) -> Scalar,
    A: Fn(Scalar, Scalar) -> Scalar,
 {
    exists|value: Scalar|
        #[trigger] row_acts(row, input, dot, value) && call_ensures(sum, (before, value), after)
}

/// Whether adding a matrix action on a vector leads from `before` to `after`.
pub open spec fn action_added<P, A>(
    matrix: Seq<Vec<Scalar>>,
    input: Seq<Scalar>,
    dot: P,
    sum: A,
    before: Seq<Scalar>,
    after: Seq<Scalar>,
) -> bool where
    P: Fn(&Vec<Scalar>, &Vec<Scalar>) -> Scalar,
    A: Fn(Scalar, Scalar) -> Scalar,
 {
    &&& after.len() == before.len()
    &&& forall|i: int|
        0 <= i < after.len() ==> entry_added(
            matrix[i],
            input,
            dot,
            sum,
            before[i],
            #[trigger] after[i],
        )
}

/// Whether the values are both operators' values with the coupling added; the matrices act
/// on the given input.
pub open spec fn coupled_values<L, P, A>(
    operator: CrossDialectOperator,
    input: Seq<Scalar>,
    calls: DialectCalls<L, P, A>,
    left: Seq<Scalar>,
    right: Seq<Scalar>,
    values: Seq<Scalar>,
) -> bool where
    L: Fn(usize, Scalar, &Vec<Vec<Scalar>>) -> Result<Vec<Scalar>, SolveError>,
    P: Fn(&Vec<Scalar>, &Vec<Scalar>) -> Scalar,
    A: Fn(Scalar, Scalar) -> Scalar,
 {
    let cut = operator.left_part().dimension as int;
    &&& values.len() == operator.size()
    &&& action_added(
        operator.left_coupling(),
        input.skip(cut),
        calls.dot,
        calls.sum,
        left,
        values.take(cut),
    )
    &&& action_added(
        operator.right_coupling(),
        input.take(cut),
        calls.dot,
        calls.sum,
        right,
        values.skip(cut),
    )
}

/// What evaluating both operators over vectors gives; the matrices act on `input`.
pub open spec fn pair_evaluated<L, P, A>(
    operator: CrossDialectOperator,
    vectors: Seq<Seq<Scalar>>,
    input: Seq<Scalar>,
    time: Scalar,
    label: Seq<char>,
    calls: DialectCalls<L, P, A>,
    result: Result<Vec<Scalar>, NumericError>,
) -> bool where
    L: Fn(usize, Scalar, &Vec<Vec<Scalar>>) -> Result<Vec<Scalar>, SolveError>,
    P: Fn(&Vec<Scalar>, &Vec<Scalar>) -> Scalar,
    A: Fn(Scalar, Scalar) -> Scalar,
 {
    let cut = operator.left_part().dimension as int;
    exists|first: Result<Vec<Scalar>, SolveError>|
        {
            &&& #[trigger] side_gives(calls.block, 0, vectors, 0, cut, time, first)
            &&& match first {
                Err(failure) => result matches Err(error) && error@ == NumericModel::Reported(
                    failure@,
                ),
                Ok(left) => right_evaluated(
                    operator,
                    vectors,
                    input,
                    time,
                    label,
                    calls,
                    left@,
                    result,
                ),
            }
        }
}

/// What evaluating the right operator gives once the left one gave its values.
pub open spec fn right_evaluated<L, P, A>(
    operator: CrossDialectOperator,
    vectors: Seq<Seq<Scalar>>,
    input: Seq<Scalar>,
    time: Scalar,
    label: Seq<char>,
    calls: DialectCalls<L, P, A>,
    left: Seq<Scalar>,
    result: Result<Vec<Scalar>, NumericError>,
) -> bool where
    L: Fn(usize, Scalar, &Vec<Vec<Scalar>>) -> Result<Vec<Scalar>, SolveError>,
    P: Fn(&Vec<Scalar>, &Vec<Scalar>) -> Scalar,
    A: Fn(Scalar, Scalar) -> Scalar,
 {
    let cut = operator.left_part().dimension as int;
    let end = operator.size() as int;
    exists|second: Result<Vec<Scalar>, SolveError>|
        {
            &&& #[trigger] side_gives(calls.block, 1, vectors, cut, end, time, second)
            &&& match second {
                Err(failure) => result matches Err(error) && error@ == NumericModel::Reported(
                    failure@,
                ),
                Ok(right) => exists|values: Seq<Scalar>|
                    {
                        &&& #[trigger] coupled_values(
                            operator,
                            input,
                            calls,
                            left,
                            right@,
                            values,
                        )
                        &&& match result {
                            Ok(given) => given@ == values && scalar::all_finite(values),
                            Err(error) => non_finite(label, values, error@),
                        }
                    },
            }
        }
}

/// What the residual of a pair gives.
pub open spec fn dialect_residual<L, P, A>(
    operator: CrossDialectOperator,
    time: Scalar,
    state: Seq<Scalar>,
    rate: Seq<Scalar>,
    output_length: nat,
    calls: DialectCalls<L, P, A>,
    result: Result<Vec<Scalar>, NumericError>,
) -> bool where
    L: Fn(usize, Scalar, &Vec<Vec<Scalar>>) -> Result<Vec<Scalar>, SolveError>,
    P: Fn(&Vec<Scalar>, &Vec<Scalar>) -> Scalar,
    A: Fn(Scalar, Scalar) -> Scalar,
 {
    let dimension = operator.size();
    if !admitted(state, dimension) {
        result matches Err(error) && argument_refused(
            "cross-dialect state"@,
            state,
            dimension,
            error@,
        )
    } else if !admitted(rate, dimension) {
        result matches Err(error) && argument_refused(
            "cross-dialect state rate"@,
            rate,
            dimension,
            error@,
        )
    } else if output_length != dimension {
        result matches Err(error) && error@ == (NumericModel::DimensionMismatch {
            operation: "cross-dialect residual"@,
            expected: dimension,
            actual: output_length,
        })
    } else {
        pair_evaluated(
            operator,
            seq![state, rate],
            state,
            time,
            "cross-dialect residual"@,
            calls,
            result,
        )
    }
}

/// What the Jacobian-vector product of a pair gives.
pub open spec fn dialect_product<L, P, A>(
    operator: CrossDialectOperator,
    time: Scalar,
    state: Seq<Scalar>,
    rate: Seq<Scalar>,
    direction: Seq<Scalar>,
    rate_direction: Seq<Scalar>,
    output_length: nat,
    calls: DialectCalls<L, P, A>,
    result: Result<Vec<Scalar>, NumericError>,
) -> bool where
    L: Fn(usize, Scalar, &Vec<Vec<Scalar>>) -> Result<Vec<Scalar>, SolveError>,
    P: Fn(&Vec<Scalar>, &Vec<Scalar>) -> Scalar,
    A: Fn(Scalar, Scalar) -> Scalar,
 {
    let dimension = operator.size();
    if !admitted(state, dimension) {
        result matches Err(error) && argument_refused(
            "cross-dialect state"@,
            state,
            dimension,
            error@,
        )
    } else if !admitted(rate, dimension) {
        result matches Err(error) && argument_refused(
            "cross-dialect state rate"@,
            rate,
            dimension,
            error@,
        )
    } else if !admitted(direction, dimension) {
        result matches Err(error) && argument_refused(
            "cross-dialect state direction"@,
            direction,
            dimension,
            error@,
        )
    } else if !admitted(rate_direction, dimension) {
        result matches Err(error) && argument_refused(
            "cross-dialect rate direction"@,
            rate_direction,
            dimension,
            error@,
        )
    } else if output_length != dimension {
        result matches Err(error) && error@ == (NumericModel::DimensionMismatch {
            operation: "cross-dialect JVP"@,
            expected: dimension,
            actual: output_length,
        })
    } else {
        pair_evaluated(
            operator,
            seq![state, rate, direction, rate_direction],
            direction,
            time,
            "cross-dialect JVP"@,
            calls,
            result,
        )
    }
}

fn require_argument(label: &str, values: &Vec<Scalar>, dimension: usize) -> (result: Result<
    (),
    NumericError,
>)
    ensures
        match result {
            Ok(_) => admitted(values@, dimension as nat),
            Err(error) => !admitted(values@, dimension as nat) && argument_refused(
                label@,
                values@,
                dimension as nat,
                error@,
            ),
        },
{
    match require_len(label, values.len(), dimension) {
        Ok(_) => {},
        Err(error) => {
            return Err(error);
        },
    }
    require_finite(label, values)
}

fn require_finite(label: &str, values: &Vec<Scalar>) -> (result: Result<(), NumericError>)
    ensures
        match result {
            Ok(_) => scalar::all_finite(values@),
            Err(error) => !scalar::all_finite(values@) && non_finite(label@, values@, error@),
        },
{
    match find_non_finite(values) {
        Some(index) => {
            assert(scalar::first_non_finite(values@, index as int));
            Err(NumericError::NonFinite { operation: label.to_owned(), index })
        },
        None => Ok(()),
    }
}

/// Adds a matrix action on a vector.
fn add_matrix_action<P, A>(
    matrix: &Vec<Vec<Scalar>>,
    input: &Vec<Scalar>,
    dot: &P,
    sum: &A,
    output: &mut Vec<Scalar>,
) where P: Fn(&Vec<Scalar>, &Vec<Scalar>) -> Scalar, A: Fn(Scalar, Scalar) -> Scalar
    requires
        old(output)@.len() == matrix@.len(),
        forall|row: &Vec<Scalar>, source: &Vec<Scalar>| call_requires(*dot, (row, source)),
        forall|left: Scalar, right: Scalar| call_requires(*sum, (left, right)),
    ensures
        action_added(matrix@, input@, *dot, *sum, old(output)@, final(output)@),
{
    let ghost before = output@;
    let mut index: usize = 0;
    while index < matrix.len()
        invariant
            index <= matrix@.len(),
            output@.len() == matrix@.len(),
            before.len() == matrix@.len(),
            forall|row: &Vec<Scalar>, source: &Vec<Scalar>| call_requires(*dot, (row, source)),
            forall|left: Scalar, right: Scalar| call_requires(*sum, (left, right)),
            forall|i: int|
                0 <= i < index ==> entry_added(
                    matrix@[i],
                    input@,
                    *dot,
                    *sum,
                    before[i],
                    #[trigger] output@[i],
                ),
            forall|i: int| index <= i < before.len() ==> #[trigger] output@[i] == before[i],
        decreases matrix.len() - index,
    {
        let value = dot(&matrix[index], input);
        assert(row_acts(matrix@[index as int], input@, *dot, value));
        assert(output@[index as int] == before[index as int]);
        let total = sum(output[index], value);
        output.set(index, total);
        assert(entry_added(
            matrix@[index as int],
            input@,
            *dot,
            *sum,
            before[index as int],
            total,
        ));
        index += 1;
    }
}

impl CrossDialectOperator {
    fn evaluate<L, P, A>(
        &self,
        vectors: &Vec<Vec<Scalar>>,
        input: &Vec<Scalar>,
        time: Scalar,
        label: &str,
        calls: &DialectCalls<L, P, A>,
    ) -> (result: Result<Vec<Scalar>, NumericError>) where
        L: Fn(usize, Scalar, &Vec<Vec<Scalar>>) -> Result<Vec<Scalar>, SolveError>,
        P: Fn(&Vec<Scalar>, &Vec<Scalar>) -> Scalar,
        A: Fn(Scalar, Scalar) -> Scalar,

        requires
            self.wf(),
            calls.callable(self.left_part().dimension, self.right_part().dimension),
            forall|i: int|
                0 <= i < vectors@.len() ==> (#[trigger] vectors@[i])@.len() == self.size(),
            input@.len() == self.size(),
        ensures
            pair_evaluated(
                *self,
                trajectory::vectors(vectors@),
                input@,
                time,
                label@,
                *calls,
                result,
            ),
            result matches Ok(values) ==> values@.len() == self.size(),
    {
        let ghost models = trajectory::vectors(vectors@);
        let middle: usize = self.left().dimension;
        let end: usize = self.dimension();
        let left_parts = cut(vectors, 0, middle);
        let first = (calls.block)(0, time, &left_parts);
        assert(side_gives(calls.block, 0, models, 0, middle as int, time, first));
        let left = match first {
            Ok(left) => left,
            Err(failure) => {
                return Err(NumericError::Reported(failure));
            },
        };
        let right_parts = cut(vectors, middle, end);
        let second = (calls.block)(1, time, &right_parts);
        assert(side_gives(calls.block, 1, models, middle as int, end as int, time, second));
        let right = match second {
            Ok(right) => right,
            Err(failure) => {
                return Err(NumericError::Reported(failure));
            },
        };
        let ghost left_raw = left@;
        let ghost right_raw = right@;
        let left_input = copy_range(input, 0, middle);
        let right_input = copy_range(input, middle, end);
        let mut values = left;
        add_matrix_action(
            self.left_matrix(),
            &right_input,
            &calls.dot,
            &calls.sum,
            &mut values,
        );
        let mut lower = right;
        add_matrix_action(self.right_matrix(), &left_input, &calls.dot, &calls.sum, &mut lower);
        let ghost upper = values@;
        append_scalars(&mut values, &lower);
        proof {
            assert(values@.take(middle as int) =~= upper);
            assert(values@.skip(middle as int) =~= lower@);
            assert(right_input@ =~= input@.skip(middle as int));
            assert(left_input@ =~= input@.take(middle as int));
            assert(coupled_values(*self, input@, *calls, left_raw, right_raw, values@));
        }
        match require_finite(label, &values) {
            Ok(_) => Ok(values),
            Err(error) => Err(error),
        }
    }

    /// The residual of the pair at a time, state and rate, for an output of the given
    /// length.
    pub fn residual<L, P, A>(
        &self,
        time: Scalar,
        state: &Vec<Scalar>,
        state_rate: &Vec<Scalar>,
        output_length: usize,
        calls: &DialectCalls<L, P, A>,
    ) -> (result: Result<Vec<Scalar>, NumericError>) where
        L: Fn(usize, Scalar, &Vec<Vec<Scalar>>) -> Result<Vec<Scalar>, SolveError>,
        P: Fn(&Vec<Scalar>, &Vec<Scalar>) -> Scalar,
        A: Fn(Scalar, Scalar) -> Scalar,

        requires
            self.wf(),
            calls.callable(self.left_part().dimension, self.right_part().dimension),
        ensures
            dialect_residual(
                *self,
                time,
                state@,
                state_rate@,
                output_length as nat,
                *calls,
                result,
            ),
            result matches Ok(values) ==> values@.len() == self.size(),
    {
        let dimension: usize = self.dimension();
        match require_argument("cross-dialect state", state, dimension) {
            Ok(_) => {},
            Err(error) => {
                return Err(error);
            },
        }
        match require_argument("cross-dialect state rate", state_rate, dimension) {
            Ok(_) => {},
            Err(error) => {
                return Err(error);
            },
        }
        match require_len("cross-dialect residual", output_length, dimension) {
            Ok(_) => {},
            Err(error) => {
                return Err(error);
            },
        }
        let mut vectors: Vec<Vec<Scalar>> = Vec::new();
        vectors.push(copy_scalars(state));
        vectors.push(copy_scalars(state_rate));
        assert(trajectory::vectors(vectors@) =~= seq![state@, state_rate@]);
        self.evaluate(&vectors, state, time, "cross-dialect residual", calls)
    }

    /// The Jacobian-vector product of the pair, for an output of the given length.
    pub fn jacobian_vector_product<L, P, A>(
        &self,
        time: Scalar,
        state: &Vec<Scalar>,
        state_rate: &Vec<Scalar>,
        state_direction: &Vec<Scalar>,
        rate_direction: &Vec<Scalar>,
        output_length: usize,
        calls: &DialectCalls<L, P, A>,
    ) -> (result: Result<Vec<Scalar>, NumericError>) where
        L: Fn(usize, Scalar, &Vec<Vec<Scalar>>) -> Result<Vec<Scalar>, SolveError>,
        P: Fn(&Vec<Scalar>, &Vec<Scalar>) -> Scalar,
        A: Fn(Scalar, Scalar) -> Scalar,

        requires
            self.wf(),
            calls.callable(self.left_part().dimension, self.right_part().dimension),
        ensures
            dialect_product(
                *self,
                time,
                state@,
                state_rate@,
                state_direction@,
                rate_direction@,
                output_length as nat,
                *calls,
                result,
            ),
            result matches Ok(values) ==> values@.len() == self.size(),
    {
        let dimension: usize = self.dimension();
        match require_argument("cross-dialect state", state, dimension) {
            Ok(_) => {},
            Err(error) => {
                return Err(error);
            },
        }
        match require_argument("cross-dialect state rate", state_rate, dimension) {
            Ok(_) => {},
            Err(error) => {
                return Err(error);
            },
        }
        match require_argument("cross-dialect state direction", state_direction, dimension) {
            Ok(_) => {},
            Err(error) => {
                return Err(error);
            },
        }
        match require_argument("cross-dialect rate direction", rate_direction, dimension) {
            Ok(_) => {},
            Err(error) => {
                return Err(error);
            },
        }
        match require_len("cross-dialect JVP", output_length, dimension) {
            Ok(_) => {},
            Err(error) => {
                return Err(error);
            },
        }
        let mut vectors: Vec<Vec<Scalar>> = Vec::new();
        vectors.push(copy_scalars(state));
        vectors.push(copy_scalars(state_rate));
        vectors.push(copy_scalars(state_direction));
        vectors.push(copy_scalars(rate_direction));
        assert(trajectory::vectors(vectors@) =~= seq![
            state@,
            state_rate@,
            state_direction@,
            rate_direction@,
        ]);
        self.evaluate(&vectors, state_direction, time, "cross-dialect JVP", calls)
    }

    /// The steady residual: at time zero and zero rate.
    pub fn steady_residual<L, P, A>(
        &self,
        state: &Vec<Scalar>,
        output_length: usize,
        calls: &DialectCalls<L, P, A>,
    ) -> (result: Result<Vec<Scalar>, NumericError>) where
        L: Fn(usize, Scalar, &Vec<Vec<Scalar>>) -> Result<Vec<Scalar>, SolveError>,
        P: Fn(&Vec<Scalar>, &Vec<Scalar>) -> Scalar,
        A: Fn(Scalar, Scalar) -> Scalar,

        requires
            self.wf(),
            calls.callable(self.left_part().dimension, self.right_part().dimension),
        ensures
            dialect_residual(
                *self,
                Scalar::nil(),
                state@,
                evaluation::still(self.size()),
                output_length as nat,
                *calls,
                result,
            ),
            result matches Ok(values) ==> values@.len() == self.size(),
    {
        let rate = still_vector(self.dimension());
        self.residual(Scalar::zero(), state, &rate, output_length, calls)
    }

    /// The steady Jacobian-vector product: at time zero, zero rate and no rate direction.
    pub fn steady_jacobian_vector_product<L, P, A>(
        &self,
        state: &Vec<Scalar>,
        direction: &Vec<Scalar>,
        output_length: usize,
        calls: &DialectCalls<L, P, A>,
    ) -> (result: Result<Vec<Scalar>, NumericError>) where
        L: Fn(usize, Scalar, &Vec<Vec<Scalar>>) -> Result<Vec<Scalar>, SolveError>,
        P: Fn(&Vec<Scalar>, &Vec<Scalar>) -> Scalar,
        A: Fn(Scalar, Scalar) -> Scalar,

        requires
            self.wf(),
            calls.callable(self.left_part().dimension, self.right_part().dimension),
        ensures
            dialect_product(
                *self,
                Scalar::nil(),
                state@,
                evaluation::still(self.size()),
                direction@,
                evaluation::still(self.size()),
                output_length as nat,
                *calls,
                result,
            ),
            result matches Ok(values) ==> values@.len() == self.size(),
    {
        let rate = still_vector(self.dimension());
        self.jacobian_vector_product(
            Scalar::zero(),
            state,
            &rate,
            direction,
            &rate,
            output_length,
            calls,
        )
    }
}

} // verus!
