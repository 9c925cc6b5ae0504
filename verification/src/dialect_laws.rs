//! What the evaluation of a single realization and of a coupled pair promises.
use crate::error::KrasisError;
use crate::evaluation;
use crate::method;
use crate::method::{CrossDialectOperator, DiscreteOperator};
use crate::method_evaluation;
use crate::method_evaluation::DialectCalls;
use crate::numeric::{NumericError, NumericModel, SolveError};
use crate::operator::BlockSpec;
use crate::operator_evaluation;
use crate::scalar::Scalar;
use crate::trajectory;
use vstd::prelude::*;

verus! {

/// A realization's residual is handed on as it is, and its failure as a reported one.
pub proof fn law_realization_residual_is_handed_on<F>(
    call: F,
    time: Scalar,
    state: Vec<Scalar>,
    rate: Vec<Scalar>,
    result: Result<Vec<Scalar>, NumericError>,
) where F: Fn(Scalar, &Vec<Scalar>, &Vec<Scalar>) -> Result<Vec<Scalar>, SolveError>
    requires
        operator_evaluation::residual_taken(call, time, state, rate, result),
    ensures
        result matches Ok(values) ==> call_ensures(
            call,
            (time, &state, &rate),
            Ok::<Vec<Scalar>, SolveError>(values),
        ),
        result matches Err(error) ==> exists|failure: SolveError|
            #[trigger] call_ensures(
                call,
                (time, &state, &rate),
                Err::<Vec<Scalar>, SolveError>(failure),
            ) && error@ == NumericModel::Reported(failure@),
{
}

/// A realization's product is handed on as it is, and its failure as a reported one.
pub proof fn law_realization_product_is_handed_on<F>(
    call: F,
    time: Scalar,
    state: Vec<Scalar>,
    rate: Vec<Scalar>,
    state_direction: Vec<Scalar>,
    rate_direction: Vec<Scalar>,
    result: Result<Vec<Scalar>, NumericError>,
) where
    F: Fn(Scalar, &Vec<Scalar>, &Vec<Scalar>, &Vec<Scalar>, &Vec<Scalar>) -> Result<
        Vec<Scalar>,
        SolveError,
    >,

    requires
        operator_evaluation::product_taken(
            call,
            time,
            state,
            rate,
            state_direction,
            rate_direction,
            result,
        ),
    ensures
        result matches Ok(values) ==> call_ensures(
            call,
            (time, &state, &rate, &state_direction, &rate_direction),
            Ok::<Vec<Scalar>, SolveError>(values),
        ),
        result matches Err(error) ==> exists|failure: SolveError|
            #[trigger] call_ensures(
                call,
                (time, &state, &rate, &state_direction, &rate_direction),
                Err::<Vec<Scalar>, SolveError>(failure),
            ) && error@ == NumericModel::Reported(failure@),
{
}

/// Whether a row of a pair is an operator's own value with the coupling added: the product of
/// the matrix row with what the other operator holds.
pub open spec fn row_coupled<P, A>(
    own: Scalar,
    row: Vec<Scalar>,
    other: Seq<Scalar>,
    dot: P,
    sum: A,
    value: Scalar,
) -> bool where
    P: Fn(&Vec<Scalar>, &Vec<Scalar>) -> Scalar,
    A: Fn(Scalar, Scalar) -> Scalar,
 {
    exists|source: Vec<Scalar>, acted: Scalar|
        {
            &&& source@ == other
            &&& #[trigger] call_ensures(dot, (&row, &source), acted)
            &&& call_ensures(sum, (own, acted), value)
        }
}

/// Whether values are those of both operators, left before right, each with the coupling
/// from the other added: the left rows read the right part of the input, the right rows the
/// left part.
pub open spec fn rows_coupled<P, A>(
    operator: CrossDialectOperator,
    input: Seq<Scalar>,
    dot: P,
    sum: A,
    left: Seq<Scalar>,
    right: Seq<Scalar>,
    values: Seq<Scalar>,
) -> bool where
    P: Fn(&Vec<Scalar>, &Vec<Scalar>) -> Scalar,
    A: Fn(Scalar, Scalar) -> Scalar,
 {
    let cut = operator.left_part().dimension as int;
    let end = cut + operator.right_part().dimension;
    &&& values.len() == end
    &&& left.len() == cut
    &&& right.len() == end - cut
    &&& forall|i: int|
        #![trigger values[i]]
        0 <= i < cut ==> row_coupled(
            left[i],
            operator.left_coupling()[i],
            input.subrange(cut, end),
            dot,
            sum,
            values[i],
        )
    &&& forall|i: int|
        #![trigger values[i]]
        cut <= i < end ==> row_coupled(
            right[i - cut],
            operator.right_coupling()[i - cut],
            input.subrange(0, cut),
            dot,
            sum,
            values[i],
        )
    &&& forall|i: int| 0 <= i < end ==> (#[trigger] values[i]).finite()
}

proof fn lemma_side<L>(
    block: L,
    side: usize,
    vectors: Seq<Seq<Scalar>>,
    start: int,
    end: int,
    time: Scalar,
    value: Vec<Scalar>,
) -> (parts: Vec<Vec<Scalar>>) where
    L: Fn(usize, Scalar, &Vec<Vec<Scalar>>) -> Result<Vec<Scalar>, SolveError>,

    requires
        method_evaluation::side_gives(block, side, vectors, start, end, time, Ok(value)),
    ensures
        parts@.len() == vectors.len(),
        forall|i: int|
            0 <= i < vectors.len() ==> (#[trigger] parts@[i])@ == vectors[i].subrange(start, end),
        call_ensures(block, (side, time, &parts), Ok::<Vec<Scalar>, SolveError>(value)),
{
    let parts = choose|parts: Vec<Vec<Scalar>>|
        {
            &&& trajectory::vectors(parts@) == evaluation::parts_of(vectors, start, end)
            &&& #[trigger] call_ensures(
                block,
                (side, time, &parts),
                Ok::<Vec<Scalar>, SolveError>(value),
            )
        };
    let models = trajectory::vectors(parts@);
    assert(models.len() == vectors.len());
    assert forall|i: int| 0 <= i < vectors.len() implies (#[trigger] parts@[i])@
        == vectors[i].subrange(start, end) by {
        assert(models[i] == parts@[i]@);
        assert(evaluation::parts_of(vectors, start, end)[i] == vectors[i].subrange(start, end));
    }
    parts
}

proof fn lemma_pair<L, P, A>(
    operator: CrossDialectOperator,
    vectors: Seq<Seq<Scalar>>,
    input: Seq<Scalar>,
    time: Scalar,
    label: Seq<char>,
    calls: DialectCalls<L, P, A>,
    values: Vec<Scalar>,
) -> (made: (Vec<Scalar>, Vec<Scalar>)) where
    L: Fn(usize, Scalar, &Vec<Vec<Scalar>>) -> Result<Vec<Scalar>, SolveError>,
    P: Fn(&Vec<Scalar>, &Vec<Scalar>) -> Scalar,
    A: Fn(Scalar, Scalar) -> Scalar,

    requires
        calls.callable(operator.left_part().dimension, operator.right_part().dimension),
        input.len() == operator.size(),
        method_evaluation::pair_evaluated(
            operator,
            vectors,
            input,
            time,
            label,
            calls,
            Ok::<Vec<Scalar>, NumericError>(values),
        ),
    ensures
        method_evaluation::side_gives(
            calls.block,
            0,
            vectors,
            0,
            operator.left_part().dimension as int,
            time,
            Ok(made.0),
        ),
        method_evaluation::side_gives(
            calls.block,
            1,
            vectors,
            operator.left_part().dimension as int,
            operator.size() as int,
            time,
            Ok(made.1),
        ),
        rows_coupled(operator, input, calls.dot, calls.sum, made.0@, made.1@, values@),
{
    let cut = operator.left_part().dimension as int;
    let end = operator.size() as int;
    let result = Ok::<Vec<Scalar>, NumericError>(values);
    let left = choose|left: Vec<Scalar>|
        {
            &&& #[trigger] method_evaluation::side_gives(
                calls.block,
                0,
                vectors,
                0,
                cut,
                time,
                Ok(left),
            )
            &&& method_evaluation::right_evaluated(
                operator,
                vectors,
                input,
                time,
                label,
                calls,
                left@,
                result,
            )
        };
    let right = choose|right: Vec<Scalar>|
        {
            &&& #[trigger] method_evaluation::side_gives(
                calls.block,
                1,
                vectors,
                cut,
                end,
                time,
                Ok(right),
            )
            &&& exists|inner: Seq<Scalar>|
                {
                    &&& #[trigger] method_evaluation::coupled_values(
                        operator,
                        input,
                        calls,
                        left@,
                        right@,
                        inner,
                    )
                    &&& values@ == inner
                    &&& crate::scalar::all_finite(inner)
                }
        };
    assert(method_evaluation::coupled_values(
        operator,
        input,
        calls,
        left@,
        right@,
        values@,
    ));
    let first = lemma_side(calls.block, 0, vectors, 0, cut, time, left);
    let second = lemma_side(calls.block, 1, vectors, cut, end, time, right);
    let given: Result<Vec<Scalar>, SolveError> = Ok(left);
    let other: Result<Vec<Scalar>, SolveError> = Ok(right);
    assert(call_ensures(calls.block, (0, time, &first), given));
    assert(call_ensures(calls.block, (1, time, &second), other));
    assert(given->Ok_0@.len() == cut);
    assert(other->Ok_0@.len() == end - cut);
    assert(input.skip(cut) =~= input.subrange(cut, end));
    assert(input.take(cut) =~= input.subrange(0, cut));
    assert forall|i: int| #![trigger values@[i]] 0 <= i < cut implies row_coupled(
        left@[i],
        operator.left_coupling()[i],
        input.subrange(cut, end),
        calls.dot,
        calls.sum,
        values@[i],
    ) by {
        assert(values@.take(cut)[i] == values@[i]);
        lemma_row(
            operator.left_coupling()[i],
            input.skip(cut),
            calls.dot,
            calls.sum,
            left@[i],
            values@.take(cut)[i],
        );
    }
    assert forall|i: int| #![trigger values@[i]] cut <= i < end implies row_coupled(
        right@[i - cut],
        operator.right_coupling()[i - cut],
        input.subrange(0, cut),
        calls.dot,
        calls.sum,
        values@[i],
    ) by {
        assert(values@.skip(cut)[i - cut] == values@[i]);
        lemma_row(
            operator.right_coupling()[i - cut],
            input.take(cut),
            calls.dot,
            calls.sum,
            right@[i - cut],
            values@.skip(cut)[i - cut],
        );
    }
    (left, right)
}

proof fn lemma_row<P, A>(
    row: Vec<Scalar>,
    input: Seq<Scalar>,
    dot: P,
    sum: A,
    before: Scalar,
    after: Scalar,
) where P: Fn(&Vec<Scalar>, &Vec<Scalar>) -> Scalar, A: Fn(Scalar, Scalar) -> Scalar
    requires
        method_evaluation::entry_added(row, input, dot, sum, before, after),
    ensures
        row_coupled(before, row, input, dot, sum, after),
{
    let value = choose|value: Scalar|
        #[trigger] method_evaluation::row_acts(row, input, dot, value) && call_ensures(
            sum,
            (before, value),
            after,
        );
    let source = choose|source: Vec<Scalar>|
        source@ == input && #[trigger] call_ensures(dot, (&row, &source), value);
    assert(call_ensures(dot, (&row, &source), value));
}

/// The residual of a pair: each operator's own residual at the time, on its part of the state
/// and of the rate, with the coupling added; the left rows read the right operator's state,
/// the right rows the left operator's.
pub proof fn law_pair_residual_rows<L, P, A>(
    operator: CrossDialectOperator,
    time: Scalar,
    state: Seq<Scalar>,
    rate: Seq<Scalar>,
    output_length: nat,
    calls: DialectCalls<L, P, A>,
    values: Vec<Scalar>,
) where
    L: Fn(usize, Scalar, &Vec<Vec<Scalar>>) -> Result<Vec<Scalar>, SolveError>,
    P: Fn(&Vec<Scalar>, &Vec<Scalar>) -> Scalar,
    A: Fn(Scalar, Scalar) -> Scalar,

    requires
        calls.callable(operator.left_part().dimension, operator.right_part().dimension),
        method_evaluation::dialect_residual(
            operator,
            time,
            state,
            rate,
            output_length,
            calls,
            Ok::<Vec<Scalar>, NumericError>(values),
        ),
    ensures
        state.len() == operator.left_part().dimension + operator.right_part().dimension,
        rate.len() == state.len(),
        output_length == state.len(),
        forall|i: int| 0 <= i < state.len() ==> (#[trigger] state[i]).finite(),
        forall|i: int| 0 <= i < rate.len() ==> (#[trigger] rate[i]).finite(),
        exists|
            first: Vec<Vec<Scalar>>,
            second: Vec<Vec<Scalar>>,
            left: Vec<Scalar>,
            right: Vec<Scalar>,
        |
            {
                let cut = operator.left_part().dimension as int;
                &&& first@.len() == 2 && second@.len() == 2
                &&& first@[0]@ == state.subrange(0, cut)
                &&& first@[1]@ == rate.subrange(0, cut)
                &&& second@[0]@ == state.subrange(cut, state.len() as int)
                &&& second@[1]@ == rate.subrange(cut, rate.len() as int)
                &&& #[trigger] call_ensures(
                    calls.block,
                    (0usize, time, &first),
                    Ok::<Vec<Scalar>, SolveError>(left),
                )
                &&& #[trigger] call_ensures(
                    calls.block,
                    (1usize, time, &second),
                    Ok::<Vec<Scalar>, SolveError>(right),
                )
                &&& rows_coupled(
                    operator,
                    state,
                    calls.dot,
                    calls.sum,
                    left@,
                    right@,
                    values@,
                )
            },
{
    let cut = operator.left_part().dimension as int;
    let end = operator.size() as int;
    let vectors = seq![state, rate];
    let (left, right) = lemma_pair(
        operator,
        vectors,
        state,
        time,
        "cross-dialect residual"@,
        calls,
        values,
    );
    let first = lemma_side(calls.block, 0, vectors, 0, cut, time, left);
    let second = lemma_side(calls.block, 1, vectors, cut, end, time, right);
    assert(first@[0]@ == vectors[0].subrange(0, cut));
    assert(first@[1]@ == vectors[1].subrange(0, cut));
    assert(second@[0]@ == vectors[0].subrange(cut, end));
    assert(second@[1]@ == vectors[1].subrange(cut, end));
    assert(call_ensures(
        calls.block,
        (0usize, time, &first),
        Ok::<Vec<Scalar>, SolveError>(left),
    ));
    assert(call_ensures(
        calls.block,
        (1usize, time, &second),
        Ok::<Vec<Scalar>, SolveError>(right),
    ));
}

/// The Jacobian-vector product of a pair: each operator's own product at the time, on its
/// part of the state, the rate, the state direction and the rate direction, in this order,
/// with the coupling added; the left rows read the right part of the state direction, the
/// right rows the left part.
pub proof fn law_pair_product_rows<L, P, A>(
    operator: CrossDialectOperator,
    time: Scalar,
    state: Seq<Scalar>,
    rate: Seq<Scalar>,
    direction: Seq<Scalar>,
    rate_direction: Seq<Scalar>,
    output_length: nat,
    calls: DialectCalls<L, P, A>,
    values: Vec<Scalar>,
) where
    L: Fn(usize, Scalar, &Vec<Vec<Scalar>>) -> Result<Vec<Scalar>, SolveError>,
    P: Fn(&Vec<Scalar>, &Vec<Scalar>) -> Scalar,
    A: Fn(Scalar, Scalar) -> Scalar,

    requires
        calls.callable(operator.left_part().dimension, operator.right_part().dimension),
        method_evaluation::dialect_product(
            operator,
            time,
            state,
            rate,
            direction,
            rate_direction,
            output_length,
            calls,
            Ok::<Vec<Scalar>, NumericError>(values),
        ),
    ensures
        state.len() == operator.left_part().dimension + operator.right_part().dimension,
        rate.len() == state.len(),
        direction.len() == state.len(),
        rate_direction.len() == state.len(),
        output_length == state.len(),
        exists|
            first: Vec<Vec<Scalar>>,
            second: Vec<Vec<Scalar>>,
            left: Vec<Scalar>,
            right: Vec<Scalar>,
        |
            {
                let cut = operator.left_part().dimension as int;
                let end = state.len() as int;
                &&& first@.len() == 4 && second@.len() == 4
                &&& first@[0]@ == state.subrange(0, cut)
                &&& first@[1]@ == rate.subrange(0, cut)
                &&& first@[2]@ == direction.subrange(0, cut)
                &&& first@[3]@ == rate_direction.subrange(0, cut)
                &&& second@[0]@ == state.subrange(cut, end)
                &&& second@[1]@ == rate.subrange(cut, end)
                &&& second@[2]@ == direction.subrange(cut, end)
                &&& second@[3]@ == rate_direction.subrange(cut, end)
                &&& #[trigger] call_ensures(
                    calls.block,
                    (0usize, time, &first),
                    Ok::<Vec<Scalar>, SolveError>(left),
                )
                &&& #[trigger] call_ensures(
                    calls.block,
                    (1usize, time, &second),
                    Ok::<Vec<Scalar>, SolveError>(right),
                )
                &&& rows_coupled(
                    operator,
                    direction,
                    calls.dot,
                    calls.sum,
                    left@,
                    right@,
                    values@,
                )
            },
{
    let cut = operator.left_part().dimension as int;
    let end = operator.size() as int;
    let vectors = seq![state, rate, direction, rate_direction];
    let (left, right) = lemma_pair(
        operator,
        vectors,
        direction,
        time,
        "cross-dialect JVP"@,
        calls,
        values,
    );
    let first = lemma_side(calls.block, 0, vectors, 0, cut, time, left);
    let second = lemma_side(calls.block, 1, vectors, cut, end, time, right);
    assert(first@[0]@ == vectors[0].subrange(0, cut));
    assert(first@[1]@ == vectors[1].subrange(0, cut));
    assert(first@[2]@ == vectors[2].subrange(0, cut));
    assert(first@[3]@ == vectors[3].subrange(0, cut));
    assert(second@[0]@ == vectors[0].subrange(cut, end));
    assert(second@[1]@ == vectors[1].subrange(cut, end));
    assert(second@[2]@ == vectors[2].subrange(cut, end));
    assert(second@[3]@ == vectors[3].subrange(cut, end));
    assert(call_ensures(
        calls.block,
        (0usize, time, &first),
        Ok::<Vec<Scalar>, SolveError>(left),
    ));
    assert(call_ensures(
        calls.block,
        (1usize, time, &second),
        Ok::<Vec<Scalar>, SolveError>(right),
    ));
}

/// A pair is composed only of operators from different families, coupled in both directions
/// by finite matrices of their shapes, neither of which is zero, and keeps what it was given.
pub proof fn law_pair_keeps_its_parts<B, T>(
    left: DiscreteOperator,
    right: DiscreteOperator,
    left_from_right: Seq<Vec<Scalar>>,
    right_from_left: Seq<Vec<Scalar>>,
    accept: B,
    render: T,
    operator: CrossDialectOperator,
) where B: Fn(&Vec<BlockSpec>) -> Result<(), String>, T: Fn(Scalar) -> String
    requires
        method::pair_made(
            left,
            right,
            left_from_right,
            right_from_left,
            accept,
            render,
            Ok::<CrossDialectOperator, KrasisError>(operator),
        ),
    ensures
        operator.left_part() == left,
        operator.right_part() == right,
        operator.left_coupling() == left_from_right,
        operator.right_coupling() == right_from_left,
        left.family_identity@ != right.family_identity@,
        left_from_right.len() == left.dimension,
        right_from_left.len() == right.dimension,
        forall|i: int|
            0 <= i < left_from_right.len() ==> (#[trigger] left_from_right[i])@.len()
                == right.dimension,
        forall|i: int|
            0 <= i < right_from_left.len() ==> (#[trigger] right_from_left[i])@.len()
                == left.dimension,
        forall|i: int, j: int|
            0 <= i < left_from_right.len() && 0 <= j < right.dimension ==> (
            #[trigger] left_from_right[i]@[j]).finite(),
        forall|i: int, j: int|
            0 <= i < right_from_left.len() && 0 <= j < left.dimension ==> (
            #[trigger] right_from_left[i]@[j]).finite(),
        exists|i: int, j: int|
            0 <= i < left.dimension && 0 <= j < right.dimension && (
            #[trigger] left_from_right[i]@[j]).magnitude() != 0,
        exists|i: int, j: int|
            0 <= i < right.dimension && 0 <= j < left.dimension && (
            #[trigger] right_from_left[i]@[j]).magnitude() != 0,
        operator.blocks().len() == 2,
        operator.blocks()[0].name@ == left.family_identity@,
        operator.blocks()[0].length == left.dimension,
        operator.blocks()[1].name@ == right.family_identity@,
        operator.blocks()[1].length == right.dimension,
{
    Scalar::lemma_nil();
    lemma_couples(left_from_right, left.dimension as nat, right.dimension as nat);
    lemma_couples(right_from_left, right.dimension as nat, left.dimension as nat);
    assert forall|i: int, j: int|
        0 <= i < left_from_right.len() && 0 <= j < right.dimension implies (
    #[trigger] left_from_right[i]@[j]).finite() by {
        assert(crate::scalar::all_finite(left_from_right[i]@));
    }
    assert forall|i: int, j: int|
        0 <= i < right_from_left.len() && 0 <= j < left.dimension implies (
    #[trigger] right_from_left[i]@[j]).finite() by {
        assert(crate::scalar::all_finite(right_from_left[i]@));
    }
}

proof fn lemma_couples(matrix: Seq<Vec<Scalar>>, rows: nat, columns: nat)
    requires
        method::finite_matrix(matrix, rows, columns),
        method::couples(matrix),
    ensures
        exists|i: int, j: int|
            0 <= i < rows && 0 <= j < columns && (#[trigger] matrix[i]@[j]).magnitude() != 0,
{
    Scalar::lemma_nil();
    let i = choose|i: int| 0 <= i < matrix.len() && method::row_couples((#[trigger] matrix[i])@);
    let j = choose|j: int|
        0 <= j < matrix[i]@.len() && !(#[trigger] matrix[i]@[j]).same_value(Scalar::nil());
    assert(matrix[i]@.len() == columns);
    assert(crate::scalar::all_finite(matrix[i]@));
    assert(matrix[i]@[j].finite());
    assert(matrix[i]@[j].magnitude() != 0);
}

} // verus!
