//! What the evaluation of a connected system promises: the composed system is evaluated at
//! the completed arguments and gathered onto the free unknowns.
use crate::connected::ConnectedSystemOperator;
use crate::connected_diagonal;
use crate::connected_evaluation;
use crate::connected_evaluation::TraceCalls;
use crate::evaluation;
use crate::evaluation::SystemCalls;
use crate::evaluation_laws;
use crate::numeric::{NumericError, SolveError};
use crate::operator::TransactionalOperator;
use crate::realization::{Constraint, FinitumRealization};
use crate::scalar::Scalar;
use crate::system;
use crate::system_model;
use crate::system_model::LeafModel;
use crate::trajectory;
use vstd::prelude::*;

verus! {

/// Whether some constraint determines a row.
pub open spec fn eliminated(constraints: Seq<Constraint>, row: int) -> bool {
    exists|c: int| 0 <= c < constraints.len() && (#[trigger] constraints[c]).target as int == row
}

/// Whether an evaluation is closed: a row that no constraint determines holds the gathered
/// value, an eliminated row the difference between the value given there and the completed
/// one.
pub open spec fn closes<D: Fn(Scalar, Scalar) -> Scalar>(
    constraints: Seq<Constraint>,
    given: Seq<Scalar>,
    completed: Seq<Scalar>,
    gathered: Seq<Scalar>,
    difference: D,
    values: Seq<Scalar>,
) -> bool {
    &&& values.len() == gathered.len()
    &&& forall|i: int|
        #![trigger values[i]]
        0 <= i < values.len() ==> {
            &&& eliminated(constraints, i) ==> call_ensures(
                difference,
                (given[i], completed[i]),
                values[i],
            )
            &&& !eliminated(constraints, i) ==> values[i] == gathered[i]
        }
}

/// The residual of a connected system: the composed residual at the completed state and the
/// rate completed without offsets, gathered onto the free unknowns; an eliminated row holds
/// the difference between the state given there and its completed value.
pub proof fn law_connected_residual<X, H, Q, D, I, L, E, A>(
    operator: ConnectedSystemOperator,
    time: Scalar,
    state: Vec<Scalar>,
    rate: Vec<Scalar>,
    output_length: nat,
    calls: SystemCalls<L, E, A>,
    traces: TraceCalls<X, H, Q, D, I>,
    values: Vec<Scalar>,
) where
    X: Fn(&Vec<Scalar>) -> Result<Vec<Scalar>, String>,
    H: Fn(&Vec<Scalar>) -> Result<Vec<Scalar>, String>,
    Q: Fn(&Vec<Scalar>) -> Result<Vec<Scalar>, String>,
    D: Fn(Scalar, Scalar) -> Scalar,
    I: Fn(&str) -> String,
    L: Fn(usize, Scalar, &Vec<Vec<Scalar>>) -> Result<Vec<Scalar>, SolveError>,
    E: Fn(usize, &Vec<Scalar>) -> Result<Vec<Scalar>, SolveError>,
    A: Fn(Scalar, Scalar) -> Scalar,

    requires
        connected_evaluation::connected_residual(
            operator,
            time,
            state,
            rate,
            output_length,
            calls,
            traces,
            Ok::<Vec<Scalar>, NumericError>(values),
        ),
    ensures
        values@.len() == output_length,
        exists|
            physical: Vec<Scalar>,
            moving: Vec<Scalar>,
            raw: Vec<Scalar>,
            gathered: Vec<Scalar>,
        |
            {
                &&& #[trigger] call_ensures(
                    traces.expand,
                    (&state,),
                    Ok::<Vec<Scalar>, String>(physical),
                )
                &&& #[trigger] call_ensures(
                    traces.expand_homogeneous,
                    (&rate,),
                    Ok::<Vec<Scalar>, String>(moving),
                )
                &&& evaluation::residual_given(
                    operator.system(),
                    time,
                    physical@,
                    moving@,
                    operator.size(),
                    calls,
                    Ok::<Vec<Scalar>, NumericError>(raw),
                )
                &&& #[trigger] call_ensures(
                    traces.restrict_transpose,
                    (&raw,),
                    Ok::<Vec<Scalar>, String>(gathered),
                )
                &&& closes(
                    operator.traces().constraints@,
                    state@,
                    physical@,
                    gathered@,
                    traces.difference,
                    values@,
                )
            },
{
    let (physical, moving, raw, gathered) = lemma_residual(
        operator,
        time,
        state,
        rate,
        output_length,
        calls,
        traces,
        values,
    );
    assert(call_ensures(traces.expand, (&state,), Ok::<Vec<Scalar>, String>(physical)));
    assert(call_ensures(
        traces.expand_homogeneous,
        (&rate,),
        Ok::<Vec<Scalar>, String>(moving),
    ));
    assert(call_ensures(
        traces.restrict_transpose,
        (&raw,),
        Ok::<Vec<Scalar>, String>(gathered),
    ));
}

proof fn lemma_restricted<X, H, Q, D, I>(
    constraints: Seq<Constraint>,
    given: Seq<Scalar>,
    completed: Seq<Scalar>,
    raw: Vec<Scalar>,
    output_length: nat,
    label: &str,
    traces: TraceCalls<X, H, Q, D, I>,
    values: Vec<Scalar>,
) -> (gathered: Vec<Scalar>) where
    X: Fn(&Vec<Scalar>) -> Result<Vec<Scalar>, String>,
    H: Fn(&Vec<Scalar>) -> Result<Vec<Scalar>, String>,
    Q: Fn(&Vec<Scalar>) -> Result<Vec<Scalar>, String>,
    D: Fn(Scalar, Scalar) -> Scalar,
    I: Fn(&str) -> String,

    requires
        connected_evaluation::restricted(
            constraints,
            given,
            completed,
            raw,
            output_length,
            label,
            traces,
            Ok::<Vec<Scalar>, NumericError>(values),
        ),
    ensures
        values@.len() == output_length,
        call_ensures(traces.restrict_transpose, (&raw,), Ok::<Vec<Scalar>, String>(gathered)),
        closes(constraints, given, completed, gathered@, traces.difference, values@),
{
    let reduced = choose|reduced: Vec<Scalar>|
        {
            &&& #[trigger] call_ensures(
                traces.restrict_transpose,
                (&raw,),
                Ok::<Vec<Scalar>, String>(reduced),
            )
            &&& output_length == reduced@.len()
            &&& connected_evaluation::rows_closed(
                constraints,
                given,
                completed,
                traces.difference,
                reduced@,
                values@,
            )
        };
    assert forall|i: int| #![trigger values@[i]] 0 <= i < values@.len() implies {
        &&& eliminated(constraints, i) ==> call_ensures(
            traces.difference,
            (given[i], completed[i]),
            values@[i],
        )
        &&& !eliminated(constraints, i) ==> values@[i] == reduced@[i]
    } by {
        assert(eliminated(constraints, i) <==> connected_evaluation::is_target(constraints, i));
    }
    reduced
}

proof fn lemma_residual<X, H, Q, D, I, L, E, A>(
    operator: ConnectedSystemOperator,
    time: Scalar,
    state: Vec<Scalar>,
    rate: Vec<Scalar>,
    output_length: nat,
    calls: SystemCalls<L, E, A>,
    traces: TraceCalls<X, H, Q, D, I>,
    values: Vec<Scalar>,
) -> (made: (Vec<Scalar>, Vec<Scalar>, Vec<Scalar>, Vec<Scalar>)) where
    X: Fn(&Vec<Scalar>) -> Result<Vec<Scalar>, String>,
    H: Fn(&Vec<Scalar>) -> Result<Vec<Scalar>, String>,
    Q: Fn(&Vec<Scalar>) -> Result<Vec<Scalar>, String>,
    D: Fn(Scalar, Scalar) -> Scalar,
    I: Fn(&str) -> String,
    L: Fn(usize, Scalar, &Vec<Vec<Scalar>>) -> Result<Vec<Scalar>, SolveError>,
    E: Fn(usize, &Vec<Scalar>) -> Result<Vec<Scalar>, SolveError>,
    A: Fn(Scalar, Scalar) -> Scalar,

    requires
        connected_evaluation::connected_residual(
            operator,
            time,
            state,
            rate,
            output_length,
            calls,
            traces,
            Ok::<Vec<Scalar>, NumericError>(values),
        ),
    ensures
        values@.len() == output_length,
        call_ensures(traces.expand, (&state,), Ok::<Vec<Scalar>, String>(made.0)),
        call_ensures(traces.expand_homogeneous, (&rate,), Ok::<Vec<Scalar>, String>(made.1)),
        evaluation::residual_given(
            operator.system(),
            time,
            made.0@,
            made.1@,
            operator.size(),
            calls,
            Ok::<Vec<Scalar>, NumericError>(made.2),
        ),
        call_ensures(
            traces.restrict_transpose,
            (&made.2,),
            Ok::<Vec<Scalar>, String>(made.3),
        ),
        closes(
            operator.traces().constraints@,
            state@,
            made.0@,
            made.3@,
            traces.difference,
            values@,
        ),
{
    let result = Ok::<Vec<Scalar>, NumericError>(values);
    let physical = choose|physical: Vec<Scalar>|
        {
            &&& #[trigger] call_ensures(
                traces.expand,
                (&state,),
                Ok::<Vec<Scalar>, String>(physical),
            )
            &&& connected_evaluation::residual_expanded(
                operator,
                time,
                state,
                rate,
                physical,
                output_length,
                calls,
                traces,
                result,
            )
        };
    let moving = choose|moving: Vec<Scalar>|
        {
            &&& #[trigger] call_ensures(
                traces.expand_homogeneous,
                (&rate,),
                Ok::<Vec<Scalar>, String>(moving),
            )
            &&& connected_evaluation::closed_residual(
                operator,
                time,
                state,
                physical,
                moving,
                output_length,
                calls,
                traces,
                result,
            )
        };
    let raw = choose|raw: Vec<Scalar>|
        {
            &&& #[trigger] evaluation::residual_given(
                operator.system(),
                time,
                physical@,
                moving@,
                operator.size(),
                calls,
                Ok::<Vec<Scalar>, NumericError>(raw),
            )
            &&& connected_evaluation::restricted(
                operator.traces().constraints@,
                state@,
                physical@,
                raw,
                output_length,
                "connection residual extent mismatch",
                traces,
                result,
            )
        };
    let gathered = lemma_restricted(
        operator.traces().constraints@,
        state@,
        physical@,
        raw,
        output_length,
        "connection residual extent mismatch",
        traces,
        values,
    );
    (physical, moving, raw, gathered)
}

/// The Jacobian-vector product of a connected system: the composed product at the completed
/// state and rate, along the state direction and the rate direction, each completed without
/// offsets, gathered onto the free unknowns; an eliminated row holds the difference between
/// the state direction given there and its completed value.
pub proof fn law_connected_product<X, H, Q, D, I, L, E, A>(
    operator: ConnectedSystemOperator,
    time: Scalar,
    state: Vec<Scalar>,
    rate: Vec<Scalar>,
    direction: Vec<Scalar>,
    rate_direction: Vec<Scalar>,
    output_length: nat,
    calls: SystemCalls<L, E, A>,
    traces: TraceCalls<X, H, Q, D, I>,
    values: Vec<Scalar>,
) where
    X: Fn(&Vec<Scalar>) -> Result<Vec<Scalar>, String>,
    H: Fn(&Vec<Scalar>) -> Result<Vec<Scalar>, String>,
    Q: Fn(&Vec<Scalar>) -> Result<Vec<Scalar>, String>,
    D: Fn(Scalar, Scalar) -> Scalar,
    I: Fn(&str) -> String,
    L: Fn(usize, Scalar, &Vec<Vec<Scalar>>) -> Result<Vec<Scalar>, SolveError>,
    E: Fn(usize, &Vec<Scalar>) -> Result<Vec<Scalar>, SolveError>,
    A: Fn(Scalar, Scalar) -> Scalar,

    requires
        connected_evaluation::connected_product(
            operator,
            time,
            state,
            rate,
            direction,
            rate_direction,
            output_length,
            calls,
            traces,
            Ok::<Vec<Scalar>, NumericError>(values),
        ),
    ensures
        values@.len() == output_length,
        exists|
            physical: Vec<Scalar>,
            moving: Vec<Scalar>,
            delta: Vec<Scalar>,
            rate_delta: Vec<Scalar>,
            raw: Vec<Scalar>,
            gathered: Vec<Scalar>,
        |
            {
                &&& #[trigger] call_ensures(
                    traces.expand,
                    (&state,),
                    Ok::<Vec<Scalar>, String>(physical),
                )
                &&& #[trigger] call_ensures(
                    traces.expand_homogeneous,
                    (&rate,),
                    Ok::<Vec<Scalar>, String>(moving),
                )
                &&& #[trigger] call_ensures(
                    traces.expand_homogeneous,
                    (&direction,),
                    Ok::<Vec<Scalar>, String>(delta),
                )
                &&& #[trigger] call_ensures(
                    traces.expand_homogeneous,
                    (&rate_direction,),
                    Ok::<Vec<Scalar>, String>(rate_delta),
                )
                &&& evaluation::product_given(
                    operator.system(),
                    time,
                    physical@,
                    moving@,
                    delta@,
                    rate_delta@,
                    operator.size(),
                    calls,
                    Ok::<Vec<Scalar>, NumericError>(raw),
                )
                &&& #[trigger] call_ensures(
                    traces.restrict_transpose,
                    (&raw,),
                    Ok::<Vec<Scalar>, String>(gathered),
                )
                &&& closes(
                    operator.traces().constraints@,
                    direction@,
                    delta@,
                    gathered@,
                    traces.difference,
                    values@,
                )
            },
{
    let made = lemma_product(
        operator,
        time,
        state,
        rate,
        direction,
        rate_direction,
        output_length,
        calls,
        traces,
        values,
    );
    let (physical, moving, delta, rate_delta, raw, gathered) = made;
    assert(call_ensures(traces.expand, (&state,), Ok::<Vec<Scalar>, String>(physical)));
    assert(call_ensures(
        traces.expand_homogeneous,
        (&rate,),
        Ok::<Vec<Scalar>, String>(moving),
    ));
    assert(call_ensures(
        traces.expand_homogeneous,
        (&direction,),
        Ok::<Vec<Scalar>, String>(delta),
    ));
    assert(call_ensures(
        traces.expand_homogeneous,
        (&rate_direction,),
        Ok::<Vec<Scalar>, String>(rate_delta),
    ));
    assert(call_ensures(
        traces.restrict_transpose,
        (&raw,),
        Ok::<Vec<Scalar>, String>(gathered),
    ));
}

proof fn lemma_product<X, H, Q, D, I, L, E, A>(
    operator: ConnectedSystemOperator,
    time: Scalar,
    state: Vec<Scalar>,
    rate: Vec<Scalar>,
    direction: Vec<Scalar>,
    rate_direction: Vec<Scalar>,
    output_length: nat,
    calls: SystemCalls<L, E, A>,
    traces: TraceCalls<X, H, Q, D, I>,
    values: Vec<Scalar>,
) -> (made: (
    Vec<Scalar>,
    Vec<Scalar>,
    Vec<Scalar>,
    Vec<Scalar>,
    Vec<Scalar>,
    Vec<Scalar>,
)) where
    X: Fn(&Vec<Scalar>) -> Result<Vec<Scalar>, String>,
    H: Fn(&Vec<Scalar>) -> Result<Vec<Scalar>, String>,
    Q: Fn(&Vec<Scalar>) -> Result<Vec<Scalar>, String>,
    D: Fn(Scalar, Scalar) -> Scalar,
    I: Fn(&str) -> String,
    L: Fn(usize, Scalar, &Vec<Vec<Scalar>>) -> Result<Vec<Scalar>, SolveError>,
    E: Fn(usize, &Vec<Scalar>) -> Result<Vec<Scalar>, SolveError>,
    A: Fn(Scalar, Scalar) -> Scalar,

    requires
        connected_evaluation::connected_product(
            operator,
            time,
            state,
            rate,
            direction,
            rate_direction,
            output_length,
            calls,
            traces,
            Ok::<Vec<Scalar>, NumericError>(values),
        ),
    ensures
        values@.len() == output_length,
        call_ensures(traces.expand, (&state,), Ok::<Vec<Scalar>, String>(made.0)),
        call_ensures(traces.expand_homogeneous, (&rate,), Ok::<Vec<Scalar>, String>(made.1)),
        call_ensures(
            traces.expand_homogeneous,
            (&direction,),
            Ok::<Vec<Scalar>, String>(made.2),
        ),
        call_ensures(
            traces.expand_homogeneous,
            (&rate_direction,),
            Ok::<Vec<Scalar>, String>(made.3),
        ),
        evaluation::product_given(
            operator.system(),
            time,
            made.0@,
            made.1@,
            made.2@,
            made.3@,
            operator.size(),
            calls,
            Ok::<Vec<Scalar>, NumericError>(made.4),
        ),
        call_ensures(
            traces.restrict_transpose,
            (&made.4,),
            Ok::<Vec<Scalar>, String>(made.5),
        ),
        closes(
            operator.traces().constraints@,
            direction@,
            made.2@,
            made.5@,
            traces.difference,
            values@,
        ),
{
    let result = Ok::<Vec<Scalar>, NumericError>(values);
    let physical = choose|physical: Vec<Scalar>|
        {
            &&& #[trigger] call_ensures(
                traces.expand,
                (&state,),
                Ok::<Vec<Scalar>, String>(physical),
            )
            &&& connected_evaluation::product_expanded(
                operator,
                time,
                rate,
                direction,
                rate_direction,
                physical,
                output_length,
                calls,
                traces,
                result,
            )
        };
    let moving = choose|moving: Vec<Scalar>|
        {
            &&& #[trigger] call_ensures(
                traces.expand_homogeneous,
                (&rate,),
                Ok::<Vec<Scalar>, String>(moving),
            )
            &&& connected_evaluation::product_moving(
                operator,
                time,
                direction,
                rate_direction,
                physical,
                moving,
                output_length,
                calls,
                traces,
                result,
            )
        };
    let delta = choose|delta: Vec<Scalar>|
        {
            &&& #[trigger] call_ensures(
                traces.expand_homogeneous,
                (&direction,),
                Ok::<Vec<Scalar>, String>(delta),
            )
            &&& connected_evaluation::product_directed(
                operator,
                time,
                direction,
                rate_direction,
                physical,
                moving,
                delta,
                output_length,
                calls,
                traces,
                result,
            )
        };
    let rate_delta = choose|rate_delta: Vec<Scalar>|
        {
            &&& #[trigger] call_ensures(
                traces.expand_homogeneous,
                (&rate_direction,),
                Ok::<Vec<Scalar>, String>(rate_delta),
            )
            &&& connected_evaluation::closed_product(
                operator,
                time,
                direction,
                physical,
                moving,
                delta,
                rate_delta,
                output_length,
                calls,
                traces,
                result,
            )
        };
    let raw = choose|raw: Vec<Scalar>|
        {
            &&& #[trigger] evaluation::product_given(
                operator.system(),
                time,
                physical@,
                moving@,
                delta@,
                rate_delta@,
                operator.size(),
                calls,
                Ok::<Vec<Scalar>, NumericError>(raw),
            )
            &&& connected_evaluation::restricted(
                operator.traces().constraints@,
                direction@,
                delta@,
                raw,
                output_length,
                "connection product extent mismatch",
                traces,
                result,
            )
        };
    let gathered = lemma_restricted(
        operator.traces().constraints@,
        direction@,
        delta@,
        raw,
        output_length,
        "connection product extent mismatch",
        traces,
        values,
    );
    (physical, moving, delta, rate_delta, raw, gathered)
}

/// Whether two calls over vectors give one result for one vector: one of them twice, or two
/// that are the same function.
pub open spec fn calls_agree<F, G>(first: F, second: G) -> bool where
    F: Fn(&Vec<Scalar>) -> Result<Vec<Scalar>, String>,
    G: Fn(&Vec<Scalar>) -> Result<Vec<Scalar>, String>,
 {
    forall|a: Vec<Scalar>, b: Vec<Scalar>, left: Vec<Scalar>, right: Vec<Scalar>|
        a@ == b@ && #[trigger] call_ensures(first, (&a,), Ok::<Vec<Scalar>, String>(left))
            && #[trigger] call_ensures(second, (&b,), Ok::<Vec<Scalar>, String>(right)) ==> left@
            == right@
}

/// Over linear leaves and constraints without offsets, the product of a connected system
/// along two directions is its residual at the state direction and the rate direction,
/// wherever the product is taken. In particular the product along a rate direction alone is
/// the residual at that rate.
pub proof fn law_linear_connected_product_is_residual_of_directions<X, H, Q, D, I, L, M, E, A>(
    operator: ConnectedSystemOperator,
    time: Scalar,
    state: Vec<Scalar>,
    rate: Vec<Scalar>,
    direction: Vec<Scalar>,
    rate_direction: Vec<Scalar>,
    output_length: nat,
    calls: SystemCalls<L, E, A>,
    plain: SystemCalls<M, E, A>,
    traces: TraceCalls<X, H, Q, D, I>,
    values: Vec<Scalar>,
    residual: Vec<Scalar>,
) where
    M: Fn(usize, Scalar, &Vec<Vec<Scalar>>) -> Result<Vec<Scalar>, SolveError>,
    X: Fn(&Vec<Scalar>) -> Result<Vec<Scalar>, String>,
    H: Fn(&Vec<Scalar>) -> Result<Vec<Scalar>, String>,
    Q: Fn(&Vec<Scalar>) -> Result<Vec<Scalar>, String>,
    D: Fn(Scalar, Scalar) -> Scalar,
    I: Fn(&str) -> String,
    L: Fn(usize, Scalar, &Vec<Vec<Scalar>>) -> Result<Vec<Scalar>, SolveError>,
    E: Fn(usize, &Vec<Scalar>) -> Result<Vec<Scalar>, SolveError>,
    A: Fn(Scalar, Scalar) -> Scalar,

    requires
        operator.wf(),
        calls.callable(operator.system()@.leaves, operator.system()@.edges),
        plain.callable(operator.system()@.leaves, operator.system()@.edges),
        evaluation_laws::linear_leaf(calls.leaf, plain.leaf),
        calls.action == plain.action,
        calls.sum == plain.sum,
        evaluation_laws::action_repeats(calls.action),
        evaluation_laws::sum_repeats(calls.sum),
        evaluation_laws::sum_repeats(traces.difference),
        calls_agree(traces.expand_homogeneous, traces.expand_homogeneous),
        calls_agree(traces.expand_homogeneous, traces.expand),
        calls_agree(traces.restrict_transpose, traces.restrict_transpose),
        connected_evaluation::connected_product(
            operator,
            time,
            state,
            rate,
            direction,
            rate_direction,
            output_length,
            calls,
            traces,
            Ok::<Vec<Scalar>, NumericError>(values),
        ),
        connected_evaluation::connected_residual(
            operator,
            time,
            direction,
            rate_direction,
            output_length,
            plain,
            traces,
            Ok::<Vec<Scalar>, NumericError>(residual),
        ),
    ensures
        values@ == residual@,
{
    operator.lemma_wf();
    let made = lemma_product(
        operator,
        time,
        state,
        rate,
        direction,
        rate_direction,
        output_length,
        calls,
        traces,
        values,
    );
    let (physical, moving, delta, rate_delta, raw, gathered) = made;
    let (expanded, turning, plain_raw, collected) = lemma_residual(
        operator,
        time,
        direction,
        rate_direction,
        output_length,
        plain,
        traces,
        residual,
    );
    assert(delta@ == expanded@);
    assert(rate_delta@ == turning@);
    evaluation_laws::law_linear_product_is_residual_of_directions(
        operator.system(),
        time,
        physical@,
        moving@,
        delta@,
        rate_delta@,
        operator.size(),
        calls,
        plain,
        raw,
        plain_raw,
    );
    assert(gathered@ == collected@);
    assert forall|i: int| 0 <= i < values@.len() implies #[trigger] values@[i]
        == residual@[i] by {
        if eliminated(operator.traces().constraints@, i) {
            assert(call_ensures(
                traces.difference,
                (direction@[i], delta@[i]),
                values@[i],
            ));
            assert(call_ensures(
                traces.difference,
                (direction@[i], expanded@[i]),
                residual@[i],
            ));
        }
    }
    assert(values@ =~= residual@);
}

/// The leaf that holds a row: the row lies in its range.
pub proof fn law_home_holds_the_row(leaves: Seq<LeafModel>, row: usize)
    requires
        leaves.len() > 0,
        row < system_model::offset_of(leaves, leaves.len() as int),
    ensures
        0 <= connected_diagonal::home(leaves, row) < leaves.len(),
        system_model::offset_of(leaves, connected_diagonal::home(leaves, row)) <= row,
        row < system_model::offset_of(leaves, connected_diagonal::home(leaves, row) + 1),
{
    lemma_home(leaves, row as int, leaves.len() as int);
}

proof fn lemma_home(leaves: Seq<LeafModel>, row: int, count: int)
    requires
        0 < count <= leaves.len(),
        0 <= row < system_model::offset_of(leaves, count),
    ensures
        0 <= connected_diagonal::leaf_of(leaves, row, count) < count,
        system_model::offset_of(leaves, connected_diagonal::leaf_of(leaves, row, count)) <= row,
        row < system_model::offset_of(
            leaves,
            connected_diagonal::leaf_of(leaves, row, count) + 1,
        ),
    decreases count,
{
    if !(count <= 1 || system_model::offset_of(leaves, count - 1) <= row) {
        lemma_home(leaves, row, count - 1);
    }
}

/// The pieces of a vector, one behind the other.
pub open spec fn joined(pieces: Seq<Seq<Scalar>>) -> Seq<Scalar>
    decreases pieces.len(),
{
    if pieces.len() == 0 {
        Seq::empty()
    } else {
        joined(pieces.drop_last()) + pieces.last()
    }
}

/// Whether a piece is the diagonal of a realization, by position, at its part of the state
/// and of the rate and with the shift of the rate.
pub open spec fn diagonal_piece<G>(
    sources: Seq<FinitumRealization<'_>>,
    physical: Seq<Scalar>,
    moving: Seq<Scalar>,
    time: Scalar,
    rate_shift: Scalar,
    local: G,
    k: int,
    piece: Seq<Scalar>,
) -> bool where
    G: Fn(usize, Scalar, &Vec<Vec<Scalar>>, Scalar) -> Result<Option<Vec<Scalar>>, SolveError>,
 {
    let start = system::reduced_width(sources, k) as int;
    let end = system::reduced_width(sources, k + 1) as int;
    &&& sources[k] is ReducedSystem
    &&& end == start + sources[k]->ReducedSystem_0.dimension
    &&& exists|parts: Vec<Vec<Scalar>>, value: Vec<Scalar>|
        {
            &&& parts@.len() == 2
            &&& parts@[0]@ == physical.subrange(start, end)
            &&& parts@[1]@ == moving.subrange(start, end)
            &&& #[trigger] call_ensures(
                local,
                (k as usize, time, &parts, rate_shift),
                Ok::<Option<Vec<Scalar>>, SolveError>(Some(value)),
            )
            &&& value@ == piece
        }
}

proof fn lemma_pieces<G>(
    sources: Seq<FinitumRealization<'_>>,
    physical: Seq<Scalar>,
    moving: Seq<Scalar>,
    time: Scalar,
    rate_shift: Scalar,
    local: G,
    count: int,
    values: Seq<Scalar>,
) -> (pieces: Seq<Seq<Scalar>>) where
    G: Fn(usize, Scalar, &Vec<Vec<Scalar>>, Scalar) -> Result<Option<Vec<Scalar>>, SolveError>,

    requires
        0 <= count <= sources.len(),
        connected_diagonal::diagonals_give(
            sources,
            connected_diagonal::both(physical, moving),
            time,
            rate_shift,
            local,
            count,
            values,
        ),
    ensures
        pieces.len() == count,
        joined(pieces) == values,
        forall|k: int|
            0 <= k < count ==> diagonal_piece(
                sources,
                physical,
                moving,
                time,
                rate_shift,
                local,
                k,
                #[trigger] pieces[k],
            ),
    decreases count,
{
    if count <= 0 {
        assert(values =~= Seq::empty());
        Seq::empty()
    } else {
        let last = count - 1;
        let vectors = connected_diagonal::both(physical, moving);
        let value = choose|value: Vec<Scalar>|
            {
                &&& #[trigger] connected_diagonal::diagonal_gives(
                    sources,
                    vectors,
                    time,
                    rate_shift,
                    local,
                    count - 1,
                    Ok(Some(value)),
                )
                &&& sources[count - 1] is ReducedSystem
                &&& value@.len() <= values.len()
                &&& values.skip(values.len() - value@.len()) == value@
                &&& connected_diagonal::diagonals_give(
                    sources,
                    vectors,
                    time,
                    rate_shift,
                    local,
                    count - 1,
                    values.take(values.len() - value@.len()),
                )
            };
        let earlier = lemma_pieces(
            sources,
            physical,
            moving,
            time,
            rate_shift,
            local,
            last,
            values.take(values.len() - value@.len()),
        );
        let pieces = earlier.push(value@);
        assert(pieces.drop_last() =~= earlier);
        assert(joined(pieces) =~= values);
        let start = system::reduced_width(sources, last) as int;
        let end = system::reduced_width(sources, count) as int;
        let parts = choose|parts: Vec<Vec<Scalar>>|
            {
                &&& trajectory::vectors(parts@) == evaluation::parts_of(vectors, start, end)
                &&& #[trigger] call_ensures(
                    local,
                    (last as usize, time, &parts, rate_shift),
                    Ok::<Option<Vec<Scalar>>, SolveError>(Some(value)),
                )
            };
        let models = trajectory::vectors(parts@);
        assert(models.len() == 2);
        assert(models[0] == parts@[0]@);
        assert(models[1] == parts@[1]@);
        assert(evaluation::parts_of(vectors, start, end)[0] == vectors[0].subrange(start, end));
        assert(evaluation::parts_of(vectors, start, end)[1] == vectors[1].subrange(start, end));
        assert(call_ensures(
            local,
            (last as usize, time, &parts, rate_shift),
            Ok::<Option<Vec<Scalar>>, SolveError>(Some(value)),
        ));
        assert(diagonal_piece(
            sources,
            physical,
            moving,
            time,
            rate_shift,
            local,
            last,
            value@,
        ));
        assert forall|k: int| 0 <= k < count implies diagonal_piece(
            sources,
            physical,
            moving,
            time,
            rate_shift,
            local,
            k,
            #[trigger] pieces[k],
        ) by {
            if k < last {
                assert(pieces[k] == earlier[k]);
            }
        }
        pieces
    }
}

/// The diagonal of a connected system is given only where no edge couples its leaves and
/// every constraint identifies one unknown with one other. It is gathered from the diagonals
/// of the realizations at the completed state and rate, with a one on every eliminated row.
pub proof fn law_connected_diagonal<X, H, Q, D, I, G>(
    operator: ConnectedSystemOperator,
    time: Scalar,
    state: Vec<Scalar>,
    rate: Vec<Scalar>,
    rate_shift: Scalar,
    local: G,
    traces: TraceCalls<X, H, Q, D, I>,
    values: Vec<Scalar>,
) where
    X: Fn(&Vec<Scalar>) -> Result<Vec<Scalar>, String>,
    H: Fn(&Vec<Scalar>) -> Result<Vec<Scalar>, String>,
    Q: Fn(&Vec<Scalar>) -> Result<Vec<Scalar>, String>,
    D: Fn(Scalar, Scalar) -> Scalar,
    I: Fn(&str) -> String,
    G: Fn(usize, Scalar, &Vec<Vec<Scalar>>, Scalar) -> Result<Option<Vec<Scalar>>, SolveError>,

    requires
        connected_diagonal::connected_diagonal(
            operator,
            time,
            state,
            rate,
            rate_shift,
            local,
            traces,
            Ok::<Option<Vec<Scalar>>, NumericError>(Some(values)),
        ),
    ensures
        operator.system().coupling().arcs().len() == 0,
        forall|c: int|
            0 <= c < operator.traces().constraints@.len() ==> {
                &&& (#[trigger] operator.traces().constraints@[c]).dependencies@.len() == 1
                &&& operator.traces().constraints@[c].dependencies@[0].weight.bits()
                    == 0x3ff0_0000_0000_0000
            },
        exists|
            physical: Vec<Scalar>,
            moving: Vec<Scalar>,
            pieces: Seq<Seq<Scalar>>,
            raw: Vec<Scalar>,
            gathered: Vec<Scalar>,
        |
            {
                &&& #[trigger] call_ensures(
                    traces.expand,
                    (&state,),
                    Ok::<Vec<Scalar>, String>(physical),
                )
                &&& #[trigger] call_ensures(
                    traces.expand_homogeneous,
                    (&rate,),
                    Ok::<Vec<Scalar>, String>(moving),
                )
                &&& pieces.len() == operator.sources().len()
                &&& forall|k: int|
                    0 <= k < pieces.len() ==> diagonal_piece(
                        operator.sources(),
                        physical@,
                        moving@,
                        time,
                        rate_shift,
                        local,
                        k,
                        #[trigger] pieces[k],
                    )
                &&& raw@ == #[trigger] joined(pieces)
                &&& #[trigger] call_ensures(
                    traces.restrict_transpose,
                    (&raw,),
                    Ok::<Vec<Scalar>, String>(gathered),
                )
                &&& values@.len() == gathered@.len()
                &&& forall|i: int|
                    #![trigger values@[i]]
                    0 <= i < values@.len() ==> {
                        &&& eliminated(operator.traces().constraints@, i) ==> values@[i].bits()
                            == 0x3ff0_0000_0000_0000
                        &&& !eliminated(operator.traces().constraints@, i) ==> values@[i]
                            == gathered@[i]
                    }
            },
{
    let result = Ok::<Option<Vec<Scalar>>, NumericError>(Some(values));
    let constraints = operator.traces().constraints@;
    Scalar::lemma_unit();
    assert forall|c: int| 0 <= c < constraints.len() implies {
        &&& (#[trigger] constraints[c]).dependencies@.len() == 1
        &&& constraints[c].dependencies@[0].weight.bits() == 0x3ff0_0000_0000_0000
    } by {
        assert(connected_diagonal::plain_match(constraints[c]));
        constraints[c].dependencies@[0].weight.lemma_value_is_bits(Scalar::unit());
    }
    let physical = choose|physical: Vec<Scalar>|
        {
            &&& #[trigger] call_ensures(
                traces.expand,
                (&state,),
                Ok::<Vec<Scalar>, String>(physical),
            )
            &&& connected_diagonal::diagonal_expanded(
                operator,
                time,
                rate,
                physical,
                rate_shift,
                local,
                traces,
                result,
            )
        };
    let moving = choose|moving: Vec<Scalar>|
        {
            &&& #[trigger] call_ensures(
                traces.expand_homogeneous,
                (&rate,),
                Ok::<Vec<Scalar>, String>(moving),
            )
            &&& connected_diagonal::diagonal_moving(
                operator,
                time,
                physical,
                moving,
                rate_shift,
                local,
                traces,
                result,
            )
        };
    let raw = choose|raw: Vec<Scalar>|
        {
            &&& #[trigger] connected_diagonal::diagonals_collected(
                operator.sources(),
                connected_diagonal::both(physical@, moving@),
                time,
                rate_shift,
                local,
                Ok::<Option<Vec<Scalar>>, NumericError>(Some(raw)),
            )
            &&& connected_diagonal::diagonal_restricted(
                constraints,
                raw,
                traces.restrict_transpose,
                result,
            )
        };
    let pieces = lemma_pieces(
        operator.sources(),
        physical@,
        moving@,
        time,
        rate_shift,
        local,
        operator.sources().len() as int,
        raw@,
    );
    let gathered = choose|gathered: Vec<Scalar>|
        {
            &&& #[trigger] call_ensures(
                traces.restrict_transpose,
                (&raw,),
                Ok::<Vec<Scalar>, String>(gathered),
            )
            &&& connected_diagonal::rows_marked(constraints, gathered@, values@)
        };
    assert forall|i: int| #![trigger values@[i]] 0 <= i < values@.len() implies {
        &&& eliminated(constraints, i) ==> values@[i].bits() == 0x3ff0_0000_0000_0000
        &&& !eliminated(constraints, i) ==> values@[i] == gathered@[i]
    } by {
        assert(eliminated(constraints, i) <==> connected_evaluation::is_target(constraints, i));
    }
    assert(call_ensures(traces.expand, (&state,), Ok::<Vec<Scalar>, String>(physical)));
    assert(call_ensures(
        traces.expand_homogeneous,
        (&rate,),
        Ok::<Vec<Scalar>, String>(moving),
    ));
    assert(call_ensures(
        traces.restrict_transpose,
        (&raw,),
        Ok::<Vec<Scalar>, String>(gathered),
    ));
}

/// Whether a row of the composed state is one of a leaf's rows.
pub open spec fn row_of(operator: ConnectedSystemOperator, k: int, row: usize) -> bool {
    let leaves = operator.system()@.leaves;
    system_model::offset_of(leaves, k) <= row < system_model::offset_of(leaves, k)
        + leaves[k].dimension
}

proof fn lemma_home_is(leaves: Seq<LeafModel>, row: usize, k: int)
    requires
        0 <= k < leaves.len(),
    ensures
        system_model::offset_of(leaves, k) <= row < system_model::offset_of(leaves, k)
            + leaves[k].dimension ==> connected_diagonal::home(leaves, row) == k,
{
    if system_model::offset_of(leaves, k) <= row < system_model::offset_of(leaves, k)
        + leaves[k].dimension {
        let end = leaves.len() as int;
        system_model::lemma_offset_monotone(leaves, k + 1, end);
        law_home_holds_the_row(leaves, row);
        let home = connected_diagonal::home(leaves, row);
        if home < k {
            system_model::lemma_offset_monotone(leaves, home + 1, k);
        } else if home > k {
            system_model::lemma_offset_monotone(leaves, k + 1, home);
        }
    }
}

/// The diagonal of a connected system is given only where every constraint identifies its
/// target with an unknown of another leaf, and no leaf holds two targets that are identified
/// with one unknown.
pub proof fn law_matched_unknowns_lie_in_different_leaves<X, H, Q, D, I, G>(
    operator: ConnectedSystemOperator,
    time: Scalar,
    state: Vec<Scalar>,
    rate: Vec<Scalar>,
    rate_shift: Scalar,
    local: G,
    traces: TraceCalls<X, H, Q, D, I>,
    values: Vec<Scalar>,
    k: int,
    c: int,
    d: int,
) where
    X: Fn(&Vec<Scalar>) -> Result<Vec<Scalar>, String>,
    H: Fn(&Vec<Scalar>) -> Result<Vec<Scalar>, String>,
    Q: Fn(&Vec<Scalar>) -> Result<Vec<Scalar>, String>,
    D: Fn(Scalar, Scalar) -> Scalar,
    I: Fn(&str) -> String,
    G: Fn(usize, Scalar, &Vec<Vec<Scalar>>, Scalar) -> Result<Option<Vec<Scalar>>, SolveError>,

    requires
        operator.wf(),
        connected_diagonal::connected_diagonal(
            operator,
            time,
            state,
            rate,
            rate_shift,
            local,
            traces,
            Ok::<Option<Vec<Scalar>>, NumericError>(Some(values)),
        ),
        0 <= k < operator.system()@.leaves.len(),
        0 <= c < operator.traces().constraints@.len(),
        0 <= d < operator.traces().constraints@.len(),
    ensures
        !(row_of(operator, k, operator.traces().constraints@[c].target) && row_of(
            operator,
            k,
            operator.traces().constraints@[c].dependencies@[0].dof,
        )),
        c != d && operator.traces().constraints@[c].dependencies@[0].dof
            == operator.traces().constraints@[d].dependencies@[0].dof ==> !(row_of(
            operator,
            k,
            operator.traces().constraints@[c].target,
        ) && row_of(operator, k, operator.traces().constraints@[d].target)),
{
    let leaves = operator.system()@.leaves;
    let constraints = operator.traces().constraints@;
    assert(connected_diagonal::diagonal_exact(operator));
    assert(connected_diagonal::apart(leaves, constraints, c));
    assert(connected_diagonal::apart(leaves, constraints, d));
    lemma_home_is(leaves, constraints[c].target, k);
    lemma_home_is(leaves, constraints[d].target, k);
    lemma_home_is(leaves, constraints[c].dependencies@[0].dof, k);
}

} // verus!
