//! What the evaluation of a composed system promises: one leaf reaches another through the
//! coupling edges alone.
use crate::evaluation;
use crate::evaluation::SystemCalls;
use crate::numeric::{NumericError, NumericModel, SolveError};
use crate::operator::TransactionalOperator;
use crate::scalar::Scalar;
use crate::system::CoupledSystemOperator;
use crate::system_model;
use crate::system_model::{LeafModel, ResolvedModel};
use crate::trajectory;
use vstd::prelude::*;

verus! {

/// The part of a vector that belongs to a leaf.
pub open spec fn leaf_part(leaves: Seq<LeafModel>, values: Seq<Scalar>, k: int) -> Seq<Scalar> {
    values.subrange(
        system_model::offset_of(leaves, k) as int,
        system_model::offset_of(leaves, k + 1) as int,
    )
}

/// Whether an edge acts on the residual of a leaf.
pub open spec fn fed(edges: Seq<ResolvedModel>, k: int) -> bool {
    exists|e: int| 0 <= e < edges.len() && (#[trigger] edges[e]).row == k
}

proof fn lemma_edges_keep<L, E, A>(
    leaves: Seq<LeafModel>,
    edges: Seq<ResolvedModel>,
    state: Seq<Scalar>,
    rate: Seq<Scalar>,
    calls: SystemCalls<L, E, A>,
    count: int,
    before: Seq<Scalar>,
    after: Seq<Scalar>,
    k: int,
) where
    L: Fn(usize, Scalar, &Vec<Vec<Scalar>>) -> Result<Vec<Scalar>, SolveError>,
    E: Fn(usize, &Vec<Scalar>) -> Result<Vec<Scalar>, SolveError>,
    A: Fn(Scalar, Scalar) -> Scalar,

    requires
        system_model::edges_valid(leaves, edges),
        forall|e: int| 0 <= e < edges.len() ==> (#[trigger] edges[e]).action <= usize::MAX,
        calls.callable(leaves, edges),
        0 <= count <= edges.len(),
        0 <= k < leaves.len(),
        !fed(edges, k),
        before.len() == system_model::offset_of(leaves, leaves.len() as int),
        evaluation::edges_add(
            leaves,
            edges,
            state,
            rate,
            calls.action,
            calls.sum,
            count,
            before,
            after,
        ),
    ensures
        after.len() == before.len(),
        leaf_part(leaves, after, k) == leaf_part(leaves, before, k),
    decreases count,
{
    if count > 0 {
        let e = count - 1;
        let edge = edges[e];
        let (between, value) = choose|between: Seq<Scalar>, value: Vec<Scalar>|
            {
                &&& evaluation::edges_add(
                    leaves,
                    edges,
                    state,
                    rate,
                    calls.action,
                    calls.sum,
                    count - 1,
                    before,
                    between,
                )
                &&& #[trigger] evaluation::edge_gives(
                    leaves,
                    edges[count - 1],
                    state,
                    rate,
                    calls.action,
                    Ok(value),
                )
                &&& #[trigger] evaluation::added(
                    between,
                    value@,
                    system_model::offset_of(leaves, edges[count - 1].row as int) as int,
                    calls.sum,
                    after,
                )
            };
        lemma_edges_keep(leaves, edges, state, rate, calls, e, before, between, k);
        let source = choose|source: Vec<Scalar>|
            {
                &&& source@ == evaluation::edge_source(leaves, edge, state, rate)
                &&& #[trigger] call_ensures(
                    calls.action,
                    (edge.action as usize, &source),
                    Ok(value),
                )
            };
        let given: Result<Vec<Scalar>, SolveError> = Ok(value);
        assert(system_model::edge_valid(leaves, edges[e]));
        assert(call_ensures(calls.action, (edge.action as usize, &source), given));
        assert(edge.action as usize == edges[e].action);
        assert(given->Ok_0@.len() == edges[e].rows);
        let row = edge.row as int;
        assert(row != k);
        let start = system_model::offset_of(leaves, row) as int;
        assert(system_model::offset_of(leaves, row + 1) == start + leaves[row].dimension);
        if row < k {
            system_model::lemma_offset_monotone(leaves, row + 1, k);
        } else {
            system_model::lemma_offset_monotone(leaves, k + 1, row);
        }
        system_model::lemma_offset_monotone(leaves, k, k + 1);
        system_model::lemma_offset_monotone(leaves, k + 1, leaves.len() as int);
        assert(leaf_part(leaves, after, k) =~= leaf_part(leaves, between, k));
    }
}

proof fn lemma_leaf_part<L>(
    leaves: Seq<LeafModel>,
    vectors: Seq<Seq<Scalar>>,
    time: Scalar,
    leaf: L,
    count: int,
    values: Seq<Scalar>,
    k: int,
) where L: Fn(usize, Scalar, &Vec<Vec<Scalar>>) -> Result<Vec<Scalar>, SolveError>
    requires
        0 <= k < count <= leaves.len(),
        evaluation::leaves_give(leaves, vectors, time, leaf, count, values),
    ensures
        exists|value: Vec<Scalar>|
            {
                &&& #[trigger] evaluation::leaf_gives(leaves, vectors, time, leaf, k, Ok(value))
                &&& leaf_part(leaves, values, k) == value@
            },
    decreases count,
{
    let last = count - 1;
    let value = choose|value: Vec<Scalar>|
        {
            &&& #[trigger] evaluation::leaf_gives(leaves, vectors, time, leaf, count - 1, Ok(value))
            &&& values.len() == system_model::offset_of(leaves, count)
            &&& values.skip(system_model::offset_of(leaves, count - 1) as int) == value@
            &&& evaluation::leaves_give(
                leaves,
                vectors,
                time,
                leaf,
                count - 1,
                values.take(system_model::offset_of(leaves, count - 1) as int),
            )
        };
    system_model::lemma_offset_monotone(leaves, last, count);
    if k == last {
        assert(leaf_part(leaves, values, k) =~= value@);
    } else {
        let earlier = values.take(system_model::offset_of(leaves, last) as int);
        lemma_leaf_part(leaves, vectors, time, leaf, last, earlier, k);
        system_model::lemma_offset_monotone(leaves, k, k + 1);
        system_model::lemma_offset_monotone(leaves, k + 1, last);
        assert(leaf_part(leaves, values, k) =~= leaf_part(leaves, earlier, k));
    }
}

/// A leaf that no edge acts on evaluates, inside a composed system, to what its own operator
/// gives on its own part of the vectors: nothing of another leaf enters.
pub proof fn law_unfed_leaf_evaluates_alone<L, E, A>(
    leaves: Seq<LeafModel>,
    edges: Seq<ResolvedModel>,
    vectors: Seq<Seq<Scalar>>,
    state: Seq<Scalar>,
    rate: Seq<Scalar>,
    time: Scalar,
    label: Seq<char>,
    calls: SystemCalls<L, E, A>,
    values: Vec<Scalar>,
    k: int,
) where
    L: Fn(usize, Scalar, &Vec<Vec<Scalar>>) -> Result<Vec<Scalar>, SolveError>,
    E: Fn(usize, &Vec<Scalar>) -> Result<Vec<Scalar>, SolveError>,
    A: Fn(Scalar, Scalar) -> Scalar,

    requires
        leaves.len() > 0,
        system_model::edges_valid(leaves, edges),
        forall|e: int| 0 <= e < edges.len() ==> (#[trigger] edges[e]).action <= usize::MAX,
        calls.callable(leaves, edges),
        evaluation::evaluated(
            leaves,
            edges,
            vectors,
            state,
            rate,
            time,
            label,
            calls,
            Ok::<Vec<Scalar>, NumericError>(values),
        ),
        0 <= k < leaves.len(),
        !fed(edges, k),
    ensures
        exists|value: Vec<Scalar>|
            {
                &&& #[trigger] evaluation::leaf_gives(
                    leaves,
                    vectors,
                    time,
                    calls.leaf,
                    k,
                    Ok(value),
                )
                &&& leaf_part(leaves, values@, k) == value@
            },
{
    let all = leaves.len() as int;
    let raw = choose|raw: Seq<Scalar>|
        {
            &&& #[trigger] evaluation::leaves_give(leaves, vectors, time, calls.leaf, all, raw)
            &&& evaluation::edges_add(
                leaves,
                edges,
                state,
                rate,
                calls.action,
                calls.sum,
                edges.len() as int,
                raw,
                values@,
            )
        };
    lemma_edges_keep(
        leaves,
        edges,
        state,
        rate,
        calls,
        edges.len() as int,
        raw,
        values@,
        k,
    );
    lemma_leaf_part(leaves, vectors, time, calls.leaf, all, raw, k);
}

/// Whether an edge leads from `before` to `after` in the rows of a leaf: an edge into another
/// leaf leaves them, an edge into this one adds its action on what it reads of the leaf it
/// comes from, the state or the rate.
pub open spec fn edge_feeds<E, A>(
    leaves: Seq<LeafModel>,
    edge: ResolvedModel,
    state: Seq<Scalar>,
    rate: Seq<Scalar>,
    action: E,
    sum: A,
    k: int,
    before: Seq<Scalar>,
    after: Seq<Scalar>,
) -> bool where
    E: Fn(usize, &Vec<Scalar>) -> Result<Vec<Scalar>, SolveError>,
    A: Fn(Scalar, Scalar) -> Scalar,
 {
    if edge.row != k {
        after == before
    } else {
        exists|source: Vec<Scalar>, value: Vec<Scalar>|
            {
                &&& edge.argument is State ==> source@ == leaf_part(
                    leaves,
                    state,
                    edge.column as int,
                )
                &&& edge.argument is Rate ==> source@ == leaf_part(
                    leaves,
                    rate,
                    edge.column as int,
                )
                &&& #[trigger] call_ensures(
                    action,
                    (edge.action as usize, &source),
                    Ok::<Vec<Scalar>, SolveError>(value),
                )
                &&& value@.len() == before.len()
                &&& after.len() == before.len()
                &&& forall|i: int|
                    0 <= i < after.len() ==> call_ensures(
                        sum,
                        (before[i], value@[i]),
                        #[trigger] after[i],
                    )
            }
    }
}

/// Whether the edges, one after the other, lead through the given stages of a leaf's rows.
pub open spec fn edges_feed<E, A>(
    leaves: Seq<LeafModel>,
    edges: Seq<ResolvedModel>,
    state: Seq<Scalar>,
    rate: Seq<Scalar>,
    action: E,
    sum: A,
    k: int,
    count: int,
    stages: Seq<Seq<Scalar>>,
) -> bool where
    E: Fn(usize, &Vec<Scalar>) -> Result<Vec<Scalar>, SolveError>,
    A: Fn(Scalar, Scalar) -> Scalar,
 {
    &&& stages.len() == count + 1
    &&& forall|e: int|
        #![trigger edges[e]]
        0 <= e < count ==> edge_feeds(
            leaves,
            edges[e],
            state,
            rate,
            action,
            sum,
            k,
            stages[e],
            stages[e + 1],
        )
}

proof fn lemma_edges_feed<L, E, A>(
    leaves: Seq<LeafModel>,
    edges: Seq<ResolvedModel>,
    state: Seq<Scalar>,
    rate: Seq<Scalar>,
    calls: SystemCalls<L, E, A>,
    count: int,
    before: Seq<Scalar>,
    after: Seq<Scalar>,
    k: int,
) -> (stages: Seq<Seq<Scalar>>) where
    L: Fn(usize, Scalar, &Vec<Vec<Scalar>>) -> Result<Vec<Scalar>, SolveError>,
    E: Fn(usize, &Vec<Scalar>) -> Result<Vec<Scalar>, SolveError>,
    A: Fn(Scalar, Scalar) -> Scalar,

    requires
        system_model::edges_valid(leaves, edges),
        forall|e: int| 0 <= e < edges.len() ==> (#[trigger] edges[e]).action <= usize::MAX,
        calls.callable(leaves, edges),
        0 <= count <= edges.len(),
        0 <= k < leaves.len(),
        before.len() == system_model::offset_of(leaves, leaves.len() as int),
        evaluation::edges_add(
            leaves,
            edges,
            state,
            rate,
            calls.action,
            calls.sum,
            count,
            before,
            after,
        ),
    ensures
        after.len() == before.len(),
        edges_feed(leaves, edges, state, rate, calls.action, calls.sum, k, count, stages),
        stages[0] == leaf_part(leaves, before, k),
        stages[count] == leaf_part(leaves, after, k),
    decreases count,
{
    if count <= 0 {
        seq![leaf_part(leaves, before, k)]
    } else {
        let e = count - 1;
        let edge = edges[e];
        let (between, value) = choose|between: Seq<Scalar>, value: Vec<Scalar>|
            {
                &&& evaluation::edges_add(
                    leaves,
                    edges,
                    state,
                    rate,
                    calls.action,
                    calls.sum,
                    count - 1,
                    before,
                    between,
                )
                &&& #[trigger] evaluation::edge_gives(
                    leaves,
                    edges[count - 1],
                    state,
                    rate,
                    calls.action,
                    Ok(value),
                )
                &&& #[trigger] evaluation::added(
                    between,
                    value@,
                    system_model::offset_of(leaves, edges[count - 1].row as int) as int,
                    calls.sum,
                    after,
                )
            };
        let earlier = lemma_edges_feed(
            leaves,
            edges,
            state,
            rate,
            calls,
            e,
            before,
            between,
            k,
        );
        let source = choose|source: Vec<Scalar>|
            {
                &&& source@ == evaluation::edge_source(leaves, edge, state, rate)
                &&& #[trigger] call_ensures(
                    calls.action,
                    (edge.action as usize, &source),
                    Ok(value),
                )
            };
        let given: Result<Vec<Scalar>, SolveError> = Ok(value);
        assert(system_model::edge_valid(leaves, edges[e]));
        assert(call_ensures(calls.action, (edge.action as usize, &source), given));
        assert(edge.action as usize == edges[e].action);
        assert(given->Ok_0@.len() == edges[e].rows);
        let row = edge.row as int;
        let start = system_model::offset_of(leaves, row) as int;
        assert(system_model::offset_of(leaves, row + 1) == start + leaves[row].dimension);
        if row < k {
            system_model::lemma_offset_monotone(leaves, row + 1, k);
        } else if k < row {
            system_model::lemma_offset_monotone(leaves, k + 1, row);
        }
        system_model::lemma_offset_monotone(leaves, k, k + 1);
        system_model::lemma_offset_monotone(leaves, k + 1, leaves.len() as int);
        let part = leaf_part(leaves, after, k);
        let held = leaf_part(leaves, between, k);
        if row != k {
            assert(part =~= held);
        } else {
            assert forall|i: int| 0 <= i < part.len() implies call_ensures(
                calls.sum,
                (held[i], value@[i]),
                #[trigger] part[i],
            ) by {
                assert(part[i] == after[start + i]);
            }
        }
        assert(edge_feeds(
            leaves,
            edge,
            state,
            rate,
            calls.action,
            calls.sum,
            k,
            held,
            part,
        ));
        let stages = earlier.push(part);
        assert forall|i: int| #![trigger edges[i]] 0 <= i < count implies edge_feeds(
            leaves,
            edges[i],
            state,
            rate,
            calls.action,
            calls.sum,
            k,
            stages[i],
            stages[i + 1],
        ) by {
            if i < e {
                assert(stages[i] == earlier[i] && stages[i + 1] == earlier[i + 1]);
            } else {
                assert(stages[i] == earlier[e] && stages[i + 1] == part);
            }
        }
        stages
    }
}

proof fn lemma_rows<L, E, A>(
    leaves: Seq<LeafModel>,
    edges: Seq<ResolvedModel>,
    vectors: Seq<Seq<Scalar>>,
    state: Seq<Scalar>,
    rate: Seq<Scalar>,
    time: Scalar,
    label: Seq<char>,
    calls: SystemCalls<L, E, A>,
    values: Vec<Scalar>,
    k: int,
) -> (made: (Vec<Scalar>, Seq<Seq<Scalar>>)) where
    L: Fn(usize, Scalar, &Vec<Vec<Scalar>>) -> Result<Vec<Scalar>, SolveError>,
    E: Fn(usize, &Vec<Scalar>) -> Result<Vec<Scalar>, SolveError>,
    A: Fn(Scalar, Scalar) -> Scalar,

    requires
        leaves.len() > 0,
        system_model::edges_valid(leaves, edges),
        forall|e: int| 0 <= e < edges.len() ==> (#[trigger] edges[e]).action <= usize::MAX,
        calls.callable(leaves, edges),
        evaluation::evaluated(
            leaves,
            edges,
            vectors,
            state,
            rate,
            time,
            label,
            calls,
            Ok::<Vec<Scalar>, NumericError>(values),
        ),
        0 <= k < leaves.len(),
    ensures
        evaluation::leaf_gives(leaves, vectors, time, calls.leaf, k, Ok(made.0)),
        edges_feed(
            leaves,
            edges,
            state,
            rate,
            calls.action,
            calls.sum,
            k,
            edges.len() as int,
            made.1,
        ),
        made.1[0] == made.0@,
        made.1[edges.len() as int] == leaf_part(leaves, values@, k),
        values@.len() == system_model::offset_of(leaves, leaves.len() as int),
{
    let all = leaves.len() as int;
    let raw = choose|raw: Seq<Scalar>|
        {
            &&& #[trigger] evaluation::leaves_give(leaves, vectors, time, calls.leaf, all, raw)
            &&& evaluation::edges_add(
                leaves,
                edges,
                state,
                rate,
                calls.action,
                calls.sum,
                edges.len() as int,
                raw,
                values@,
            )
        };
    let stages = lemma_edges_feed(
        leaves,
        edges,
        state,
        rate,
        calls,
        edges.len() as int,
        raw,
        values@,
        k,
    );
    lemma_leaf_part(leaves, vectors, time, calls.leaf, all, raw, k);
    let own = choose|value: Vec<Scalar>|
        {
            &&& #[trigger] evaluation::leaf_gives(
                leaves,
                vectors,
                time,
                calls.leaf,
                k,
                Ok(value),
            )
            &&& leaf_part(leaves, raw, k) == value@
        };
    (own, stages)
}

/// The rows of a leaf in a composed residual: the leaf's own residual at the time, on its
/// part of the state and its part of the rate, and then, edge after edge, what every edge
/// into the leaf makes of the part of the state, or of the rate, that belongs to the leaf it
/// comes from. No row is infinite or NaN.
pub proof fn law_residual_rows<L, E, A>(
    operator: CoupledSystemOperator,
    time: Scalar,
    state: Seq<Scalar>,
    rate: Seq<Scalar>,
    output_length: nat,
    calls: SystemCalls<L, E, A>,
    values: Vec<Scalar>,
    k: usize,
) where
    L: Fn(usize, Scalar, &Vec<Vec<Scalar>>) -> Result<Vec<Scalar>, SolveError>,
    E: Fn(usize, &Vec<Scalar>) -> Result<Vec<Scalar>, SolveError>,
    A: Fn(Scalar, Scalar) -> Scalar,

    requires
        operator.wf(),
        calls.callable(operator@.leaves, operator@.edges),
        evaluation::residual_given(
            operator,
            time,
            state,
            rate,
            output_length,
            calls,
            Ok::<Vec<Scalar>, NumericError>(values),
        ),
        k < operator@.leaves.len(),
    ensures
        exists|parts: Vec<Vec<Scalar>>, own: Vec<Scalar>, stages: Seq<Seq<Scalar>>|
            {
                &&& parts@.len() == 2
                &&& parts@[0]@ == leaf_part(operator@.leaves, state, k as int)
                &&& parts@[1]@ == leaf_part(operator@.leaves, rate, k as int)
                &&& #[trigger] call_ensures(
                    calls.leaf,
                    (k, time, &parts),
                    Ok::<Vec<Scalar>, SolveError>(own),
                )
                &&& #[trigger] edges_feed(
                    operator@.leaves,
                    operator@.edges,
                    state,
                    rate,
                    calls.action,
                    calls.sum,
                    k as int,
                    operator@.edges.len() as int,
                    stages,
                )
                &&& stages.first() == own@
                &&& stages.last() == leaf_part(operator@.leaves, values@, k as int)
            },
        values@.len() == operator.size(),
        state.len() == operator.size(),
        rate.len() == operator.size(),
        output_length == operator.size(),
        forall|i: int| 0 <= i < values@.len() ==> (#[trigger] values@[i]).finite(),
{
    let leaves = operator@.leaves;
    operator.lemma_wf();
    let (own, stages) = lemma_rows(
        leaves,
        operator@.edges,
        seq![state, rate],
        state,
        rate,
        time,
        "coupled system residual"@,
        calls,
        values,
        k as int,
    );
    let parts = lemma_parts(leaves, seq![state, rate], time, calls.leaf, k, own);
    assert(call_ensures(calls.leaf, (k, time, &parts), Ok::<Vec<Scalar>, SolveError>(own)));
}

proof fn lemma_parts<L>(
    leaves: Seq<LeafModel>,
    vectors: Seq<Seq<Scalar>>,
    time: Scalar,
    leaf: L,
    k: usize,
    own: Vec<Scalar>,
) -> (parts: Vec<Vec<Scalar>>) where
    L: Fn(usize, Scalar, &Vec<Vec<Scalar>>) -> Result<Vec<Scalar>, SolveError>,

    requires
        evaluation::leaf_gives(leaves, vectors, time, leaf, k as int, Ok(own)),
    ensures
        parts@.len() == vectors.len(),
        forall|i: int|
            0 <= i < vectors.len() ==> (#[trigger] parts@[i])@ == leaf_part(
                leaves,
                vectors[i],
                k as int,
            ),
        call_ensures(leaf, (k, time, &parts), Ok::<Vec<Scalar>, SolveError>(own)),
{
    let start = system_model::offset_of(leaves, k as int) as int;
    let end = system_model::offset_of(leaves, k + 1) as int;
    let parts = choose|parts: Vec<Vec<Scalar>>|
        {
            &&& trajectory::vectors(parts@) == evaluation::parts_of(vectors, start, end)
            &&& #[trigger] call_ensures(
                leaf,
                ((k as int) as usize, time, &parts),
                Ok::<Vec<Scalar>, SolveError>(own),
            )
        };
    let models = trajectory::vectors(parts@);
    assert(models.len() == vectors.len());
    assert forall|i: int| 0 <= i < vectors.len() implies (#[trigger] parts@[i])@ == leaf_part(
        leaves,
        vectors[i],
        k as int,
    ) by {
        assert(models[i] == parts@[i]@);
        assert(evaluation::parts_of(vectors, start, end)[i] == vectors[i].subrange(start, end));
    }
    parts
}

/// The rows of a leaf in a composed Jacobian-vector product: the leaf's own product at the
/// time, on its parts of the state, of the rate, of the state direction and of the rate
/// direction, in this order, and then, edge after edge, what every edge into the leaf makes
/// of the part of the state direction, or of the rate direction, that belongs to the leaf it
/// comes from. No row is infinite or NaN.
pub proof fn law_product_rows<L, E, A>(
    operator: CoupledSystemOperator,
    time: Scalar,
    state: Seq<Scalar>,
    rate: Seq<Scalar>,
    state_direction: Seq<Scalar>,
    rate_direction: Seq<Scalar>,
    output_length: nat,
    calls: SystemCalls<L, E, A>,
    values: Vec<Scalar>,
    k: usize,
) where
    L: Fn(usize, Scalar, &Vec<Vec<Scalar>>) -> Result<Vec<Scalar>, SolveError>,
    E: Fn(usize, &Vec<Scalar>) -> Result<Vec<Scalar>, SolveError>,
    A: Fn(Scalar, Scalar) -> Scalar,

    requires
        operator.wf(),
        calls.callable(operator@.leaves, operator@.edges),
        evaluation::product_given(
            operator,
            time,
            state,
            rate,
            state_direction,
            rate_direction,
            output_length,
            calls,
            Ok::<Vec<Scalar>, NumericError>(values),
        ),
        k < operator@.leaves.len(),
    ensures
        exists|parts: Vec<Vec<Scalar>>, own: Vec<Scalar>, stages: Seq<Seq<Scalar>>|
            {
                &&& parts@.len() == 4
                &&& parts@[0]@ == leaf_part(operator@.leaves, state, k as int)
                &&& parts@[1]@ == leaf_part(operator@.leaves, rate, k as int)
                &&& parts@[2]@ == leaf_part(operator@.leaves, state_direction, k as int)
                &&& parts@[3]@ == leaf_part(operator@.leaves, rate_direction, k as int)
                &&& #[trigger] call_ensures(
                    calls.leaf,
                    (k, time, &parts),
                    Ok::<Vec<Scalar>, SolveError>(own),
                )
                &&& #[trigger] edges_feed(
                    operator@.leaves,
                    operator@.edges,
                    state_direction,
                    rate_direction,
                    calls.action,
                    calls.sum,
                    k as int,
                    operator@.edges.len() as int,
                    stages,
                )
                &&& stages.first() == own@
                &&& stages.last() == leaf_part(operator@.leaves, values@, k as int)
            },
        values@.len() == operator.size(),
        state.len() == operator.size(),
        rate.len() == operator.size(),
        state_direction.len() == operator.size(),
        rate_direction.len() == operator.size(),
        output_length == operator.size(),
        forall|i: int| 0 <= i < values@.len() ==> (#[trigger] values@[i]).finite(),
{
    let leaves = operator@.leaves;
    operator.lemma_wf();
    let vectors = seq![state, rate, state_direction, rate_direction];
    let (own, stages) = lemma_rows(
        leaves,
        operator@.edges,
        vectors,
        state_direction,
        rate_direction,
        time,
        "coupled system JVP"@,
        calls,
        values,
        k as int,
    );
    let parts = lemma_parts(leaves, vectors, time, calls.leaf, k, own);
    assert(call_ensures(calls.leaf, (k, time, &parts), Ok::<Vec<Scalar>, SolveError>(own)));
}

/// Whether an action gives one value for one edge and one source.
pub open spec fn action_repeats<E>(action: E) -> bool where
    E: Fn(usize, &Vec<Scalar>) -> Result<Vec<Scalar>, SolveError>,
 {
    forall|
        position: usize,
        first: Vec<Scalar>,
        second: Vec<Scalar>,
        left: Vec<Scalar>,
        right: Vec<Scalar>,
    |
        first@ == second@ && #[trigger] call_ensures(
            action,
            (position, &first),
            Ok::<Vec<Scalar>, SolveError>(left),
        ) && #[trigger] call_ensures(
            action,
            (position, &second),
            Ok::<Vec<Scalar>, SolveError>(right),
        ) ==> left@ == right@
}

/// Whether a sum gives one value for two summands.
pub open spec fn sum_repeats<A: Fn(Scalar, Scalar) -> Scalar>(sum: A) -> bool {
    forall|a: Scalar, b: Scalar, left: Scalar, right: Scalar| #[trigger]
        call_ensures(sum, (a, b), left) && #[trigger] call_ensures(sum, (a, b), right) ==> left
            == right
}

/// Whether a leaf gives one value on one set of parts.
pub open spec fn leaf_repeats<L>(leaf: L) -> bool where
    L: Fn(usize, Scalar, &Vec<Vec<Scalar>>) -> Result<Vec<Scalar>, SolveError>,
 {
    forall|
        index: usize,
        time: Scalar,
        first: Vec<Vec<Scalar>>,
        second: Vec<Vec<Scalar>>,
        left: Vec<Scalar>,
        right: Vec<Scalar>,
    |
        first@.len() == second@.len() && (forall|i: int|
            0 <= i < first@.len() ==> (#[trigger] first@[i])@ == second@[i]@) && #[trigger]
        call_ensures(leaf, (index, time, &first), Ok::<Vec<Scalar>, SolveError>(left))
            && #[trigger] call_ensures(
            leaf,
            (index, time, &second),
            Ok::<Vec<Scalar>, SolveError>(right),
        ) ==> left@ == right@
}

/// Whether two pairs of a state and a rate agree on everything that the edges into a leaf
/// read.
pub open spec fn feeds_agree(
    leaves: Seq<LeafModel>,
    edges: Seq<ResolvedModel>,
    k: int,
    state: Seq<Scalar>,
    rate: Seq<Scalar>,
    other_state: Seq<Scalar>,
    other_rate: Seq<Scalar>,
) -> bool {
    forall|e: int|
        0 <= e < edges.len() && (#[trigger] edges[e]).row == k ==> {
            &&& edges[e].argument is State ==> leaf_part(leaves, state, edges[e].column as int)
                == leaf_part(leaves, other_state, edges[e].column as int)
            &&& edges[e].argument is Rate ==> leaf_part(leaves, rate, edges[e].column as int)
                == leaf_part(leaves, other_rate, edges[e].column as int)
        }
}

proof fn lemma_stages_agree<E, A>(
    leaves: Seq<LeafModel>,
    edges: Seq<ResolvedModel>,
    state: Seq<Scalar>,
    rate: Seq<Scalar>,
    other_state: Seq<Scalar>,
    other_rate: Seq<Scalar>,
    action: E,
    sum: A,
    k: int,
    count: int,
    first: Seq<Seq<Scalar>>,
    second: Seq<Seq<Scalar>>,
    at: int,
) where
    E: Fn(usize, &Vec<Scalar>) -> Result<Vec<Scalar>, SolveError>,
    A: Fn(Scalar, Scalar) -> Scalar,

    requires
        0 <= at <= count <= edges.len(),
        action_repeats(action),
        sum_repeats(sum),
        feeds_agree(leaves, edges, k, state, rate, other_state, other_rate),
        edges_feed(leaves, edges, state, rate, action, sum, k, count, first),
        edges_feed(leaves, edges, other_state, other_rate, action, sum, k, count, second),
        first[0] == second[0],
    ensures
        first[at] == second[at],
    decreases at,
{
    if at > 0 {
        let e = at - 1;
        lemma_stages_agree(
            leaves,
            edges,
            state,
            rate,
            other_state,
            other_rate,
            action,
            sum,
            k,
            count,
            first,
            second,
            e,
        );
        let edge = edges[e];
        assert(edge_feeds(leaves, edge, state, rate, action, sum, k, first[e], first[e + 1]));
        assert(edge_feeds(
            leaves,
            edge,
            other_state,
            other_rate,
            action,
            sum,
            k,
            second[e],
            second[e + 1],
        ));
        if edge.row == k {
            let (source, value) = choose|source: Vec<Scalar>, value: Vec<Scalar>|
                {
                    &&& edge.argument is State ==> source@ == leaf_part(
                        leaves,
                        state,
                        edge.column as int,
                    )
                    &&& edge.argument is Rate ==> source@ == leaf_part(
                        leaves,
                        rate,
                        edge.column as int,
                    )
                    &&& #[trigger] call_ensures(
                        action,
                        (edge.action as usize, &source),
                        Ok::<Vec<Scalar>, SolveError>(value),
                    )
                    &&& value@.len() == first[e].len()
                    &&& first[e + 1].len() == first[e].len()
                    &&& forall|i: int|
                        0 <= i < first[e + 1].len() ==> call_ensures(
                            sum,
                            (first[e][i], value@[i]),
                            #[trigger] first[e + 1][i],
                        )
                };
            let (other, given) = choose|source: Vec<Scalar>, value: Vec<Scalar>|
                {
                    &&& edge.argument is State ==> source@ == leaf_part(
                        leaves,
                        other_state,
                        edge.column as int,
                    )
                    &&& edge.argument is Rate ==> source@ == leaf_part(
                        leaves,
                        other_rate,
                        edge.column as int,
                    )
                    &&& #[trigger] call_ensures(
                        action,
                        (edge.action as usize, &source),
                        Ok::<Vec<Scalar>, SolveError>(value),
                    )
                    &&& value@.len() == second[e].len()
                    &&& second[e + 1].len() == second[e].len()
                    &&& forall|i: int|
                        0 <= i < second[e + 1].len() ==> call_ensures(
                            sum,
                            (second[e][i], value@[i]),
                            #[trigger] second[e + 1][i],
                        )
                };
            assert(source@ == other@);
            assert(value@ == given@);
            let mine = first[e + 1];
            let theirs = second[e + 1];
            assert forall|i: int| 0 <= i < mine.len() implies #[trigger] mine[i]
                == theirs[i] by {
                assert(call_ensures(sum, (first[e][i], value@[i]), first[e + 1][i]));
                assert(call_ensures(sum, (second[e][i], given@[i]), second[e + 1][i]));
            }
            assert(first[e + 1] =~= second[e + 1]);
        }
    }
}

/// A leaf's rows of a composed residual depend on the leaf's own part of state and rate and
/// on what the edges into it read, and on nothing else: where one leaf is coupled to another
/// by the rate alone, a change of the other's state changes none of its rows, and the other
/// way round.
pub proof fn law_residual_rows_follow_what_feeds_them<L, E, A>(
    operator: CoupledSystemOperator,
    time: Scalar,
    state: Seq<Scalar>,
    rate: Seq<Scalar>,
    other_state: Seq<Scalar>,
    other_rate: Seq<Scalar>,
    output_length: nat,
    calls: SystemCalls<L, E, A>,
    values: Vec<Scalar>,
    others: Vec<Scalar>,
    k: usize,
) where
    L: Fn(usize, Scalar, &Vec<Vec<Scalar>>) -> Result<Vec<Scalar>, SolveError>,
    E: Fn(usize, &Vec<Scalar>) -> Result<Vec<Scalar>, SolveError>,
    A: Fn(Scalar, Scalar) -> Scalar,

    requires
        operator.wf(),
        calls.callable(operator@.leaves, operator@.edges),
        leaf_repeats(calls.leaf),
        action_repeats(calls.action),
        sum_repeats(calls.sum),
        evaluation::residual_given(
            operator,
            time,
            state,
            rate,
            output_length,
            calls,
            Ok::<Vec<Scalar>, NumericError>(values),
        ),
        evaluation::residual_given(
            operator,
            time,
            other_state,
            other_rate,
            output_length,
            calls,
            Ok::<Vec<Scalar>, NumericError>(others),
        ),
        k < operator@.leaves.len(),
        leaf_part(operator@.leaves, state, k as int) == leaf_part(
            operator@.leaves,
            other_state,
            k as int,
        ),
        leaf_part(operator@.leaves, rate, k as int) == leaf_part(
            operator@.leaves,
            other_rate,
            k as int,
        ),
        feeds_agree(
            operator@.leaves,
            operator@.edges,
            k as int,
            state,
            rate,
            other_state,
            other_rate,
        ),
    ensures
        leaf_part(operator@.leaves, values@, k as int) == leaf_part(
            operator@.leaves,
            others@,
            k as int,
        ),
{
    let leaves = operator@.leaves;
    let edges = operator@.edges;
    operator.lemma_wf();
    let label = "coupled system residual"@;
    let (own, stages) = lemma_rows(
        leaves,
        edges,
        seq![state, rate],
        state,
        rate,
        time,
        label,
        calls,
        values,
        k as int,
    );
    let (theirs, turns) = lemma_rows(
        leaves,
        edges,
        seq![other_state, other_rate],
        other_state,
        other_rate,
        time,
        label,
        calls,
        others,
        k as int,
    );
    let parts = lemma_parts(leaves, seq![state, rate], time, calls.leaf, k, own);
    let cuts = lemma_parts(leaves, seq![other_state, other_rate], time, calls.leaf, k, theirs);
    assert forall|i: int| 0 <= i < parts@.len() implies (#[trigger] parts@[i])@
        == cuts@[i]@ by {}
    assert(own@ == theirs@);
    lemma_stages_agree(
        leaves,
        edges,
        state,
        rate,
        other_state,
        other_rate,
        calls.action,
        calls.sum,
        k as int,
        edges.len() as int,
        stages,
        turns,
        edges.len() as int,
    );
}

/// Two vectors whose parts agree leaf by leaf are equal.
pub proof fn lemma_parts_decide(
    leaves: Seq<LeafModel>,
    left: Seq<Scalar>,
    right: Seq<Scalar>,
    count: int,
)
    requires
        0 <= count <= leaves.len(),
        left.len() == right.len(),
        left.len() == system_model::offset_of(leaves, leaves.len() as int),
        forall|k: int|
            0 <= k < leaves.len() ==> #[trigger] leaf_part(leaves, left, k) == leaf_part(
                leaves,
                right,
                k,
            ),
    ensures
        forall|i: int|
            0 <= i < system_model::offset_of(leaves, count) ==> (#[trigger] left[i]) == right[i],
    decreases count,
{
    if count > 0 {
        let k = count - 1;
        lemma_parts_decide(leaves, left, right, k);
        system_model::lemma_offset_monotone(leaves, k, count);
        system_model::lemma_offset_monotone(leaves, count, leaves.len() as int);
        let start = system_model::offset_of(leaves, k) as int;
        let mine = leaf_part(leaves, left, k);
        let theirs = leaf_part(leaves, right, k);
        assert forall|i: int| 0 <= i < system_model::offset_of(leaves, count) implies (
        #[trigger] left[i]) == right[i] by {
            if i >= start {
                assert(mine[i - start] == left[i]);
                assert(theirs[i - start] == right[i]);
            }
        }
    }
}

/// Whether a leaf's product is, wherever it is taken, the leaf's residual at the directions:
/// the leaf is linear in state and rate.
pub open spec fn linear_leaf<L, M>(product: L, residual: M) -> bool where
    L: Fn(usize, Scalar, &Vec<Vec<Scalar>>) -> Result<Vec<Scalar>, SolveError>,
    M: Fn(usize, Scalar, &Vec<Vec<Scalar>>) -> Result<Vec<Scalar>, SolveError>,
 {
    forall|
        index: usize,
        time: Scalar,
        whole: Vec<Vec<Scalar>>,
        half: Vec<Vec<Scalar>>,
        left: Vec<Scalar>,
        right: Vec<Scalar>,
    |
        whole@.len() == 4 && half@.len() == 2 && whole@[2]@ == half@[0]@ && whole@[3]@
            == half@[1]@ && #[trigger] call_ensures(
            product,
            (index, time, &whole),
            Ok::<Vec<Scalar>, SolveError>(left),
        ) && #[trigger] call_ensures(
            residual,
            (index, time, &half),
            Ok::<Vec<Scalar>, SolveError>(right),
        ) ==> left@ == right@
}

/// Over linear leaves the composed product along two directions is the composed residual at
/// the state direction and the rate direction, wherever the product is taken.
pub proof fn law_linear_product_is_residual_of_directions<L, M, E, A>(
    operator: CoupledSystemOperator,
    time: Scalar,
    state: Seq<Scalar>,
    rate: Seq<Scalar>,
    state_direction: Seq<Scalar>,
    rate_direction: Seq<Scalar>,
    output_length: nat,
    calls: SystemCalls<L, E, A>,
    plain: SystemCalls<M, E, A>,
    values: Vec<Scalar>,
    residual: Vec<Scalar>,
) where
    L: Fn(usize, Scalar, &Vec<Vec<Scalar>>) -> Result<Vec<Scalar>, SolveError>,
    M: Fn(usize, Scalar, &Vec<Vec<Scalar>>) -> Result<Vec<Scalar>, SolveError>,
    E: Fn(usize, &Vec<Scalar>) -> Result<Vec<Scalar>, SolveError>,
    A: Fn(Scalar, Scalar) -> Scalar,

    requires
        operator.wf(),
        calls.callable(operator@.leaves, operator@.edges),
        plain.callable(operator@.leaves, operator@.edges),
        linear_leaf(calls.leaf, plain.leaf),
        calls.action == plain.action,
        calls.sum == plain.sum,
        action_repeats(calls.action),
        sum_repeats(calls.sum),
        evaluation::product_given(
            operator,
            time,
            state,
            rate,
            state_direction,
            rate_direction,
            output_length,
            calls,
            Ok::<Vec<Scalar>, NumericError>(values),
        ),
        evaluation::residual_given(
            operator,
            time,
            state_direction,
            rate_direction,
            output_length,
            plain,
            Ok::<Vec<Scalar>, NumericError>(residual),
        ),
    ensures
        values@ == residual@,
{
    let leaves = operator@.leaves;
    let edges = operator@.edges;
    operator.lemma_wf();
    let vectors = seq![state, rate, state_direction, rate_direction];
    let halves = seq![state_direction, rate_direction];
    assert forall|k: int| 0 <= k < leaves.len() implies #[trigger] leaf_part(
        leaves,
        values@,
        k,
    ) == leaf_part(leaves, residual@, k) by {
        let (own, stages) = lemma_rows(
            leaves,
            edges,
            vectors,
            state_direction,
            rate_direction,
            time,
            "coupled system JVP"@,
            calls,
            values,
            k,
        );
        let (theirs, turns) = lemma_rows(
            leaves,
            edges,
            halves,
            state_direction,
            rate_direction,
            time,
            "coupled system residual"@,
            plain,
            residual,
            k,
        );
        let index = k as usize;
        let parts = lemma_parts(leaves, vectors, time, calls.leaf, index, own);
        let cuts = lemma_parts(leaves, halves, time, plain.leaf, index, theirs);
        assert(parts@[2]@ == cuts@[0]@);
        assert(parts@[3]@ == cuts@[1]@);
        assert(own@ == theirs@);
        lemma_stages_agree(
            leaves,
            edges,
            state_direction,
            rate_direction,
            state_direction,
            rate_direction,
            calls.action,
            calls.sum,
            k,
            edges.len() as int,
            stages,
            turns,
            edges.len() as int,
        );
    }
    let (_, _) = lemma_rows(
        leaves,
        edges,
        vectors,
        state_direction,
        rate_direction,
        time,
        "coupled system JVP"@,
        calls,
        values,
        0,
    );
    let (_, _) = lemma_rows(
        leaves,
        edges,
        halves,
        state_direction,
        rate_direction,
        time,
        "coupled system residual"@,
        plain,
        residual,
        0,
    );
    lemma_parts_decide(leaves, values@, residual@, leaves.len() as int);
    assert(values@ =~= residual@);
}

/// A composed residual fails for a reason that can be named: an argument of the wrong
/// length, the failure of a leaf on its own parts, the failure of an edge on what it reads,
/// or a row that is infinite or NaN.
pub proof fn law_residual_failure_has_a_cause<L, E, A>(
    operator: CoupledSystemOperator,
    time: Scalar,
    state: Seq<Scalar>,
    rate: Seq<Scalar>,
    output_length: nat,
    calls: SystemCalls<L, E, A>,
    error: NumericError,
) where
    L: Fn(usize, Scalar, &Vec<Vec<Scalar>>) -> Result<Vec<Scalar>, SolveError>,
    E: Fn(usize, &Vec<Scalar>) -> Result<Vec<Scalar>, SolveError>,
    A: Fn(Scalar, Scalar) -> Scalar,

    requires
        operator.wf(),
        evaluation::residual_given(
            operator,
            time,
            state,
            rate,
            output_length,
            calls,
            Err::<Vec<Scalar>, NumericError>(error),
        ),
    ensures
        ({
            ||| state.len() != operator.size() && error@ == (NumericModel::DimensionMismatch {
                operation: "coupled system state"@,
                expected: operator.size(),
                actual: state.len(),
            })
            ||| rate.len() != operator.size() && error@ == (NumericModel::DimensionMismatch {
                operation: "coupled system state rate"@,
                expected: operator.size(),
                actual: rate.len(),
            })
            ||| output_length != operator.size() && error@ == (NumericModel::DimensionMismatch {
                operation: "coupled system residual"@,
                expected: operator.size(),
                actual: output_length,
            })
            ||| evaluation_failed(
                operator@.leaves,
                operator@.edges,
                seq![state, rate],
                state,
                rate,
                time,
                calls,
                error@,
            )
            ||| error@ is NonFinite && state.len() == operator.size()
        }),
{
    if state.len() == operator.size() && rate.len() == operator.size() && output_length
        == operator.size() {
        operator.lemma_wf();
        lemma_failure(
            operator@.leaves,
            operator@.edges,
            seq![state, rate],
            state,
            rate,
            time,
            "coupled system residual"@,
            calls,
            error,
        );
    }
}

/// Whether a leaf failed on its own parts of the vectors, or an edge on its part of the state
/// or the rate, and that failure is reported.
pub open spec fn evaluation_failed<L, E, A>(
    leaves: Seq<LeafModel>,
    edges: Seq<ResolvedModel>,
    vectors: Seq<Seq<Scalar>>,
    state: Seq<Scalar>,
    rate: Seq<Scalar>,
    time: Scalar,
    calls: SystemCalls<L, E, A>,
    error: NumericModel,
) -> bool where
    L: Fn(usize, Scalar, &Vec<Vec<Scalar>>) -> Result<Vec<Scalar>, SolveError>,
    E: Fn(usize, &Vec<Scalar>) -> Result<Vec<Scalar>, SolveError>,
    A: Fn(Scalar, Scalar) -> Scalar,
 {
    ||| exists|k: usize, parts: Vec<Vec<Scalar>>, failure: SolveError|
        {
            &&& k < leaves.len()
            &&& parts@.len() == vectors.len()
            &&& forall|i: int|
                0 <= i < vectors.len() ==> (#[trigger] parts@[i])@ == leaf_part(
                    leaves,
                    vectors[i],
                    k as int,
                )
            &&& #[trigger] call_ensures(
                calls.leaf,
                (k, time, &parts),
                Err::<Vec<Scalar>, SolveError>(failure),
            )
            &&& error == NumericModel::Reported(failure@)
        }
    ||| exists|e: int, source: Vec<Scalar>, failure: SolveError|
        {
            &&& 0 <= e < edges.len()
            &&& edges[e].argument is State ==> source@ == leaf_part(
                leaves,
                state,
                edges[e].column as int,
            )
            &&& edges[e].argument is Rate ==> source@ == leaf_part(
                leaves,
                rate,
                edges[e].column as int,
            )
            &&& #[trigger] call_ensures(
                calls.action,
                ((#[trigger] edges[e]).action as usize, &source),
                Err::<Vec<Scalar>, SolveError>(failure),
            )
            &&& error == NumericModel::Reported(failure@)
        }
}

proof fn lemma_failure<L, E, A>(
    leaves: Seq<LeafModel>,
    edges: Seq<ResolvedModel>,
    vectors: Seq<Seq<Scalar>>,
    state: Seq<Scalar>,
    rate: Seq<Scalar>,
    time: Scalar,
    label: Seq<char>,
    calls: SystemCalls<L, E, A>,
    error: NumericError,
) where
    L: Fn(usize, Scalar, &Vec<Vec<Scalar>>) -> Result<Vec<Scalar>, SolveError>,
    E: Fn(usize, &Vec<Scalar>) -> Result<Vec<Scalar>, SolveError>,
    A: Fn(Scalar, Scalar) -> Scalar,

    requires
        leaves.len() <= usize::MAX,
        evaluation::evaluated(
            leaves,
            edges,
            vectors,
            state,
            rate,
            time,
            label,
            calls,
            Err::<Vec<Scalar>, NumericError>(error),
        ),
    ensures
        evaluation_failed(leaves, edges, vectors, state, rate, time, calls, error@)
            || error@ is NonFinite,
{
    if !(error@ is NonFinite) {
        if exists|k: int, failure: SolveError|
            0 <= k < leaves.len() && #[trigger] evaluation::leaf_gives(
                leaves,
                vectors,
                time,
                calls.leaf,
                k,
                Err(failure),
            ) && error@ == NumericModel::Reported(failure@) {
            let (k, failure) = choose|k: int, failure: SolveError|
                0 <= k < leaves.len() && #[trigger] evaluation::leaf_gives(
                    leaves,
                    vectors,
                    time,
                    calls.leaf,
                    k,
                    Err(failure),
                ) && error@ == NumericModel::Reported(failure@);
            let start = system_model::offset_of(leaves, k) as int;
            let end = system_model::offset_of(leaves, k + 1) as int;
            let parts = choose|parts: Vec<Vec<Scalar>>|
                {
                    &&& trajectory::vectors(parts@) == evaluation::parts_of(vectors, start, end)
                    &&& #[trigger] call_ensures(
                        calls.leaf,
                        (k as usize, time, &parts),
                        Err::<Vec<Scalar>, SolveError>(failure),
                    )
                };
            let models = trajectory::vectors(parts@);
            assert(models.len() == vectors.len());
            assert forall|i: int| 0 <= i < vectors.len() implies (#[trigger] parts@[i])@
                == leaf_part(leaves, vectors[i], k) by {
                assert(models[i] == parts@[i]@);
                assert(evaluation::parts_of(vectors, start, end)[i] == vectors[i].subrange(
                    start,
                    end,
                ));
            }
            assert(call_ensures(
                calls.leaf,
                (k as usize, time, &parts),
                Err::<Vec<Scalar>, SolveError>(failure),
            ));
        } else {
            let (e, failure) = choose|e: int, failure: SolveError|
                0 <= e < edges.len() && #[trigger] evaluation::edge_gives(
                    leaves,
                    edges[e],
                    state,
                    rate,
                    calls.action,
                    Err(failure),
                ) && error@ == NumericModel::Reported(failure@);
            let edge = edges[e];
            let source = choose|source: Vec<Scalar>|
                {
                    &&& source@ == evaluation::edge_source(leaves, edge, state, rate)
                    &&& #[trigger] call_ensures(
                        calls.action,
                        (edge.action as usize, &source),
                        Err::<Vec<Scalar>, SolveError>(failure),
                    )
                };
            assert(call_ensures(
                calls.action,
                (edges[e].action as usize, &source),
                Err::<Vec<Scalar>, SolveError>(failure),
            ));
        }
    }
}

/// A composed product fails for a reason that can be named: an argument of the wrong length,
/// the failure of a leaf on its own parts, the failure of an edge on what it reads, or a row
/// that is infinite or NaN.
pub proof fn law_product_failure_has_a_cause<L, E, A>(
    operator: CoupledSystemOperator,
    time: Scalar,
    state: Seq<Scalar>,
    rate: Seq<Scalar>,
    state_direction: Seq<Scalar>,
    rate_direction: Seq<Scalar>,
    output_length: nat,
    calls: SystemCalls<L, E, A>,
    error: NumericError,
) where
    L: Fn(usize, Scalar, &Vec<Vec<Scalar>>) -> Result<Vec<Scalar>, SolveError>,
    E: Fn(usize, &Vec<Scalar>) -> Result<Vec<Scalar>, SolveError>,
    A: Fn(Scalar, Scalar) -> Scalar,

    requires
        operator.wf(),
        evaluation::product_given(
            operator,
            time,
            state,
            rate,
            state_direction,
            rate_direction,
            output_length,
            calls,
            Err::<Vec<Scalar>, NumericError>(error),
        ),
    ensures
        ({
            ||| error@ is DimensionMismatch && error@->expected == operator.size() && (
            state.len() != operator.size() || rate.len() != operator.size()
                || state_direction.len() != operator.size() || rate_direction.len()
                != operator.size() || output_length != operator.size())
            ||| evaluation_failed(
                operator@.leaves,
                operator@.edges,
                seq![state, rate, state_direction, rate_direction],
                state_direction,
                rate_direction,
                time,
                calls,
                error@,
            )
            ||| error@ is NonFinite
        }),
{
    if state.len() == operator.size() && rate.len() == operator.size() && state_direction.len()
        == operator.size() && rate_direction.len() == operator.size() && output_length
        == operator.size() {
        operator.lemma_wf();
        lemma_failure(
            operator@.leaves,
            operator@.edges,
            seq![state, rate, state_direction, rate_direction],
            state_direction,
            rate_direction,
            time,
            "coupled system JVP"@,
            calls,
            error,
        );
    }
}

/// Where the events of a leaf start: behind those of the leaves before it.
pub proof fn law_event_places_follow_each_other(counts: Seq<usize>, k: int)
    requires
        0 <= k < counts.len(),
    ensures
        evaluation::total_events(counts, 0) == 0,
        evaluation::total_events(counts, k + 1) == evaluation::total_events(counts, k)
            + counts[k],
{
}

/// The events of a composed system at a time are, leaf after leaf, what each leaf gives at
/// that time on its own part of the state.
pub proof fn law_events_are_those_of_the_leaves<V>(
    leaves: Seq<LeafModel>,
    time: Scalar,
    state: Seq<Scalar>,
    events: V,
    counts: Seq<usize>,
    count: int,
    values: Seq<Scalar>,
    k: usize,
) where V: Fn(usize, Scalar, &Vec<Scalar>) -> Result<Vec<Scalar>, SolveError>
    requires
        counts.len() == leaves.len(),
        evaluation::events_give(leaves, time, state, events, counts, count, values),
        k < count <= leaves.len(),
    ensures
        values.len() == evaluation::total_events(counts, count),
        evaluation::total_events(counts, k + 1) <= values.len(),
        exists|part: Vec<Scalar>, value: Vec<Scalar>|
            {
                &&& part@ == leaf_part(leaves, state, k as int)
                &&& #[trigger] call_ensures(
                    events,
                    (k, time, &part),
                    Ok::<Vec<Scalar>, SolveError>(value),
                )
                &&& values.subrange(
                    evaluation::total_events(counts, k as int) as int,
                    evaluation::total_events(counts, k + 1) as int,
                ) == value@
            },
    decreases count,
{
    let last = count - 1;
    let value = choose|value: Vec<Scalar>|
        {
            &&& #[trigger] evaluation::leaf_events_give(
                leaves,
                time,
                state,
                events,
                count - 1,
                Ok(value),
            )
            &&& values.len() == evaluation::total_events(counts, count)
            &&& values.skip(evaluation::total_events(counts, count - 1) as int) == value@
            &&& evaluation::events_give(
                leaves,
                time,
                state,
                events,
                counts,
                count - 1,
                values.take(evaluation::total_events(counts, count - 1) as int),
            )
        };
    if k == last {
        let part = choose|part: Vec<Scalar>|
            {
                &&& part@ == state.subrange(
                    system_model::offset_of(leaves, last) as int,
                    system_model::offset_of(leaves, last + 1) as int,
                )
                &&& #[trigger] call_ensures(
                    events,
                    (last as usize, time, &part),
                    Ok::<Vec<Scalar>, SolveError>(value),
                )
            };
        assert(call_ensures(events, (k, time, &part), Ok::<Vec<Scalar>, SolveError>(value)));
        assert(values.subrange(
            evaluation::total_events(counts, k as int) as int,
            evaluation::total_events(counts, k + 1) as int,
        ) =~= value@);
    } else {
        let earlier = values.take(evaluation::total_events(counts, last) as int);
        law_events_are_those_of_the_leaves(
            leaves,
            time,
            state,
            events,
            counts,
            last,
            earlier,
            k,
        );
        assert(values.subrange(
            evaluation::total_events(counts, k as int) as int,
            evaluation::total_events(counts, k + 1) as int,
        ) =~= earlier.subrange(
            evaluation::total_events(counts, k as int) as int,
            evaluation::total_events(counts, k + 1) as int,
        ));
    }
}

/// The steady view of an operator stands at time zero with every rate at zero: the scalar
/// that it takes for the time, and every entry of the vector that it takes for the rate, is
/// the positive zero.
pub proof fn law_steady_view_stands_still(dimension: nat)
    ensures
        Scalar::nil().bits() == 0,
        evaluation::still(dimension).len() == dimension,
        forall|i: int|
            0 <= i < dimension ==> (#[trigger] evaluation::still(dimension)[i]).bits() == 0,
{
    Scalar::lemma_nil();
}

} // verus!
