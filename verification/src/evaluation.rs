//! Evaluation of a composed system: each leaf over its own part of the state, then every
//! coupling edge added in its order.
use crate::graph::CouplingArgument;
use crate::numeric::{NumericError, NumericModel, SolveError};
use crate::operator::TransactionalOperator;
use crate::scalar;
use crate::scalar::{append_scalars, copy_range, copy_scalars, find_non_finite, Scalar};
use crate::system;
use crate::system::CoupledSystemOperator;
use crate::system_model;
use crate::system_model::{LeafModel, ResolvedModel};
use crate::trajectory;
use vstd::prelude::*;

verus! {

/// What the evaluation of a system takes from outside: `leaf` evaluates a leaf, by
/// position, at a time and with its parts of the arguments; `action` applies the action of
/// an edge, by its declared position, to its source; `sum` adds two scalars.
pub struct SystemCalls<L, E, A> where
    L: Fn(usize, Scalar, &Vec<Vec<Scalar>>) -> Result<Vec<Scalar>, SolveError>,
    E: Fn(usize, &Vec<Scalar>) -> Result<Vec<Scalar>, SolveError>,
    A: Fn(Scalar, Scalar) -> Scalar,
 {
    pub leaf: L,
    pub action: E,
    pub sum: A,
}

impl<L, E, A> SystemCalls<L, E, A> where
    L: Fn(usize, Scalar, &Vec<Vec<Scalar>>) -> Result<Vec<Scalar>, SolveError>,
    E: Fn(usize, &Vec<Scalar>) -> Result<Vec<Scalar>, SolveError>,
    A: Fn(Scalar, Scalar) -> Scalar,
 {
    /// Every call is admitted, and values have the shapes that the system declares.
    pub open spec fn callable(self, leaves: Seq<LeafModel>, edges: Seq<ResolvedModel>) -> bool {
        &&& forall|index: usize, time: Scalar, parts: &Vec<Vec<Scalar>>| call_requires(
            self.leaf,
            (index, time, parts),
        )
        &&& forall|
            index: usize,
            time: Scalar,
            parts: &Vec<Vec<Scalar>>,
            value: Result<Vec<Scalar>, SolveError>,
        |
            #[trigger] call_ensures(self.leaf, (index, time, parts), value) && value is Ok && index
                < leaves.len() ==> value->Ok_0@.len() == leaves[index as int].dimension
        &&& forall|position: usize, source: &Vec<Scalar>| call_requires(
            self.action,
            (position, source),
        )
        &&& forall|e: int, position: usize, source: &Vec<Scalar>, value: Result<Vec<Scalar>, SolveError>|
            #![trigger edges[e], call_ensures(self.action, (position, source), value)]
            0 <= e < edges.len() && position == edges[e].action && call_ensures(
                self.action,
                (position, source),
                value,
            ) && value is Ok ==> value->Ok_0@.len() == edges[e].rows
        &&& forall|left: Scalar, right: Scalar| call_requires(self.sum, (left, right))
    }
}

/// The parts of vectors inside a range.
pub open spec fn parts_of(vectors: Seq<Seq<Scalar>>, start: int, end: int) -> Seq<Seq<Scalar>> {
    vectors.map_values(|vector: Seq<Scalar>| vector.subrange(start, end))
}

/// Whether a leaf evaluated to the given value.
pub open spec fn leaf_gives<L>(
    leaves: Seq<LeafModel>,
    vectors: Seq<Seq<Scalar>>,
    time: Scalar,
    leaf: L,
    k: int,
    value: Result<Vec<Scalar>, SolveError>,
) -> bool where L: Fn(usize, Scalar, &Vec<Vec<Scalar>>) -> Result<Vec<Scalar>, SolveError> {
    exists|parts: Vec<Vec<Scalar>>|
        {
            &&& trajectory::vectors(parts@) == parts_of(
                vectors,
                system_model::offset_of(leaves, k) as int,
                system_model::offset_of(leaves, k + 1) as int,
            )
            &&& #[trigger] call_ensures(leaf, (k as usize, time, &parts), value)
        }
}

/// Whether the first `count` leaves evaluated to the given values, one behind the other.
pub open spec fn leaves_give<L>(
    leaves: Seq<LeafModel>,
    vectors: Seq<Seq<Scalar>>,
    time: Scalar,
    leaf: L,
    count: int,
    values: Seq<Scalar>,
) -> bool where L: Fn(usize, Scalar, &Vec<Vec<Scalar>>) -> Result<Vec<Scalar>, SolveError>
    decreases count,
{
    if count <= 0 {
        values.len() == 0
    } else {
        exists|value: Vec<Scalar>|
            {
                &&& #[trigger] leaf_gives(leaves, vectors, time, leaf, count - 1, Ok(value))
                &&& values.len() == system_model::offset_of(leaves, count)
                &&& values.skip(system_model::offset_of(leaves, count - 1) as int) == value@
                &&& leaves_give(
                    leaves,
                    vectors,
                    time,
                    leaf,
                    count - 1,
                    values.take(system_model::offset_of(leaves, count - 1) as int),
                )
            }
    }
}

/// Whether `after` is `before` with the value added from a position on.
pub open spec fn added<A: Fn(Scalar, Scalar) -> Scalar>(
    before: Seq<Scalar>,
    value: Seq<Scalar>,
    start: int,
    sum: A,
    after: Seq<Scalar>,
) -> bool {
    &&& after.len() == before.len()
    &&& forall|i: int|
        0 <= i < after.len() ==> if start <= i < start + value.len() {
            call_ensures(sum, (before[i], value[i - start]), #[trigger] after[i])
        } else {
            after[i] == before[i]
        }
}

/// The argument that an edge acts on.
pub open spec fn edge_source(
    leaves: Seq<LeafModel>,
    edge: ResolvedModel,
    state: Seq<Scalar>,
    rate: Seq<Scalar>,
) -> Seq<Scalar> {
    let whole = match edge.argument {
        CouplingArgument::State => state,
        CouplingArgument::Rate => rate,
    };
    whole.subrange(
        system_model::offset_of(leaves, edge.column as int) as int,
        system_model::offset_of(leaves, edge.column as int + 1) as int,
    )
}

/// Whether the action of an edge gave the given value.
pub open spec fn edge_gives<E>(
    leaves: Seq<LeafModel>,
    edge: ResolvedModel,
    state: Seq<Scalar>,
    rate: Seq<Scalar>,
    action: E,
    value: Result<Vec<Scalar>, SolveError>,
) -> bool where E: Fn(usize, &Vec<Scalar>) -> Result<Vec<Scalar>, SolveError> {
    exists|source: Vec<Scalar>|
        {
            &&& source@ == edge_source(leaves, edge, state, rate)
            &&& #[trigger] call_ensures(action, (edge.action as usize, &source), value)
        }
}

/// Whether the first `count` edges, added in order, lead from `before` to `after`.
pub open spec fn edges_add<E, A>(
    leaves: Seq<LeafModel>,
    edges: Seq<ResolvedModel>,
    state: Seq<Scalar>,
    rate: Seq<Scalar>,
    action: E,
    sum: A,
    count: int,
    before: Seq<Scalar>,
    after: Seq<Scalar>,
) -> bool where
    E: Fn(usize, &Vec<Scalar>) -> Result<Vec<Scalar>, SolveError>,
    A: Fn(Scalar, Scalar) -> Scalar,

    decreases count,
{
    if count <= 0 {
        after == before
    } else {
        exists|between: Seq<Scalar>, value: Vec<Scalar>|
            {
                &&& edges_add(
                    leaves,
                    edges,
                    state,
                    rate,
                    action,
                    sum,
                    count - 1,
                    before,
                    between,
                )
                &&& #[trigger] edge_gives(
                    leaves,
                    edges[count - 1],
                    state,
                    rate,
                    action,
                    Ok(value),
                )
                &&& #[trigger] added(
                    between,
                    value@,
                    system_model::offset_of(leaves, edges[count - 1].row as int) as int,
                    sum,
                    after,
                )
            }
    }
}

/// What evaluating a system over vectors gives; the edges act on two of them.
pub open spec fn evaluated<L, E, A>(
    leaves: Seq<LeafModel>,
    edges: Seq<ResolvedModel>,
    vectors: Seq<Seq<Scalar>>,
    state: Seq<Scalar>,
    rate: Seq<Scalar>,
    time: Scalar,
    label: Seq<char>,
    calls: SystemCalls<L, E, A>,
    result: Result<Vec<Scalar>, NumericError>,
) -> bool where
    L: Fn(usize, Scalar, &Vec<Vec<Scalar>>) -> Result<Vec<Scalar>, SolveError>,
    E: Fn(usize, &Vec<Scalar>) -> Result<Vec<Scalar>, SolveError>,
    A: Fn(Scalar, Scalar) -> Scalar,
 {
    let all = leaves.len() as int;
    match result {
        Ok(values) => exists|raw: Seq<Scalar>|
            {
                &&& #[trigger] leaves_give(leaves, vectors, time, calls.leaf, all, raw)
                &&& edges_add(
                    leaves,
                    edges,
                    state,
                    rate,
                    calls.action,
                    calls.sum,
                    edges.len() as int,
                    raw,
                    values@,
                )
                &&& scalar::all_finite(values@)
            },
        Err(error) => {
            ||| exists|k: int, values: Seq<Scalar>, failure: SolveError|
                {
                    &&& 0 <= k < all
                    &&& #[trigger] leaves_give(leaves, vectors, time, calls.leaf, k, values)
                    &&& #[trigger] leaf_gives(
                        leaves,
                        vectors,
                        time,
                        calls.leaf,
                        k,
                        Err(failure),
                    )
                    &&& error@ == NumericModel::Reported(failure@)
                }
            ||| exists|e: int, raw: Seq<Scalar>, between: Seq<Scalar>, failure: SolveError|
                {
                    &&& 0 <= e < edges.len()
                    &&& #[trigger] leaves_give(leaves, vectors, time, calls.leaf, all, raw)
                    &&& #[trigger] edges_add(
                        leaves,
                        edges,
                        state,
                        rate,
                        calls.action,
                        calls.sum,
                        e,
                        raw,
                        between,
                    )
                    &&& #[trigger] edge_gives(
                        leaves,
                        edges[e],
                        state,
                        rate,
                        calls.action,
                        Err(failure),
                    )
                    &&& error@ == NumericModel::Reported(failure@)
                }
            ||| exists|raw: Seq<Scalar>, values: Seq<Scalar>, index: int|
                {
                    &&& #[trigger] leaves_give(leaves, vectors, time, calls.leaf, all, raw)
                    &&& #[trigger] edges_add(
                        leaves,
                        edges,
                        state,
                        rate,
                        calls.action,
                        calls.sum,
                        edges.len() as int,
                        raw,
                        values,
                    )
                    &&& #[trigger] scalar::first_non_finite(values, index)
                    &&& error@ == (NumericModel::NonFinite {
                        operation: label,
                        index: index as nat,
                    })
                }
        },
    }
}

/// The failure of an argument of the wrong length.
pub open spec fn length_failure(label: Seq<char>, actual: nat, expected: nat) -> Option<
    NumericModel,
> {
    if actual == expected {
        None
    } else {
        Some(NumericModel::DimensionMismatch { operation: label, expected, actual })
    }
}

pub open spec fn first_failure(first: Option<NumericModel>, second: Option<NumericModel>) -> Option<
    NumericModel,
> {
    match first {
        Some(failure) => Some(failure),
        None => second,
    }
}

pub(crate) fn require_len(label: &str, actual: usize, expected: usize) -> (result: Result<
    (),
    NumericError,
>)
    ensures
        match length_failure(label@, actual as nat, expected as nat) {
            Some(failure) => result matches Err(error) && error@ == failure,
            None => result is Ok,
        },
{
    if actual == expected {
        Ok(())
    } else {
        Err(NumericError::DimensionMismatch { operation: label.to_owned(), expected, actual })
    }
}

/// The parts of vectors inside a range.
pub(crate) fn cut(vectors: &Vec<Vec<Scalar>>, start: usize, end: usize) -> (result: Vec<Vec<Scalar>>)
    requires
        start <= end,
        forall|i: int| 0 <= i < vectors@.len() ==> end <= (#[trigger] vectors@[i])@.len(),
    ensures
        trajectory::vectors(result@) == parts_of(
            trajectory::vectors(vectors@),
            start as int,
            end as int,
        ),
{
    let ghost expected = parts_of(trajectory::vectors(vectors@), start as int, end as int);
    let mut result: Vec<Vec<Scalar>> = Vec::new();
    let mut index: usize = 0;
    while index < vectors.len()
        invariant
            index <= vectors@.len(),
            start <= end,
            forall|i: int| 0 <= i < vectors@.len() ==> end <= (#[trigger] vectors@[i])@.len(),
            expected == parts_of(trajectory::vectors(vectors@), start as int, end as int),
            result@.len() == index,
            forall|i: int| 0 <= i < index ==> (#[trigger] result@[i])@ == expected[i],
        decreases vectors.len() - index,
    {
        result.push(copy_range(&vectors[index], start, end));
        index += 1;
    }
    assert(trajectory::vectors(result@) =~= expected);
    result
}

/// Adds a value into a vector from a position on.
fn add_into<A: Fn(Scalar, Scalar) -> Scalar>(
    target: &mut Vec<Scalar>,
    value: &Vec<Scalar>,
    start: usize,
    sum: &A,
)
    requires
        start + value@.len() <= old(target)@.len(),
        forall|left: Scalar, right: Scalar| call_requires(*sum, (left, right)),
    ensures
        added(old(target)@, value@, start as int, *sum, final(target)@),
{
    let ghost before = target@;
    let length: usize = target.len();
    let mut index: usize = 0;
    while index < value.len()
        invariant
            index <= value@.len(),
            start + value@.len() <= length,
            target@.len() == length,
            before.len() == length,
            forall|left: Scalar, right: Scalar| call_requires(*sum, (left, right)),
            forall|i: int|
                0 <= i < length ==> if start <= i < start + index {
                    call_ensures(*sum, (before[i], value@[i - start]), #[trigger] target@[i])
                } else {
                    target@[i] == before[i]
                },
        decreases value.len() - index,
    {
        let position: usize = start + index;
        assert(target@[position as int] == before[position as int]);
        let total = sum(target[position], value[index]);
        target.set(position, total);
        index += 1;
    }
}

proof fn lemma_leaf_behind<L>(
    leaves: Seq<LeafModel>,
    vectors: Seq<Seq<Scalar>>,
    time: Scalar,
    leaf: L,
    count: int,
    values: Seq<Scalar>,
    value: Vec<Scalar>,
) where L: Fn(usize, Scalar, &Vec<Vec<Scalar>>) -> Result<Vec<Scalar>, SolveError>
    requires
        count >= 0,
        leaves_give(leaves, vectors, time, leaf, count, values),
        values.len() == system_model::offset_of(leaves, count),
        leaf_gives(leaves, vectors, time, leaf, count, Ok(value)),
        value@.len() == leaves[count].dimension,
    ensures
        leaves_give(leaves, vectors, time, leaf, count + 1, values + value@),
{
    let longer = values + value@;
    assert(longer.skip(values.len() as int) =~= value@);
    assert(longer.take(values.len() as int) =~= values);
    assert(leaf_gives(leaves, vectors, time, leaf, (count + 1) - 1, Ok(value)));
}

impl CoupledSystemOperator {
    /// Evaluates every leaf over its part of the vectors.
    fn evaluate_leaves<L, E, A>(
        &self,
        vectors: &Vec<Vec<Scalar>>,
        time: Scalar,
        calls: &SystemCalls<L, E, A>,
    ) -> (result: Result<Vec<Scalar>, NumericError>) where
        L: Fn(usize, Scalar, &Vec<Vec<Scalar>>) -> Result<Vec<Scalar>, SolveError>,
        E: Fn(usize, &Vec<Scalar>) -> Result<Vec<Scalar>, SolveError>,
        A: Fn(Scalar, Scalar) -> Scalar,

        requires
            self.wf(),
            calls.callable(self@.leaves, self@.edges),
            forall|i: int|
                0 <= i < vectors@.len() ==> (#[trigger] vectors@[i])@.len() == self.size(),
        ensures
            match result {
                Ok(values) => values@.len() == self.size() && leaves_give(
                    self@.leaves,
                    trajectory::vectors(vectors@),
                    time,
                    calls.leaf,
                    self@.leaves.len() as int,
                    values@,
                ),
                Err(error) => exists|k: int, values: Seq<Scalar>, failure: SolveError|
                    {
                        &&& 0 <= k < self@.leaves.len()
                        &&& #[trigger] leaves_give(
                            self@.leaves,
                            trajectory::vectors(vectors@),
                            time,
                            calls.leaf,
                            k,
                            values,
                        )
                        &&& #[trigger] leaf_gives(
                            self@.leaves,
                            trajectory::vectors(vectors@),
                            time,
                            calls.leaf,
                            k,
                            Err(failure),
                        )
                        &&& error@ == NumericModel::Reported(failure@)
                    },
            },
    {
        let ghost leaves = self@.leaves;
        let ghost models = trajectory::vectors(vectors@);
        proof {
            self.lemma_wf();
        }
        let count: usize = self.leaves().len();
        let mut values: Vec<Scalar> = Vec::new();
        let mut index: usize = 0;
        while index < count
            invariant
                index <= count,
                count == leaves.len(),
                leaves == self@.leaves,
                models == trajectory::vectors(vectors@),
                self.wf(),
                calls.callable(self@.leaves, self@.edges),
                forall|i: int|
                    0 <= i < vectors@.len() ==> (#[trigger] vectors@[i])@.len() == self.size(),
                values@.len() == system_model::offset_of(leaves, index as int),
                leaves_give(leaves, models, time, calls.leaf, index as int, values@),
            decreases count - index,
        {
            let range = match self.leaf_range(index) {
                Some(range) => range,
                None => {
                    assert(false);
                    0..0
                },
            };
            let parts = cut(vectors, range.start, range.end);
            let value = (calls.leaf)(index, time, &parts);
            let ghost given = value;
            proof {
                let k: int = index as int;
                assert(call_ensures(calls.leaf, (k as usize, time, &parts), given));
                assert(leaf_gives(leaves, models, time, calls.leaf, k, given));
            }
            match value {
                Ok(value) => {
                    proof {
                        lemma_leaf_behind(
                            leaves,
                            models,
                            time,
                            calls.leaf,
                            index as int,
                            values@,
                            value,
                        );
                    }
                    append_scalars(&mut values, &value);
                },
                Err(failure) => {
                    return Err(NumericError::Reported(failure));
                },
            }
            index += 1;
        }
        Ok(values)
    }

    /// Evaluates the system over vectors; the edges act on two of them.
    fn evaluate<L, E, A>(
        &self,
        vectors: &Vec<Vec<Scalar>>,
        state: &Vec<Scalar>,
        rate: &Vec<Scalar>,
        time: Scalar,
        label: &str,
        calls: &SystemCalls<L, E, A>,
    ) -> (result: Result<Vec<Scalar>, NumericError>) where
        L: Fn(usize, Scalar, &Vec<Vec<Scalar>>) -> Result<Vec<Scalar>, SolveError>,
        E: Fn(usize, &Vec<Scalar>) -> Result<Vec<Scalar>, SolveError>,
        A: Fn(Scalar, Scalar) -> Scalar,

        requires
            self.wf(),
            calls.callable(self@.leaves, self@.edges),
            forall|i: int|
                0 <= i < vectors@.len() ==> (#[trigger] vectors@[i])@.len() == self.size(),
            state@.len() == self.size(),
            rate@.len() == self.size(),
        ensures
            evaluated(
                self@.leaves,
                self@.edges,
                trajectory::vectors(vectors@),
                state@,
                rate@,
                time,
                label@,
                *calls,
                result,
            ),
            result matches Ok(values) ==> values@.len() == self.size(),
    {
        let ghost leaves = self@.leaves;
        let ghost edges = self@.edges;
        let ghost models = trajectory::vectors(vectors@);
        proof {
            self.lemma_wf();
        }
        let mut values = match self.evaluate_leaves(vectors, time, calls) {
            Ok(values) => values,
            Err(error) => {
                return Err(error);
            },
        };
        let ghost raw = values@;
        let resolved = self.edges();
        let mut index: usize = 0;
        while index < resolved.len()
            invariant
                index <= resolved@.len(),
                leaves == self@.leaves,
                edges == self@.edges,
                edges == system::resolved_models(resolved@),
                models == trajectory::vectors(vectors@),
                self.wf(),
                calls.callable(leaves, edges),
                state@.len() == self.size(),
                rate@.len() == self.size(),
                values@.len() == self.size(),
                leaves_give(leaves, models, time, calls.leaf, leaves.len() as int, raw),
                edges_add(
                    leaves,
                    edges,
                    state@,
                    rate@,
                    calls.action,
                    calls.sum,
                    index as int,
                    raw,
                    values@,
                ),
            decreases resolved.len() - index,
        {
            let edge = &resolved[index];
            assert(edges[index as int] == edge@);
            proof {
                self.lemma_wf();
                assert(system_model::edge_valid(leaves, edges[index as int]));
            }
            let column = match self.leaf_range(edge.column) {
                Some(range) => range,
                None => {
                    assert(false);
                    0..0
                },
            };
            let row = match self.leaf_range(edge.row) {
                Some(range) => range,
                None => {
                    assert(false);
                    0..0
                },
            };
            let source = match edge.argument {
                CouplingArgument::State => copy_range(state, column.start, column.end),
                CouplingArgument::Rate => copy_range(rate, column.start, column.end),
            };
            let value = (calls.action)(edge.action, &source);
            let ghost given = value;
            proof {
                let model = edges[index as int];
                assert(source@ == edge_source(leaves, model, state@, rate@));
                assert(call_ensures(calls.action, (model.action as usize, &source), given));
                assert(edge_gives(leaves, model, state@, rate@, calls.action, given));
            }
            match value {
                Ok(value) => {
                    let ghost between = values@;
                    add_into(&mut values, &value, row.start, &calls.sum);
                    proof {
                        let next: int = index + 1;
                        assert(edge_gives(
                            leaves,
                            edges[next - 1],
                            state@,
                            rate@,
                            calls.action,
                            Ok(value),
                        ));
                        assert(added(
                            between,
                            value@,
                            system_model::offset_of(leaves, edges[next - 1].row as int) as int,
                            calls.sum,
                            values@,
                        ));
                        assert(edges_add(
                            leaves,
                            edges,
                            state@,
                            rate@,
                            calls.action,
                            calls.sum,
                            next - 1,
                            raw,
                            between,
                        ));
                    }
                },
                Err(failure) => {
                    return Err(NumericError::Reported(failure));
                },
            }
            index += 1;
        }
        assert(edges_add(
            leaves,
            edges,
            state@,
            rate@,
            calls.action,
            calls.sum,
            edges.len() as int,
            raw,
            values@,
        ));
        match find_non_finite(&values) {
            Some(index) => {
                assert(scalar::first_non_finite(values@, index as int));
                Err(NumericError::NonFinite { operation: label.to_owned(), index })
            },
            None => Ok(values),
        }
    }

    /// The composed residual at a time, state and rate, for an output of the given length.
    pub fn residual<L, E, A>(
        &self,
        time: Scalar,
        state: &Vec<Scalar>,
        state_rate: &Vec<Scalar>,
        output_length: usize,
        calls: &SystemCalls<L, E, A>,
    ) -> (result: Result<Vec<Scalar>, NumericError>) where
        L: Fn(usize, Scalar, &Vec<Vec<Scalar>>) -> Result<Vec<Scalar>, SolveError>,
        E: Fn(usize, &Vec<Scalar>) -> Result<Vec<Scalar>, SolveError>,
        A: Fn(Scalar, Scalar) -> Scalar,

        requires
            self.wf(),
            calls.callable(self@.leaves, self@.edges),
        ensures
            residual_given(
                *self,
                time,
                state@,
                state_rate@,
                output_length as nat,
                *calls,
                result,
            ),
            result matches Ok(values) ==> values@.len() == self.size(),
    {
        let dimension: usize = self.dimension();
        match require_len("coupled system state", state.len(), dimension) {
            Ok(_) => {},
            Err(error) => {
                return Err(error);
            },
        }
        match require_len("coupled system state rate", state_rate.len(), dimension) {
            Ok(_) => {},
            Err(error) => {
                return Err(error);
            },
        }
        match require_len("coupled system residual", output_length, dimension) {
            Ok(_) => {},
            Err(error) => {
                return Err(error);
            },
        }
        let mut vectors: Vec<Vec<Scalar>> = Vec::new();
        vectors.push(copy_scalars(state));
        vectors.push(copy_scalars(state_rate));
        assert(trajectory::vectors(vectors@) =~= seq![state@, state_rate@]);
        self.evaluate(&vectors, state, state_rate, time, "coupled system residual", calls)
    }

    /// The composed Jacobian-vector product, for an output of the given length.
    pub fn jacobian_vector_product<L, E, A>(
        &self,
        time: Scalar,
        state: &Vec<Scalar>,
        state_rate: &Vec<Scalar>,
        state_direction: &Vec<Scalar>,
        rate_direction: &Vec<Scalar>,
        output_length: usize,
        calls: &SystemCalls<L, E, A>,
    ) -> (result: Result<Vec<Scalar>, NumericError>) where
        L: Fn(usize, Scalar, &Vec<Vec<Scalar>>) -> Result<Vec<Scalar>, SolveError>,
        E: Fn(usize, &Vec<Scalar>) -> Result<Vec<Scalar>, SolveError>,
        A: Fn(Scalar, Scalar) -> Scalar,

        requires
            self.wf(),
            calls.callable(self@.leaves, self@.edges),
        ensures
            product_given(
                *self,
                time,
                state@,
                state_rate@,
                state_direction@,
                rate_direction@,
                output_length as nat,
                *calls,
                result,
            ),
            result matches Ok(values) ==> values@.len() == self.size(),
    {
        let dimension: usize = self.dimension();
        match require_len("coupled system state", state.len(), dimension) {
            Ok(_) => {},
            Err(error) => {
                return Err(error);
            },
        }
        match require_len("coupled system state rate", state_rate.len(), dimension) {
            Ok(_) => {},
            Err(error) => {
                return Err(error);
            },
        }
        match require_len("coupled system state direction", state_direction.len(), dimension) {
            Ok(_) => {},
            Err(error) => {
                return Err(error);
            },
        }
        match require_len("coupled system rate direction", rate_direction.len(), dimension) {
            Ok(_) => {},
            Err(error) => {
                return Err(error);
            },
        }
        match require_len("coupled system JVP", output_length, dimension) {
            Ok(_) => {},
            Err(error) => {
                return Err(error);
            },
        }
        let mut vectors: Vec<Vec<Scalar>> = Vec::new();
        vectors.push(copy_scalars(state));
        vectors.push(copy_scalars(state_rate));
        vectors.push(copy_scalars(state_direction));
        vectors.push(copy_scalars(rate_direction));
        assert(trajectory::vectors(vectors@) =~= seq![
            state@,
            state_rate@,
            state_direction@,
            rate_direction@,
        ]);
        self.evaluate(
            &vectors,
            state_direction,
            rate_direction,
            time,
            "coupled system JVP",
            calls,
        )
    }

    /// The steady residual: at time zero and zero rate.
    pub fn steady_residual<L, E, A>(
        &self,
        state: &Vec<Scalar>,
        output_length: usize,
        calls: &SystemCalls<L, E, A>,
    ) -> (result: Result<Vec<Scalar>, NumericError>) where
        L: Fn(usize, Scalar, &Vec<Vec<Scalar>>) -> Result<Vec<Scalar>, SolveError>,
        E: Fn(usize, &Vec<Scalar>) -> Result<Vec<Scalar>, SolveError>,
        A: Fn(Scalar, Scalar) -> Scalar,

        requires
            self.wf(),
            calls.callable(self@.leaves, self@.edges),
        ensures
            residual_given(
                *self,
                Scalar::nil(),
                state@,
                still(self.size()),
                output_length as nat,
                *calls,
                result,
            ),
            result matches Ok(values) ==> values@.len() == self.size(),
    {
        let rate = still_vector(self.dimension());
        self.residual(Scalar::zero(), state, &rate, output_length, calls)
    }

    /// The steady Jacobian-vector product: at time zero, zero rate and no rate direction.
    pub fn steady_jacobian_vector_product<L, E, A>(
        &self,
        state: &Vec<Scalar>,
        direction: &Vec<Scalar>,
        output_length: usize,
        calls: &SystemCalls<L, E, A>,
    ) -> (result: Result<Vec<Scalar>, NumericError>) where
        L: Fn(usize, Scalar, &Vec<Vec<Scalar>>) -> Result<Vec<Scalar>, SolveError>,
        E: Fn(usize, &Vec<Scalar>) -> Result<Vec<Scalar>, SolveError>,
        A: Fn(Scalar, Scalar) -> Scalar,

        requires
            self.wf(),
            calls.callable(self@.leaves, self@.edges),
        ensures
            product_given(
                *self,
                Scalar::nil(),
                state@,
                still(self.size()),
                direction@,
                still(self.size()),
                output_length as nat,
                *calls,
                result,
            ),
            result matches Ok(values) ==> values@.len() == self.size(),
    {
        let rate = still_vector(self.dimension());
        self.jacobian_vector_product(
            Scalar::zero(),
            state,
            &rate,
            direction,
            &rate,
            output_length,
            calls,
        )
    }
}

/// What the residual of a system gives.
pub open spec fn residual_given<L, E, A>(
    operator: CoupledSystemOperator,
    time: Scalar,
    state: Seq<Scalar>,
    rate: Seq<Scalar>,
    output_length: nat,
    calls: SystemCalls<L, E, A>,
    result: Result<Vec<Scalar>, NumericError>,
) -> bool where
    L: Fn(usize, Scalar, &Vec<Vec<Scalar>>) -> Result<Vec<Scalar>, SolveError>,
    E: Fn(usize, &Vec<Scalar>) -> Result<Vec<Scalar>, SolveError>,
    A: Fn(Scalar, Scalar) -> Scalar,
 {
    match residual_failure(operator.size(), state.len(), rate.len(), output_length) {
        Some(failure) => result matches Err(error) && error@ == failure,
        None => evaluated(
            operator@.leaves,
            operator@.edges,
            seq![state, rate],
            state,
            rate,
            time,
            "coupled system residual"@,
            calls,
            result,
        ),
    }
}

/// What the Jacobian-vector product of a system gives.
pub open spec fn product_given<L, E, A>(
    operator: CoupledSystemOperator,
    time: Scalar,
    state: Seq<Scalar>,
    rate: Seq<Scalar>,
    state_direction: Seq<Scalar>,
    rate_direction: Seq<Scalar>,
    output_length: nat,
    calls: SystemCalls<L, E, A>,
    result: Result<Vec<Scalar>, NumericError>,
) -> bool where
    L: Fn(usize, Scalar, &Vec<Vec<Scalar>>) -> Result<Vec<Scalar>, SolveError>,
    E: Fn(usize, &Vec<Scalar>) -> Result<Vec<Scalar>, SolveError>,
    A: Fn(Scalar, Scalar) -> Scalar,
 {
    match product_failure(
        operator.size(),
        state.len(),
        rate.len(),
        state_direction.len(),
        rate_direction.len(),
        output_length,
    ) {
        Some(failure) => result matches Err(error) && error@ == failure,
        None => evaluated(
            operator@.leaves,
            operator@.edges,
            seq![state, rate, state_direction, rate_direction],
            state_direction,
            rate_direction,
            time,
            "coupled system JVP"@,
            calls,
            result,
        ),
    }
}

/// What is wrong with the lengths of a residual evaluation.
pub open spec fn residual_failure(dimension: nat, state: nat, rate: nat, output: nat) -> Option<
    NumericModel,
> {
    first_failure(
        length_failure("coupled system state"@, state, dimension),
        first_failure(
            length_failure("coupled system state rate"@, rate, dimension),
            length_failure("coupled system residual"@, output, dimension),
        ),
    )
}

/// What is wrong with the lengths of a product evaluation.
pub open spec fn product_failure(
    dimension: nat,
    state: nat,
    rate: nat,
    state_direction: nat,
    rate_direction: nat,
    output: nat,
) -> Option<NumericModel> {
    first_failure(
        length_failure("coupled system state"@, state, dimension),
        first_failure(
            length_failure("coupled system state rate"@, rate, dimension),
            first_failure(
                length_failure("coupled system state direction"@, state_direction, dimension),
                first_failure(
                    length_failure("coupled system rate direction"@, rate_direction, dimension),
                    length_failure("coupled system JVP"@, output, dimension),
                ),
            ),
        ),
    )
}

/// The zero vector.
pub open spec fn still(dimension: nat) -> Seq<Scalar> {
    Seq::new(dimension, |i: int| Scalar::nil())
}

pub(crate) fn still_vector(dimension: usize) -> (result: Vec<Scalar>)
    ensures
        result@ == still(dimension as nat),
{
    let mut result: Vec<Scalar> = Vec::new();
    while result.len() < dimension
        invariant
            result.len() <= dimension,
            forall|i: int| 0 <= i < result@.len() ==> (#[trigger] result@[i]) == Scalar::nil(),
        decreases dimension - result.len(),
    {
        result.push(Scalar::zero());
    }
    assert(result@ =~= still(dimension as nat));
    result
}

/// The events of the first `count` leaves together.
pub open spec fn total_events(counts: Seq<usize>, count: int) -> nat
    decreases count,
{
    if count <= 0 {
        0
    } else {
        total_events(counts, count - 1) + counts[count - 1] as nat
    }
}

proof fn lemma_total_monotone(counts: Seq<usize>, i: int, j: int)
    requires
        0 <= i <= j <= counts.len(),
    ensures
        total_events(counts, i) <= total_events(counts, j),
    decreases j - i,
{
    if i < j {
        lemma_total_monotone(counts, i, j - 1);
    }
}

/// The events of all leaves together, from the events of each.
pub fn event_count(counts: &Vec<usize>) -> (result: usize)
    requires
        total_events(counts@, counts@.len() as int) <= usize::MAX,
    ensures
        result == total_events(counts@, counts@.len() as int),
{
    let mut total: usize = 0;
    let mut index: usize = 0;
    while index < counts.len()
        invariant
            index <= counts@.len(),
            total == total_events(counts@, index as int),
            total_events(counts@, counts@.len() as int) <= usize::MAX,
        decreases counts.len() - index,
    {
        proof {
            lemma_total_monotone(counts@, index + 1, counts@.len() as int);
        }
        total = total + counts[index];
        index += 1;
    }
    total
}

/// Whether the event functions of a leaf gave the given values.
pub open spec fn leaf_events_give<V>(
    leaves: Seq<LeafModel>,
    time: Scalar,
    state: Seq<Scalar>,
    events: V,
    k: int,
    value: Result<Vec<Scalar>, SolveError>,
) -> bool where V: Fn(usize, Scalar, &Vec<Scalar>) -> Result<Vec<Scalar>, SolveError> {
    exists|part: Vec<Scalar>|
        {
            &&& part@ == state.subrange(
                system_model::offset_of(leaves, k) as int,
                system_model::offset_of(leaves, k + 1) as int,
            )
            &&& #[trigger] call_ensures(events, (k as usize, time, &part), value)
        }
}

/// Whether the event functions of the first `count` leaves gave the given values.
pub open spec fn events_give<V>(
    leaves: Seq<LeafModel>,
    time: Scalar,
    state: Seq<Scalar>,
    events: V,
    counts: Seq<usize>,
    count: int,
    values: Seq<Scalar>,
) -> bool where V: Fn(usize, Scalar, &Vec<Scalar>) -> Result<Vec<Scalar>, SolveError>
    decreases count,
{
    if count <= 0 {
        values.len() == 0
    } else {
        exists|value: Vec<Scalar>|
            {
                &&& #[trigger] leaf_events_give(leaves, time, state, events, count - 1, Ok(value))
                &&& values.len() == total_events(counts, count)
                &&& values.skip(total_events(counts, count - 1) as int) == value@
                &&& events_give(
                    leaves,
                    time,
                    state,
                    events,
                    counts,
                    count - 1,
                    values.take(total_events(counts, count - 1) as int),
                )
            }
    }
}

impl CoupledSystemOperator {
    /// The values of every leaf's event functions, leaf by leaf. `counts` holds the number
    /// of each leaf's event functions; `events` evaluates those of a leaf at the time, on
    /// its part of the state.
    pub fn event_values<V>(
        &self,
        time: Scalar,
        state: &Vec<Scalar>,
        counts: &Vec<usize>,
        output_length: usize,
        events: &V,
    ) -> (result: Result<Vec<Scalar>, NumericError>) where
        V: Fn(usize, Scalar, &Vec<Scalar>) -> Result<Vec<Scalar>, SolveError>,

        requires
            self.wf(),
            counts@.len() == self@.leaves.len(),
            total_events(counts@, counts@.len() as int) <= usize::MAX,
            forall|index: usize, part: &Vec<Scalar>| call_requires(*events, (index, time, part)),
            forall|index: usize, part: &Vec<Scalar>, value: Result<Vec<Scalar>, SolveError>|
                #[trigger] call_ensures(*events, (index, time, part), value) && value is Ok && index
                    < counts@.len() ==> value->Ok_0@.len() == counts@[index as int],
        ensures
            match first_failure(
                length_failure("coupled system state"@, state@.len(), self.size()),
                length_failure(
                    "coupled system events"@,
                    output_length as nat,
                    total_events(counts@, counts@.len() as int),
                ),
            ) {
                Some(failure) => result matches Err(error) && error@ == failure,
                None => match result {
                    Ok(values) => events_give(
                        self@.leaves,
                        time,
                        state@,
                        *events,
                        counts@,
                        counts@.len() as int,
                        values@,
                    ),
                    Err(error) => exists|k: int, values: Seq<Scalar>, failure: SolveError|
                        {
                            &&& 0 <= k < counts@.len()
                            &&& #[trigger] events_give(
                                self@.leaves,
                                time,
                                state@,
                                *events,
                                counts@,
                                k,
                                values,
                            )
                            &&& #[trigger] leaf_events_give(
                                self@.leaves,
                                time,
                                state@,
                                *events,
                                k,
                                Err(failure),
                            )
                            &&& error@ == NumericModel::Reported(failure@)
                        },
                },
            },
    {
        match require_len("coupled system state", state.len(), self.dimension()) {
            Ok(_) => {},
            Err(error) => {
                return Err(error);
            },
        }
        match require_len("coupled system events", output_length, event_count(counts)) {
            Ok(_) => {},
            Err(error) => {
                return Err(error);
            },
        }
        let ghost leaves = self@.leaves;
        let mut values: Vec<Scalar> = Vec::new();
        let mut index: usize = 0;
        while index < counts.len()
            invariant
                index <= counts@.len(),
                leaves == self@.leaves,
                counts@.len() == leaves.len(),
                self.wf(),
                state@.len() == self.size(),
                forall|index: usize, part: &Vec<Scalar>|
                    call_requires(*events, (index, time, part)),
                forall|index: usize, part: &Vec<Scalar>, value: Result<Vec<Scalar>, SolveError>|
                    #[trigger] call_ensures(*events, (index, time, part), value) && value is Ok
                        && index < counts@.len() ==> value->Ok_0@.len() == counts@[index as int],
                values@.len() == total_events(counts@, index as int),
                events_give(leaves, time, state@, *events, counts@, index as int, values@),
                first_failure(
                    length_failure("coupled system state"@, state@.len(), self.size()),
                    length_failure(
                        "coupled system events"@,
                        output_length as nat,
                        total_events(counts@, counts@.len() as int),
                    ),
                ) is None,
            decreases counts.len() - index,
        {
            let range = match self.leaf_range(index) {
                Some(range) => range,
                None => {
                    assert(false);
                    0..0
                },
            };
            let part = copy_range(state, range.start, range.end);
            let value = events(index, time, &part);
            let ghost given = value;
            proof {
                let k: int = index as int;
                assert(call_ensures(*events, (k as usize, time, &part), given));
                assert(leaf_events_give(leaves, time, state@, *events, k, given));
            }
            match value {
                Ok(value) => {
                    let ghost before = values@;
                    append_scalars(&mut values, &value);
                    proof {
                        let next: int = index + 1;
                        assert(values@.skip(before.len() as int) =~= value@);
                        assert(values@.take(before.len() as int) =~= before);
                        assert(leaf_events_give(
                            leaves,
                            time,
                            state@,
                            *events,
                            next - 1,
                            Ok(value),
                        ));
                        assert(events_give(leaves, time, state@, *events, counts@, next, values@));
                    }
                },
                Err(failure) => {
                    return Err(NumericError::Reported(failure));
                },
            }
            index += 1;
        }
        Ok(values)
    }
}

} // verus!
