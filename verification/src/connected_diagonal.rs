//! The diagonal of a connected system's Jacobian, where the diagonals of its leaves
//! determine it.
use crate::connected::{ConnectedSystemOperator, ConstraintSet};
use crate::connected_evaluation;
use crate::connected_evaluation::{numerical, TraceCalls};
use crate::evaluation;
use crate::evaluation::still_vector;
use crate::numeric::{NumericError, NumericModel, SolveError};
use crate::operator::TransactionalOperator;
use crate::realization::{Constraint, FinitumRealization};
use crate::scalar::{append_scalars, copy_range, Scalar};
use crate::system;
use crate::system::CoupledSystemOperator;
use crate::system_model;
use crate::system_model::LeafModel;
use crate::trajectory;
use vstd::prelude::*;

verus! {

/// The leaf among the first `count` that holds a row: the last one that does not start
/// behind it.
pub open spec fn leaf_of(leaves: Seq<LeafModel>, row: int, count: int) -> int
    decreases count,
{
    if count <= 1 || system_model::offset_of(leaves, count - 1) <= row {
        count - 1
    } else {
        leaf_of(leaves, row, count - 1)
    }
}

pub open spec fn home(leaves: Seq<LeafModel>, row: usize) -> int {
    leaf_of(leaves, row as int, leaves.len() as int)
}

/// Whether every constraint identifies its target with one other unknown.
pub open spec fn plain_matches(constraints: Seq<Constraint>) -> bool {
    forall|c: int| 0 <= c < constraints.len() ==> plain_match(#[trigger] constraints[c])
}

pub open spec fn plain_match(constraint: Constraint) -> bool {
    &&& constraint.dependencies@.len() == 1
    &&& constraint.dependencies@[0].weight.same_value(Scalar::unit())
}

/// The unknown that a constraint identifies its target with.
pub open spec fn master(constraint: Constraint) -> usize {
    constraint.dependencies@[0].dof
}

/// Whether a constraint's target shares no leaf with what it is identified with, given the
/// constraints before it.
pub open spec fn apart(
    leaves: Seq<LeafModel>,
    constraints: Seq<Constraint>,
    c: int,
) -> bool {
    let target = home(leaves, constraints[c].target);
    &&& target != home(leaves, master(constraints[c]))
    &&& forall|d: int|
        0 <= d < c && master(#[trigger] constraints[d]) == master(constraints[c]) ==> home(
            leaves,
            constraints[d].target,
        ) != target
}

/// Whether no leaf holds two unknowns that are identified with each other.
pub open spec fn separated(leaves: Seq<LeafModel>, constraints: Seq<Constraint>) -> bool {
    forall|c: int| 0 <= c < constraints.len() ==> #[trigger] apart(leaves, constraints, c)
}

/// Whether the diagonals of the leaves determine the diagonal of the connected system: no
/// coupling edge, plain matches only, and no two matched unknowns in one leaf.
pub open spec fn diagonal_exact(operator: ConnectedSystemOperator) -> bool {
    let constraints = operator.traces().constraints@;
    &&& operator.system().coupling().arcs().len() == 0
    &&& plain_matches(constraints)
    &&& separated(operator.system()@.leaves, constraints)
}

/// Two vectors as the arguments of one evaluation.
pub open spec fn both(first: Seq<Scalar>, second: Seq<Scalar>) -> Seq<Seq<Scalar>> {
    seq![first, second]
}

/// Whether the diagonal of a realization, by position, came out as given.
pub open spec fn diagonal_gives<G>(
    sources: Seq<FinitumRealization<'_>>,
    vectors: Seq<Seq<Scalar>>,
    time: Scalar,
    rate_shift: Scalar,
    local: G,
    k: int,
    value: Result<Option<Vec<Scalar>>, SolveError>,
) -> bool where
    G: Fn(usize, Scalar, &Vec<Vec<Scalar>>, Scalar) -> Result<Option<Vec<Scalar>>, SolveError>,
 {
    exists|parts: Vec<Vec<Scalar>>|
        {
            &&& trajectory::vectors(parts@) == evaluation::parts_of(
                vectors,
                system::reduced_width(sources, k) as int,
                system::reduced_width(sources, k + 1) as int,
            )
            &&& #[trigger] call_ensures(local, (k as usize, time, &parts, rate_shift), value)
        }
}

/// Whether the diagonals of the first `count` realizations, all of them reduced systems, are
/// the given values, one behind the other.
pub open spec fn diagonals_give<G>(
    sources: Seq<FinitumRealization<'_>>,
    vectors: Seq<Seq<Scalar>>,
    time: Scalar,
    rate_shift: Scalar,
    local: G,
    count: int,
    values: Seq<Scalar>,
) -> bool where
    G: Fn(usize, Scalar, &Vec<Vec<Scalar>>, Scalar) -> Result<Option<Vec<Scalar>>, SolveError>,

    decreases count,
{
    if count <= 0 {
        values.len() == 0
    } else {
        exists|value: Vec<Scalar>|
            {
                &&& #[trigger] diagonal_gives(
                    sources,
                    vectors,
                    time,
                    rate_shift,
                    local,
                    count - 1,
                    Ok(Some(value)),
                )
                &&& sources[count - 1] is ReducedSystem
                &&& value@.len() <= values.len()
                &&& values.skip(values.len() - value@.len()) == value@
                &&& diagonals_give(
                    sources,
                    vectors,
                    time,
                    rate_shift,
                    local,
                    count - 1,
                    values.take(values.len() - value@.len()),
                )
            }
    }
}

/// What collecting the diagonals of the realizations gives: none when one of them is no
/// reduced system or has none.
pub open spec fn diagonals_collected<G>(
    sources: Seq<FinitumRealization<'_>>,
    vectors: Seq<Seq<Scalar>>,
    time: Scalar,
    rate_shift: Scalar,
    local: G,
    result: Result<Option<Vec<Scalar>>, NumericError>,
) -> bool where
    G: Fn(usize, Scalar, &Vec<Vec<Scalar>>, Scalar) -> Result<Option<Vec<Scalar>>, SolveError>,
 {
    match result {
        Ok(Some(values)) => diagonals_give(
            sources,
            vectors,
            time,
            rate_shift,
            local,
            sources.len() as int,
            values@,
        ),
        Ok(None) => exists|k: int, values: Seq<Scalar>|
            {
                &&& 0 <= k < sources.len()
                &&& #[trigger] diagonals_give(
                    sources,
                    vectors,
                    time,
                    rate_shift,
                    local,
                    k,
                    values,
                )
                &&& sources[k] is Plan || diagonal_gives(
                    sources,
                    vectors,
                    time,
                    rate_shift,
                    local,
                    k,
                    Ok(None),
                )
            },
        Err(error) => exists|k: int, values: Seq<Scalar>, failure: SolveError|
            {
                &&& 0 <= k < sources.len()
                &&& #[trigger] diagonals_give(
                    sources,
                    vectors,
                    time,
                    rate_shift,
                    local,
                    k,
                    values,
                )
                &&& #[trigger] diagonal_gives(
                    sources,
                    vectors,
                    time,
                    rate_shift,
                    local,
                    k,
                    Err(failure),
                )
                &&& error@ == NumericModel::Reported(failure@)
            },
    }
}

/// The diagonal with a one on every eliminated row.
pub open spec fn rows_marked(
    constraints: Seq<Constraint>,
    before: Seq<Scalar>,
    after: Seq<Scalar>,
) -> bool {
    &&& after.len() == before.len()
    &&& forall|i: int|
        0 <= i < after.len() ==> #[trigger] after[i] == if connected_evaluation::is_target(
            constraints,
            i,
        ) {
            Scalar::unit()
        } else {
            before[i]
        }
}

/// Finds the leaf that holds a row.
fn find_leaf(inner: &CoupledSystemOperator, row: usize) -> (result: usize)
    requires
        inner.wf(),
        row < inner.size(),
    ensures
        result == home(inner@.leaves, row),
        result < inner@.leaves.len(),
{
    proof {
        inner.lemma_wf();
    }
    let ghost leaves = inner@.leaves;
    let mut count: usize = inner.leaves().len();
    while count > 1
        invariant
            1 <= count <= leaves.len(),
            leaves == inner@.leaves,
            inner.wf(),
            home(leaves, row) == leaf_of(leaves, row as int, count as int),
        decreases count,
    {
        match inner.leaf_range(count - 1) {
            Some(range) => {
                if range.start <= row {
                    return count - 1;
                }
            },
            None => {
                assert(false);
            },
        }
        count -= 1;
    }
    0
}

fn match_is_plain(constraint: &Constraint) -> (result: bool)
    ensures
        result == plain_match(*constraint),
{
    constraint.dependencies.len() == 1 && constraint.dependencies[0].weight.is_equal(
        &Scalar::one(),
    )
}

fn matches_are_plain(constraints: &Vec<Constraint>) -> (result: bool)
    ensures
        result == plain_matches(constraints@),
{
    let mut index: usize = 0;
    while index < constraints.len()
        invariant
            index <= constraints@.len(),
            forall|c: int| 0 <= c < index ==> plain_match(#[trigger] constraints@[c]),
        decreases constraints.len() - index,
    {
        if !match_is_plain(&constraints[index]) {
            assert(!plain_match(constraints@[index as int]));
            return false;
        }
        index += 1;
    }
    true
}

fn is_apart(inner: &CoupledSystemOperator, set: &ConstraintSet, index: usize) -> (result: bool)
    requires
        inner.wf(),
        set.valid(),
        set.dof_count == inner.size(),
        plain_matches(set.constraints@),
        index < set.constraints@.len(),
    ensures
        result == apart(inner@.leaves, set.constraints@, index as int),
{
    let ghost leaves = inner@.leaves;
    let constraints = &set.constraints;
    let constraint = &constraints[index];
    assert(plain_match(constraints@[index as int]));
    assert(crate::connected::constraint_valid(
        constraints@[index as int],
        set.dof_count as int,
    ));
    assert(constraint.dependencies@[0].dof < set.dof_count);
    let shared: usize = constraint.dependencies[0].dof;
    let target: usize = find_leaf(inner, constraint.target);
    if target == find_leaf(inner, shared) {
        return false;
    }
    let mut other: usize = 0;
    while other < index
        invariant
            other <= index < constraints@.len(),
            constraints@ == set.constraints@,
            leaves == inner@.leaves,
            inner.wf(),
            set.valid(),
            set.dof_count == inner.size(),
            plain_matches(constraints@),
            shared == master(constraints@[index as int]),
            target == home(leaves, constraints@[index as int].target),
            forall|d: int|
                0 <= d < other && master(#[trigger] constraints@[d]) == shared ==> home(
                    leaves,
                    constraints@[d].target,
                ) != target,
        decreases index - other,
    {
        let earlier = &constraints[other];
        assert(plain_match(constraints@[other as int]));
        assert(crate::connected::constraint_valid(
            constraints@[other as int],
            set.dof_count as int,
        ));
        if earlier.dependencies[0].dof == shared && find_leaf(inner, earlier.target) == target {
            assert(master(constraints@[other as int]) == shared);
            return false;
        }
        other += 1;
    }
    true
}

fn are_separated(inner: &CoupledSystemOperator, set: &ConstraintSet) -> (result: bool)
    requires
        inner.wf(),
        set.valid(),
        set.dof_count == inner.size(),
        plain_matches(set.constraints@),
    ensures
        result == separated(inner@.leaves, set.constraints@),
{
    let mut index: usize = 0;
    while index < set.constraints.len()
        invariant
            index <= set.constraints@.len(),
            inner.wf(),
            set.valid(),
            set.dof_count == inner.size(),
            plain_matches(set.constraints@),
            forall|c: int|
                0 <= c < index ==> #[trigger] apart(inner@.leaves, set.constraints@, c),
        decreases set.constraints.len() - index,
    {
        if !is_apart(inner, set, index) {
            return false;
        }
        index += 1;
    }
    true
}

fn mark_rows(set: &ConstraintSet, diagonal: &mut Vec<Scalar>)
    requires
        set.valid(),
        old(diagonal)@.len() == set.dof_count,
    ensures
        rows_marked(set.constraints@, old(diagonal)@, final(diagonal)@),
{
    let ghost before = diagonal@;
    let list = &set.constraints;
    let mut index: usize = 0;
    assert(rows_marked(list@.take(0), before, diagonal@)) by {
        assert forall|i: int| !connected_evaluation::is_target(list@.take(0), i) by {}
    }
    while index < list.len()
        invariant
            index <= list@.len(),
            list@ == set.constraints@,
            set.valid(),
            diagonal@.len() == set.dof_count,
            rows_marked(list@.take(index as int), before, diagonal@),
        decreases list.len() - index,
    {
        let row: usize = list[index].target;
        assert(row < set.dof_count) by {
            assert(set.constraints@[index as int].target < set.dof_count);
        }
        let ghost held = diagonal@;
        diagonal.set(row, Scalar::one());
        proof {
            let shorter = list@.take(index as int);
            let longer = list@.take(index + 1);
            assert forall|i: int| 0 <= i < diagonal@.len() implies #[trigger] diagonal@[i]
                == if connected_evaluation::is_target(longer, i) {
                Scalar::unit()
            } else {
                before[i]
            } by {
                assert(held[i] == held[i]);
                if connected_evaluation::is_target(longer, i) && i != row {
                    let c = choose|c: int|
                        0 <= c < longer.len() && (#[trigger] longer[c]).target == i;
                    assert(shorter[c] == longer[c]);
                    assert(connected_evaluation::is_target(shorter, i));
                }
                if connected_evaluation::is_target(shorter, i) {
                    let c = choose|c: int|
                        0 <= c < shorter.len() && (#[trigger] shorter[c]).target == i;
                    assert(longer[c] == shorter[c]);
                }
                if i == row {
                    assert(longer[index as int].target == i);
                }
            }
        }
        index += 1;
    }
    assert(list@.take(index as int) =~= set.constraints@);
}

proof fn lemma_diagonal_behind<G>(
    sources: Seq<FinitumRealization<'_>>,
    vectors: Seq<Seq<Scalar>>,
    time: Scalar,
    rate_shift: Scalar,
    local: G,
    count: int,
    values: Seq<Scalar>,
    value: Vec<Scalar>,
) where
    G: Fn(usize, Scalar, &Vec<Vec<Scalar>>, Scalar) -> Result<Option<Vec<Scalar>>, SolveError>,

    requires
        count >= 0,
        diagonals_give(sources, vectors, time, rate_shift, local, count, values),
        diagonal_gives(sources, vectors, time, rate_shift, local, count, Ok(Some(value))),
        sources[count] is ReducedSystem,
    ensures
        diagonals_give(sources, vectors, time, rate_shift, local, count + 1, values + value@),
{
    let longer = values + value@;
    assert(longer.len() - value@.len() == values.len());
    assert(longer.skip(values.len() as int) =~= value@);
    assert(longer.take(values.len() as int) =~= values);
    assert(diagonal_gives(
        sources,
        vectors,
        time,
        rate_shift,
        local,
        (count + 1) - 1,
        Ok(Some(value)),
    ));
}

impl ConnectedSystemOperator {
    fn collect_diagonals<G>(
        &self,
        time: Scalar,
        physical: &Vec<Scalar>,
        rate: &Vec<Scalar>,
        rate_shift: Scalar,
        local: &G,
    ) -> (result: Result<Option<Vec<Scalar>>, NumericError>) where
        G: Fn(usize, Scalar, &Vec<Vec<Scalar>>, Scalar) -> Result<Option<Vec<Scalar>>, SolveError>,

        requires
            self.wf(),
            physical@.len() == self.size(),
            rate@.len() == self.size(),
            forall|index: usize, at: Scalar, parts: &Vec<Vec<Scalar>>, shift: Scalar|
                call_requires(*local, (index, at, parts, shift)),
        ensures
            diagonals_collected(
                self.sources(),
                both(physical@, rate@),
                time,
                rate_shift,
                *local,
                result,
            ),
    {
        let ghost sources = self.sources();
        let ghost vectors = both(physical@, rate@);
        proof {
            self.lemma_wf();
            self.system().lemma_sources();
        }
        let realizations = self.realizations();
        let width: usize = physical.len();
        let mut diagonal: Vec<Scalar> = Vec::new();
        let mut offset: usize = 0;
        let mut index: usize = 0;
        while index < realizations.len()
            invariant
                index <= realizations@.len(),
                realizations@ == sources,
                sources == self.sources(),
                width == self.size(),
                vectors == both(physical@, rate@),
                physical@.len() == self.size(),
                rate@.len() == self.size(),
                forall|index: usize, at: Scalar, parts: &Vec<Vec<Scalar>>, shift: Scalar|
                    call_requires(*local, (index, at, parts, shift)),
                offset == system::reduced_width(sources, index as int),
                system::reduced_width(sources, sources.len() as int) <= self.size(),
                diagonals_give(
                    sources,
                    vectors,
                    time,
                    rate_shift,
                    *local,
                    index as int,
                    diagonal@,
                ),
            decreases realizations.len() - index,
        {
            let ghost k: int = index as int;
            let extent: usize = match &realizations[index] {
                FinitumRealization::ReducedSystem(reduced) => reduced.dimension,
                FinitumRealization::Plan(_) => {
                    assert(sources[k] is Plan);
                    return Ok(None);
                },
            };
            proof {
                system::lemma_reduced_width_monotone(sources, k + 1, sources.len() as int);
            }
            let end: usize = offset + extent;
            let mut parts: Vec<Vec<Scalar>> = Vec::new();
            parts.push(copy_range(physical, offset, end));
            parts.push(copy_range(rate, offset, end));
            let value = local(index, time, &parts, rate_shift);
            let ghost given = value;
            proof {
                assert(trajectory::vectors(parts@) =~= evaluation::parts_of(
                    vectors,
                    system::reduced_width(sources, k) as int,
                    system::reduced_width(sources, k + 1) as int,
                ));
                assert(call_ensures(*local, (k as usize, time, &parts, rate_shift), given));
                assert(diagonal_gives(sources, vectors, time, rate_shift, *local, k, given));
            }
            match value {
                Ok(Some(value)) => {
                    proof {
                        lemma_diagonal_behind(
                            sources,
                            vectors,
                            time,
                            rate_shift,
                            *local,
                            k,
                            diagonal@,
                            value,
                        );
                    }
                    append_scalars(&mut diagonal, &value);
                },
                Ok(None) => {
                    return Ok(None);
                },
                Err(failure) => {
                    return Err(NumericError::Reported(failure));
                },
            }
            offset = end;
            index += 1;
        }
        Ok(Some(diagonal))
    }
}

/// What restricting collected diagonals gives.
pub open spec fn diagonal_restricted<Q>(
    constraints: Seq<Constraint>,
    collected: Vec<Scalar>,
    restrict_transpose: Q,
    result: Result<Option<Vec<Scalar>>, NumericError>,
) -> bool where Q: Fn(&Vec<Scalar>) -> Result<Vec<Scalar>, String> {
    ||| connected_evaluation::elimination_failed(restrict_transpose, collected, result)
    ||| exists|reduced: Vec<Scalar>|
        {
            &&& #[trigger] call_ensures(restrict_transpose, (&collected,), Ok(reduced))
            &&& result matches Ok(Some(values)) && rows_marked(constraints, reduced@, values@)
        }
}

/// What the diagonal gives once state and rate are expanded.
pub open spec fn diagonal_moving<X, H, Q, D, I, G>(
    operator: ConnectedSystemOperator,
    time: Scalar,
    physical: Vec<Scalar>,
    moving: Vec<Scalar>,
    rate_shift: Scalar,
    local: G,
    traces: TraceCalls<X, H, Q, D, I>,
    result: Result<Option<Vec<Scalar>>, NumericError>,
) -> bool where
    X: Fn(&Vec<Scalar>) -> Result<Vec<Scalar>, String>,
    H: Fn(&Vec<Scalar>) -> Result<Vec<Scalar>, String>,
    Q: Fn(&Vec<Scalar>) -> Result<Vec<Scalar>, String>,
    D: Fn(Scalar, Scalar) -> Scalar,
    I: Fn(&str) -> String,
    G: Fn(usize, Scalar, &Vec<Vec<Scalar>>, Scalar) -> Result<Option<Vec<Scalar>>, SolveError>,
 {
    exists|collected: Result<Option<Vec<Scalar>>, NumericError>|
        {
            &&& #[trigger] diagonals_collected(
                operator.sources(),
                both(physical@, moving@),
                time,
                rate_shift,
                local,
                collected,
            )
            &&& match collected {
                Ok(Some(values)) => diagonal_restricted(
                    operator.traces().constraints@,
                    values,
                    traces.restrict_transpose,
                    result,
                ),
                Ok(None) => result matches Ok(None),
                Err(failure) => result matches Err(error) && error@ == failure@,
            }
        }
}

/// What the diagonal gives once the state is expanded.
pub open spec fn diagonal_expanded<X, H, Q, D, I, G>(
    operator: ConnectedSystemOperator,
    time: Scalar,
    rate: Vec<Scalar>,
    physical: Vec<Scalar>,
    rate_shift: Scalar,
    local: G,
    traces: TraceCalls<X, H, Q, D, I>,
    result: Result<Option<Vec<Scalar>>, NumericError>,
) -> bool where
    X: Fn(&Vec<Scalar>) -> Result<Vec<Scalar>, String>,
    H: Fn(&Vec<Scalar>) -> Result<Vec<Scalar>, String>,
    Q: Fn(&Vec<Scalar>) -> Result<Vec<Scalar>, String>,
    D: Fn(Scalar, Scalar) -> Scalar,
    I: Fn(&str) -> String,
    G: Fn(usize, Scalar, &Vec<Vec<Scalar>>, Scalar) -> Result<Option<Vec<Scalar>>, SolveError>,
 {
    ||| connected_evaluation::elimination_failed(traces.expand_homogeneous, rate, result)
    ||| exists|moving: Vec<Scalar>|
        {
            &&& #[trigger] call_ensures(traces.expand_homogeneous, (&rate,), Ok(moving))
            &&& diagonal_moving(
                operator,
                time,
                physical,
                moving,
                rate_shift,
                local,
                traces,
                result,
            )
        }
}

/// What the diagonal of a connected system gives: none where the diagonals of the leaves do
/// not determine it; otherwise those diagonals at the expanded state and rate, restricted
/// to the free unknowns, with a one on every eliminated row.
pub open spec fn connected_diagonal<X, H, Q, D, I, G>(
    operator: ConnectedSystemOperator,
    time: Scalar,
    state: Vec<Scalar>,
    rate: Vec<Scalar>,
    rate_shift: Scalar,
    local: G,
    traces: TraceCalls<X, H, Q, D, I>,
    result: Result<Option<Vec<Scalar>>, NumericError>,
) -> bool where
    X: Fn(&Vec<Scalar>) -> Result<Vec<Scalar>, String>,
    H: Fn(&Vec<Scalar>) -> Result<Vec<Scalar>, String>,
    Q: Fn(&Vec<Scalar>) -> Result<Vec<Scalar>, String>,
    D: Fn(Scalar, Scalar) -> Scalar,
    I: Fn(&str) -> String,
    G: Fn(usize, Scalar, &Vec<Vec<Scalar>>, Scalar) -> Result<Option<Vec<Scalar>>, SolveError>,
 {
    if !diagonal_exact(operator) {
        result matches Ok(None)
    } else {
        ||| connected_evaluation::elimination_failed(traces.expand, state, result)
        ||| exists|physical: Vec<Scalar>|
            {
                &&& #[trigger] call_ensures(traces.expand, (&state,), Ok(physical))
                &&& diagonal_expanded(
                    operator,
                    time,
                    rate,
                    physical,
                    rate_shift,
                    local,
                    traces,
                    result,
                )
            }
    }
}

impl ConnectedSystemOperator {
    /// The diagonal of the Jacobian, where the diagonals of the leaves determine it.
    /// `local` gives the diagonal of a realization, by position, at a time, its parts of
    /// state and rate, and a rate shift.
    pub fn jacobian_diagonal<X, H, Q, D, I, G>(
        &self,
        time: Scalar,
        state: &Vec<Scalar>,
        state_rate: &Vec<Scalar>,
        rate_shift: Scalar,
        local: &G,
        traces: &TraceCalls<X, H, Q, D, I>,
    ) -> (result: Result<Option<Vec<Scalar>>, NumericError>) where
        X: Fn(&Vec<Scalar>) -> Result<Vec<Scalar>, String>,
        H: Fn(&Vec<Scalar>) -> Result<Vec<Scalar>, String>,
        Q: Fn(&Vec<Scalar>) -> Result<Vec<Scalar>, String>,
        D: Fn(Scalar, Scalar) -> Scalar,
        I: Fn(&str) -> String,
        G: Fn(usize, Scalar, &Vec<Vec<Scalar>>, Scalar) -> Result<Option<Vec<Scalar>>, SolveError>,

        requires
            self.wf(),
            traces.callable(self.size()),
            forall|index: usize, at: Scalar, parts: &Vec<Vec<Scalar>>, shift: Scalar|
                call_requires(*local, (index, at, parts, shift)),
        ensures
            connected_diagonal(
                *self,
                time,
                *state,
                *state_rate,
                rate_shift,
                *local,
                *traces,
                result,
            ),
    {
        proof {
            self.lemma_wf();
        }
        if self.inner().graph().dependencies().len() != 0 {
            return Ok(None);
        }
        if !matches_are_plain(&self.constraints().constraints) {
            return Ok(None);
        }
        if !are_separated(self.inner(), self.constraints()) {
            return Ok(None);
        }
        let physical = match (traces.expand)(state) {
            Ok(physical) => physical,
            Err(message) => {
                return Err(numerical(message));
            },
        };
        let moving = match (traces.expand_homogeneous)(state_rate) {
            Ok(moving) => moving,
            Err(message) => {
                let result: Result<Option<Vec<Scalar>>, NumericError> = Err(numerical(message));
                assert(connected_evaluation::elimination_failed(
                    traces.expand_homogeneous,
                    *state_rate,
                    result,
                ));
                return result;
            },
        };
        let collected = self.collect_diagonals(time, &physical, &moving, rate_shift, local);
        let ghost held = collected;
        let result = match collected {
            Ok(Some(values)) => {
                match (traces.restrict_transpose)(&values) {
                    Ok(reduced) => {
                        let mut diagonal = reduced;
                        mark_rows(self.constraints(), &mut diagonal);
                        assert(call_ensures(
                            traces.restrict_transpose,
                            (&values,),
                            Ok(reduced),
                        ));
                        Ok(Some(diagonal))
                    },
                    Err(message) => Err(numerical(message)),
                }
            },
            Ok(None) => Ok(None),
            Err(error) => Err(error),
        };
        proof {
            assert(diagonals_collected(
                self.sources(),
                both(physical@, moving@),
                time,
                rate_shift,
                *local,
                held,
            ));
            assert(diagonal_moving(
                *self,
                time,
                physical,
                moving,
                rate_shift,
                *local,
                *traces,
                result,
            ));
        }
        result
    }

    /// The steady diagonal: at time zero, zero rate and no rate shift.
    pub fn steady_jacobian_diagonal<X, H, Q, D, I, G>(
        &self,
        state: &Vec<Scalar>,
        local: &G,
        traces: &TraceCalls<X, H, Q, D, I>,
    ) -> (result: Result<Option<Vec<Scalar>>, NumericError>) where
        X: Fn(&Vec<Scalar>) -> Result<Vec<Scalar>, String>,
        H: Fn(&Vec<Scalar>) -> Result<Vec<Scalar>, String>,
        Q: Fn(&Vec<Scalar>) -> Result<Vec<Scalar>, String>,
        D: Fn(Scalar, Scalar) -> Scalar,
        I: Fn(&str) -> String,
        G: Fn(usize, Scalar, &Vec<Vec<Scalar>>, Scalar) -> Result<Option<Vec<Scalar>>, SolveError>,

        requires
            self.wf(),
            traces.callable(self.size()),
            forall|index: usize, at: Scalar, parts: &Vec<Vec<Scalar>>, shift: Scalar|
                call_requires(*local, (index, at, parts, shift)),
        ensures
            exists|rate: Vec<Scalar>|
                {
                    &&& rate@ == evaluation::still(state@.len())
                    &&& #[trigger] connected_diagonal(
                        *self,
                        Scalar::nil(),
                        *state,
                        rate,
                        Scalar::nil(),
                        *local,
                        *traces,
                        result,
                    )
                },
    {
        let rate = still_vector(state.len());
        self.jacobian_diagonal(Scalar::zero(), state, &rate, Scalar::zero(), local, traces)
    }
}

/// Where the diagonal is exact, no leaf holds both a target and the unknown it is
/// identified with, nor two targets identified with one unknown.
pub proof fn law_exact_diagonal_has_no_cross_entries(
    operator: ConnectedSystemOperator,
    c: int,
    d: int,
)
    requires
        operator.wf(),
        diagonal_exact(operator),
        0 <= c < operator.traces().constraints@.len(),
        0 <= d < operator.traces().constraints@.len(),
        c != d,
        master(operator.traces().constraints@[c]) == master(operator.traces().constraints@[d]),
    ensures
        home(operator.system()@.leaves, operator.traces().constraints@[c].target) != home(
            operator.system()@.leaves,
            master(operator.traces().constraints@[c]),
        ),
        home(operator.system()@.leaves, operator.traces().constraints@[c].target) != home(
            operator.system()@.leaves,
            operator.traces().constraints@[d].target,
        ),
{
    let leaves = operator.system()@.leaves;
    let constraints = operator.traces().constraints@;
    assert(apart(leaves, constraints, c));
    assert(apart(leaves, constraints, d));
}

} // verus!
