//! What a coupled execution does with an attempted step, told by what the attempt was handed
//! and what it gave back.
use crate::error::{ErrorModel, KrasisError};
use crate::execution;
use crate::execution::CoupledExecution;
use crate::execution_model;
use crate::execution_model::{ExecutionModel, RefusedModel};
use crate::layout;
use crate::numeric::{BdfModel, BdfState, SolveError, StepOutcome};
use crate::operator::TransactionalOperator;
use crate::refusal::BdfConfig;
use crate::scalar::Scalar;
use crate::state_laws;
use crate::state_model;
use crate::state_model::{StateModel, TransactionPhase};
use vstd::prelude::*;

verus! {

/// Whether an execution took an outcome as it came. A failure and a rejection leave state and
/// integrator as they were; a typed refusal is logged with the committed time and the step
/// of its attempt and is returned as itself. An accepted step becomes the integrator state,
/// and its values are committed at its time.
pub open spec fn takes(
    before: ExecutionModel,
    step: Scalar,
    outcome: Result<StepOutcome, SolveError>,
    result: Result<StepOutcome, KrasisError>,
    after: ExecutionModel,
) -> bool {
    &&& outcome matches Err(error) ==> {
        &&& result is Err
        &&& after.state == before.state
        &&& after.integrator == before.integrator
        &&& error@.refusal is None ==> after.refusals == before.refusals && result->Err_0@
            == ErrorModel::Solve(error@.text)
        &&& error@.refusal matches Some(refusal) ==> {
            &&& after.refusals == before.refusals.push(
                RefusedModel { refusal, time: before.state.time, step },
            )
            &&& result->Err_0@ == (ErrorModel::EvaluationRefused {
                code: refusal.code,
                origin: refusal.origin,
                message: refusal.message,
            })
        }
    }
    &&& outcome matches Ok(StepOutcome::Rejected(_)) ==> after == before && result == Ok::<
        StepOutcome,
        KrasisError,
    >(outcome->Ok_0)
    &&& outcome matches Ok(StepOutcome::Accepted(accepted)) ==> {
        &&& after.refusals == before.refusals
        &&& after == before || {
            &&& after.integrator == accepted.state@
            &&& execution_model::committed_vector(after.state) == accepted.state@.values
            &&& after.state.time == accepted.state@.time
            &&& after.state.step == before.state.step + 1
            &&& after.state.phase == TransactionPhase::Committed
        }
        &&& result is Ok ==> after.integrator == accepted.state@ && result == Ok::<
            StepOutcome,
            KrasisError,
        >(outcome->Ok_0)
    }
}

proof fn lemma_taken(
    before: ExecutionModel,
    dimension: nat,
    step: Scalar,
    outcome: Result<StepOutcome, SolveError>,
    result: Result<StepOutcome, KrasisError>,
    after: ExecutionModel,
)
    requires
        before.state.consistent(),
        before.state.phase == TransactionPhase::Committed,
        execution_model::pair_failure(before.state, before.integrator, dimension) is None,
        execution::settled(before, dimension, step, outcome, result, after),
    ensures
        takes(before, step, outcome, result, after),
{
    if let Ok(StepOutcome::Accepted(accepted)) = outcome {
        let next = accepted.state@;
        if execution_model::accepted_state(before.state, next) is Ok {
            execution_model::law_accepted_step_holds_its_values(before.state, next);
            lemma_committed(before.state, next.values, next.time);
        }
    }
}

proof fn lemma_committed(state: StateModel, values: Seq<Scalar>, time: Scalar)
    requires
        state.consistent(),
        state.phase == TransactionPhase::Committed,
        state.commit_vector(values, time) is Ok,
    ensures
        state.commit_vector(values, time)->Ok_0.step == state.step + 1,
        state.commit_vector(values, time)->Ok_0.phase == TransactionPhase::Committed,
        state.commit_vector(values, time)->Ok_0.time == time,
{
    let trial = state.begin_trial()->Ok_0;
    let filled = trial.set_trial_vector(values)->Ok_0;
    state_model::law_begin_keeps_consistency(state);
    state_model::law_set_trial_vector_keeps_consistency(trial, values);
    state_laws::law_begin_trial(state);
    state_laws::law_set_trial_vector(trial, values);
    state_laws::law_commit(filled, time);
}

/// An attempt on a synchronized execution is made from the integrator as it stands, over the
/// given step and configuration, and its outcome is taken as it came; an execution that is
/// not synchronized makes none and stays as it was.
pub proof fn law_attempt_is_taken_as_it_came<X, A>(
    before: ExecutionModel,
    dimension: nat,
    evaluation: X,
    step: Scalar,
    config: BdfConfig,
    attempt: A,
    result: Result<StepOutcome, KrasisError>,
    after: ExecutionModel,
) where A: Fn(&X, BdfState, Scalar, &BdfConfig) -> Result<StepOutcome, SolveError>
    requires
        before.state.consistent(),
        before.state.phase == TransactionPhase::Committed,
        execution::attempted(
            before,
            dimension,
            evaluation,
            step,
            config,
            attempt,
            result,
            after,
        ),
    ensures
        !synchronized(before.state, before.integrator, dimension) ==> result is Err && after
            == before,
        synchronized(before.state, before.integrator, dimension) ==> exists|
            integrator: BdfState,
            outcome: Result<StepOutcome, SolveError>,
        |
            {
                &&& integrator@ == before.integrator
                &&& #[trigger] call_ensures(
                    attempt,
                    (&evaluation, integrator, step, &config),
                    outcome,
                )
                &&& takes(before, step, outcome, result, after)
            },
{
    law_synchronized_pairs_are_accepted(before.state, before.integrator, dimension);
    if synchronized(before.state, before.integrator, dimension) {
        let (integrator, outcome) = choose|
            integrator: BdfState,
            outcome: Result<StepOutcome, SolveError>,
        |
            {
                &&& integrator@ == before.integrator
                &&& #[trigger] call_ensures(
                    attempt,
                    (&evaluation, integrator, step, &config),
                    outcome,
                )
                &&& execution::settled(before, dimension, step, outcome, result, after)
            };
        lemma_taken(before, dimension, step, outcome, result, after);
        assert(call_ensures(attempt, (&evaluation, integrator, step, &config), outcome));
    }
}

/// The same of an attempt that is made with a given solver, which it is handed.
pub proof fn law_attempt_with_a_solver_is_taken_as_it_came<X, N, A>(
    before: ExecutionModel,
    dimension: nat,
    evaluation: X,
    step: Scalar,
    config: BdfConfig,
    solver: N,
    attempt: A,
    result: Result<StepOutcome, KrasisError>,
    after: ExecutionModel,
) where A: Fn(&X, BdfState, Scalar, &BdfConfig, &N) -> Result<StepOutcome, SolveError>
    requires
        before.state.consistent(),
        before.state.phase == TransactionPhase::Committed,
        execution::attempted_with(
            before,
            dimension,
            evaluation,
            step,
            config,
            solver,
            attempt,
            result,
            after,
        ),
    ensures
        !synchronized(before.state, before.integrator, dimension) ==> result is Err && after
            == before,
        synchronized(before.state, before.integrator, dimension) ==> exists|
            integrator: BdfState,
            outcome: Result<StepOutcome, SolveError>,
        |
            {
                &&& integrator@ == before.integrator
                &&& #[trigger] call_ensures(
                    attempt,
                    (&evaluation, integrator, step, &config, &solver),
                    outcome,
                )
                &&& takes(before, step, outcome, result, after)
            },
{
    law_synchronized_pairs_are_accepted(before.state, before.integrator, dimension);
    if synchronized(before.state, before.integrator, dimension) {
        let (integrator, outcome) = choose|
            integrator: BdfState,
            outcome: Result<StepOutcome, SolveError>,
        |
            {
                &&& integrator@ == before.integrator
                &&& #[trigger] call_ensures(
                    attempt,
                    (&evaluation, integrator, step, &config, &solver),
                    outcome,
                )
                &&& execution::settled(before, dimension, step, outcome, result, after)
            };
        lemma_taken(before, dimension, step, outcome, result, after);
        assert(call_ensures(
            attempt,
            (&evaluation, integrator, step, &config, &solver),
            outcome,
        ));
    }
}

/// Whether two vectors hold equal values.
pub open spec fn equal_throughout(left: Seq<Scalar>, right: Seq<Scalar>) -> bool {
    &&& left.len() == right.len()
    &&& forall|i: int| 0 <= i < left.len() ==> (#[trigger] left[i]).same_value(right[i])
}

/// Whether a committed state and an integrator stand at one place: the same values, time and
/// number of steps, and the same history, which is none before the first step and then the
/// values before the last one and the positive step that led from them.
pub open spec fn synchronized(state: StateModel, integrator: BdfModel, dimension: nat) -> bool {
    &&& forall|k: int|
        0 <= k < state.layout.len() ==> state_model::has_slot(
            state.fields,
            (#[trigger] state.layout[k]).id,
        )
    &&& state.phase == TransactionPhase::Committed
    &&& integrator.values.len() == dimension
    &&& equal_throughout(integrator.values, execution_model::committed_vector(state))
    &&& integrator.time.same_value(state.time)
    &&& integrator.accepted_steps == state.step
    &&& if integrator.previous_values is None && integrator.previous_step is None
        && integrator.accepted_steps == 0 {
        exists|k: int|
            0 <= k < state.layout.len() && state_model::slot_of(
                state.fields,
                (#[trigger] state.layout[k]).id,
            ).history.len() == 0
    } else {
        &&& integrator.previous_values is Some
        &&& integrator.previous_step is Some
        &&& integrator.previous_values->Some_0.len() == dimension
        &&& forall|i: int|
            0 <= i < dimension ==> (#[trigger] integrator.previous_values->Some_0[i]).finite()
        &&& integrator.previous_step->Some_0.finite()
        &&& integrator.previous_step->Some_0.strictly_positive()
        &&& forall|k: int|
            0 <= k < state.layout.len() ==> state_model::slot_of(
                state.fields,
                (#[trigger] state.layout[k]).id,
            ).history.len() > 0
        &&& equal_throughout(
            execution_model::previous_vector(state),
            integrator.previous_values->Some_0,
        )
    }
}

/// A committed state and an integrator are accepted together exactly where they are
/// synchronized.
pub proof fn law_synchronized_pairs_are_accepted(
    state: StateModel,
    integrator: BdfModel,
    dimension: nat,
)
    ensures
        execution_model::pair_failure(state, integrator, dimension) is None <==> synchronized(
            state,
            integrator,
            dimension,
        ),
{
    let blocks = state.layout;
    if state_model::has_level(blocks, state.fields, 0) {
        assert forall|k: int| 0 <= k < blocks.len() implies state_model::slot_of(
            state.fields,
            (#[trigger] blocks[k]).id,
        ).history.len() > 0 by {}
    } else {
        let k = choose|k: int|
            0 <= k < blocks.len() && !(state_model::slot_of(
                state.fields,
                (#[trigger] blocks[k]).id,
            ).history.len() > 0);
        assert(state_model::slot_of(state.fields, blocks[k].id).history.len() == 0);
    }
}

/// An execution starts exactly from a committed state over the operator's layout that has
/// made no step and has all its fields, with an integrator that is synchronized with it; it
/// then holds that operator, that state and that integrator, and no refusals.
pub proof fn law_execution_starts_synchronized<Op: TransactionalOperator>(
    operator: Op,
    state: StateModel,
    initialized: Result<BdfState, SolveError>,
    result: Result<CoupledExecution<Op>, KrasisError>,
)
    requires
        execution::started(operator, state, initialized, result),
    ensures
        result is Ok <==> {
            &&& state.phase == TransactionPhase::Committed
            &&& layout::identity_of(state.layout) == operator.layout_text()
            &&& state.step == 0
            &&& initialized is Ok
            &&& synchronized(state, initialized->Ok_0@, operator.size())
        },
        result matches Ok(execution) ==> {
            &&& execution.op() == operator
            &&& execution@.state == state
            &&& execution@.integrator == initialized->Ok_0@
            &&& execution@.refusals.len() == 0
        },
{
    if initialized is Ok {
        law_synchronized_pairs_are_accepted(state, initialized->Ok_0@, operator.size());
    }
}

/// A commit moves every level of history down by one: what the state held as level `level`
/// it then holds as level `level + 1`, as far as the limit lets it.
pub proof fn law_history_moves_down(
    state: StateModel,
    values: Seq<Scalar>,
    time: Scalar,
    vector: Seq<Scalar>,
    level: int,
)
    requires
        state.consistent(),
        state.phase == TransactionPhase::Committed,
        state_model::filled(state.layout, state.fields),
        state.commit_vector(values, time) is Ok,
        0 <= level,
        level + 1 < state.history_limit,
        state_model::has_level(state.layout, state.fields, level),
        state_model::flattens_level(vector, state.layout, state.fields, level),
    ensures
        ({
            let next = state.commit_vector(values, time)->Ok_0;
            &&& state_model::has_level(next.layout, next.fields, level + 1)
            &&& state_model::flattens_level(vector, next.layout, next.fields, level + 1)
        }),
{
    let next = state.commit_vector(values, time)->Ok_0;
    let trial = state.begin_trial()->Ok_0;
    let filled = trial.set_trial_vector(values)->Ok_0;
    state_model::law_begin_keeps_consistency(state);
    state_model::law_set_trial_vector_keeps_consistency(trial, values);
    state_model::law_commit_keeps_consistency(filled, time);
    state_laws::law_begin_trial(state);
    state_laws::law_set_trial_vector(trial, values);
    state_laws::law_commit(filled, time);
    state_model::lemma_consistent(state);
    state_model::lemma_consistent(next);
    assert forall|k: int| 0 <= k < next.layout.len() implies state_model::slot_of(
        next.fields,
        (#[trigger] next.layout[k]).id,
    ).history.len() > level + 1 && state_model::slot_of(
        next.fields,
        next.layout[k].id,
    ).history[level + 1] == state_model::slot_of(state.fields, state.layout[k].id).history[level] by {
        let id = state.layout[k].id;
        assert(state_model::has_slot(state.fields, id));
        let i = state_model::slot_index(state.fields, id);
        assert(state.fields[i].name == id);
        assert(state_laws::same_past(state.fields[i], trial.fields[i]));
        assert(trial.layout[k].id == trial.fields[i].name);
        assert(state_laws::same_past(trial.fields[i], filled.fields[i]));
        assert(next.fields[i].name == id);
        state_model::lemma_slot_unique(next.fields, i);
        let longer = seq![filled.fields[i].committed] + filled.fields[i].history;
        assert(longer[level + 1] == state.fields[i].history[level]);
    }
    assert forall|k: int| 0 <= k < next.layout.len() implies vector.subrange(
        (#[trigger] next.layout[k]).start as int,
        next.layout[k].end as int,
    ) == state_model::slot_of(next.fields, next.layout[k].id).history[level + 1] by {
        assert(vector.subrange(
            state.layout[k].start as int,
            state.layout[k].end as int,
        ) == state_model::slot_of(state.fields, state.layout[k].id).history[level]);
    }
}

} // verus!
