//! What a restart and a rollback promise, over the checks' own accounts of them.
use crate::error::{ErrorModel, KrasisError};
use crate::execution;
use crate::execution_model;
use crate::execution_model::ExecutionModel;
use crate::history;
use crate::numeric;
use crate::numeric::{BdfModel, BdfState, SolveError, StepOutcome};
use crate::refusal::BdfConfig;
use crate::restore_laws;
use crate::restore_model;
use crate::scalar::Scalar;
use crate::state_model;
use crate::state_model::{StateModel, TransactionPhase};
use crate::trajectory;
use vstd::prelude::*;

verus! {

/// Whether the outcome of an attempt is determined by the evaluation context, the integrator
/// state, the step and the configuration.
pub open spec fn repeatable<
    X,
    A: Fn(&X, BdfState, Scalar, &BdfConfig) -> Result<StepOutcome, SolveError>,
>(
    attempt: A,
) -> bool {
    forall|
        evaluation: X,
        step: Scalar,
        config: BdfConfig,
        first: BdfState,
        first_outcome: Result<StepOutcome, SolveError>,
        second: BdfState,
        second_outcome: Result<StepOutcome, SolveError>,
    |
        first@ == second@ && #[trigger] call_ensures(
            attempt,
            (&evaluation, first, step, &config),
            first_outcome,
        ) && #[trigger] call_ensures(
            attempt,
            (&evaluation, second, step, &config),
            second_outcome,
        ) ==> execution::attempt_model(first_outcome) == execution::attempt_model(second_outcome)
}

proof fn lemma_accepted_keeps_structure(state: StateModel, next: BdfModel)
    requires
        state.consistent(),
        execution_model::accepted_state(state, next) is Ok,
    ensures
        ({
            let after = execution_model::accepted_state(state, next)->Ok_0;
            &&& after.consistent()
            &&& after.phase == TransactionPhase::Committed
            &&& restore_model::same_structure(after, state)
        }),
{
    let opened = state.begin_trial()->Ok_0;
    state_model::law_begin_keeps_consistency(state);
    let filled = opened.set_trial_vector(next.values)->Ok_0;
    state_model::law_set_trial_vector_keeps_consistency(opened, next.values);
    let after = filled.commit(next.time)->Ok_0;
    state_model::law_commit_keeps_consistency(filled, next.time);
    assert forall|i: int| 0 <= i < after.fields.len() implies {
        &&& (#[trigger] after.fields[i]).name == state.fields[i].name
        &&& after.fields[i].committed.len() == state.fields[i].committed.len()
    } by {
        state_model::lemma_consistent_field(state, i);
        state_model::lemma_consistent_field(after, i);
        assert(after.fields[i].name == filled.fields[i].name);
        assert(filled.fields[i].name == opened.fields[i].name);
        assert(opened.fields[i].name == state.fields[i].name);
    }
    assert forall|i: int| 0 <= i < after.constitutive.len() implies {
        &&& (#[trigger] after.constitutive[i]).name == state.constitutive[i].name
        &&& after.constitutive[i].committed.len() == state.constitutive[i].committed.len()
    } by {
        assert(opened.constitutive[i] == state_model::opened(state.constitutive[i]));
        assert(filled.constitutive[i] == opened.constitutive[i]);
        assert(after.constitutive[i] == state_model::advanced(filled.constitutive[i], 0));
    }
}

/// What an accepted step does, whatever the attempt was.
proof fn lemma_accepted_step<
    X,
    A: Fn(&X, BdfState, Scalar, &BdfConfig) -> Result<StepOutcome, SolveError>,
>(
    before: ExecutionModel,
    dimension: nat,
    evaluation: X,
    step: Scalar,
    config: BdfConfig,
    attempt: A,
    result: Result<StepOutcome, KrasisError>,
    after: ExecutionModel,
)
    requires
        before.state.consistent(),
        execution::attempted(before, dimension, evaluation, step, config, attempt, result, after),
        trajectory::accepted(result),
    ensures
        after.state.consistent(),
        after.state.phase == TransactionPhase::Committed,
        restore_model::same_structure(after.state, before.state),
        after.refusals == before.refusals,
        execution_model::pair_failure(after.state, after.integrator, dimension) is None,
{
    let (integrator, outcome) = choose|
        integrator: BdfState,
        outcome: Result<StepOutcome, SolveError>,
    |
        {
            &&& integrator@ == before.integrator
            &&& #[trigger] call_ensures(
                attempt,
                (&evaluation, integrator, step, &config),
                outcome,
            )
            &&& execution::settled(before, dimension, step, outcome, result, after)
        };
    assert(execution::settled(before, dimension, step, outcome, result, after));
    let model = execution::attempt_model(outcome);
    assert(model is Accepted);
    let next = model->Accepted_0;
    assert(execution_model::accepted_state(before.state, next) is Ok);
    lemma_accepted_keeps_structure(before.state, next);
}

proof fn lemma_steps_keep<
    X,
    A: Fn(&X, BdfState, Scalar, &BdfConfig) -> Result<StepOutcome, SolveError>,
>(
    before: ExecutionModel,
    dimension: nat,
    evaluation: X,
    step: Scalar,
    config: BdfConfig,
    attempt: A,
    count: int,
    states: Seq<Seq<Scalar>>,
    after: ExecutionModel,
)
    requires
        before.state.consistent(),
        trajectory::steps_accepted(
            before,
            dimension,
            evaluation,
            step,
            config,
            attempt,
            count,
            states,
            after,
        ),
    ensures
        after.state.consistent(),
        before.state.phase == TransactionPhase::Committed ==> after.state.phase
            == TransactionPhase::Committed,
        restore_model::same_structure(after.state, before.state),
        after.refusals == before.refusals,
        count >= 0 ==> states.len() == count,
    decreases count,
{
    if count > 0 {
        let (between, result) = choose|
            between: ExecutionModel,
            result: Result<StepOutcome, KrasisError>,
        |
            {
                &&& trajectory::steps_accepted(
                    before,
                    dimension,
                    evaluation,
                    step,
                    config,
                    attempt,
                    count - 1,
                    states.drop_last(),
                    between,
                )
                &&& #[trigger] execution::attempted(
                    between,
                    dimension,
                    evaluation,
                    step,
                    config,
                    attempt,
                    result,
                    after,
                )
                &&& trajectory::accepted(result)
                &&& states.len() == count
                &&& states.last() == after.integrator.values
            };
        lemma_steps_keep(
            before,
            dimension,
            evaluation,
            step,
            config,
            attempt,
            count - 1,
            states.drop_last(),
            between,
        );
        lemma_accepted_step(between, dimension, evaluation, step, config, attempt, result, after);
    }
}

proof fn lemma_attempt_repeats<
    X,
    A: Fn(&X, BdfState, Scalar, &BdfConfig) -> Result<StepOutcome, SolveError>,
>(
    before: ExecutionModel,
    dimension: nat,
    evaluation: X,
    step: Scalar,
    config: BdfConfig,
    attempt: A,
    result: Result<StepOutcome, KrasisError>,
    after: ExecutionModel,
    other_result: Result<StepOutcome, KrasisError>,
    other: ExecutionModel,
)
    requires
        repeatable::<X, A>(attempt),
        execution::attempted(before, dimension, evaluation, step, config, attempt, result, after),
        execution::attempted(
            before,
            dimension,
            evaluation,
            step,
            config,
            attempt,
            other_result,
            other,
        ),
    ensures
        after == other,
{
    if execution_model::pair_failure(before.state, before.integrator, dimension) is None {
        let (i1, o1) = choose|integrator: BdfState, outcome: Result<StepOutcome, SolveError>|
            {
                &&& integrator@ == before.integrator
                &&& #[trigger] call_ensures(
                attempt,
                (&evaluation, integrator, step, &config),
                outcome,
            )
                &&& execution::settled(before, dimension, step, outcome, result, after)
            };
        let (i2, o2) = choose|integrator: BdfState, outcome: Result<StepOutcome, SolveError>|
            {
                &&& integrator@ == before.integrator
                &&& #[trigger] call_ensures(
                attempt,
                (&evaluation, integrator, step, &config),
                outcome,
            )
                &&& execution::settled(before, dimension, step, outcome, other_result, other)
            };
        assert(execution::attempt_model(o1) == execution::attempt_model(o2));
    }
}

/// Two runs from one execution visit the same states.
proof fn lemma_runs_agree<
    X,
    A: Fn(&X, BdfState, Scalar, &BdfConfig) -> Result<StepOutcome, SolveError>,
>(
    before: ExecutionModel,
    dimension: nat,
    evaluation: X,
    step: Scalar,
    config: BdfConfig,
    attempt: A,
    count: int,
    states: Seq<Seq<Scalar>>,
    after: ExecutionModel,
    other_states: Seq<Seq<Scalar>>,
    other: ExecutionModel,
)
    requires
        repeatable::<X, A>(attempt),
        trajectory::steps_accepted(
            before,
            dimension,
            evaluation,
            step,
            config,
            attempt,
            count,
            states,
            after,
        ),
        trajectory::steps_accepted(
            before,
            dimension,
            evaluation,
            step,
            config,
            attempt,
            count,
            other_states,
            other,
        ),
    ensures
        states == other_states,
        after == other,
    decreases count,
{
    if count <= 0 {
        assert(states =~= other_states);
    } else {
        let (b1, r1) = choose|between: ExecutionModel, result: Result<StepOutcome, KrasisError>|
            {
                &&& trajectory::steps_accepted(
                    before,
                    dimension,
                    evaluation,
                    step,
                    config,
                    attempt,
                    count - 1,
                    states.drop_last(),
                    between,
                )
                &&& #[trigger] execution::attempted(
                    between,
                    dimension,
                    evaluation,
                    step,
                    config,
                    attempt,
                    result,
                    after,
                )
                &&& trajectory::accepted(result)
                &&& states.len() == count
                &&& states.last() == after.integrator.values
            };
        let (b2, r2) = choose|between: ExecutionModel, result: Result<StepOutcome, KrasisError>|
            {
                &&& trajectory::steps_accepted(
                    before,
                    dimension,
                    evaluation,
                    step,
                    config,
                    attempt,
                    count - 1,
                    other_states.drop_last(),
                    between,
                )
                &&& #[trigger] execution::attempted(
                    between,
                    dimension,
                    evaluation,
                    step,
                    config,
                    attempt,
                    result,
                    other,
                )
                &&& trajectory::accepted(result)
                &&& other_states.len() == count
                &&& other_states.last() == other.integrator.values
            };
        lemma_runs_agree(
            before,
            dimension,
            evaluation,
            step,
            config,
            attempt,
            count - 1,
            states.drop_last(),
            b1,
            other_states.drop_last(),
            b2,
        );
        lemma_attempt_repeats(
            b1,
            dimension,
            evaluation,
            step,
            config,
            attempt,
            r1,
            after,
            r2,
            other,
        );
        assert(states =~= states.drop_last().push(states.last()));
        assert(other_states =~= other_states.drop_last().push(other_states.last()));
    }
}

/// A run that continues where another stopped is one run.
proof fn lemma_runs_join<
    X,
    A: Fn(&X, BdfState, Scalar, &BdfConfig) -> Result<StepOutcome, SolveError>,
>(
    before: ExecutionModel,
    dimension: nat,
    evaluation: X,
    step: Scalar,
    config: BdfConfig,
    attempt: A,
    first: int,
    first_states: Seq<Seq<Scalar>>,
    between: ExecutionModel,
    second: int,
    second_states: Seq<Seq<Scalar>>,
    after: ExecutionModel,
)
    requires
        0 <= first,
        0 <= second,
        before.state.consistent(),
        trajectory::steps_accepted(
            before,
            dimension,
            evaluation,
            step,
            config,
            attempt,
            first,
            first_states,
            between,
        ),
        trajectory::steps_accepted(
            between,
            dimension,
            evaluation,
            step,
            config,
            attempt,
            second,
            second_states,
            after,
        ),
    ensures
        trajectory::steps_accepted(
            before,
            dimension,
            evaluation,
            step,
            config,
            attempt,
            first + second,
            first_states + second_states,
            after,
        ),
    decreases second,
{
    let joined = first_states + second_states;
    if second == 0 {
        assert(joined =~= first_states);
    } else {
        let (last, result) = choose|middle: ExecutionModel, result: Result<StepOutcome, KrasisError>|
            {
                &&& trajectory::steps_accepted(
                    between,
                    dimension,
                    evaluation,
                    step,
                    config,
                    attempt,
                    second - 1,
                    second_states.drop_last(),
                    middle,
                )
                &&& #[trigger] execution::attempted(
                    middle,
                    dimension,
                    evaluation,
                    step,
                    config,
                    attempt,
                    result,
                    after,
                )
                &&& trajectory::accepted(result)
                &&& second_states.len() == second
                &&& second_states.last() == after.integrator.values
            };
        lemma_runs_join(
            before,
            dimension,
            evaluation,
            step,
            config,
            attempt,
            first,
            first_states,
            between,
            second - 1,
            second_states.drop_last(),
            last,
        );
        lemma_steps_keep(
            before,
            dimension,
            evaluation,
            step,
            config,
            attempt,
            first,
            first_states,
            between,
        );
        assert(joined.drop_last() =~= first_states + second_states.drop_last());
        assert(joined.last() == after.integrator.values);
        assert(joined.len() == first + second);
        assert(execution::attempted(
            last,
            dimension,
            evaluation,
            step,
            config,
            attempt,
            result,
            after,
        ));
        assert(first + second - 1 == first + (second - 1));
    }
}

/// A restarted run is the run that was not stopped: where an attempt is determined by
/// what it is handed, stopping after any number of steps, saving, loading into the
/// starting execution and continuing visits the same states and ends the same.
pub proof fn law_restart_reproduces_run<
    X,
    A: Fn(&X, BdfState, Scalar, &BdfConfig) -> Result<StepOutcome, SolveError>,
>(
    before: ExecutionModel,
    dimension: nat,
    identity: Seq<char>,
    evaluation: X,
    step: Scalar,
    config: BdfConfig,
    attempt: A,
    total: int,
    states: Seq<Seq<Scalar>>,
    after: ExecutionModel,
    split: int,
    split_states: Seq<Seq<Scalar>>,
    stopped: ExecutionModel,
    later: Seq<Seq<Scalar>>,
    restarted: ExecutionModel,
)
    requires
        before.state.consistent(),
        before.state.phase == TransactionPhase::Committed,
        repeatable::<X, A>(attempt),
        0 <= split <= total,
        trajectory::steps_accepted(
            before,
            dimension,
            evaluation,
            step,
            config,
            attempt,
            total,
            states,
            after,
        ),
        trajectory::steps_accepted(
            before,
            dimension,
            evaluation,
            step,
            config,
            attempt,
            split,
            split_states,
            stopped,
        ),
        execution::checkpointed(stopped, dimension, identity) is Ok,
        ({
            let saved = execution::checkpointed(stopped, dimension, identity)->Ok_0;
            execution::restored(before, dimension, identity, saved) matches Ok(reloaded)
                ==> trajectory::steps_accepted(
                reloaded,
                dimension,
                evaluation,
                step,
                config,
                attempt,
                total - split,
                later,
                restarted,
            )
        }),
    ensures
        execution::restored(
            before,
            dimension,
            identity,
            execution::checkpointed(stopped, dimension, identity)->Ok_0,
        ) == Ok::<ExecutionModel, ErrorModel>(stopped),
        split_states + later == states,
        restarted == after,
{
    lemma_steps_keep(
        before,
        dimension,
        evaluation,
        step,
        config,
        attempt,
        split,
        split_states,
        stopped,
    );
    execution::law_restore_undoes_checkpoint(stopped, before, dimension, identity);
    let saved = execution::checkpointed(stopped, dimension, identity)->Ok_0;
    let reloaded = execution::restored(before, dimension, identity, saved)->Ok_0;
    assert(reloaded == stopped);
    lemma_runs_join(
        before,
        dimension,
        evaluation,
        step,
        config,
        attempt,
        split,
        split_states,
        stopped,
        total - split,
        later,
        restarted,
    );
    lemma_runs_agree(
        before,
        dimension,
        evaluation,
        step,
        config,
        attempt,
        total,
        states,
        after,
        split_states + later,
        restarted,
    );
}

/// Whether attempts, each with its step and configuration, lead from `before` to `after`
/// through the given integrator values, whatever becomes of each.
pub open spec fn attempts_made<
    X,
    A: Fn(&X, BdfState, Scalar, &BdfConfig) -> Result<StepOutcome, SolveError>,
>(
    before: ExecutionModel,
    dimension: nat,
    evaluation: X,
    steps: Seq<Scalar>,
    configs: Seq<BdfConfig>,
    attempt: A,
    states: Seq<Seq<Scalar>>,
    after: ExecutionModel,
) -> bool
    decreases steps.len(),
{
    if steps.len() == 0 {
        states.len() == 0 && after == before
    } else {
        exists|between: ExecutionModel, result: Result<StepOutcome, KrasisError>|
            {
                &&& attempts_made(
                    before,
                    dimension,
                    evaluation,
                    steps.drop_last(),
                    configs.drop_last(),
                    attempt,
                    states.drop_last(),
                    between,
                )
                &&& #[trigger] execution::attempted(
                    between,
                    dimension,
                    evaluation,
                    steps.last(),
                    configs.last(),
                    attempt,
                    result,
                    after,
                )
                &&& states.len() == steps.len()
                &&& states.last() == after.integrator.values
            }
    }
}

proof fn lemma_attempt_ignores_log<
    X,
    A: Fn(&X, BdfState, Scalar, &BdfConfig) -> Result<StepOutcome, SolveError>,
>(
    before: ExecutionModel,
    dimension: nat,
    evaluation: X,
    step: Scalar,
    config: BdfConfig,
    attempt: A,
    result: Result<StepOutcome, KrasisError>,
    after: ExecutionModel,
    other_before: ExecutionModel,
    other_result: Result<StepOutcome, KrasisError>,
    other: ExecutionModel,
)
    requires
        repeatable::<X, A>(attempt),
        before.state == other_before.state,
        before.integrator == other_before.integrator,
        execution::attempted(before, dimension, evaluation, step, config, attempt, result, after),
        execution::attempted(
            other_before,
            dimension,
            evaluation,
            step,
            config,
            attempt,
            other_result,
            other,
        ),
    ensures
        after.state == other.state,
        after.integrator == other.integrator,
{
    if execution_model::pair_failure(before.state, before.integrator, dimension) is None {
        let (i1, o1) = choose|integrator: BdfState, outcome: Result<StepOutcome, SolveError>|
            {
                &&& integrator@ == before.integrator
                &&& #[trigger] call_ensures(
                attempt,
                (&evaluation, integrator, step, &config),
                outcome,
            )
                &&& execution::settled(before, dimension, step, outcome, result, after)
            };
        let (i2, o2) = choose|integrator: BdfState, outcome: Result<StepOutcome, SolveError>|
            {
                &&& integrator@ == other_before.integrator
                &&& #[trigger] call_ensures(
                attempt,
                (&evaluation, integrator, step, &config),
                outcome,
            )
                &&& execution::settled(other_before, dimension, step, outcome, other_result, other)
            };
        assert(execution::attempt_model(o1) == execution::attempt_model(o2));
    }
}

proof fn lemma_attempts_ignore_log<
    X,
    A: Fn(&X, BdfState, Scalar, &BdfConfig) -> Result<StepOutcome, SolveError>,
>(
    before: ExecutionModel,
    other_before: ExecutionModel,
    dimension: nat,
    evaluation: X,
    steps: Seq<Scalar>,
    configs: Seq<BdfConfig>,
    attempt: A,
    states: Seq<Seq<Scalar>>,
    after: ExecutionModel,
    other_states: Seq<Seq<Scalar>>,
    other: ExecutionModel,
)
    requires
        steps.len() == configs.len(),
        repeatable::<X, A>(attempt),
        before.state == other_before.state,
        before.integrator == other_before.integrator,
        attempts_made(before, dimension, evaluation, steps, configs, attempt, states, after),
        attempts_made(
            other_before,
            dimension,
            evaluation,
            steps,
            configs,
            attempt,
            other_states,
            other,
        ),
    ensures
        states == other_states,
        after.state == other.state,
        after.integrator == other.integrator,
    decreases steps.len(),
{
    if steps.len() == 0 {
        assert(states =~= other_states);
    } else {
        let (b1, r1) = choose|between: ExecutionModel, result: Result<StepOutcome, KrasisError>|
            {
                &&& attempts_made(
                    before,
                    dimension,
                    evaluation,
                    steps.drop_last(),
                    configs.drop_last(),
                    attempt,
                    states.drop_last(),
                    between,
                )
                &&& #[trigger] execution::attempted(
                    between,
                    dimension,
                    evaluation,
                    steps.last(),
                    configs.last(),
                    attempt,
                    result,
                    after,
                )
                &&& states.len() == steps.len()
                &&& states.last() == after.integrator.values
            };
        let (b2, r2) = choose|between: ExecutionModel, result: Result<StepOutcome, KrasisError>|
            {
                &&& attempts_made(
                    other_before,
                    dimension,
                    evaluation,
                    steps.drop_last(),
                    configs.drop_last(),
                    attempt,
                    other_states.drop_last(),
                    between,
                )
                &&& #[trigger] execution::attempted(
                    between,
                    dimension,
                    evaluation,
                    steps.last(),
                    configs.last(),
                    attempt,
                    result,
                    other,
                )
                &&& other_states.len() == steps.len()
                &&& other_states.last() == other.integrator.values
            };
        lemma_attempts_ignore_log(
            before,
            other_before,
            dimension,
            evaluation,
            steps.drop_last(),
            configs.drop_last(),
            attempt,
            states.drop_last(),
            b1,
            other_states.drop_last(),
            b2,
        );
        lemma_attempt_ignores_log(
            b1,
            dimension,
            evaluation,
            steps.last(),
            configs.last(),
            attempt,
            r1,
            after,
            b2,
            r2,
            other,
        );
        assert(states =~= states.drop_last().push(states.last()));
        assert(other_states =~= other_states.drop_last().push(other_states.last()));
    }
}

/// An execution that accepted restart data goes on as the execution they were taken of:
/// where an attempt is determined by what it is handed, the same attempts, accepted or not,
/// visit the same states and end in the same state and integrator.
pub proof fn law_restored_execution_goes_on<
    X,
    A: Fn(&X, BdfState, Scalar, &BdfConfig) -> Result<StepOutcome, SolveError>,
>(
    saved: ExecutionModel,
    current: ExecutionModel,
    dimension: nat,
    identity: Seq<char>,
    restored: ExecutionModel,
    evaluation: X,
    steps: Seq<Scalar>,
    configs: Seq<BdfConfig>,
    attempt: A,
    states: Seq<Seq<Scalar>>,
    after: ExecutionModel,
    restored_states: Seq<Seq<Scalar>>,
    restored_after: ExecutionModel,
)
    requires
        saved.state.consistent(),
        current.state.consistent(),
        execution::checkpointed(saved, dimension, identity) is Ok,
        execution::restored(
            current,
            dimension,
            identity,
            execution::checkpointed(saved, dimension, identity)->Ok_0,
        ) == Ok::<ExecutionModel, ErrorModel>(restored),
        restore_laws::same_counts(saved.state, current.state),
        steps.len() == configs.len(),
        repeatable::<X, A>(attempt),
        attempts_made(saved, dimension, evaluation, steps, configs, attempt, states, after),
        attempts_made(
            restored,
            dimension,
            evaluation,
            steps,
            configs,
            attempt,
            restored_states,
            restored_after,
        ),
    ensures
        restored_states == states,
        restored_after.state == after.state,
        restored_after.integrator == after.integrator,
{
    execution::law_accepted_restore_gives_the_saved_execution(
        saved,
        current,
        dimension,
        identity,
    );
    lemma_attempts_ignore_log(
        saved,
        restored,
        dimension,
        evaluation,
        steps,
        configs,
        attempt,
        states,
        after,
        restored_states,
        restored_after,
    );
}

/// An attempt that is not accepted leaves the restart data exactly as they were.
pub proof fn law_unaccepted_attempt_keeps_checkpoint<
    X,
    A: Fn(&X, BdfState, Scalar, &BdfConfig) -> Result<StepOutcome, SolveError>,
>(
    before: ExecutionModel,
    dimension: nat,
    identity: Seq<char>,
    evaluation: X,
    step: Scalar,
    config: BdfConfig,
    attempt: A,
    result: Result<StepOutcome, KrasisError>,
    after: ExecutionModel,
)
    requires
        execution::attempted(before, dimension, evaluation, step, config, attempt, result, after),
        forall|integrator: BdfState, outcome: Result<StepOutcome, SolveError>|
            #[trigger] call_ensures(
                attempt,
                (&evaluation, integrator, step, &config),
                outcome,
            )
                ==> execution::attempt_model(outcome) !is Accepted,
    ensures
        !trajectory::accepted(result),
        after.state == before.state,
        after.integrator == before.integrator,
        execution::checkpointed(after, dimension, identity) == execution::checkpointed(
            before,
            dimension,
            identity,
        ),
{
    if execution_model::pair_failure(before.state, before.integrator, dimension) is None {
        let (integrator, outcome) = choose|
            integrator: BdfState,
            outcome: Result<StepOutcome, SolveError>,
        |
            {
                &&& integrator@ == before.integrator
                &&& #[trigger] call_ensures(
                attempt,
                (&evaluation, integrator, step, &config),
                outcome,
            )
                &&& execution::settled(before, dimension, step, outcome, result, after)
            };
        assert(execution::settled(before, dimension, step, outcome, result, after));
        execution_model::law_unaccepted_attempt_changes_nothing(
            before,
            dimension,
            step,
            execution::attempt_model(outcome),
        );
    }
}

/// Steps that are all accepted leave a linked history: after each, the newest level is
/// the vector that the integrator held before it.
pub proof fn law_accepted_steps_link_history<
    X,
    A: Fn(&X, BdfState, Scalar, &BdfConfig) -> Result<StepOutcome, SolveError>,
>(
    before: ExecutionModel,
    dimension: nat,
    evaluation: X,
    step: Scalar,
    config: BdfConfig,
    attempt: A,
    count: int,
    linked: bool,
    after: ExecutionModel,
)
    requires
        before.state.consistent(),
        history::history_steps(
            before,
            dimension,
            evaluation,
            step,
            config,
            attempt,
            count,
            linked,
            after,
        ),
    ensures
        linked,
        after.state.consistent(),
        after.state.layout == before.state.layout,
    decreases count,
{
    if count > 0 {
        let (between, result, earlier) = choose|
            between: ExecutionModel,
            result: Result<StepOutcome, KrasisError>,
            earlier: bool,
        |
            {
                &&& history::history_steps(
                    before,
                    dimension,
                    evaluation,
                    step,
                    config,
                    attempt,
                    count - 1,
                    earlier,
                    between,
                )
                &&& #[trigger] history::history_link(
                    between,
                    dimension,
                    evaluation,
                    step,
                    config,
                    attempt,
                    result,
                    earlier,
                    linked,
                    after,
                )
            };
        law_accepted_steps_link_history(
            before,
            dimension,
            evaluation,
            step,
            config,
            attempt,
            count - 1,
            earlier,
            between,
        );
        lemma_accepted_step(between, dimension, evaluation, step, config, attempt, result, after);
        lemma_newest_level(between, dimension, evaluation, step, config, attempt, result, after);
    }
}

proof fn lemma_newest_level<
    X,
    A: Fn(&X, BdfState, Scalar, &BdfConfig) -> Result<StepOutcome, SolveError>,
>(
    before: ExecutionModel,
    dimension: nat,
    evaluation: X,
    step: Scalar,
    config: BdfConfig,
    attempt: A,
    result: Result<StepOutcome, KrasisError>,
    after: ExecutionModel,
)
    requires
        before.state.consistent(),
        execution::attempted(before, dimension, evaluation, step, config, attempt, result, after),
        trajectory::accepted(result),
    ensures
        history::newest_is(after.state, before.integrator.values),
{
    let (integrator, outcome) = choose|
        integrator: BdfState,
        outcome: Result<StepOutcome, SolveError>,
    |
        {
            &&& integrator@ == before.integrator
            &&& #[trigger] call_ensures(
                attempt,
                (&evaluation, integrator, step, &config),
                outcome,
            )
            &&& execution::settled(before, dimension, step, outcome, result, after)
        };
    assert(execution::settled(before, dimension, step, outcome, result, after));
    let next = execution::attempt_model(outcome)->Accepted_0;
    assert(execution_model::accepted_state(before.state, next) == Ok::<_, ErrorModel>(
        after.state,
    ));
    lemma_accepted_step(before, dimension, evaluation, step, config, attempt, result, after);
    assert(execution_model::pair_failure(after.state, next, dimension) is None);
    assert(next.accepted_steps == after.state.step);
    assert(after.state.step > 0);
    assert(!execution_model::fresh(next));
    assert(execution_model::histories_agree(after.state, next, dimension));
    state_model::lemma_consistent(after.state);
    assert(after.state.layout.len() > 0);
    let id = after.state.layout[0].id;
    assert(state_model::has_slot(after.state.fields, id));
    let i = state_model::slot_index(after.state.fields, id);
    assert(0 <= i < after.state.fields.len() && after.state.fields[i].name == id);
    state_model::lemma_consistent_field(after.state, i);
    assert(state_model::slot_of(after.state.fields, id).history.len() > 0);
    assert(after.state.history_limit > 0);
    execution_model::law_accepted_step_keeps_previous(before.state, next);
    let old_vector = execution_model::committed_vector(before.state);
    let values = before.integrator.values;
    assert(numeric::same_values(values, old_vector));
    assert forall|k: int| 0 <= k < old_vector.len() implies (#[trigger] old_vector[k]).same_value(
        values[k],
    ) by {
        assert(values[k].same_value(old_vector[k]));
    }
}

} // verus!
