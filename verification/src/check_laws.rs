//! What the reports of rollback, history, restart and event checks say of what was done.
use crate::error::{ErrorModel, KrasisError};
use crate::event_check;
use crate::event_check::{EventContext, EventDisposition, EventStateReport};
use crate::checkpoint::HistoryModel;
use crate::evidence::{BindingModel, EntryModel};
use crate::execution;
use crate::execution::CoupledCheckpoint;
use crate::execution_model::ExecutionModel;
use crate::history;
use crate::history::HistoryReport;
use crate::numeric::{BdfModel, BdfState, EventSample, SolveError, StepOutcome};
use crate::refusal::{BdfConfig, VerificationRefusal};
use crate::restart;
use crate::restart::{RestartContext, RestartTrajectoryReport, TrajectoryNorms};
use crate::scalar::Scalar;
use crate::trajectory;
use crate::trajectory::{AttemptDisposition, CheckContext, Subject};
use crate::verification;
use crate::verification::RollbackIdentityReport;
use vstd::prelude::*;

verus! {

/// Whether the restart data of an execution were encoded as the given bytes.
pub open spec fn saved_as<E>(
    execution: ExecutionModel,
    dimension: nat,
    identity: Seq<char>,
    encode: E,
    bytes: Seq<u8>,
) -> bool where E: Fn(&CoupledCheckpoint) -> Result<Vec<u8>, String> {
    exists|checkpoint: CoupledCheckpoint, encoded: Vec<u8>|
        {
            &&& #[trigger] call_ensures(
                encode,
                (&checkpoint,),
                Ok::<Vec<u8>, String>(encoded),
            )
            &&& encoded@ == bytes
            &&& execution::checkpointed(execution, dimension, identity) == Ok::<
                _,
                ErrorModel,
            >(checkpoint@)
        }
}

proof fn lemma_saved<E, R>(subject: Subject<'_>, encode: E, render: R, bytes: Vec<u8>) where
    E: Fn(&CoupledCheckpoint) -> Result<Vec<u8>, String>,
    R: Fn(Scalar) -> String,

    requires
        trajectory::checkpoint_encoded(subject, encode, render, Ok(bytes)),
    ensures
        saved_as(subject.execution, subject.dimension, subject.identity, encode, bytes@),
{
    let (checkpoint, encoded) = choose|
        checkpoint: CoupledCheckpoint,
        encoded: Result<Vec<u8>, String>,
    |
        {
            &&& execution::checkpointed(subject.execution, subject.dimension, subject.identity)
                == Ok::<_, ErrorModel>(checkpoint@)
            &&& #[trigger] call_ensures(encode, (&checkpoint,), encoded)
            &&& match encoded {
                Ok(found) => bytes == found,
                Err(error) => false,
            }
        };
    assert(call_ensures(encode, (&checkpoint,), Ok::<Vec<u8>, String>(bytes)));
}

/// Whether a report's account of an attempt is right: rejected, accepted or failed.
pub open spec fn tells_attempt(
    disposition: AttemptDisposition,
    attempted: Result<StepOutcome, KrasisError>,
) -> bool {
    match attempted {
        Ok(StepOutcome::Accepted(_)) => disposition is UnexpectedAccepted,
        Ok(StepOutcome::Rejected(_)) => disposition is Rejected,
        Err(_) => disposition is SolverError,
    }
}

/// Whether a probed attempt was made from an execution and told by its traces: the restart
/// data before and after it, and how it ended.
pub open spec fn attempt_probed<X, A, E>(
    subject: Subject<'_>,
    evaluation: X,
    step: Scalar,
    config: BdfConfig,
    attempt: A,
    encode: E,
    attempted: Result<StepOutcome, KrasisError>,
    left: ExecutionModel,
    before: Seq<u8>,
    after: Seq<u8>,
) -> bool where
    A: Fn(&X, BdfState, Scalar, &BdfConfig) -> Result<StepOutcome, SolveError>,
    E: Fn(&CoupledCheckpoint) -> Result<Vec<u8>, String>,
 {
    &&& saved_as(subject.execution, subject.dimension, subject.identity, encode, before)
    &&& execution::attempted(
        subject.execution,
        subject.dimension,
        evaluation,
        step,
        config,
        attempt,
        attempted,
        left,
    )
    &&& saved_as(left, subject.dimension, subject.identity, encode, after)
}

/// A rollback report tells of one attempt from the execution, made with the step and the
/// configuration given. It says byte identical exactly where the restart data encoded before
/// and after the attempt are the same bytes, and passed exactly where they are, the attempt
/// was not accepted and all evidence was.
pub proof fn law_rollback_report_tells_of_the_attempt<X, C, V, A, E, S, R>(
    subject: Subject<'_>,
    evaluation: X,
    step: Scalar,
    config: BdfConfig,
    describe: C,
    entries: Seq<EntryModel>,
    context: CheckContext<V, E, R>,
    attempt: A,
    seal: S,
    report: RollbackIdentityReport,
) where
    C: Fn(&X, Scalar, &BdfConfig) -> Result<Vec<u8>, String>,
    V: Fn(usize, usize) -> Result<bool, String>,
    A: Fn(&X, BdfState, Scalar, &BdfConfig) -> Result<StepOutcome, SolveError>,
    E: Fn(&CoupledCheckpoint) -> Result<Vec<u8>, String>,
    S: FnOnce(&RollbackIdentityReport) -> Result<Vec<u8>, String>,
    R: Fn(Scalar) -> String,

    requires
        verification::rollback_checked(
            subject,
            evaluation,
            step,
            config,
            describe,
            entries,
            context,
            attempt,
            seal,
            Ok::<RollbackIdentityReport, VerificationRefusal>(report),
        ),
    ensures
        exists|
            attempted: Result<StepOutcome, KrasisError>,
            left: ExecutionModel,
            before: Seq<u8>,
            after: Seq<u8>,
        |
            {
                &&& #[trigger] attempt_probed(
                    subject,
                    evaluation,
                    step,
                    config,
                    attempt,
                    context.encode,
                    attempted,
                    left,
                    before,
                    after,
                )
                &&& tells_attempt(report.disposition, attempted)
                &&& report.byte_identical == (before == after)
                &&& report.passed <==> report.binding.finitum_verification_accepted == Some(true)
                    && before == after
                    && !(attempted matches Ok(outcome) && outcome is Accepted)
            },
{
    let outcome = Ok::<RollbackIdentityReport, VerificationRefusal>(report);
    let binding = choose|binding: BindingModel|
        #[trigger] verification::rollback_bound(
            subject,
            step,
            binding,
            evaluation,
            config,
            attempt,
            context.encode,
            context.render,
            seal,
            outcome,
        );
    let before = choose|before: Vec<u8>|
        {
            &&& #[trigger] trajectory::checkpoint_encoded(
                subject,
                context.encode,
                context.render,
                Ok(before),
            )
            &&& verification::rollback_probed(
                subject,
                step,
                binding,
                before@,
                evaluation,
                config,
                attempt,
                context.encode,
                context.render,
                seal,
                outcome,
            )
        };
    let (attempted, left, after) = choose|
        attempted: Result<StepOutcome, KrasisError>,
        left: ExecutionModel,
        after: Vec<u8>,
    |
        {
            &&& #[trigger] execution::attempted(
                subject.execution,
                subject.dimension,
                evaluation,
                step,
                config,
                attempt,
                attempted,
                left,
            )
            &&& #[trigger] trajectory::checkpoint_encoded(
                subject.at(left),
                context.encode,
                context.render,
                Ok(after),
            )
            &&& verification::rollback_sealed(
                verification::rollback_content(binding, attempted, before@, after@),
                seal,
                outcome,
            )
        };
    lemma_saved(subject, context.encode, context.render, before);
    lemma_saved(subject.at(left), context.encode, context.render, after);
    assert(attempt_probed(
        subject,
        evaluation,
        step,
        config,
        attempt,
        context.encode,
        attempted,
        left,
        before@,
        after@,
    ));
}

/// The direction of an event is that in which its value went, and an event is reported
/// otherwise as it was found.
pub proof fn law_event_goes_as_its_value(event: EventSample)
    ensures
        event_check::disposed(event).index == event.index,
        event_check::disposed(event).time == event.time,
        event_check::disposed(event).value_before == event.value_before,
        event_check::disposed(event).value_after == event.value_after,
        event_check::disposed(event).direction is Rising <==> event.value_before.below(
            event.value_after,
        ),
        event_check::disposed(event).direction is Falling <==> event.value_after.below(
            event.value_before,
        ),
{
}

/// Whether events are told one by one as they were found.
pub open spec fn tells_events(
    told: Seq<EventDisposition>,
    found: Seq<EventSample>,
) -> bool {
    &&& told.len() == found.len()
    &&& forall|k: int|
        0 <= k < found.len() ==> {
            &&& (#[trigger] told[k]).index == found[k].index
            &&& told[k].time == found[k].time
            &&& told[k].value_before == found[k].value_before
            &&& told[k].value_after == found[k].value_after
            &&& told[k].direction is Rising <==> found[k].value_before.below(found[k].value_after)
            &&& told[k].direction is Falling <==> found[k].value_after.below(
                found[k].value_before,
            )
        }
}

/// An event report tells of one step from the given state. It tells the events of that step
/// one by one where the step was accepted and none where it was not, and says unchanged and
/// passed exactly where the state was encoded as the same bytes before and after the step.
pub proof fn law_event_report_tells_of_the_step<X, C, E, A, S>(
    state: BdfState,
    dimension: nat,
    operator_identity: Seq<char>,
    step: Scalar,
    config: BdfConfig,
    calls: EventContext<X, C, E, A, S>,
    report: EventStateReport,
) where
    C: Fn(&X, &BdfState, Scalar, &BdfConfig) -> Result<Vec<u8>, String>,
    E: Fn(&BdfState) -> Result<Vec<u8>, String>,
    A: Fn(&X, &BdfState, Scalar, &BdfConfig) -> Result<StepOutcome, String>,
    S: Fn(&EventStateReport) -> Result<Vec<u8>, String>,

    requires
        event_check::event_checked(
            state,
            dimension,
            operator_identity,
            step,
            config,
            calls,
            Ok::<EventStateReport, VerificationRefusal>(report),
        ),
    ensures
        state@.values.len() == dimension,
        exists|before: Vec<u8>, outcome: StepOutcome, after: Vec<u8>|
            {
                &&& #[trigger] call_ensures(
                    calls.encode,
                    (&state,),
                    Ok::<Vec<u8>, String>(before),
                )
                &&& #[trigger] call_ensures(
                    calls.attempt,
                    (&calls.evaluation, &state, step, &config),
                    Ok::<StepOutcome, String>(outcome),
                )
                &&& #[trigger] call_ensures(calls.encode, (&state,), Ok::<Vec<u8>, String>(after))
                &&& report.accepted_step <==> outcome is Accepted
                &&& match outcome {
                    StepOutcome::Accepted(accepted) => tells_events(
                        report.events@,
                        accepted.events@,
                    ),
                    StepOutcome::Rejected(_) => report.events@.len() == 0,
                }
                &&& report.input_state_unchanged == (before@ == after@)
                &&& report.passed == (before@ == after@)
            },
{
    let result = Ok::<EventStateReport, VerificationRefusal>(report);
    let binding = choose|binding: BindingModel|
        #[trigger] event_check::event_probed(state, step, config, binding, calls, result);
    let (before, outcome) = choose|before: Vec<u8>, outcome: StepOutcome|
        {
            &&& #[trigger] call_ensures(calls.encode, (&state,), Ok::<Vec<u8>, String>(before))
            &&& #[trigger] call_ensures(
                calls.attempt,
                (&calls.evaluation, &state, step, &config),
                Ok::<StepOutcome, String>(outcome),
            )
            &&& event_check::event_stepped(state, binding, before@, outcome, calls, result)
        };
    let after = choose|after: Vec<u8>|
        {
            &&& #[trigger] call_ensures(calls.encode, (&state,), Ok::<Vec<u8>, String>(after))
            &&& event_check::event_sealed(
                event_check::event_content(binding, outcome, before@, after@),
                calls.seal,
                result,
            )
        };
    assert(call_ensures(calls.encode, (&state,), Ok::<Vec<u8>, String>(before)));
    assert(call_ensures(
        calls.attempt,
        (&calls.evaluation, &state, step, &config),
        Ok::<StepOutcome, String>(outcome),
    ));
    assert(call_ensures(calls.encode, (&state,), Ok::<Vec<u8>, String>(after)));
}

/// An event report from initial values tells of a step from the state that they were
/// initialized to.
pub proof fn law_initial_event_report_starts_from_the_initialized_state<I, X, C, E, A, S>(
    dimension: nat,
    operator_identity: Seq<char>,
    time: Scalar,
    values: Vec<Scalar>,
    step: Scalar,
    config: BdfConfig,
    initialize: I,
    calls: EventContext<X, C, E, A, S>,
    report: EventStateReport,
) where
    I: FnOnce(&X, Scalar, Vec<Scalar>) -> Result<BdfState, SolveError>,
    C: Fn(&X, &BdfState, Scalar, &BdfConfig) -> Result<Vec<u8>, String>,
    E: Fn(&BdfState) -> Result<Vec<u8>, String>,
    A: Fn(&X, &BdfState, Scalar, &BdfConfig) -> Result<StepOutcome, String>,
    S: Fn(&EventStateReport) -> Result<Vec<u8>, String>,

    requires
        event_check::initial_event_checked(
            dimension,
            operator_identity,
            time,
            values,
            step,
            config,
            initialize,
            calls,
            Ok::<EventStateReport, VerificationRefusal>(report),
        ),
    ensures
        exists|state: BdfState|
            {
                &&& #[trigger] call_ensures(
                    initialize,
                    (&calls.evaluation, time, values),
                    Ok::<BdfState, SolveError>(state),
                )
                &&& event_check::event_checked(
                    state,
                    dimension,
                    operator_identity,
                    step,
                    config,
                    calls,
                    Ok::<EventStateReport, VerificationRefusal>(report),
                )
            },
{
}

/// Whether one step leads from an execution to another and was accepted.
pub open spec fn step_taken<X, A>(
    before: ExecutionModel,
    dimension: nat,
    evaluation: X,
    step: Scalar,
    config: BdfConfig,
    attempt: A,
    after: ExecutionModel,
) -> bool where A: Fn(&X, BdfState, Scalar, &BdfConfig) -> Result<StepOutcome, SolveError> {
    exists|result: Result<StepOutcome, KrasisError>|
        {
            &&& #[trigger] execution::attempted(
                before,
                dimension,
                evaluation,
                step,
                config,
                attempt,
                result,
                after,
            )
            &&& result matches Ok(outcome) && outcome is Accepted
        }
}

/// Whether executions follow one another by accepted steps.
pub open spec fn run_through<X, A>(
    executions: Seq<ExecutionModel>,
    dimension: nat,
    evaluation: X,
    step: Scalar,
    config: BdfConfig,
    attempt: A,
) -> bool where A: Fn(&X, BdfState, Scalar, &BdfConfig) -> Result<StepOutcome, SolveError> {
    &&& executions.len() > 0
    &&& forall|k: int|
        0 <= k < executions.len() - 1 ==> #[trigger] taken_at(
            executions,
            k,
            dimension,
            evaluation,
            step,
            config,
            attempt,
        )
}

/// Whether an accepted step leads from the execution at a position to the next.
pub open spec fn taken_at<X, A>(
    executions: Seq<ExecutionModel>,
    k: int,
    dimension: nat,
    evaluation: X,
    step: Scalar,
    config: BdfConfig,
    attempt: A,
) -> bool where A: Fn(&X, BdfState, Scalar, &BdfConfig) -> Result<StepOutcome, SolveError> {
    step_taken(executions[k], dimension, evaluation, step, config, attempt, executions[k + 1])
}

/// Whether the execution behind a position has the values of the one there as its newest
/// history level.
pub open spec fn linked_at(executions: Seq<ExecutionModel>, k: int) -> bool {
    history::newest_is(executions[k + 1].state, executions[k].integrator.values)
}

proof fn lemma_run_extends<X, A>(
    executions: Seq<ExecutionModel>,
    dimension: nat,
    evaluation: X,
    step: Scalar,
    config: BdfConfig,
    attempt: A,
    after: ExecutionModel,
) where
    A: Fn(&X, BdfState, Scalar, &BdfConfig) -> Result<StepOutcome, SolveError>,

    requires
        run_through(executions, dimension, evaluation, step, config, attempt),
        step_taken(executions.last(), dimension, evaluation, step, config, attempt, after),
    ensures
        run_through(executions.push(after), dimension, evaluation, step, config, attempt),
{
    let longer = executions.push(after);
    assert forall|k: int| 0 <= k < longer.len() - 1 implies #[trigger] taken_at(
        longer,
        k,
        dimension,
        evaluation,
        step,
        config,
        attempt,
    ) by {
        assert(longer[k] == executions[k]);
        if k < executions.len() - 1 {
            assert(taken_at(executions, k, dimension, evaluation, step, config, attempt));
            assert(longer[k + 1] == executions[k + 1]);
        }
    }
}

/// Steps that were all accepted lead from one execution to another through as many as there
/// are steps, each made with the same step and configuration; the values kept are those of
/// each execution reached.
pub proof fn law_accepted_steps_follow_one_another<X, A>(
    before: ExecutionModel,
    dimension: nat,
    evaluation: X,
    step: Scalar,
    config: BdfConfig,
    attempt: A,
    count: int,
    states: Seq<Seq<Scalar>>,
    after: ExecutionModel,
) -> (executions: Seq<ExecutionModel>) where
    A: Fn(&X, BdfState, Scalar, &BdfConfig) -> Result<StepOutcome, SolveError>,

    requires
        0 <= count,
        trajectory::steps_accepted(
            before,
            dimension,
            evaluation,
            step,
            config,
            attempt,
            count,
            states,
            after,
        ),
    ensures
        run_through(executions, dimension, evaluation, step, config, attempt),
        executions.len() == count + 1,
        executions[0] == before,
        executions[count] == after,
        states.len() == count,
        forall|k: int|
            0 <= k < count ==> (#[trigger] states[k]) == executions[k + 1].integrator.values,
    decreases count,
{
    if count == 0 {
        seq![before]
    } else {
        let (between, result) = choose|
            between: ExecutionModel,
            result: Result<StepOutcome, KrasisError>,
        |
            {
                &&& trajectory::steps_accepted(
                    before,
                    dimension,
                    evaluation,
                    step,
                    config,
                    attempt,
                    count - 1,
                    states.drop_last(),
                    between,
                )
                &&& #[trigger] execution::attempted(
                    between,
                    dimension,
                    evaluation,
                    step,
                    config,
                    attempt,
                    result,
                    after,
                )
                &&& trajectory::accepted(result)
                &&& states.len() == count
                &&& states.last() == after.integrator.values
            };
        let shorter = law_accepted_steps_follow_one_another(
            before,
            dimension,
            evaluation,
            step,
            config,
            attempt,
            count - 1,
            states.drop_last(),
            between,
        );
        lemma_run_extends(shorter, dimension, evaluation, step, config, attempt, after);
        let executions = shorter.push(after);
        assert forall|k: int| 0 <= k < count implies (#[trigger] states[k]) == executions[k
            + 1].integrator.values by {
            if k < count - 1 {
                assert(states.drop_last()[k] == states[k]);
                assert(executions[k + 1] == shorter[k + 1]);
            }
        }
        executions
    }
}

/// The steps of a history check follow one another in the same way; they are linked exactly
/// where each left the values before it as the newest history level.
pub proof fn law_history_steps_follow_one_another<X, A>(
    before: ExecutionModel,
    dimension: nat,
    evaluation: X,
    step: Scalar,
    config: BdfConfig,
    attempt: A,
    count: int,
    linked: bool,
    after: ExecutionModel,
) -> (executions: Seq<ExecutionModel>) where
    A: Fn(&X, BdfState, Scalar, &BdfConfig) -> Result<StepOutcome, SolveError>,

    requires
        0 <= count,
        history::history_steps(
            before,
            dimension,
            evaluation,
            step,
            config,
            attempt,
            count,
            linked,
            after,
        ),
    ensures
        run_through(executions, dimension, evaluation, step, config, attempt),
        executions.len() == count + 1,
        executions[0] == before,
        executions[count] == after,
        linked <==> forall|k: int| 0 <= k < count ==> #[trigger] linked_at(executions, k),
    decreases count,
{
    if count == 0 {
        seq![before]
    } else {
        let (between, result, earlier) = choose|
            between: ExecutionModel,
            result: Result<StepOutcome, KrasisError>,
            earlier: bool,
        |
            {
                &&& history::history_steps(
                    before,
                    dimension,
                    evaluation,
                    step,
                    config,
                    attempt,
                    count - 1,
                    earlier,
                    between,
                )
                &&& #[trigger] history::history_link(
                    between,
                    dimension,
                    evaluation,
                    step,
                    config,
                    attempt,
                    result,
                    earlier,
                    linked,
                    after,
                )
            };
        let shorter = law_history_steps_follow_one_another(
            before,
            dimension,
            evaluation,
            step,
            config,
            attempt,
            count - 1,
            earlier,
            between,
        );
        assert(execution::attempted(
            between,
            dimension,
            evaluation,
            step,
            config,
            attempt,
            result,
            after,
        ));
        lemma_run_extends(shorter, dimension, evaluation, step, config, attempt, after);
        let executions = shorter.push(after);
        assert forall|k: int| 0 <= k < count - 1 implies #[trigger] linked_at(executions, k)
            == linked_at(shorter, k) by {
            assert(executions[k] == shorter[k]);
            assert(executions[k + 1] == shorter[k + 1]);
        }
        assert(linked_at(executions, count - 1) == history::newest_is(
            after.state,
            between.integrator.values,
        ));
        if forall|k: int| 0 <= k < count ==> #[trigger] linked_at(executions, k) {
            assert forall|k: int| 0 <= k < count - 1 implies #[trigger] linked_at(
                shorter,
                k,
            ) by {
                assert(linked_at(executions, k));
            }
        }
        executions
    }
}

/// Whether reported depths are those of saved histories, one by one.
pub open spec fn tells_depths(
    told: Seq<history::HistoryDepth>,
    saved: Seq<HistoryModel>,
) -> bool {
    &&& told.len() == saved.len()
    &&& forall|k: int|
        0 <= k < saved.len() ==> (#[trigger] told[k]).field@ == saved[k].name && told[k].depth
            == saved[k].levels.len()
}

/// Whether every history is as deep as the steps taken or the limit, whichever is less.
pub open spec fn histories_full(saved: Seq<HistoryModel>, steps: nat, limit: nat) -> bool {
    forall|k: int|
        0 <= k < saved.len() ==> {
            &&& (#[trigger] saved[k]).levels.len() <= steps
            &&& saved[k].levels.len() <= limit
            &&& saved[k].levels.len() == steps || saved[k].levels.len() == limit
        }
}

/// A history report tells of the accepted steps it asked for, at least one, and of one more
/// attempt from where they led, made with the configuration meant to reject. It tells the
/// depth of every saved history. It says synchronized exactly where the steps were linked
/// and every history is full, and passed exactly where that holds, the restart data encoded
/// before and after the last attempt are the same bytes, that attempt was not accepted and
/// all evidence was.
pub proof fn law_history_report_tells_of_the_steps<X, C, V, A, E, S, R>(
    subject: Subject<'_>,
    evaluation: X,
    step: Scalar,
    steps: usize,
    accepted_config: BdfConfig,
    rejection_config: BdfConfig,
    describe: C,
    entries: Seq<EntryModel>,
    context: CheckContext<V, E, R>,
    attempt: A,
    seal: S,
    report: HistoryReport,
) where
    C: Fn(&X, Scalar, usize, &BdfConfig, &BdfConfig) -> Result<Vec<u8>, String>,
    V: Fn(usize, usize) -> Result<bool, String>,
    A: Fn(&X, BdfState, Scalar, &BdfConfig) -> Result<StepOutcome, SolveError>,
    E: Fn(&CoupledCheckpoint) -> Result<Vec<u8>, String>,
    S: FnOnce(&HistoryReport) -> Result<Vec<u8>, String>,
    R: Fn(Scalar) -> String,

    requires
        history::history_checked(
            subject,
            evaluation,
            step,
            steps,
            accepted_config,
            rejection_config,
            describe,
            entries,
            context,
            attempt,
            seal,
            Ok::<HistoryReport, VerificationRefusal>(report),
        ),
    ensures
        steps > 0,
        report.accepted_steps == steps,
        exists|
            linked: bool,
            stepped: ExecutionModel,
            attempted: Result<StepOutcome, KrasisError>,
            left: ExecutionModel,
            before: Seq<u8>,
            after: Seq<u8>,
        |
            {
                &&& #[trigger] history::history_steps(
                    subject.execution,
                    subject.dimension,
                    evaluation,
                    step,
                    accepted_config,
                    attempt,
                    steps as int,
                    linked,
                    stepped,
                )
                &&& #[trigger] attempt_probed(
                    subject.at(stepped),
                    evaluation,
                    step,
                    rejection_config,
                    attempt,
                    context.encode,
                    attempted,
                    left,
                    before,
                    after,
                )
                &&& tells_attempt(report.rejected_attempt, attempted)
                &&& execution::checkpointed(stepped, subject.dimension, subject.identity) matches Ok(
                    saved,
                ) && {
                    &&& tells_depths(report.field_history_depths@, saved.state.field_history)
                    &&& report.synchronized <==> linked && histories_full(
                        saved.state.field_history,
                        steps as nat,
                        saved.state.history_limit,
                    )
                }
                &&& report.rejection_byte_identical == (before == after)
                &&& report.passed <==> report.binding.finitum_verification_accepted == Some(true)
                    && report.synchronized && before == after && !(attempted matches Ok(outcome)
                    && outcome is Accepted)
            },
{
    let outcome = Ok::<HistoryReport, VerificationRefusal>(report);
    let binding = choose|binding: BindingModel| #[trigger]
        history::history_bound(
            subject,
            step,
            binding,
            steps as nat,
            evaluation,
            accepted_config,
            rejection_config,
            attempt,
            context.encode,
            context.render,
            seal,
            outcome,
        );
    let (linked, stepped) = choose|linked: bool, stepped: ExecutionModel|
        {
            &&& #[trigger] history::history_steps(
                subject.execution,
                subject.dimension,
                evaluation,
                step,
                accepted_config,
                attempt,
                steps as int,
                linked,
                stepped,
            )
            &&& history::history_saved(
                subject,
                step,
                binding,
                steps as nat,
                linked,
                stepped,
                evaluation,
                rejection_config,
                attempt,
                context.encode,
                context.render,
                seal,
                outcome,
            )
        };
    let saved = execution::checkpointed(stepped, subject.dimension, subject.identity)->Ok_0;
    let before = choose|before: Vec<u8>|
        {
            &&& #[trigger] trajectory::checkpoint_encoded(
                subject.at(stepped),
                context.encode,
                context.render,
                Ok(before),
            )
            &&& history::history_probed(
                subject,
                step,
                binding,
                steps as nat,
                linked,
                stepped,
                before@,
                evaluation,
                rejection_config,
                attempt,
                context.encode,
                context.render,
                seal,
                outcome,
            )
        };
    let (attempted, left, after) = choose|
        attempted: Result<StepOutcome, KrasisError>,
        left: ExecutionModel,
        after: Vec<u8>,
    |
        {
            &&& #[trigger] execution::attempted(
                stepped,
                subject.dimension,
                evaluation,
                step,
                rejection_config,
                attempt,
                attempted,
                left,
            )
            &&& #[trigger] trajectory::checkpoint_encoded(
                subject.at(left),
                context.encode,
                context.render,
                Ok(after),
            )
            &&& history::history_sealed(
                history::history_content(
                    binding,
                    steps as nat,
                    saved,
                    linked,
                    attempted,
                    before@,
                    after@,
                ),
                seal,
                outcome,
            )
        };
    lemma_saved(subject.at(stepped), context.encode, context.render, before);
    lemma_saved(subject.at(left), context.encode, context.render, after);
    assert(attempt_probed(
        subject.at(stepped),
        evaluation,
        step,
        rejection_config,
        attempt,
        context.encode,
        attempted,
        left,
        before@,
        after@,
    ));
    let kept = saved.state.field_history;
    let depths = history::depths_of(kept);
    let told = history::depth_models(report.field_history_depths@);
    assert(told == depths);
    assert(told.len() == depths.len());
    assert forall|k: int| 0 <= k < kept.len() implies (
    #[trigger] report.field_history_depths@[k]).field@ == kept[k].name
        && report.field_history_depths@[k].depth == kept[k].levels.len() by {
        assert(told[k] == depths[k]);
        assert(told[k] == report.field_history_depths@[k]@);
    }
    let limit = saved.state.history_limit;
    assert(history::depths_full(kept, steps as nat, limit) <==> histories_full(
        kept,
        steps as nat,
        limit,
    ));
}

/// Whether an execution was saved, read back and restored onto the subject's execution.
pub open spec fn read_back<E, D>(
    subject: Subject<'_>,
    stopped: ExecutionModel,
    encode: E,
    decode: D,
    reloaded: ExecutionModel,
) -> bool where
    E: Fn(&CoupledCheckpoint) -> Result<Vec<u8>, String>,
    D: Fn(&Vec<u8>) -> Result<CoupledCheckpoint, String>,
 {
    exists|bytes: Vec<u8>, decoded: CoupledCheckpoint|
        {
            &&& saved_as(stopped, subject.dimension, subject.identity, encode, bytes@)
            &&& #[trigger] call_ensures(
                decode,
                (&bytes,),
                Ok::<CoupledCheckpoint, String>(decoded),
            )
            &&& execution::restored(
                subject.execution,
                subject.dimension,
                subject.identity,
                decoded@,
            ) == Ok::<ExecutionModel, ErrorModel>(reloaded)
        }
}

/// Whether two trajectories that start together were compared.
pub open spec fn compared<N>(
    start: BdfModel,
    step: Scalar,
    left_states: Seq<Seq<Scalar>>,
    right_states: Seq<Seq<Scalar>>,
    norms: N,
    found: TrajectoryNorms,
) -> bool where
    N: Fn(Scalar, Scalar, &Vec<Vec<Scalar>>, &Vec<Vec<Scalar>>) -> Result<TrajectoryNorms, String>,
 {
    exists|left: Vec<Vec<Scalar>>, right: Vec<Vec<Scalar>>|
        {
            &&& #[trigger] call_ensures(
                norms,
                (start.time, step, &left, &right),
                Ok::<TrajectoryNorms, String>(found),
            )
            &&& left@.len() == left_states.len() + 1
            &&& left@[0]@ == start.values
            &&& forall|k: int|
                0 <= k < left_states.len() ==> left@[k + 1]@ == #[trigger] left_states[k]
            &&& right@.len() == right_states.len() + 1
            &&& right@[0]@ == start.values
            &&& forall|k: int|
                0 <= k < right_states.len() ==> right@[k + 1]@ == #[trigger] right_states[k]
        }
}

/// Whether a restart report tells the norms found and the restart data of two executions.
pub open spec fn tells_ends<E>(
    subject: Subject<'_>,
    continuous: ExecutionModel,
    restarted: ExecutionModel,
    norms: TrajectoryNorms,
    encode: E,
    report: RestartTrajectoryReport,
) -> bool where E: Fn(&CoupledCheckpoint) -> Result<Vec<u8>, String> {
    exists|first: Seq<u8>, second: Seq<u8>|
        {
            &&& #[trigger] saved_as(
                continuous,
                subject.dimension,
                subject.identity,
                encode,
                first,
            )
            &&& #[trigger] saved_as(
                restarted,
                subject.dimension,
                subject.identity,
                encode,
                second,
            )
            &&& report.trajectory_l_infinity == norms.l_infinity
            &&& report.trajectory_l2_time == norms.l2_time
            &&& report.final_checkpoint_byte_identical == (first == second)
            &&& report.passed <==> report.binding.finitum_verification_accepted == Some(true)
                && first == second && norms.l_infinity.same_value(Scalar::nil())
                && norms.l2_time.same_value(Scalar::nil())
        }
}

/// A restart report tells of two runs from the execution, of the counts given: one in one
/// go, the other stopped in between, saved, read back and taken on to the same count. Their
/// trajectories were compared from the start on. The report passed exactly where both norms
/// are zero, both runs ended with the same restart data byte for byte, and all evidence was
/// accepted.
pub proof fn law_restart_report_tells_of_the_runs<X, C, V, A, E, R, D, N, S>(
    subject: Subject<'_>,
    evaluation: X,
    step: Scalar,
    total: usize,
    split: usize,
    config: BdfConfig,
    describe: C,
    entries: Seq<EntryModel>,
    context: CheckContext<V, E, R>,
    attempt: A,
    calls: RestartContext<D, N, S>,
    report: RestartTrajectoryReport,
) where
    C: Fn(&X, Scalar, usize, usize, &BdfConfig) -> Result<Vec<u8>, String>,
    V: Fn(usize, usize) -> Result<bool, String>,
    A: Fn(&X, BdfState, Scalar, &BdfConfig) -> Result<StepOutcome, SolveError>,
    E: Fn(&CoupledCheckpoint) -> Result<Vec<u8>, String>,
    R: Fn(Scalar) -> String,
    D: Fn(&Vec<u8>) -> Result<CoupledCheckpoint, String>,
    N: Fn(Scalar, Scalar, &Vec<Vec<Scalar>>, &Vec<Vec<Scalar>>) -> Result<TrajectoryNorms, String>,
    S: Fn(&RestartTrajectoryReport) -> Result<Vec<u8>, String>,

    requires
        restart::restart_checked(
            subject,
            evaluation,
            step,
            total,
            split,
            config,
            describe,
            entries,
            context,
            attempt,
            calls,
            Ok::<RestartTrajectoryReport, VerificationRefusal>(report),
        ),
    ensures
        0 < split < total,
        report.split_after_steps == split,
        report.total_steps == total,
        exists|
            continuous_states: Seq<Seq<Scalar>>,
            continuous: ExecutionModel,
            split_states: Seq<Seq<Scalar>>,
            stopped: ExecutionModel,
            reloaded: ExecutionModel,
            later: Seq<Seq<Scalar>>,
            restarted: ExecutionModel,
            norms: TrajectoryNorms,
        |
            {
                &&& #[trigger] trajectory::steps_accepted(
                    subject.execution,
                    subject.dimension,
                    evaluation,
                    step,
                    config,
                    attempt,
                    total as int,
                    continuous_states,
                    continuous,
                )
                &&& #[trigger] trajectory::steps_accepted(
                    subject.execution,
                    subject.dimension,
                    evaluation,
                    step,
                    config,
                    attempt,
                    split as int,
                    split_states,
                    stopped,
                )
                &&& #[trigger] read_back(
                    subject,
                    stopped,
                    context.encode,
                    calls.decode,
                    reloaded,
                )
                &&& #[trigger] trajectory::steps_accepted(
                    reloaded,
                    subject.dimension,
                    evaluation,
                    step,
                    config,
                    attempt,
                    total - split,
                    later,
                    restarted,
                )
                &&& compared(
                    subject.execution.integrator,
                    step,
                    continuous_states,
                    split_states + later,
                    calls.norms,
                    norms,
                )
                &&& #[trigger] tells_ends(
                    subject,
                    continuous,
                    restarted,
                    norms,
                    context.encode,
                    report,
                )
            },
{
    let outcome = Ok::<RestartTrajectoryReport, VerificationRefusal>(report);
    let binding = choose|binding: BindingModel| #[trigger]
        restart::restart_bound(
            subject,
            step,
            binding,
            total as nat,
            split as nat,
            evaluation,
            config,
            attempt,
            context.encode,
            context.render,
            calls,
            outcome,
        );
    let initial = choose|initial: Vec<u8>|
        {
            &&& #[trigger] trajectory::checkpoint_encoded(
                subject,
                context.encode,
                context.render,
                Ok(initial),
            )
            &&& restart::restart_run(
                subject,
                step,
                binding,
                total as nat,
                split as nat,
                initial@,
                evaluation,
                config,
                attempt,
                context.encode,
                context.render,
                calls,
                outcome,
            )
        };
    let (continuous_states, continuous, split_states, stopped) = choose|
        continuous_states: Seq<Seq<Scalar>>,
        continuous: ExecutionModel,
        split_states: Seq<Seq<Scalar>>,
        stopped: ExecutionModel,
    |
        {
            &&& #[trigger] trajectory::steps_accepted(
                subject.execution,
                subject.dimension,
                evaluation,
                step,
                config,
                attempt,
                total as int,
                continuous_states,
                continuous,
            )
            &&& #[trigger] trajectory::steps_accepted(
                subject.execution,
                subject.dimension,
                evaluation,
                step,
                config,
                attempt,
                split as int,
                split_states,
                stopped,
            )
            &&& restart::restart_stopped(
                subject,
                step,
                binding,
                total as nat,
                split as nat,
                initial@,
                continuous_states,
                continuous,
                split_states,
                stopped,
                evaluation,
                config,
                attempt,
                context.encode,
                context.render,
                calls,
                outcome,
            )
        };
    let (reloaded, later, restarted, norms) = lemma_restart_ends(
        subject,
        step,
        binding,
        total as nat,
        split as nat,
        initial@,
        continuous_states,
        continuous,
        split_states,
        stopped,
        evaluation,
        config,
        attempt,
        context.encode,
        context.render,
        calls,
        report,
    );
    assert(read_back(subject, stopped, context.encode, calls.decode, reloaded));
}

proof fn lemma_restart_ends<X, A, E, R, D, N, S>(
    subject: Subject<'_>,
    step: Scalar,
    binding: BindingModel,
    total: nat,
    split: nat,
    initial: Seq<u8>,
    continuous_states: Seq<Seq<Scalar>>,
    continuous: ExecutionModel,
    split_states: Seq<Seq<Scalar>>,
    stopped: ExecutionModel,
    evaluation: X,
    config: BdfConfig,
    attempt: A,
    encode: E,
    render: R,
    calls: RestartContext<D, N, S>,
    report: RestartTrajectoryReport,
) -> (made: (ExecutionModel, Seq<Seq<Scalar>>, ExecutionModel, TrajectoryNorms)) where
    A: Fn(&X, BdfState, Scalar, &BdfConfig) -> Result<StepOutcome, SolveError>,
    E: Fn(&CoupledCheckpoint) -> Result<Vec<u8>, String>,
    R: Fn(Scalar) -> String,
    D: Fn(&Vec<u8>) -> Result<CoupledCheckpoint, String>,
    N: Fn(Scalar, Scalar, &Vec<Vec<Scalar>>, &Vec<Vec<Scalar>>) -> Result<TrajectoryNorms, String>,
    S: Fn(&RestartTrajectoryReport) -> Result<Vec<u8>, String>,

    requires
        restart::restart_stopped(
            subject,
            step,
            binding,
            total,
            split,
            initial,
            continuous_states,
            continuous,
            split_states,
            stopped,
            evaluation,
            config,
            attempt,
            encode,
            render,
            calls,
            Ok::<RestartTrajectoryReport, VerificationRefusal>(report),
        ),
    ensures
        read_back(subject, stopped, encode, calls.decode, made.0),
        trajectory::steps_accepted(
            made.0,
            subject.dimension,
            evaluation,
            step,
            config,
            attempt,
            total - split,
            made.1,
            made.2,
        ),
        compared(
            subject.execution.integrator,
            step,
            continuous_states,
            split_states + made.1,
            calls.norms,
            made.3,
        ),
        tells_ends(subject, continuous, made.2, made.3, encode, report),
        report.split_after_steps == split,
        report.total_steps == total,
{
    let outcome = Ok::<RestartTrajectoryReport, VerificationRefusal>(report);
    let (bytes, decoded) = choose|bytes: Vec<u8>, decoded: Result<CoupledCheckpoint, String>|
        {
            &&& trajectory::checkpoint_encoded(subject.at(stopped), encode, render, Ok(bytes))
            &&& #[trigger] call_ensures(calls.decode, (&bytes,), decoded)
            &&& restart::restart_loaded(
                subject,
                step,
                binding,
                total,
                split,
                initial,
                continuous_states,
                continuous,
                split_states,
                decoded,
                evaluation,
                config,
                attempt,
                encode,
                render,
                calls,
                outcome,
            )
        };
    lemma_saved(subject.at(stopped), encode, render, bytes);
    let checkpoint = decoded->Ok_0;
    let reloaded = execution::restored(
        subject.execution,
        subject.dimension,
        subject.identity,
        checkpoint@,
    )->Ok_0;
    assert(call_ensures(
        calls.decode,
        (&bytes,),
        Ok::<CoupledCheckpoint, String>(checkpoint),
    ));
    assert(read_back(subject, stopped, encode, calls.decode, reloaded));
    let (later, restarted) = choose|later: Seq<Seq<Scalar>>, restarted: ExecutionModel|
        {
            &&& #[trigger] trajectory::steps_accepted(
                reloaded,
                subject.dimension,
                evaluation,
                step,
                config,
                attempt,
                total - split,
                later,
                restarted,
            )
            &&& restart::restart_compared(
                subject,
                step,
                binding,
                total,
                split,
                initial,
                continuous_states,
                continuous,
                split_states + later,
                restarted,
                encode,
                render,
                calls,
                outcome,
            )
        };
    let right_states = split_states + later;
    let start = subject.execution.integrator;
    let (left, right, norms) = choose|
        left: Vec<Vec<Scalar>>,
        right: Vec<Vec<Scalar>>,
        norms: TrajectoryNorms,
    |
        {
            &&& trajectory::vectors(left@) == seq![start.values] + continuous_states
            &&& trajectory::vectors(right@) == seq![start.values] + right_states
            &&& #[trigger] call_ensures(
                calls.norms,
                (start.time, step, &left, &right),
                Ok::<TrajectoryNorms, String>(norms),
            )
            &&& restart::restart_finished(
                subject,
                binding,
                total,
                split,
                initial,
                norms,
                continuous,
                restarted,
                encode,
                render,
                calls.seal,
                outcome,
            )
        };
    assert(compared(start, step, continuous_states, right_states, calls.norms, norms)) by {
        lemma_started(left, start.values, continuous_states);
        lemma_started(right, start.values, right_states);
        assert(call_ensures(
            calls.norms,
            (start.time, step, &left, &right),
            Ok::<TrajectoryNorms, String>(norms),
        ));
    }
    let (first, second) = choose|first: Vec<u8>, second: Vec<u8>|
        {
            &&& #[trigger] trajectory::checkpoint_encoded(
                subject.at(continuous),
                encode,
                render,
                Ok(first),
            )
            &&& #[trigger] trajectory::checkpoint_encoded(
                subject.at(restarted),
                encode,
                render,
                Ok(second),
            )
            &&& restart::restart_sealed(
                restart::restart_content(
                    binding,
                    total,
                    split,
                    initial,
                    norms,
                    first@,
                    second@,
                ),
                calls.seal,
                outcome,
            )
        };
    lemma_saved(subject.at(continuous), encode, render, first);
    lemma_saved(subject.at(restarted), encode, render, second);
    Scalar::lemma_nil();
    assert(tells_ends(subject, continuous, restarted, norms, encode, report)) by {
        assert(saved_as(continuous, subject.dimension, subject.identity, encode, first@));
        assert(saved_as(restarted, subject.dimension, subject.identity, encode, second@));
    }
    (reloaded, later, restarted, norms)
}

proof fn lemma_started(states: Vec<Vec<Scalar>>, start: Seq<Scalar>, later: Seq<Seq<Scalar>>)
    requires
        trajectory::vectors(states@) == seq![start] + later,
    ensures
        states@.len() == later.len() + 1,
        states@[0]@ == start,
        forall|k: int| 0 <= k < later.len() ==> states@[k + 1]@ == #[trigger] later[k],
{
    let all = seq![start] + later;
    let models = trajectory::vectors(states@);
    assert(models.len() == states@.len());
    assert(all.len() == later.len() + 1);
    assert(models[0] == states@[0]@);
    assert(all[0] == start);
    assert forall|k: int| 0 <= k < later.len() implies states@[k + 1]@ == #[trigger] later[k] by {
        assert(models[k + 1] == states@[k + 1]@);
        assert(all[k + 1] == later[k]);
    }
}

} // verus!
