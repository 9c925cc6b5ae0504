//! The check that accepted steps keep a synchronized bounded history, and that an
//! unaccepted one leaves it alone.
use crate::checkpoint::{HistoryModel, NamedHistory};
use crate::digest;
use crate::digest::digest_bytes;
use crate::error::KrasisError;
use crate::evidence;
use crate::evidence::{
    execution_binding, same_binding, BindingModel, EntryModel, FinitumVerificationSource,
    VerificationBinding,
};
use crate::execution;
use crate::execution::{CoupledCheckpoint, CoupledExecution};
use crate::execution_model;
use crate::execution_model::{CoupledCheckpointModel, ExecutionModel};
use crate::numeric;
use crate::numeric::{
    equal_values, BdfState, EvaluationRefusal, RefusalModel, SolveError, StepOutcome,
};
use crate::operator::TransactionalOperator;
use crate::refusal;
use crate::refusal::{
    krasis_refusal, serialization_refusal, validate_bdf_identity_inputs, BdfConfig, RefusalText,
    VerificationRefusal,
};
use crate::scalar::{copy_scalars, Scalar};
use crate::state_model;
use crate::state_model::StateModel;
use crate::text::same_text;
use crate::trajectory;
use crate::trajectory::{
    checkpoint_bytes, classify, require_accepted, same_bytes, same_refusal, AttemptDisposition,
    CheckContext, Subject,
};
use crate::verification;
use crate::verification::{require_report, ValidatedKrasisVerification};
use vstd::prelude::*;

verus! {

/// The number of history levels of one field.
#[derive(Clone, Debug, PartialEq, Eq)]
pub struct HistoryDepth {
    pub field: String,
    pub depth: usize,
}

#[verifier::ext_equal]
pub struct DepthModel {
    pub field: Seq<char>,
    pub depth: nat,
}

impl View for HistoryDepth {
    type V = DepthModel;

    open spec fn view(&self) -> DepthModel {
        DepthModel { field: self.field@, depth: self.depth as nat }
    }
}

pub open spec fn depth_models(depths: Seq<HistoryDepth>) -> Seq<DepthModel> {
    depths.map_values(|depth: HistoryDepth| depth@)
}

/// The report of a history check.
#[derive(Clone, Debug, PartialEq, Eq)]
pub struct HistoryReport {
    pub report_digest: String,
    pub binding: VerificationBinding,
    pub accepted_steps: usize,
    pub field_history_depths: Vec<HistoryDepth>,
    pub synchronized: bool,
    pub rejected_attempt: AttemptDisposition,
    pub evaluation_refusal: Option<EvaluationRefusal>,
    pub checkpoint_before_rejection_digest: String,
    pub checkpoint_after_rejection_digest: String,
    pub rejection_byte_identical: bool,
    pub passed: bool,
}

#[verifier::ext_equal]
pub struct HistoryReportModel {
    pub report_digest: Seq<char>,
    pub binding: BindingModel,
    pub accepted_steps: nat,
    pub field_history_depths: Seq<DepthModel>,
    pub synchronized: bool,
    pub rejected_attempt: AttemptDisposition,
    pub evaluation_refusal: Option<RefusalModel>,
    pub checkpoint_before_rejection_digest: Seq<char>,
    pub checkpoint_after_rejection_digest: Seq<char>,
    pub rejection_byte_identical: bool,
    pub passed: bool,
}

impl View for HistoryReport {
    type V = HistoryReportModel;

    open spec fn view(&self) -> HistoryReportModel {
        HistoryReportModel {
            report_digest: self.report_digest@,
            binding: self.binding@,
            accepted_steps: self.accepted_steps as nat,
            field_history_depths: depth_models(self.field_history_depths@),
            synchronized: self.synchronized,
            rejected_attempt: self.rejected_attempt,
            evaluation_refusal: trajectory::refusal_model(self.evaluation_refusal),
            checkpoint_before_rejection_digest: self.checkpoint_before_rejection_digest@,
            checkpoint_after_rejection_digest: self.checkpoint_after_rejection_digest@,
            rejection_byte_identical: self.rejection_byte_identical,
            passed: self.passed,
        }
    }
}

/// Whether the newest history level of a state is the given vector, in value.
pub open spec fn newest_is(state: StateModel, values: Seq<Scalar>) -> bool {
    &&& state_model::has_level(state.layout, state.fields, 0)
    &&& numeric::same_values(execution_model::previous_vector(state), values)
}

/// Whether `count` steps in a row were accepted; `synchronized` says whether each left the
/// values before it as the newest history level.
pub open spec fn history_steps<
    X,
    A: Fn(&X, BdfState, Scalar, &BdfConfig) -> Result<StepOutcome, SolveError>,
>(
    before: ExecutionModel,
    dimension: nat,
    evaluation: X,
    step: Scalar,
    config: BdfConfig,
    attempt: A,
    count: int,
    synchronized: bool,
    after: ExecutionModel,
) -> bool
    decreases count,
{
    if count <= 0 {
        synchronized && after == before
    } else {
        exists|between: ExecutionModel, result: Result<StepOutcome, KrasisError>, earlier: bool|
            {
                &&& history_steps(
                    before,
                    dimension,
                    evaluation,
                    step,
                    config,
                    attempt,
                    count - 1,
                    earlier,
                    between,
                )
                &&& #[trigger] history_link(
                    between,
                    dimension,
                    evaluation,
                    step,
                    config,
                    attempt,
                    result,
                    earlier,
                    synchronized,
                    after,
                )
            }
    }
}

/// One accepted step and what it does to the flag.
pub open spec fn history_link<
    X,
    A: Fn(&X, BdfState, Scalar, &BdfConfig) -> Result<StepOutcome, SolveError>,
>(
    between: ExecutionModel,
    dimension: nat,
    evaluation: X,
    step: Scalar,
    config: BdfConfig,
    attempt: A,
    result: Result<StepOutcome, KrasisError>,
    earlier: bool,
    synchronized: bool,
    after: ExecutionModel,
) -> bool {
    &&& execution::attempted(between, dimension, evaluation, step, config, attempt, result, after)
    &&& trajectory::accepted(result)
    &&& synchronized == (earlier && newest_is(after.state, between.integrator.values))
}

/// Whether one of `count` steps in a row was not accepted, and how a check says so.
pub open spec fn history_refused<X, A, R>(
    before: ExecutionModel,
    dimension: nat,
    evaluation: X,
    step: Scalar,
    config: BdfConfig,
    attempt: A,
    render: R,
    count: int,
    refused: RefusalText,
) -> bool where
    A: Fn(&X, BdfState, Scalar, &BdfConfig) -> Result<StepOutcome, SolveError>,
    R: Fn(Scalar) -> String,
 {
    exists|
        done: int,
        flag: bool,
        between: ExecutionModel,
        result: Result<StepOutcome, KrasisError>,
        after: ExecutionModel,
    |
        {
            &&& 0 <= done < count
            &&& #[trigger] history_steps(
                before,
                dimension,
                evaluation,
                step,
                config,
                attempt,
                done,
                flag,
                between,
            )
            &&& #[trigger] execution::attempted(
                between,
                dimension,
                evaluation,
                step,
                config,
                attempt,
                result,
                after,
            )
            &&& trajectory::step_refused(result, render, refused)
        }
}

pub open spec fn depths_of(history: Seq<HistoryModel>) -> Seq<DepthModel> {
    history.map_values(
        |entry: HistoryModel| DepthModel { field: entry.name, depth: entry.levels.len() },
    )
}

pub open spec fn smaller(left: nat, right: nat) -> nat {
    if left <= right {
        left
    } else {
        right
    }
}

/// Whether every field keeps as many levels as steps were taken, up to the limit.
pub open spec fn depths_full(history: Seq<HistoryModel>, steps: nat, limit: nat) -> bool {
    forall|i: int|
        0 <= i < history.len() ==> (#[trigger] history[i]).levels.len() == smaller(steps, limit)
}

/// What a history report says, before it is sealed.
pub open spec fn history_content(
    binding: BindingModel,
    steps: nat,
    saved: CoupledCheckpointModel,
    linked: bool,
    attempted: Result<StepOutcome, KrasisError>,
    before: Seq<u8>,
    after: Seq<u8>,
) -> HistoryReportModel {
    let synchronized = linked && depths_full(
        saved.state.field_history,
        steps,
        saved.state.history_limit,
    );
    HistoryReportModel {
        report_digest: Seq::empty(),
        binding,
        accepted_steps: steps,
        field_history_depths: depths_of(saved.state.field_history),
        synchronized,
        rejected_attempt: trajectory::disposition_of(attempted),
        evaluation_refusal: trajectory::refusal_of(attempted),
        checkpoint_before_rejection_digest: digest::digest_of_bytes(before),
        checkpoint_after_rejection_digest: digest::digest_of_bytes(after),
        rejection_byte_identical: before == after,
        passed: binding.accepted == Some(true) && synchronized && trajectory::disposition_of(
            attempted,
        ) != AttemptDisposition::UnexpectedAccepted && before == after,
    }
}

pub open spec fn history_sealed<S>(
    content: HistoryReportModel,
    seal: S,
    result: Result<HistoryReport, VerificationRefusal>,
) -> bool where S: FnOnce(&HistoryReport) -> Result<Vec<u8>, String> {
    exists|unsealed: HistoryReport, encoded: Result<Vec<u8>, String>|
        {
            &&& unsealed@ == content
            &&& #[trigger] call_ensures(seal, (&unsealed,), encoded)
            &&& match encoded {
                Err(error) => refusal::reports(
                    refusal::serialization_refused(error@),
                    result,
                ),
                Ok(bytes) => result matches Ok(report) && report@ == (HistoryReportModel {
                    report_digest: digest::digest_of_bytes(bytes@),
                    ..content
                }),
            }
        }
}

/// The rejected attempt, the second checkpoint and the report.
pub open spec fn history_probed<X, A, E, S, R>(
    subject: Subject<'_>,
    step: Scalar,
    binding: BindingModel,
    steps: nat,
    linked: bool,
    stepped: ExecutionModel,
    before: Seq<u8>,
    evaluation: X,
    config: BdfConfig,
    attempt: A,
    encode: E,
    render: R,
    seal: S,
    result: Result<HistoryReport, VerificationRefusal>,
) -> bool where
    A: Fn(&X, BdfState, Scalar, &BdfConfig) -> Result<StepOutcome, SolveError>,
    E: Fn(&CoupledCheckpoint) -> Result<Vec<u8>, String>,
    S: FnOnce(&HistoryReport) -> Result<Vec<u8>, String>,
    R: Fn(Scalar) -> String,
 {
    exists|
        attempted: Result<StepOutcome, KrasisError>,
        left: ExecutionModel,
        after: Result<Vec<u8>, VerificationRefusal>,
    |
        {
            &&& #[trigger] execution::attempted(
                stepped,
                subject.dimension,
                evaluation,
                step,
                config,
                attempt,
                attempted,
                left,
            )
            &&& #[trigger] trajectory::checkpoint_encoded(
                subject.at(left),
                encode,
                render,
                after,
            )
            &&& match after {
                Err(refused) => result == Err::<HistoryReport, VerificationRefusal>(refused),
                Ok(after) => history_sealed(
                    history_content(
                        binding,
                        steps,
                        execution::checkpointed(
                            stepped,
                            subject.dimension,
                            subject.identity,
                        )->Ok_0,
                        linked,
                        attempted,
                        before,
                        after@,
                    ),
                    seal,
                    result,
                ),
            }
        }
}

/// What follows the accepted steps: the restart data, encoded, and the rejected attempt.
pub open spec fn history_saved<X, A, E, S, R>(
    subject: Subject<'_>,
    step: Scalar,
    binding: BindingModel,
    steps: nat,
    linked: bool,
    stepped: ExecutionModel,
    evaluation: X,
    config: BdfConfig,
    attempt: A,
    encode: E,
    render: R,
    seal: S,
    result: Result<HistoryReport, VerificationRefusal>,
) -> bool where
    A: Fn(&X, BdfState, Scalar, &BdfConfig) -> Result<StepOutcome, SolveError>,
    E: Fn(&CoupledCheckpoint) -> Result<Vec<u8>, String>,
    S: FnOnce(&HistoryReport) -> Result<Vec<u8>, String>,
    R: Fn(Scalar) -> String,
 {
    match execution::checkpointed(stepped, subject.dimension, subject.identity) {
        Err(failure) => exists|error: KrasisError|
            {
                &&& error@ == failure
                &&& result is Err
                &&& #[trigger] refusal::state_refused(error, render, result->Err_0@)
            },
        Ok(_) => exists|before: Result<Vec<u8>, VerificationRefusal>|
            {
                &&& #[trigger] trajectory::checkpoint_encoded(
                    subject.at(stepped),
                    encode,
                    render,
                    before,
                )
                &&& match before {
                    Err(refused) => result == Err::<HistoryReport, VerificationRefusal>(refused),
                    Ok(before) => history_probed(
                        subject,
                        step,
                        binding,
                        steps,
                        linked,
                        stepped,
                        before@,
                        evaluation,
                        config,
                        attempt,
                        encode,
                        render,
                        seal,
                        result,
                    ),
                }
            },
    }
}

/// What a history check gives once it is bound.
pub open spec fn history_bound<X, A, E, S, R>(
    subject: Subject<'_>,
    step: Scalar,
    binding: BindingModel,
    steps: nat,
    evaluation: X,
    accepted_config: BdfConfig,
    rejection_config: BdfConfig,
    attempt: A,
    encode: E,
    render: R,
    seal: S,
    result: Result<HistoryReport, VerificationRefusal>,
) -> bool where
    A: Fn(&X, BdfState, Scalar, &BdfConfig) -> Result<StepOutcome, SolveError>,
    E: Fn(&CoupledCheckpoint) -> Result<Vec<u8>, String>,
    S: FnOnce(&HistoryReport) -> Result<Vec<u8>, String>,
    R: Fn(Scalar) -> String,
 {
    ||| result is Err && history_refused(
        subject.execution,
        subject.dimension,
        evaluation,
        step,
        accepted_config,
        attempt,
        render,
        steps as int,
        result->Err_0@,
    )
    ||| exists|linked: bool, stepped: ExecutionModel|
        {
            &&& #[trigger] history_steps(
                subject.execution,
                subject.dimension,
                evaluation,
                step,
                accepted_config,
                attempt,
                steps as int,
                linked,
                stepped,
            )
            &&& history_saved(
                subject,
                step,
                binding,
                steps,
                linked,
                stepped,
                evaluation,
                rejection_config,
                attempt,
                encode,
                render,
                seal,
                result,
            )
        }
}

/// What a history check gives, whatever its outside calls returned.
pub open spec fn history_checked<X, C, V, A, E, S, R>(
    subject: Subject<'_>,
    evaluation: X,
    step: Scalar,
    steps: usize,
    accepted_config: BdfConfig,
    rejection_config: BdfConfig,
    describe: C,
    entries: Seq<EntryModel>,
    context: CheckContext<V, E, R>,
    attempt: A,
    seal: S,
    result: Result<HistoryReport, VerificationRefusal>,
) -> bool where
    C: Fn(&X, Scalar, usize, &BdfConfig, &BdfConfig) -> Result<Vec<u8>, String>,
    V: Fn(usize, usize) -> Result<bool, String>,
    A: Fn(&X, BdfState, Scalar, &BdfConfig) -> Result<StepOutcome, SolveError>,
    E: Fn(&CoupledCheckpoint) -> Result<Vec<u8>, String>,
    S: FnOnce(&HistoryReport) -> Result<Vec<u8>, String>,
    R: Fn(Scalar) -> String,
 {
    match refusal::either(
        refusal::step_failure(step, accepted_config),
        refusal::step_failure(step, rejection_config),
    ) {
        Some(failure) => refusal::reports(failure, result),
        None => if steps == 0 {
            refusal::reports(
                RefusalText {
                    code: "KRASIS_VERIFY_EMPTY_HISTORY_SEQUENCE"@,
                    message: "history checking requires at least one accepted step"@,
                },
                result,
            )
        } else {
            exists|
                described: Result<Vec<u8>, String>,
                bound: Result<VerificationBinding, VerificationRefusal>,
            |
                {
                    &&& #[trigger] call_ensures(
                        describe,
                        (&evaluation, step, steps, &accepted_config, &rejection_config),
                        described,
                    )
                    &&& #[trigger] evidence::execution_bound(
                        subject.execution,
                        subject.dimension,
                        subject.identity,
                        subject.sources,
                        described,
                        entries,
                        context.validate,
                        context.render,
                        bound,
                    )
                    &&& match bound {
                        Err(refused) => result == Err::<HistoryReport, VerificationRefusal>(
                            refused,
                        ),
                        Ok(binding) => history_bound(
                            subject,
                            step,
                            binding@,
                            steps as nat,
                            evaluation,
                            accepted_config,
                            rejection_config,
                            attempt,
                            context.encode,
                            context.render,
                            seal,
                            result,
                        ),
                    }
                }
        },
    }
}

proof fn lemma_one_more<
    X,
    A: Fn(&X, BdfState, Scalar, &BdfConfig) -> Result<StepOutcome, SolveError>,
>(
    before: ExecutionModel,
    dimension: nat,
    evaluation: X,
    step: Scalar,
    config: BdfConfig,
    attempt: A,
    count: int,
    earlier: bool,
    between: ExecutionModel,
    result: Result<StepOutcome, KrasisError>,
    synchronized: bool,
    after: ExecutionModel,
)
    requires
        count >= 0,
        history_steps(
            before,
            dimension,
            evaluation,
            step,
            config,
            attempt,
            count,
            earlier,
            between,
        ),
        history_link(
            between,
            dimension,
            evaluation,
            step,
            config,
            attempt,
            result,
            earlier,
            synchronized,
            after,
        ),
    ensures
        history_steps(
            before,
            dimension,
            evaluation,
            step,
            config,
            attempt,
            count + 1,
            synchronized,
            after,
        ),
{
    assert((count + 1) - 1 == count);
}

/// Takes `count` steps that must all be accepted; says whether each left the values
/// before it as the newest history level.
fn take_linked_steps<Op, X, A, R>(
    execution: &mut CoupledExecution<Op>,
    evaluation: &X,
    step: Scalar,
    config: &BdfConfig,
    attempt: &A,
    count: usize,
    render: &R,
) -> (result: Result<bool, VerificationRefusal>) where
    Op: TransactionalOperator,
    A: Fn(&X, BdfState, Scalar, &BdfConfig) -> Result<StepOutcome, SolveError>,
    R: Fn(Scalar) -> String,

    requires
        old(execution).wf(),
        forall|integrator: BdfState|
            call_requires(*attempt, (evaluation, integrator, step, config)),
        forall|value: Scalar| call_requires(*render, (value,)),
    ensures
        final(execution).wf(),
        final(execution).op() == old(execution).op(),
        match result {
            Ok(linked) => history_steps(
                old(execution)@,
                old(execution).op().size(),
                *evaluation,
                step,
                *config,
                *attempt,
                count as int,
                linked,
                final(execution)@,
            ),
            Err(refused) => history_refused(
                old(execution)@,
                old(execution).op().size(),
                *evaluation,
                step,
                *config,
                *attempt,
                *render,
                count as int,
                refused@,
            ),
        },
{
    let ghost start = execution@;
    let ghost op = execution.op();
    let mut linked: bool = true;
    let mut index: usize = 0;
    while index < count
        invariant
            index <= count,
            start == old(execution)@,
            op == old(execution).op(),
            execution.wf(),
            execution.op() == op,
            history_steps(
                start,
                op.size(),
                *evaluation,
                step,
                *config,
                *attempt,
                index as int,
                linked,
                execution@,
            ),
            forall|integrator: BdfState|
                call_requires(*attempt, (evaluation, integrator, step, config)),
            forall|value: Scalar| call_requires(*render, (value,)),
        decreases count - index,
    {
        let ghost between = execution@;
        let ghost earlier = linked;
        let previous = copy_scalars(&execution.integrator().values);
        let result = execution.attempt_step(evaluation, step, config, attempt);
        let ghost after = execution@;
        let ghost returned = result;
        assert(execution::attempted(
            between,
            op.size(),
            *evaluation,
            step,
            *config,
            *attempt,
            returned,
            after,
        ));
        match require_accepted(result, render) {
            Ok(_) => {},
            Err(refused) => {
                assert(history_refused(
                    start,
                    op.size(),
                    *evaluation,
                    step,
                    *config,
                    *attempt,
                    *render,
                    count as int,
                    refused@,
                ));
                return Err(refused);
            },
        }
        proof {
            execution.lemma_wf();
            lemma_accepted_is_filled(
                between,
                op.size(),
                *evaluation,
                step,
                *config,
                *attempt,
                returned,
                after,
            );
        }
        let matches_previous: bool = match execution.state().history_vector(0) {
            Ok(Some(newest)) => {
                proof {
                    execution_model::lemma_previous_vector(after.state, newest@);
                }
                equal_values(&newest, &previous)
            },
            _ => false,
        };
        linked = linked && matches_previous;
        proof {
            assert(history_link(
                between,
                op.size(),
                *evaluation,
                step,
                *config,
                *attempt,
                returned,
                earlier,
                linked,
                after,
            ));
            lemma_one_more(
                start,
                op.size(),
                *evaluation,
                step,
                *config,
                *attempt,
                index as int,
                earlier,
                between,
                returned,
                linked,
                after,
            );
        }
        index += 1;
    }
    Ok(linked)
}

proof fn lemma_accepted_is_filled<
    X,
    A: Fn(&X, BdfState, Scalar, &BdfConfig) -> Result<StepOutcome, SolveError>,
>(
    before: ExecutionModel,
    dimension: nat,
    evaluation: X,
    step: Scalar,
    config: BdfConfig,
    attempt: A,
    result: Result<StepOutcome, KrasisError>,
    after: ExecutionModel,
)
    requires
        execution::attempted(before, dimension, evaluation, step, config, attempt, result, after),
        trajectory::accepted(result),
    ensures
        state_model::filled(after.state.layout, after.state.fields),
{
    let (integrator, outcome) = choose|
        integrator: BdfState,
        outcome: Result<StepOutcome, SolveError>,
    |
        {
            &&& integrator@ == before.integrator
            &&& #[trigger] call_ensures(
                attempt,
                (&evaluation, integrator, step, &config),
                outcome,
            )
            &&& execution::settled(before, dimension, step, outcome, result, after)
        };
    assert(execution::settled(before, dimension, step, outcome, result, after));
}

/// The depths of saved histories, and whether all are full.
fn history_depths(history: &Vec<NamedHistory>, steps: usize, limit: usize) -> (result: (
    Vec<HistoryDepth>,
    bool,
))
    ensures
        depth_models(result.0@) == depths_of(
            history@.map_values(|entry: NamedHistory| entry@),
        ),
        result.1 == depths_full(
            history@.map_values(|entry: NamedHistory| entry@),
            steps as nat,
            limit as nat,
        ),
{
    let ghost models = history@.map_values(|entry: NamedHistory| entry@);
    let expected: usize = if steps <= limit {
        steps
    } else {
        limit
    };
    let mut depths: Vec<HistoryDepth> = Vec::new();
    let mut full: bool = true;
    let mut index: usize = 0;
    assert(depth_models(depths@) =~= depths_of(models.take(0)));
    while index < history.len()
        invariant
            index <= history.len(),
            models == history@.map_values(|entry: NamedHistory| entry@),
            expected == smaller(steps as nat, limit as nat),
            depth_models(depths@) == depths_of(models.take(index as int)),
            full == depths_full(models.take(index as int), steps as nat, limit as nat),
        decreases history.len() - index,
    {
        let entry = &history[index];
        let ghost listed = depths@;
        let depth = HistoryDepth { field: entry.name.clone(), depth: entry.levels.len() };
        depths.push(depth);
        let ghost shorter = models.take(index as int);
        let ghost longer = models.take(index + 1);
        proof {
            assert(models[index as int] == entry@);
            assert(entry@.levels.len() == entry.levels@.len());
            assert(longer =~= shorter.push(entry@));
            assert(depth_models(depths@) =~= depth_models(listed).push(depth@));
            assert(depths_of(longer) =~= depths_of(shorter).push(depth@));
            if full && entry.levels@.len() == expected {
                assert forall|i: int| 0 <= i < longer.len() implies (
                #[trigger] longer[i]).levels.len() == expected by {
                    if i < index {
                        assert(longer[i] == shorter[i]);
                    }
                }
            } else if !full {
                let i = choose|i: int|
                    0 <= i < shorter.len() && (#[trigger] shorter[i]).levels.len() != expected;
                assert(longer[i] == shorter[i]);
            } else {
                assert(longer[index as int].levels.len() != expected);
            }
        }
        full = full && entry.levels.len() == expected;
        index += 1;
    }
    assert(models.take(index as int) =~= models);
    (depths, full)
}

/// Takes accepted steps, checks that the history they leave is synchronized and bounded,
/// then makes an attempt that must not be accepted and must leave everything as it was.
/// `describe` serialises the evaluation context, the step, the count and the two
/// configurations, which the report's configuration identity covers; `attempt` makes the
/// accepted steps under the first configuration and the last attempt under the second.
pub fn check_history_and_rejection<Op, X, C, V, A, E, S, R>(
    execution: &CoupledExecution<Op>,
    evaluation: &X,
    step: Scalar,
    accepted_steps: usize,
    accepted_config: &BdfConfig,
    rejection_config: &BdfConfig,
    describe: &C,
    source: &FinitumVerificationSource,
    context: &CheckContext<V, E, R>,
    attempt: &A,
    seal: S,
) -> (result: Result<HistoryReport, VerificationRefusal>) where
    Op: TransactionalOperator,
    C: Fn(&X, Scalar, usize, &BdfConfig, &BdfConfig) -> Result<Vec<u8>, String>,
    V: Fn(usize, usize) -> Result<bool, String>,
    A: Fn(&X, BdfState, Scalar, &BdfConfig) -> Result<StepOutcome, SolveError>,
    E: Fn(&CoupledCheckpoint) -> Result<Vec<u8>, String>,
    S: FnOnce(&HistoryReport) -> Result<Vec<u8>, String>,
    R: Fn(Scalar) -> String,

    requires
        execution.wf(),
        context.callable(),
        call_requires(
            *describe,
            (evaluation, step, accepted_steps, accepted_config, rejection_config),
        ),
        forall|integrator: BdfState|
            call_requires(*attempt, (evaluation, integrator, step, accepted_config)),
        forall|integrator: BdfState|
            call_requires(*attempt, (evaluation, integrator, step, rejection_config)),
        forall|report: &HistoryReport| call_requires(seal, (report,)),
    ensures
        history_checked(
            trajectory::subject_of(*execution),
            *evaluation,
            step,
            accepted_steps,
            *accepted_config,
            *rejection_config,
            *describe,
            source@,
            *context,
            *attempt,
            seal,
            result,
        ),
{
    match validate_bdf_identity_inputs(step, accepted_config) {
        Ok(_) => {},
        Err(error) => {
            return Err(error);
        },
    }
    match validate_bdf_identity_inputs(step, rejection_config) {
        Ok(_) => {},
        Err(error) => {
            return Err(error);
        },
    }
    if accepted_steps == 0 {
        return Err(
            refusal::refusal(
                "KRASIS_VERIFY_EMPTY_HISTORY_SEQUENCE",
                "history checking requires at least one accepted step",
            ),
        );
    }
    let ghost subject = trajectory::subject_of(*execution);
    let mut candidate = execution.fork();
    let told = describe(evaluation, step, accepted_steps, accepted_config, rejection_config);
    let ghost described = told;
    assert(call_ensures(
        *describe,
        (evaluation, step, accepted_steps, accepted_config, rejection_config),
        described,
    ));
    let bound = execution_binding(
        &candidate,
        told,
        source,
        &context.validate,
        &context.render,
    );
    let ghost given_bound = bound;
    assert(evidence::execution_bound(
        subject.execution,
        subject.dimension,
        subject.identity,
        subject.sources,
        described,
        source@,
        context.validate,
        context.render,
        given_bound,
    ));
    let binding = match bound {
        Ok(binding) => binding,
        Err(error) => {
            return Err(error);
        },
    };
    let linked: bool = match take_linked_steps(
        &mut candidate,
        evaluation,
        step,
        accepted_config,
        attempt,
        accepted_steps,
        &context.render,
    ) {
        Ok(linked) => linked,
        Err(error) => {
            return Err(error);
        },
    };
    let ghost stepped = candidate@;
    assert(history_steps(
        subject.execution,
        subject.dimension,
        *evaluation,
        step,
        *accepted_config,
        *attempt,
        accepted_steps as nat as int,
        linked,
        stepped,
    ));
    let result = probe_rejection(
        execution,
        candidate,
        step,
        accepted_steps,
        linked,
        binding,
        context,
        evaluation,
        rejection_config,
        attempt,
        seal,
    );
    result
}

/// What follows the accepted steps of a history check.
fn probe_rejection<Op, X, V, A, E, S, R>(
    execution: &CoupledExecution<Op>,
    candidate: CoupledExecution<&Op>,
    step: Scalar,
    accepted_steps: usize,
    linked: bool,
    binding: VerificationBinding,
    context: &CheckContext<V, E, R>,
    evaluation: &X,
    config: &BdfConfig,
    attempt: &A,
    seal: S,
) -> (result: Result<HistoryReport, VerificationRefusal>) where
    Op: TransactionalOperator,
    V: Fn(usize, usize) -> Result<bool, String>,
    A: Fn(&X, BdfState, Scalar, &BdfConfig) -> Result<StepOutcome, SolveError>,
    E: Fn(&CoupledCheckpoint) -> Result<Vec<u8>, String>,
    S: FnOnce(&HistoryReport) -> Result<Vec<u8>, String>,
    R: Fn(Scalar) -> String,

    requires
        execution.wf(),
        candidate.wf(),
        candidate.op() == &execution.op(),
        context.callable(),
        forall|integrator: BdfState|
            call_requires(*attempt, (evaluation, integrator, step, config)),
        forall|report: &HistoryReport| call_requires(seal, (report,)),
    ensures
        history_saved(
            trajectory::subject_of(*execution),
            step,
            binding@,
            accepted_steps as nat,
            linked,
            candidate@,
            *evaluation,
            *config,
            *attempt,
            context.encode,
            context.render,
            seal,
            result,
        ),
{
    let ghost subject = trajectory::subject_of(*execution);
    let mut candidate = candidate;
    let ghost stepped = candidate@;
    let checkpoint = match candidate.checkpoint() {
        Ok(checkpoint) => checkpoint,
        Err(error) => {
            let ghost failed = error;
            let result: Result<HistoryReport, VerificationRefusal> = Err(
                krasis_refusal(error, &context.render),
            );
            assert(refusal::state_refused(failed, context.render, result->Err_0@));
            return result;
        },
    };
    let (field_history_depths, full) = history_depths(
        &checkpoint.state.field_history,
        accepted_steps,
        checkpoint.state.history_limit,
    );
    let synchronized: bool = linked && full;
    let encoded = checkpoint_bytes(&candidate, &context.encode, &context.render);
    let ghost given_before = encoded;
    assert(trajectory::checkpoint_encoded(
        subject.at(stepped),
        context.encode,
        context.render,
        given_before,
    ));
    let before = match encoded {
        Ok(bytes) => bytes,
        Err(error) => {
            return Err(error);
        },
    };
    let attempted = candidate.attempt_step(evaluation, step, config, attempt);
    let ghost tried = attempted;
    let ghost left = candidate@;
    assert(execution::attempted(
        stepped,
        subject.dimension,
        *evaluation,
        step,
        *config,
        *attempt,
        tried,
        left,
    ));
    let (rejected_attempt, evaluation_refusal) = classify(attempted);
    let encoded = checkpoint_bytes(&candidate, &context.encode, &context.render);
    let ghost given_after = encoded;
    assert(trajectory::checkpoint_encoded(
        subject.at(left),
        context.encode,
        context.render,
        given_after,
    ));
    let ghost bound_to = binding@;
    let after = match encoded {
        Ok(bytes) => bytes,
        Err(error) => {
            let result: Result<HistoryReport, VerificationRefusal> = Err(error);
            assert(history_probed(
                subject,
                step,
                bound_to,
                accepted_steps as nat,
                linked,
                stepped,
                before@,
                *evaluation,
                *config,
                *attempt,
                context.encode,
                context.render,
                seal,
                result,
            ));
            return result;
        },
    };
    let rejection_byte_identical: bool = same_bytes(&before, &after);
    let evidence_accepted: bool = match binding.finitum_verification_accepted {
        Some(accepted) => accepted,
        None => false,
    };
    let mut report = HistoryReport {
        report_digest: String::new(),
        binding,
        accepted_steps,
        field_history_depths,
        synchronized,
        rejected_attempt,
        evaluation_refusal,
        checkpoint_before_rejection_digest: digest_bytes(&before),
        checkpoint_after_rejection_digest: digest_bytes(&after),
        rejection_byte_identical,
        passed: evidence_accepted && synchronized && rejected_attempt
            != AttemptDisposition::UnexpectedAccepted && rejection_byte_identical,
    };
    let ghost unsealed = report;
    let ghost content = history_content(
        bound_to,
        accepted_steps as nat,
        execution::checkpointed(stepped, subject.dimension, subject.identity)->Ok_0,
        linked,
        tried,
        before@,
        after@,
    );
    assert(unsealed@ == content);
    let sealed = seal(&report);
    assert(call_ensures(seal, (&unsealed,), sealed));
    let result = match sealed {
        Ok(bytes) => {
            report.report_digest = digest_bytes(&bytes);
            Ok(report)
        },
        Err(error) => Err(serialization_refusal(error)),
    };
    assert(history_sealed(content, seal, result));
    assert(history_probed(
        subject,
        step,
        bound_to,
        accepted_steps as nat,
        linked,
        stepped,
        before@,
        *evaluation,
        *config,
        *attempt,
        context.encode,
        context.render,
        seal,
        result,
    ));
    result
}

fn same_depths(left: &Vec<HistoryDepth>, right: &Vec<HistoryDepth>) -> (result: bool)
    ensures
        result == (depth_models(left@) == depth_models(right@)),
{
    let ghost mine = depth_models(left@);
    let ghost theirs = depth_models(right@);
    assert(mine.len() == left@.len() && theirs.len() == right@.len());
    if left.len() != right.len() {
        return false;
    }
    let mut index: usize = 0;
    while index < left.len()
        invariant
            index <= left.len(),
            left.len() == right.len(),
            mine == depth_models(left@),
            theirs == depth_models(right@),
            forall|i: int| 0 <= i < index ==> mine[i] == theirs[i],
        decreases left.len() - index,
    {
        assert(mine[index as int] == left@[index as int]@);
        assert(theirs[index as int] == right@[index as int]@);
        if left[index].depth != right[index].depth || !same_text(
            left[index].field.as_str(),
            right[index].field.as_str(),
        ) {
            assert(mine[index as int] != theirs[index as int]);
            return false;
        }
        index += 1;
    }
    assert(mine =~= theirs);
    true
}

/// Whether two history reports are equal.
pub fn same_history_report(left: &HistoryReport, right: &HistoryReport) -> (result: bool)
    ensures
        result == (left@ == right@),
{
    same_text(left.report_digest.as_str(), right.report_digest.as_str()) && same_binding(
        &left.binding,
        &right.binding,
    ) && left.accepted_steps == right.accepted_steps && same_depths(
        &left.field_history_depths,
        &right.field_history_depths,
    ) && left.synchronized == right.synchronized && left.rejected_attempt
        == right.rejected_attempt && same_refusal(
        &left.evaluation_refusal,
        &right.evaluation_refusal,
    ) && same_text(
        left.checkpoint_before_rejection_digest.as_str(),
        right.checkpoint_before_rejection_digest.as_str(),
    ) && same_text(
        left.checkpoint_after_rejection_digest.as_str(),
        right.checkpoint_after_rejection_digest.as_str(),
    ) && left.rejection_byte_identical == right.rejection_byte_identical && left.passed
        == right.passed
}

impl HistoryReport {
    /// Confirms the report by recomputing it.
    pub fn validate<Op, X, C, V, A, E, S, R>(
        &self,
        execution: &CoupledExecution<Op>,
        evaluation: &X,
        step: Scalar,
        accepted_steps: usize,
        accepted_config: &BdfConfig,
        rejection_config: &BdfConfig,
        describe: &C,
        source: &FinitumVerificationSource,
        context: &CheckContext<V, E, R>,
        attempt: &A,
        seal: S,
    ) -> (result: Result<ValidatedKrasisVerification, VerificationRefusal>) where
        Op: TransactionalOperator,
        C: Fn(&X, Scalar, usize, &BdfConfig, &BdfConfig) -> Result<Vec<u8>, String>,
        V: Fn(usize, usize) -> Result<bool, String>,
        A: Fn(&X, BdfState, Scalar, &BdfConfig) -> Result<StepOutcome, SolveError>,
        E: Fn(&CoupledCheckpoint) -> Result<Vec<u8>, String>,
        S: FnOnce(&HistoryReport) -> Result<Vec<u8>, String>,
        R: Fn(Scalar) -> String,

        requires
            execution.wf(),
            context.callable(),
            call_requires(
                *describe,
                (evaluation, step, accepted_steps, accepted_config, rejection_config),
            ),
            forall|integrator: BdfState|
                call_requires(*attempt, (evaluation, integrator, step, accepted_config)),
            forall|integrator: BdfState|
                call_requires(*attempt, (evaluation, integrator, step, rejection_config)),
            forall|report: &HistoryReport| call_requires(seal, (report,)),
        ensures
            exists|expected: Result<HistoryReport, VerificationRefusal>|
                {
                    &&& #[trigger] history_checked(
                        trajectory::subject_of(*execution),
                        *evaluation,
                        step,
                        accepted_steps,
                        *accepted_config,
                        *rejection_config,
                        *describe,
                        source@,
                        *context,
                        *attempt,
                        seal,
                        expected,
                    )
                    &&& match expected {
                        Err(refused) => result == Err::<
                            ValidatedKrasisVerification,
                            VerificationRefusal,
                        >(refused),
                        Ok(report) => verification::validated(
                            self@ == report@,
                            self.passed,
                            result,
                        ),
                    }
                },
    {
        let expected = check_history_and_rejection(
            execution,
            evaluation,
            step,
            accepted_steps,
            accepted_config,
            rejection_config,
            describe,
            source,
            context,
            attempt,
            seal,
        );
        let ghost recomputed = expected;
        assert(history_checked(
            trajectory::subject_of(*execution),
            *evaluation,
            step,
            accepted_steps,
            *accepted_config,
            *rejection_config,
            *describe,
            source@,
            *context,
            *attempt,
            seal,
            recomputed,
        ));
        match expected {
            Err(error) => Err(error),
            Ok(report) => require_report(same_history_report(self, &report), self.passed),
        }
    }
}

} // verus!
