//! The check that a restarted execution follows the trajectory of one that was not stopped.
use crate::digest;
use crate::digest::digest_bytes;
use crate::error::KrasisError;
use crate::evidence;
use crate::evidence::{
    execution_binding, same_binding, BindingModel, EntryModel, FinitumVerificationSource,
    VerificationBinding,
};
use crate::execution;
use crate::execution::{CoupledCheckpoint, CoupledExecution};
use crate::execution_model::ExecutionModel;
use crate::numeric::{BdfState, SolveError, StepOutcome};
use crate::operator::TransactionalOperator;
use crate::refusal;
use crate::refusal::{
    serialization_refusal, validate_bdf_identity_inputs, BdfConfig, RefusalText,
    VerificationRefusal,
};
use crate::scalar::{copy_scalars, Scalar};
use crate::text::same_text;
use crate::trajectory;
use crate::trajectory::{accept_steps, checkpoint_bytes, same_bytes, CheckContext, Subject};
use crate::verification;
use crate::verification::{require_report, ValidatedKrasisVerification};
use vstd::prelude::*;

verus! {

/// Error norms between two trajectories.
#[derive(Clone, Copy, Debug, PartialEq, Eq, Structural)]
pub struct TrajectoryNorms {
    pub l_infinity: Scalar,
    pub l2_time: Scalar,
}

/// What a restart check takes from outside besides a `CheckContext`: `decode` reads
/// encoded restart data; `norms` compares two trajectories that start at the given time
/// and advance by the given step; `seal` serialises the report.
pub struct RestartContext<D, N, S> where
    D: Fn(&Vec<u8>) -> Result<CoupledCheckpoint, String>,
    N: Fn(Scalar, Scalar, &Vec<Vec<Scalar>>, &Vec<Vec<Scalar>>) -> Result<TrajectoryNorms, String>,
    S: Fn(&RestartTrajectoryReport) -> Result<Vec<u8>, String>,
 {
    pub decode: D,
    pub norms: N,
    pub seal: S,
}

impl<D, N, S> RestartContext<D, N, S> where
    D: Fn(&Vec<u8>) -> Result<CoupledCheckpoint, String>,
    N: Fn(Scalar, Scalar, &Vec<Vec<Scalar>>, &Vec<Vec<Scalar>>) -> Result<TrajectoryNorms, String>,
    S: Fn(&RestartTrajectoryReport) -> Result<Vec<u8>, String>,
 {
    pub open spec fn callable(self) -> bool {
        &&& forall|bytes: &Vec<u8>| call_requires(self.decode, (bytes,))
        &&& forall|time: Scalar, step: Scalar, left: &Vec<Vec<Scalar>>, right: &Vec<Vec<Scalar>>|
            call_requires(self.norms, (time, step, left, right))
        &&& forall|report: &RestartTrajectoryReport| call_requires(self.seal, (report,))
    }
}

/// The report of a restart check.
#[derive(Clone, Debug, PartialEq, Eq)]
pub struct RestartTrajectoryReport {
    pub report_digest: String,
    pub binding: VerificationBinding,
    pub split_after_steps: usize,
    pub total_steps: usize,
    pub initial_checkpoint_digest: String,
    pub trajectory_l_infinity: Scalar,
    pub trajectory_l2_time: Scalar,
    pub continuous_final_checkpoint_digest: String,
    pub restarted_final_checkpoint_digest: String,
    pub final_checkpoint_byte_identical: bool,
    pub passed: bool,
}

#[verifier::ext_equal]
pub struct RestartModel {
    pub report_digest: Seq<char>,
    pub binding: BindingModel,
    pub split_after_steps: nat,
    pub total_steps: nat,
    pub initial_checkpoint_digest: Seq<char>,
    pub trajectory_l_infinity: Scalar,
    pub trajectory_l2_time: Scalar,
    pub continuous_final_checkpoint_digest: Seq<char>,
    pub restarted_final_checkpoint_digest: Seq<char>,
    pub final_checkpoint_byte_identical: bool,
    pub passed: bool,
}

impl View for RestartTrajectoryReport {
    type V = RestartModel;

    open spec fn view(&self) -> RestartModel {
        RestartModel {
            report_digest: self.report_digest@,
            binding: self.binding@,
            split_after_steps: self.split_after_steps as nat,
            total_steps: self.total_steps as nat,
            initial_checkpoint_digest: self.initial_checkpoint_digest@,
            trajectory_l_infinity: self.trajectory_l_infinity,
            trajectory_l2_time: self.trajectory_l2_time,
            continuous_final_checkpoint_digest: self.continuous_final_checkpoint_digest@,
            restarted_final_checkpoint_digest: self.restarted_final_checkpoint_digest@,
            final_checkpoint_byte_identical: self.final_checkpoint_byte_identical,
            passed: self.passed,
        }
    }
}

/// Whether a scalar is a zero.
pub open spec fn vanishes(value: Scalar) -> bool {
    !value.nan() && value.rank() == 0
}

/// What a restart report says, before it is sealed.
pub open spec fn restart_content(
    binding: BindingModel,
    total: nat,
    split: nat,
    initial: Seq<u8>,
    norms: TrajectoryNorms,
    continuous: Seq<u8>,
    restarted: Seq<u8>,
) -> RestartModel {
    RestartModel {
        report_digest: Seq::empty(),
        binding,
        split_after_steps: split,
        total_steps: total,
        initial_checkpoint_digest: digest::digest_of_bytes(initial),
        trajectory_l_infinity: norms.l_infinity,
        trajectory_l2_time: norms.l2_time,
        continuous_final_checkpoint_digest: digest::digest_of_bytes(continuous),
        restarted_final_checkpoint_digest: digest::digest_of_bytes(restarted),
        final_checkpoint_byte_identical: continuous == restarted,
        passed: binding.accepted == Some(true) && vanishes(norms.l_infinity) && vanishes(
            norms.l2_time,
        ) && continuous == restarted,
    }
}

pub open spec fn restart_sealed<S>(
    content: RestartModel,
    seal: S,
    result: Result<RestartTrajectoryReport, VerificationRefusal>,
) -> bool where S: Fn(&RestartTrajectoryReport) -> Result<Vec<u8>, String> {
    exists|unsealed: RestartTrajectoryReport, encoded: Result<Vec<u8>, String>|
        {
            &&& unsealed@ == content
            &&& #[trigger] call_ensures(seal, (&unsealed,), encoded)
            &&& match encoded {
                Err(error) => refusal::reports(
                    refusal::serialization_refused(error@),
                    result,
                ),
                Ok(bytes) => result matches Ok(report) && report@ == (RestartModel {
                    report_digest: digest::digest_of_bytes(bytes@),
                    ..content
                }),
            }
        }
}

/// The final checkpoints and the report.
pub open spec fn restart_finished<E, R, S>(
    subject: Subject<'_>,
    binding: BindingModel,
    total: nat,
    split: nat,
    initial: Seq<u8>,
    norms: TrajectoryNorms,
    continuous: ExecutionModel,
    restarted: ExecutionModel,
    encode: E,
    render: R,
    seal: S,
    result: Result<RestartTrajectoryReport, VerificationRefusal>,
) -> bool where
    E: Fn(&CoupledCheckpoint) -> Result<Vec<u8>, String>,
    R: Fn(Scalar) -> String,
    S: Fn(&RestartTrajectoryReport) -> Result<Vec<u8>, String>,
 {
    ||| result is Err && trajectory::checkpoint_encoded(
        subject.at(continuous),
        encode,
        render,
        Err(result->Err_0),
    )
    ||| exists|first: Vec<u8>, second: Result<Vec<u8>, VerificationRefusal>|
        {
            &&& #[trigger] trajectory::checkpoint_encoded(
                subject.at(continuous),
                encode,
                render,
                Ok(first),
            )
            &&& #[trigger] trajectory::checkpoint_encoded(
                subject.at(restarted),
                encode,
                render,
                second,
            )
            &&& match second {
                Err(refused) => result == Err::<RestartTrajectoryReport, VerificationRefusal>(
                    refused,
                ),
                Ok(second) => restart_sealed(
                    restart_content(binding, total, split, initial, norms, first@, second@),
                    seal,
                    result,
                ),
            }
        }
}

/// The comparison of the two trajectories and what follows.
pub open spec fn restart_compared<E, R, D, N, S>(
    subject: Subject<'_>,
    step: Scalar,
    binding: BindingModel,
    total: nat,
    split: nat,
    initial: Seq<u8>,
    continuous_states: Seq<Seq<Scalar>>,
    continuous: ExecutionModel,
    restarted_states: Seq<Seq<Scalar>>,
    restarted: ExecutionModel,
    encode: E,
    render: R,
    calls: RestartContext<D, N, S>,
    result: Result<RestartTrajectoryReport, VerificationRefusal>,
) -> bool where
    E: Fn(&CoupledCheckpoint) -> Result<Vec<u8>, String>,
    R: Fn(Scalar) -> String,
    D: Fn(&Vec<u8>) -> Result<CoupledCheckpoint, String>,
    N: Fn(Scalar, Scalar, &Vec<Vec<Scalar>>, &Vec<Vec<Scalar>>) -> Result<TrajectoryNorms, String>,
    S: Fn(&RestartTrajectoryReport) -> Result<Vec<u8>, String>,
 {
    exists|
        left: Vec<Vec<Scalar>>,
        right: Vec<Vec<Scalar>>,
        norms: Result<TrajectoryNorms, String>,
    |
        {
            &&& trajectory::vectors(left@) == seq![subject.execution.integrator.values]
                + continuous_states
            &&& trajectory::vectors(right@) == seq![subject.execution.integrator.values]
                + restarted_states
            &&& #[trigger] call_ensures(
                calls.norms,
                (subject.execution.integrator.time, step, &left, &right),
                norms,
            )
            &&& match norms {
                Err(error) => refusal::reports(
                    RefusalText { code: "KRASIS_VERIFY_TRAJECTORY"@, message: error@ },
                    result,
                ),
                Ok(norms) => restart_finished(
                    subject,
                    binding,
                    total,
                    split,
                    initial,
                    norms,
                    continuous,
                    restarted,
                    encode,
                    render,
                    calls.seal,
                    result,
                ),
            }
        }
}

/// The reloaded execution taken to the end, and what follows.
pub open spec fn restart_continued<X, A, E, R, D, N, S>(
    subject: Subject<'_>,
    step: Scalar,
    binding: BindingModel,
    total: nat,
    split: nat,
    initial: Seq<u8>,
    continuous_states: Seq<Seq<Scalar>>,
    continuous: ExecutionModel,
    split_states: Seq<Seq<Scalar>>,
    reloaded: ExecutionModel,
    evaluation: X,
    config: BdfConfig,
    attempt: A,
    encode: E,
    render: R,
    calls: RestartContext<D, N, S>,
    result: Result<RestartTrajectoryReport, VerificationRefusal>,
) -> bool where
    A: Fn(&X, BdfState, Scalar, &BdfConfig) -> Result<StepOutcome, SolveError>,
    E: Fn(&CoupledCheckpoint) -> Result<Vec<u8>, String>,
    R: Fn(Scalar) -> String,
    D: Fn(&Vec<u8>) -> Result<CoupledCheckpoint, String>,
    N: Fn(Scalar, Scalar, &Vec<Vec<Scalar>>, &Vec<Vec<Scalar>>) -> Result<TrajectoryNorms, String>,
    S: Fn(&RestartTrajectoryReport) -> Result<Vec<u8>, String>,
 {
    ||| result is Err && trajectory::steps_refused(
        reloaded,
        subject.dimension,
        evaluation,
        step,
        config,
        attempt,
        render,
        total - split,
        result->Err_0@,
    )
    ||| exists|later: Seq<Seq<Scalar>>, restarted: ExecutionModel|
        {
            &&& #[trigger] trajectory::steps_accepted(
                reloaded,
                subject.dimension,
                evaluation,
                step,
                config,
                attempt,
                total - split,
                later,
                restarted,
            )
            &&& restart_compared(
                subject,
                step,
                binding,
                total,
                split,
                initial,
                continuous_states,
                continuous,
                split_states + later,
                restarted,
                encode,
                render,
                calls,
                result,
            )
        }
}

/// What loading decoded restart data gives.
pub open spec fn restart_loaded<X, A, E, R, D, N, S>(
    subject: Subject<'_>,
    step: Scalar,
    binding: BindingModel,
    total: nat,
    split: nat,
    initial: Seq<u8>,
    continuous_states: Seq<Seq<Scalar>>,
    continuous: ExecutionModel,
    split_states: Seq<Seq<Scalar>>,
    decoded: Result<CoupledCheckpoint, String>,
    evaluation: X,
    config: BdfConfig,
    attempt: A,
    encode: E,
    render: R,
    calls: RestartContext<D, N, S>,
    result: Result<RestartTrajectoryReport, VerificationRefusal>,
) -> bool where
    A: Fn(&X, BdfState, Scalar, &BdfConfig) -> Result<StepOutcome, SolveError>,
    E: Fn(&CoupledCheckpoint) -> Result<Vec<u8>, String>,
    R: Fn(Scalar) -> String,
    D: Fn(&Vec<u8>) -> Result<CoupledCheckpoint, String>,
    N: Fn(Scalar, Scalar, &Vec<Vec<Scalar>>, &Vec<Vec<Scalar>>) -> Result<TrajectoryNorms, String>,
    S: Fn(&RestartTrajectoryReport) -> Result<Vec<u8>, String>,
 {
    match decoded {
        Err(error) => refusal::reports(
            RefusalText {
                code: "KRASIS_VERIFY_CHECKPOINT_DECODE"@,
                message: "checkpoint did not decode: "@ + error@,
            },
            result,
        ),
        Ok(checkpoint) => match execution::restored(
            subject.execution,
            subject.dimension,
            subject.identity,
            checkpoint@,
        ) {
            Err(failure) => exists|error: KrasisError|
                {
                    &&& error@ == failure
                    &&& result is Err
                    &&& result->Err_0@.code == "KRASIS_VERIFY_CHECKPOINT_RESTORE"@
                    &&& #[trigger] refusal::error_text(error, render, result->Err_0@.message)
                },
            Ok(reloaded) => restart_continued(
                subject,
                step,
                binding,
                total,
                split,
                initial,
                continuous_states,
                continuous,
                split_states,
                reloaded,
                evaluation,
                config,
                attempt,
                encode,
                render,
                calls,
                result,
            ),
        },
    }
}

/// The stopped execution encoded and decoded, and what follows.
pub open spec fn restart_stopped<X, A, E, R, D, N, S>(
    subject: Subject<'_>,
    step: Scalar,
    binding: BindingModel,
    total: nat,
    split: nat,
    initial: Seq<u8>,
    continuous_states: Seq<Seq<Scalar>>,
    continuous: ExecutionModel,
    split_states: Seq<Seq<Scalar>>,
    stopped: ExecutionModel,
    evaluation: X,
    config: BdfConfig,
    attempt: A,
    encode: E,
    render: R,
    calls: RestartContext<D, N, S>,
    result: Result<RestartTrajectoryReport, VerificationRefusal>,
) -> bool where
    A: Fn(&X, BdfState, Scalar, &BdfConfig) -> Result<StepOutcome, SolveError>,
    E: Fn(&CoupledCheckpoint) -> Result<Vec<u8>, String>,
    R: Fn(Scalar) -> String,
    D: Fn(&Vec<u8>) -> Result<CoupledCheckpoint, String>,
    N: Fn(Scalar, Scalar, &Vec<Vec<Scalar>>, &Vec<Vec<Scalar>>) -> Result<TrajectoryNorms, String>,
    S: Fn(&RestartTrajectoryReport) -> Result<Vec<u8>, String>,
 {
    ||| result is Err && trajectory::checkpoint_encoded(
        subject.at(stopped),
        encode,
        render,
        Err(result->Err_0),
    )
    ||| exists|bytes: Vec<u8>, decoded: Result<CoupledCheckpoint, String>|
        {
            &&& trajectory::checkpoint_encoded(subject.at(stopped), encode, render, Ok(bytes))
            &&& #[trigger] call_ensures(calls.decode, (&bytes,), decoded)
            &&& restart_loaded(
                subject,
                step,
                binding,
                total,
                split,
                initial,
                continuous_states,
                continuous,
                split_states,
                decoded,
                evaluation,
                config,
                attempt,
                encode,
                render,
                calls,
                result,
            )
        }
}

/// The two runs up to where one is stopped, and what follows.
pub open spec fn restart_run<X, A, E, R, D, N, S>(
    subject: Subject<'_>,
    step: Scalar,
    binding: BindingModel,
    total: nat,
    split: nat,
    initial: Seq<u8>,
    evaluation: X,
    config: BdfConfig,
    attempt: A,
    encode: E,
    render: R,
    calls: RestartContext<D, N, S>,
    result: Result<RestartTrajectoryReport, VerificationRefusal>,
) -> bool where
    A: Fn(&X, BdfState, Scalar, &BdfConfig) -> Result<StepOutcome, SolveError>,
    E: Fn(&CoupledCheckpoint) -> Result<Vec<u8>, String>,
    R: Fn(Scalar) -> String,
    D: Fn(&Vec<u8>) -> Result<CoupledCheckpoint, String>,
    N: Fn(Scalar, Scalar, &Vec<Vec<Scalar>>, &Vec<Vec<Scalar>>) -> Result<TrajectoryNorms, String>,
    S: Fn(&RestartTrajectoryReport) -> Result<Vec<u8>, String>,
 {
    ||| result is Err && trajectory::steps_refused(
        subject.execution,
        subject.dimension,
        evaluation,
        step,
        config,
        attempt,
        render,
        total as int,
        result->Err_0@,
    )
    ||| result is Err && trajectory::steps_refused(
        subject.execution,
        subject.dimension,
        evaluation,
        step,
        config,
        attempt,
        render,
        split as int,
        result->Err_0@,
    )
    ||| exists|
        continuous_states: Seq<Seq<Scalar>>,
        continuous: ExecutionModel,
        split_states: Seq<Seq<Scalar>>,
        stopped: ExecutionModel,
    |
        {
            &&& #[trigger] trajectory::steps_accepted(
                subject.execution,
                subject.dimension,
                evaluation,
                step,
                config,
                attempt,
                total as int,
                continuous_states,
                continuous,
            )
            &&& #[trigger] trajectory::steps_accepted(
                subject.execution,
                subject.dimension,
                evaluation,
                step,
                config,
                attempt,
                split as int,
                split_states,
                stopped,
            )
            &&& restart_stopped(
                subject,
                step,
                binding,
                total,
                split,
                initial,
                continuous_states,
                continuous,
                split_states,
                stopped,
                evaluation,
                config,
                attempt,
                encode,
                render,
                calls,
                result,
            )
        }
}

/// What a restart check gives once it is bound.
pub open spec fn restart_bound<X, A, E, R, D, N, S>(
    subject: Subject<'_>,
    step: Scalar,
    binding: BindingModel,
    total: nat,
    split: nat,
    evaluation: X,
    config: BdfConfig,
    attempt: A,
    encode: E,
    render: R,
    calls: RestartContext<D, N, S>,
    result: Result<RestartTrajectoryReport, VerificationRefusal>,
) -> bool where
    A: Fn(&X, BdfState, Scalar, &BdfConfig) -> Result<StepOutcome, SolveError>,
    E: Fn(&CoupledCheckpoint) -> Result<Vec<u8>, String>,
    R: Fn(Scalar) -> String,
    D: Fn(&Vec<u8>) -> Result<CoupledCheckpoint, String>,
    N: Fn(Scalar, Scalar, &Vec<Vec<Scalar>>, &Vec<Vec<Scalar>>) -> Result<TrajectoryNorms, String>,
    S: Fn(&RestartTrajectoryReport) -> Result<Vec<u8>, String>,
 {
    exists|initial: Result<Vec<u8>, VerificationRefusal>|
        {
            &&& #[trigger] trajectory::checkpoint_encoded(subject, encode, render, initial)
            &&& match initial {
                Err(refused) => result == Err::<RestartTrajectoryReport, VerificationRefusal>(
                    refused,
                ),
                Ok(initial) => restart_run(
                    subject,
                    step,
                    binding,
                    total,
                    split,
                    initial@,
                    evaluation,
                    config,
                    attempt,
                    encode,
                    render,
                    calls,
                    result,
                ),
            }
        }
}

/// What a restart check gives, whatever its outside calls returned.
pub open spec fn restart_checked<X, C, V, A, E, R, D, N, S>(
    subject: Subject<'_>,
    evaluation: X,
    step: Scalar,
    total: usize,
    split: usize,
    config: BdfConfig,
    describe: C,
    entries: Seq<EntryModel>,
    context: CheckContext<V, E, R>,
    attempt: A,
    calls: RestartContext<D, N, S>,
    result: Result<RestartTrajectoryReport, VerificationRefusal>,
) -> bool where
    C: Fn(&X, Scalar, usize, usize, &BdfConfig) -> Result<Vec<u8>, String>,
    V: Fn(usize, usize) -> Result<bool, String>,
    A: Fn(&X, BdfState, Scalar, &BdfConfig) -> Result<StepOutcome, SolveError>,
    E: Fn(&CoupledCheckpoint) -> Result<Vec<u8>, String>,
    R: Fn(Scalar) -> String,
    D: Fn(&Vec<u8>) -> Result<CoupledCheckpoint, String>,
    N: Fn(Scalar, Scalar, &Vec<Vec<Scalar>>, &Vec<Vec<Scalar>>) -> Result<TrajectoryNorms, String>,
    S: Fn(&RestartTrajectoryReport) -> Result<Vec<u8>, String>,
 {
    match refusal::step_failure(step, config) {
        Some(failure) => refusal::reports(failure, result),
        None => if !(0 < split < total) {
            refusal::reports(
                RefusalText {
                    code: "KRASIS_VERIFY_INVALID_RESTART_SEQUENCE"@,
                    message: "restart checking requires 0 < split_after_steps < total_steps"@,
                },
                result,
            )
        } else {
            exists|
                described: Result<Vec<u8>, String>,
                bound: Result<VerificationBinding, VerificationRefusal>,
            |
                {
                    &&& #[trigger] call_ensures(
                        describe,
                        (&evaluation, step, total, split, &config),
                        described,
                    )
                    &&& #[trigger] evidence::execution_bound(
                        subject.execution,
                        subject.dimension,
                        subject.identity,
                        subject.sources,
                        described,
                        entries,
                        context.validate,
                        context.render,
                        bound,
                    )
                    &&& match bound {
                        Err(refused) => result == Err::<
                            RestartTrajectoryReport,
                            VerificationRefusal,
                        >(refused),
                        Ok(binding) => restart_bound(
                            subject,
                            step,
                            binding@,
                            total as nat,
                            split as nat,
                            evaluation,
                            config,
                            attempt,
                            context.encode,
                            context.render,
                            calls,
                            result,
                        ),
                    }
                }
        },
    }
}

/// A trajectory: the values it starts from and the states that follow.
fn with_start(start: &Vec<Scalar>, states: &Vec<Vec<Scalar>>) -> (result: Vec<Vec<Scalar>>)
    ensures
        trajectory::vectors(result@) == seq![start@] + trajectory::vectors(states@),
{
    let mut result: Vec<Vec<Scalar>> = Vec::new();
    result.push(copy_scalars(start));
    append_states(&mut result, states);
    assert(trajectory::vectors(result@) =~= seq![start@] + trajectory::vectors(states@));
    result
}

fn append_states(target: &mut Vec<Vec<Scalar>>, states: &Vec<Vec<Scalar>>)
    ensures
        trajectory::vectors(final(target)@) == trajectory::vectors(old(target)@)
            + trajectory::vectors(states@),
{
    let ghost before = trajectory::vectors(target@);
    let ghost models = trajectory::vectors(states@);
    let mut index: usize = 0;
    assert(models.take(0) =~= Seq::<Seq<Scalar>>::empty());
    assert(before + models.take(0) =~= before);
    while index < states.len()
        invariant
            index <= states.len(),
            models == trajectory::vectors(states@),
            trajectory::vectors(target@) == before + models.take(index as int),
        decreases states.len() - index,
    {
        let ghost listed = target@;
        let copy = copy_scalars(&states[index]);
        target.push(copy);
        proof {
            assert(models[index as int] == copy@);
            assert(trajectory::vectors(target@) =~= trajectory::vectors(listed).push(copy@));
            assert(trajectory::vectors(target@) =~= before + models.take(index + 1));
        }
        index += 1;
    }
    assert(models.take(index as int) =~= models);
}

/// A run of `total_steps` steps compared with one that is stopped after
/// `split_after_steps`, saved, reloaded and continued. `describe` serialises the evaluation
/// context, the step, the two counts and the configuration, which the report's configuration
/// identity covers; `attempt` makes each step under the same context and configuration.
pub fn check_restart_trajectory<Op, X, C, V, A, E, R, D, N, S>(
    execution: &CoupledExecution<Op>,
    evaluation: &X,
    step: Scalar,
    total_steps: usize,
    split_after_steps: usize,
    config: &BdfConfig,
    describe: &C,
    source: &FinitumVerificationSource,
    context: &CheckContext<V, E, R>,
    attempt: &A,
    calls: &RestartContext<D, N, S>,
) -> (result: Result<RestartTrajectoryReport, VerificationRefusal>) where
    Op: TransactionalOperator,
    C: Fn(&X, Scalar, usize, usize, &BdfConfig) -> Result<Vec<u8>, String>,
    V: Fn(usize, usize) -> Result<bool, String>,
    A: Fn(&X, BdfState, Scalar, &BdfConfig) -> Result<StepOutcome, SolveError>,
    E: Fn(&CoupledCheckpoint) -> Result<Vec<u8>, String>,
    R: Fn(Scalar) -> String,
    D: Fn(&Vec<u8>) -> Result<CoupledCheckpoint, String>,
    N: Fn(Scalar, Scalar, &Vec<Vec<Scalar>>, &Vec<Vec<Scalar>>) -> Result<TrajectoryNorms, String>,
    S: Fn(&RestartTrajectoryReport) -> Result<Vec<u8>, String>,

    requires
        execution.wf(),
        context.callable(),
        calls.callable(),
        call_requires(
            *describe,
            (evaluation, step, total_steps, split_after_steps, config),
        ),
        forall|integrator: BdfState|
            call_requires(*attempt, (evaluation, integrator, step, config)),
    ensures
        restart_checked(
            trajectory::subject_of(*execution),
            *evaluation,
            step,
            total_steps,
            split_after_steps,
            *config,
            *describe,
            source@,
            *context,
            *attempt,
            *calls,
            result,
        ),
{
    match validate_bdf_identity_inputs(step, config) {
        Ok(_) => {},
        Err(error) => {
            return Err(error);
        },
    }
    if total_steps == 0 || split_after_steps == 0 || split_after_steps >= total_steps {
        return Err(
            refusal::refusal(
                "KRASIS_VERIFY_INVALID_RESTART_SEQUENCE",
                "restart checking requires 0 < split_after_steps < total_steps",
            ),
        );
    }
    let ghost subject = trajectory::subject_of(*execution);
    let continuous = execution.fork();
    let told = describe(evaluation, step, total_steps, split_after_steps, config);
    let ghost described = told;
    assert(call_ensures(
        *describe,
        (evaluation, step, total_steps, split_after_steps, config),
        described,
    ));
    let bound = execution_binding(
        &continuous,
        told,
        source,
        &context.validate,
        &context.render,
    );
    let ghost given_bound = bound;
    assert(evidence::execution_bound(
        subject.execution,
        subject.dimension,
        subject.identity,
        subject.sources,
        described,
        source@,
        context.validate,
        context.render,
        given_bound,
    ));
    let binding = match bound {
        Ok(binding) => binding,
        Err(error) => {
            return Err(error);
        },
    };
    let encoded = checkpoint_bytes(&continuous, &context.encode, &context.render);
    let ghost given_initial = encoded;
    assert(trajectory::checkpoint_encoded(
        subject,
        context.encode,
        context.render,
        given_initial,
    ));
    let initial = match encoded {
        Ok(bytes) => bytes,
        Err(error) => {
            return Err(error);
        },
    };
    run_both(
        execution,
        continuous,
        step,
        total_steps,
        split_after_steps,
        binding,
        &initial,
        context,
        evaluation,
        config,
        attempt,
        calls,
    )
}

/// The runs of a restart check.
fn run_both<Op, X, V, A, E, R, D, N, S>(
    execution: &CoupledExecution<Op>,
    continuous: CoupledExecution<&Op>,
    step: Scalar,
    total: usize,
    split: usize,
    binding: VerificationBinding,
    initial: &Vec<u8>,
    context: &CheckContext<V, E, R>,
    evaluation: &X,
    config: &BdfConfig,
    attempt: &A,
    calls: &RestartContext<D, N, S>,
) -> (result: Result<RestartTrajectoryReport, VerificationRefusal>) where
    Op: TransactionalOperator,
    V: Fn(usize, usize) -> Result<bool, String>,
    A: Fn(&X, BdfState, Scalar, &BdfConfig) -> Result<StepOutcome, SolveError>,
    E: Fn(&CoupledCheckpoint) -> Result<Vec<u8>, String>,
    R: Fn(Scalar) -> String,
    D: Fn(&Vec<u8>) -> Result<CoupledCheckpoint, String>,
    N: Fn(Scalar, Scalar, &Vec<Vec<Scalar>>, &Vec<Vec<Scalar>>) -> Result<TrajectoryNorms, String>,
    S: Fn(&RestartTrajectoryReport) -> Result<Vec<u8>, String>,

    requires
        execution.wf(),
        continuous.wf(),
        continuous.op() == &execution.op(),
        continuous@ == trajectory::subject_of(*execution).execution,
        context.callable(),
        calls.callable(),
        forall|integrator: BdfState|
            call_requires(*attempt, (evaluation, integrator, step, config)),
        0 < split < total,
    ensures
        restart_run(
            trajectory::subject_of(*execution),
            step,
            binding@,
            total as nat,
            split as nat,
            initial@,
            *evaluation,
            *config,
            *attempt,
            context.encode,
            context.render,
            *calls,
            result,
        ),
{
    let ghost subject = trajectory::subject_of(*execution);
    let mut continuous = continuous;
    let continuous_states = match accept_steps(
        &mut continuous,
        evaluation,
        step,
        config,
        attempt,
        total,
        &context.render,
    ) {
        Ok(states) => states,
        Err(error) => {
            return Err(error);
        },
    };
    let mut stopped = execution.fork();
    let split_states = match accept_steps(
        &mut stopped,
        evaluation,
        step,
        config,
        attempt,
        split,
        &context.render,
    ) {
        Ok(states) => states,
        Err(error) => {
            return Err(error);
        },
    };
    let ghost whole = trajectory::vectors(continuous_states@);
    let ghost part = trajectory::vectors(split_states@);
    let ghost ended = continuous@;
    let ghost paused = stopped@;
    let result = reload(
        execution,
        continuous,
        stopped,
        continuous_states,
        split_states,
        step,
        total,
        split,
        binding,
        initial,
        context,
        evaluation,
        config,
        attempt,
        calls,
    );
    proof {
        assert(trajectory::steps_accepted(
            subject.execution,
            subject.dimension,
            *evaluation,
            step,
            *config,
            *attempt,
            total as nat as int,
            whole,
            ended,
        ));
        assert(trajectory::steps_accepted(
            subject.execution,
            subject.dimension,
            *evaluation,
            step,
            *config,
            *attempt,
            split as nat as int,
            part,
            paused,
        ));
    }
    result
}

/// Saves the stopped run, reloads it, takes it to the end and compares.
fn reload<Op, X, V, A, E, R, D, N, S>(
    execution: &CoupledExecution<Op>,
    continuous: CoupledExecution<&Op>,
    stopped: CoupledExecution<&Op>,
    continuous_states: Vec<Vec<Scalar>>,
    split_states: Vec<Vec<Scalar>>,
    step: Scalar,
    total: usize,
    split: usize,
    binding: VerificationBinding,
    initial: &Vec<u8>,
    context: &CheckContext<V, E, R>,
    evaluation: &X,
    config: &BdfConfig,
    attempt: &A,
    calls: &RestartContext<D, N, S>,
) -> (result: Result<RestartTrajectoryReport, VerificationRefusal>) where
    Op: TransactionalOperator,
    V: Fn(usize, usize) -> Result<bool, String>,
    A: Fn(&X, BdfState, Scalar, &BdfConfig) -> Result<StepOutcome, SolveError>,
    E: Fn(&CoupledCheckpoint) -> Result<Vec<u8>, String>,
    R: Fn(Scalar) -> String,
    D: Fn(&Vec<u8>) -> Result<CoupledCheckpoint, String>,
    N: Fn(Scalar, Scalar, &Vec<Vec<Scalar>>, &Vec<Vec<Scalar>>) -> Result<TrajectoryNorms, String>,
    S: Fn(&RestartTrajectoryReport) -> Result<Vec<u8>, String>,

    requires
        execution.wf(),
        continuous.wf(),
        continuous.op() == &execution.op(),
        stopped.wf(),
        stopped.op() == &execution.op(),
        context.callable(),
        calls.callable(),
        forall|integrator: BdfState|
            call_requires(*attempt, (evaluation, integrator, step, config)),
        0 < split < total,
    ensures
        restart_stopped(
            trajectory::subject_of(*execution),
            step,
            binding@,
            total as nat,
            split as nat,
            initial@,
            trajectory::vectors(continuous_states@),
            continuous@,
            trajectory::vectors(split_states@),
            stopped@,
            *evaluation,
            *config,
            *attempt,
            context.encode,
            context.render,
            *calls,
            result,
        ),
{
    let ghost subject = trajectory::subject_of(*execution);
    let encoded = checkpoint_bytes(&stopped, &context.encode, &context.render);
    let ghost given_encoded = encoded;
    assert(trajectory::checkpoint_encoded(
        subject.at(stopped@),
        context.encode,
        context.render,
        given_encoded,
    ));
    let bytes = match encoded {
        Ok(bytes) => bytes,
        Err(error) => {
            return Err(error);
        },
    };
    let decoded = (calls.decode)(&bytes);
    assert(call_ensures(calls.decode, (&bytes,), decoded));
    let checkpoint = match decoded {
        Ok(checkpoint) => checkpoint,
        Err(error) => {
            return Err(
                refusal::refusal(
                    "KRASIS_VERIFY_CHECKPOINT_DECODE",
                    "checkpoint did not decode: ".to_owned().concat(error.as_str()).as_str(),
                ),
            );
        },
    };
    let mut restarted = execution.fork();
    match restarted.restore(&checkpoint) {
        Ok(_) => {},
        Err(error) => {
            let message = error.message(&context.render);
            let refused = refusal::refusal("KRASIS_VERIFY_CHECKPOINT_RESTORE", message.as_str());
            let result: Result<RestartTrajectoryReport, VerificationRefusal> = Err(refused);
            assert(refusal::error_text(error, context.render, result->Err_0@.message));
            return result;
        },
    }
    let ghost reloaded = restarted@;
    let later = match accept_steps(
        &mut restarted,
        evaluation,
        step,
        config,
        attempt,
        total - split,
        &context.render,
    ) {
        Ok(states) => states,
        Err(error) => {
            return Err(error);
        },
    };
    let mut restarted_states = split_states;
    append_states(&mut restarted_states, &later);
    let ghost ended = restarted@;
    let result = compare_runs(
        execution,
        continuous,
        restarted,
        &continuous_states,
        &restarted_states,
        step,
        total,
        split,
        binding,
        initial,
        context,
        calls,
    );
    proof {
        assert(trajectory::steps_accepted(
            reloaded,
            subject.dimension,
            *evaluation,
            step,
            *config,
            *attempt,
            total as nat - split as nat,
            trajectory::vectors(later@),
            ended,
        ));
        assert(restart_continued(
            subject,
            step,
            binding@,
            total as nat,
            split as nat,
            initial@,
            trajectory::vectors(continuous_states@),
            continuous@,
            trajectory::vectors(split_states@),
            reloaded,
            *evaluation,
            *config,
            *attempt,
            context.encode,
            context.render,
            *calls,
            result,
        ));
    }
    result
}

/// Compares the two runs and makes the report.
fn compare_runs<Op, V, E, R, D, N, S>(
    execution: &CoupledExecution<Op>,
    continuous: CoupledExecution<&Op>,
    restarted: CoupledExecution<&Op>,
    continuous_states: &Vec<Vec<Scalar>>,
    restarted_states: &Vec<Vec<Scalar>>,
    step: Scalar,
    total: usize,
    split: usize,
    binding: VerificationBinding,
    initial: &Vec<u8>,
    context: &CheckContext<V, E, R>,
    calls: &RestartContext<D, N, S>,
) -> (result: Result<RestartTrajectoryReport, VerificationRefusal>) where
    Op: TransactionalOperator,
    V: Fn(usize, usize) -> Result<bool, String>,
    E: Fn(&CoupledCheckpoint) -> Result<Vec<u8>, String>,
    R: Fn(Scalar) -> String,
    D: Fn(&Vec<u8>) -> Result<CoupledCheckpoint, String>,
    N: Fn(Scalar, Scalar, &Vec<Vec<Scalar>>, &Vec<Vec<Scalar>>) -> Result<TrajectoryNorms, String>,
    S: Fn(&RestartTrajectoryReport) -> Result<Vec<u8>, String>,

    requires
        execution.wf(),
        continuous.wf(),
        continuous.op() == &execution.op(),
        restarted.wf(),
        restarted.op() == &execution.op(),
        context.callable(),
        calls.callable(),
    ensures
        restart_compared(
            trajectory::subject_of(*execution),
            step,
            binding@,
            total as nat,
            split as nat,
            initial@,
            trajectory::vectors(continuous_states@),
            continuous@,
            trajectory::vectors(restarted_states@),
            restarted@,
            context.encode,
            context.render,
            *calls,
            result,
        ),
{
    let ghost subject = trajectory::subject_of(*execution);
    let start = &execution.integrator().values;
    let left = with_start(start, continuous_states);
    let right = with_start(start, restarted_states);
    let time = execution.integrator().time;
    let compared = (calls.norms)(time, step, &left, &right);
    assert(call_ensures(
        calls.norms,
        (subject.execution.integrator.time, step, &left, &right),
        compared,
    ));
    let norms = match compared {
        Ok(norms) => norms,
        Err(error) => {
            return Err(refusal::refusal("KRASIS_VERIFY_TRAJECTORY", error.as_str()));
        },
    };
    let encoded = checkpoint_bytes(&continuous, &context.encode, &context.render);
    let ghost given_first = encoded;
    assert(trajectory::checkpoint_encoded(
        subject.at(continuous@),
        context.encode,
        context.render,
        given_first,
    ));
    let first = match encoded {
        Ok(bytes) => bytes,
        Err(error) => {
            return Err(error);
        },
    };
    let encoded = checkpoint_bytes(&restarted, &context.encode, &context.render);
    let ghost given_second = encoded;
    assert(trajectory::checkpoint_encoded(
        subject.at(restarted@),
        context.encode,
        context.render,
        given_second,
    ));
    let second = match encoded {
        Ok(bytes) => bytes,
        Err(error) => {
            return Err(error);
        },
    };
    let identical: bool = same_bytes(&first, &second);
    let evidence_accepted: bool = match binding.finitum_verification_accepted {
        Some(accepted) => accepted,
        None => false,
    };
    let zero = Scalar::zero();
    let mut report = RestartTrajectoryReport {
        report_digest: String::new(),
        binding,
        split_after_steps: split,
        total_steps: total,
        initial_checkpoint_digest: digest_bytes(initial),
        trajectory_l_infinity: norms.l_infinity,
        trajectory_l2_time: norms.l2_time,
        continuous_final_checkpoint_digest: digest_bytes(&first),
        restarted_final_checkpoint_digest: digest_bytes(&second),
        final_checkpoint_byte_identical: identical,
        passed: evidence_accepted && norms.l_infinity.is_equal(&zero) && norms.l2_time.is_equal(
            &zero,
        ) && identical,
    };
    let ghost unsealed = report;
    let ghost content = restart_content(
        binding@,
        total as nat,
        split as nat,
        initial@,
        norms,
        first@,
        second@,
    );
    assert(unsealed@ == content);
    let sealed = (calls.seal)(&report);
    assert(call_ensures(calls.seal, (&unsealed,), sealed));
    let result = match sealed {
        Ok(bytes) => {
            report.report_digest = digest_bytes(&bytes);
            Ok(report)
        },
        Err(error) => Err(serialization_refusal(error)),
    };
    assert(restart_sealed(content, calls.seal, result));
    result
}

/// Whether two restart reports agree: texts and flags are equal, norms equal in value.
pub open spec fn restart_agrees(left: RestartModel, right: RestartModel) -> bool {
    &&& left.trajectory_l_infinity.same_value(right.trajectory_l_infinity)
    &&& left.trajectory_l2_time.same_value(right.trajectory_l2_time)
    &&& right == (RestartModel {
        trajectory_l_infinity: right.trajectory_l_infinity,
        trajectory_l2_time: right.trajectory_l2_time,
        ..left
    })
}

pub fn same_restart_report(left: &RestartTrajectoryReport, right: &RestartTrajectoryReport) -> (result:
    bool)
    ensures
        result == restart_agrees(left@, right@),
{
    same_text(left.report_digest.as_str(), right.report_digest.as_str()) && same_binding(
        &left.binding,
        &right.binding,
    ) && left.split_after_steps == right.split_after_steps && left.total_steps
        == right.total_steps && same_text(
        left.initial_checkpoint_digest.as_str(),
        right.initial_checkpoint_digest.as_str(),
    ) && left.trajectory_l_infinity.is_equal(&right.trajectory_l_infinity)
        && left.trajectory_l2_time.is_equal(&right.trajectory_l2_time) && same_text(
        left.continuous_final_checkpoint_digest.as_str(),
        right.continuous_final_checkpoint_digest.as_str(),
    ) && same_text(
        left.restarted_final_checkpoint_digest.as_str(),
        right.restarted_final_checkpoint_digest.as_str(),
    ) && left.final_checkpoint_byte_identical == right.final_checkpoint_byte_identical
        && left.passed == right.passed
}

impl RestartTrajectoryReport {
    /// Confirms the report by recomputing it.
    pub fn validate<Op, X, C, V, A, E, R, D, N, S>(
        &self,
        execution: &CoupledExecution<Op>,
        evaluation: &X,
        step: Scalar,
        total_steps: usize,
        split_after_steps: usize,
        config: &BdfConfig,
        describe: &C,
        source: &FinitumVerificationSource,
        context: &CheckContext<V, E, R>,
        attempt: &A,
        calls: &RestartContext<D, N, S>,
    ) -> (result: Result<ValidatedKrasisVerification, VerificationRefusal>) where
        Op: TransactionalOperator,
        C: Fn(&X, Scalar, usize, usize, &BdfConfig) -> Result<Vec<u8>, String>,
        V: Fn(usize, usize) -> Result<bool, String>,
        A: Fn(&X, BdfState, Scalar, &BdfConfig) -> Result<StepOutcome, SolveError>,
        E: Fn(&CoupledCheckpoint) -> Result<Vec<u8>, String>,
        R: Fn(Scalar) -> String,
        D: Fn(&Vec<u8>) -> Result<CoupledCheckpoint, String>,
        N: Fn(Scalar, Scalar, &Vec<Vec<Scalar>>, &Vec<Vec<Scalar>>) -> Result<
            TrajectoryNorms,
            String,
        >,
        S: Fn(&RestartTrajectoryReport) -> Result<Vec<u8>, String>,

        requires
            execution.wf(),
            context.callable(),
            calls.callable(),
            call_requires(
                *describe,
                (evaluation, step, total_steps, split_after_steps, config),
            ),
            forall|integrator: BdfState|
                call_requires(*attempt, (evaluation, integrator, step, config)),
        ensures
            exists|expected: Result<RestartTrajectoryReport, VerificationRefusal>|
                {
                    &&& #[trigger] restart_checked(
                        trajectory::subject_of(*execution),
                        *evaluation,
                        step,
                        total_steps,
                        split_after_steps,
                        *config,
                        *describe,
                        source@,
                        *context,
                        *attempt,
                        *calls,
                        expected,
                    )
                    &&& match expected {
                        Err(refused) => result == Err::<
                            ValidatedKrasisVerification,
                            VerificationRefusal,
                        >(refused),
                        Ok(report) => verification::validated(
                            restart_agrees(self@, report@),
                            self.passed,
                            result,
                        ),
                    }
                },
    {
        let expected = check_restart_trajectory(
            execution,
            evaluation,
            step,
            total_steps,
            split_after_steps,
            config,
            describe,
            source,
            context,
            attempt,
            calls,
        );
        let ghost recomputed = expected;
        assert(restart_checked(
            trajectory::subject_of(*execution),
            *evaluation,
            step,
            total_steps,
            split_after_steps,
            *config,
            *describe,
            source@,
            *context,
            *attempt,
            *calls,
            recomputed,
        ));
        match expected {
            Err(error) => Err(error),
            Ok(report) => require_report(same_restart_report(self, &report), self.passed),
        }
    }
}

} // verus!
