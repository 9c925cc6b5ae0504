//! Checks of transactional behaviour over an execution: byte-exact rollback, restart
//! along the same trajectory, and synchronized bounded history.
use crate::digest;
use crate::digest::digest_bytes;
use crate::error::KrasisError;
use crate::evidence;
use crate::evidence::{
    execution_binding, same_binding, BindingModel, EntryModel, FinitumVerificationSource,
    VerificationBinding,
};
use crate::execution;
use crate::execution::{CoupledCheckpoint, CoupledExecution};
use crate::execution_model::ExecutionModel;
use crate::numeric::{BdfState, EvaluationRefusal, RefusalModel, SolveError, StepOutcome};
use crate::operator::TransactionalOperator;
use crate::refusal;
use crate::refusal::{
    serialization_refusal, validate_bdf_identity_inputs, BdfConfig, RefusalText,
    VerificationRefusal,
};
use crate::scalar::Scalar;
use crate::text::same_text;
use crate::trajectory;
use crate::trajectory::{
    checkpoint_bytes, classify, same_bytes, same_refusal, AttemptDisposition, CheckContext, Subject,
};
use vstd::prelude::*;

verus! {

/// The verdict of a report that its recomputation confirms.
#[derive(Clone, Copy, Debug, PartialEq, Eq, Structural)]
pub struct ValidatedKrasisVerification {
    pub accepted: bool,
}

/// The refusal of a report that its recomputation does not confirm.
pub open spec fn mismatch() -> RefusalText {
    RefusalText {
        code: "KRASIS_VERIFY_REPORT_MISMATCH"@,
        message: "verification report does not match recomputed source, inputs, outputs, or identity"@,
    }
}

/// What validating a report gives: its own verdict where the recomputed report is the same.
pub open spec fn validated(
    same: bool,
    passed: bool,
    result: Result<ValidatedKrasisVerification, VerificationRefusal>,
) -> bool {
    if same {
        result == Ok::<ValidatedKrasisVerification, VerificationRefusal>(
            ValidatedKrasisVerification { accepted: passed },
        )
    } else {
        refusal::reports(mismatch(), result)
    }
}

pub(crate) fn require_report(same: bool, passed: bool) -> (result: Result<
    ValidatedKrasisVerification,
    VerificationRefusal,
>)
    ensures
        validated(same, passed, result),
{
    if same {
        Ok(ValidatedKrasisVerification { accepted: passed })
    } else {
        Err(
            refusal::refusal(
                "KRASIS_VERIFY_REPORT_MISMATCH",
                "verification report does not match recomputed source, inputs, outputs, or identity",
            ),
        )
    }
}

/// The report of a rollback check.
#[derive(Clone, Debug, PartialEq, Eq)]
pub struct RollbackIdentityReport {
    pub report_digest: String,
    pub binding: VerificationBinding,
    pub disposition: AttemptDisposition,
    pub evaluation_refusal: Option<EvaluationRefusal>,
    pub checkpoint_before_digest: String,
    pub checkpoint_after_digest: String,
    pub byte_identical: bool,
    pub passed: bool,
}

#[verifier::ext_equal]
pub struct RollbackModel {
    pub report_digest: Seq<char>,
    pub binding: BindingModel,
    pub disposition: AttemptDisposition,
    pub evaluation_refusal: Option<RefusalModel>,
    pub checkpoint_before_digest: Seq<char>,
    pub checkpoint_after_digest: Seq<char>,
    pub byte_identical: bool,
    pub passed: bool,
}

impl View for RollbackIdentityReport {
    type V = RollbackModel;

    open spec fn view(&self) -> RollbackModel {
        RollbackModel {
            report_digest: self.report_digest@,
            binding: self.binding@,
            disposition: self.disposition,
            evaluation_refusal: trajectory::refusal_model(self.evaluation_refusal),
            checkpoint_before_digest: self.checkpoint_before_digest@,
            checkpoint_after_digest: self.checkpoint_after_digest@,
            byte_identical: self.byte_identical,
            passed: self.passed,
        }
    }
}

/// What a rollback report says, before it is sealed: the probe passed where all evidence
/// was accepted, the attempt was not accepted and left the restart data byte for byte.
pub open spec fn rollback_content(
    binding: BindingModel,
    attempted: Result<StepOutcome, KrasisError>,
    before: Seq<u8>,
    after: Seq<u8>,
) -> RollbackModel {
    RollbackModel {
        report_digest: Seq::empty(),
        binding,
        disposition: trajectory::disposition_of(attempted),
        evaluation_refusal: trajectory::refusal_of(attempted),
        checkpoint_before_digest: digest::digest_of_bytes(before),
        checkpoint_after_digest: digest::digest_of_bytes(after),
        byte_identical: before == after,
        passed: binding.accepted == Some(true) && trajectory::disposition_of(attempted)
            != AttemptDisposition::UnexpectedAccepted && before == after,
    }
}

/// Whether a report is the sealed form of its content: its digest covers the rest.
pub open spec fn rollback_sealed<S>(
    content: RollbackModel,
    seal: S,
    result: Result<RollbackIdentityReport, VerificationRefusal>,
) -> bool where S: FnOnce(&RollbackIdentityReport) -> Result<Vec<u8>, String> {
    exists|unsealed: RollbackIdentityReport, encoded: Result<Vec<u8>, String>|
        {
            &&& unsealed@ == content
            &&& #[trigger] call_ensures(seal, (&unsealed,), encoded)
            &&& match encoded {
                Err(error) => refusal::reports(
                    refusal::serialization_refused(error@),
                    result,
                ),
                Ok(bytes) => result matches Ok(report) && report@ == (RollbackModel {
                    report_digest: digest::digest_of_bytes(bytes@),
                    ..content
                }),
            }
        }
}

/// What a rollback check gives after its first checkpoint: the attempt, the second
/// checkpoint and the report.
pub open spec fn rollback_probed<X, A, E, S, R>(
    subject: Subject<'_>,
    step: Scalar,
    binding: BindingModel,
    before: Seq<u8>,
    evaluation: X,
    config: BdfConfig,
    attempt: A,
    encode: E,
    render: R,
    seal: S,
    result: Result<RollbackIdentityReport, VerificationRefusal>,
) -> bool where
    A: Fn(&X, BdfState, Scalar, &BdfConfig) -> Result<StepOutcome, SolveError>,
    E: Fn(&CoupledCheckpoint) -> Result<Vec<u8>, String>,
    S: FnOnce(&RollbackIdentityReport) -> Result<Vec<u8>, String>,
    R: Fn(Scalar) -> String,
 {
    exists|
        attempted: Result<StepOutcome, KrasisError>,
        left: ExecutionModel,
        after: Result<Vec<u8>, VerificationRefusal>,
    |
        {
            &&& #[trigger] execution::attempted(
                subject.execution,
                subject.dimension,
                evaluation,
                step,
                config,
                attempt,
                attempted,
                left,
            )
            &&& #[trigger] trajectory::checkpoint_encoded(
                subject.at(left),
                encode,
                render,
                after,
            )
            &&& match after {
                Err(refused) => result == Err::<RollbackIdentityReport, VerificationRefusal>(
                    refused,
                ),
                Ok(after) => rollback_sealed(
                    rollback_content(binding, attempted, before, after@),
                    seal,
                    result,
                ),
            }
        }
}

/// What a rollback check gives once it is bound: the first checkpoint and what follows.
pub open spec fn rollback_bound<X, A, E, S, R>(
    subject: Subject<'_>,
    step: Scalar,
    binding: BindingModel,
    evaluation: X,
    config: BdfConfig,
    attempt: A,
    encode: E,
    render: R,
    seal: S,
    result: Result<RollbackIdentityReport, VerificationRefusal>,
) -> bool where
    A: Fn(&X, BdfState, Scalar, &BdfConfig) -> Result<StepOutcome, SolveError>,
    E: Fn(&CoupledCheckpoint) -> Result<Vec<u8>, String>,
    S: FnOnce(&RollbackIdentityReport) -> Result<Vec<u8>, String>,
    R: Fn(Scalar) -> String,
 {
    exists|before: Result<Vec<u8>, VerificationRefusal>|
        {
            &&& #[trigger] trajectory::checkpoint_encoded(subject, encode, render, before)
            &&& match before {
                Err(refused) => result == Err::<RollbackIdentityReport, VerificationRefusal>(
                    refused,
                ),
                Ok(before) => rollback_probed(
                    subject,
                    step,
                    binding,
                    before@,
                    evaluation,
                    config,
                    attempt,
                    encode,
                    render,
                    seal,
                    result,
                ),
            }
        }
}

/// What a rollback check gives, whatever its outside calls returned.
pub open spec fn rollback_checked<X, C, V, A, E, S, R>(
    subject: Subject<'_>,
    evaluation: X,
    step: Scalar,
    config: BdfConfig,
    describe: C,
    entries: Seq<EntryModel>,
    context: CheckContext<V, E, R>,
    attempt: A,
    seal: S,
    result: Result<RollbackIdentityReport, VerificationRefusal>,
) -> bool where
    C: Fn(&X, Scalar, &BdfConfig) -> Result<Vec<u8>, String>,
    V: Fn(usize, usize) -> Result<bool, String>,
    A: Fn(&X, BdfState, Scalar, &BdfConfig) -> Result<StepOutcome, SolveError>,
    E: Fn(&CoupledCheckpoint) -> Result<Vec<u8>, String>,
    S: FnOnce(&RollbackIdentityReport) -> Result<Vec<u8>, String>,
    R: Fn(Scalar) -> String,
 {
    match refusal::step_failure(step, config) {
        Some(failure) => refusal::reports(failure, result),
        None => exists|
            described: Result<Vec<u8>, String>,
            bound: Result<VerificationBinding, VerificationRefusal>,
        |
            {
                &&& #[trigger] call_ensures(describe, (&evaluation, step, &config), described)
                &&& #[trigger] evidence::execution_bound(
                    subject.execution,
                    subject.dimension,
                    subject.identity,
                    subject.sources,
                    described,
                    entries,
                    context.validate,
                    context.render,
                    bound,
                )
                &&& match bound {
                    Err(refused) => result == Err::<RollbackIdentityReport, VerificationRefusal>(
                        refused,
                    ),
                    Ok(binding) => rollback_bound(
                        subject,
                        step,
                        binding@,
                        evaluation,
                        config,
                        attempt,
                        context.encode,
                        context.render,
                        seal,
                        result,
                    ),
                }
            },
    }
}

/// Byte-exact rollback of a rejected or failed attempt. `describe` serialises the evaluation
/// context, the step and the configuration, which the report's configuration identity covers;
/// `attempt` makes the step from the same three.
///
/// A fresh execution has no history, so its first attempt cannot be rejected on an error
/// estimate; take one accepted step first where the configuration is meant to reject.
pub fn check_rollback_identity<Op, X, C, V, A, E, S, R>(
    execution: &CoupledExecution<Op>,
    evaluation: &X,
    step: Scalar,
    config: &BdfConfig,
    describe: &C,
    source: &FinitumVerificationSource,
    context: &CheckContext<V, E, R>,
    attempt: &A,
    seal: S,
) -> (result: Result<RollbackIdentityReport, VerificationRefusal>) where
    Op: TransactionalOperator,
    C: Fn(&X, Scalar, &BdfConfig) -> Result<Vec<u8>, String>,
    V: Fn(usize, usize) -> Result<bool, String>,
    A: Fn(&X, BdfState, Scalar, &BdfConfig) -> Result<StepOutcome, SolveError>,
    E: Fn(&CoupledCheckpoint) -> Result<Vec<u8>, String>,
    S: FnOnce(&RollbackIdentityReport) -> Result<Vec<u8>, String>,
    R: Fn(Scalar) -> String,

    requires
        execution.wf(),
        context.callable(),
        call_requires(*describe, (evaluation, step, config)),
        forall|integrator: BdfState|
            call_requires(*attempt, (evaluation, integrator, step, config)),
        forall|report: &RollbackIdentityReport| call_requires(seal, (report,)),
    ensures
        rollback_checked(
            trajectory::subject_of(*execution),
            *evaluation,
            step,
            *config,
            *describe,
            source@,
            *context,
            *attempt,
            seal,
            result,
        ),
{
    match validate_bdf_identity_inputs(step, config) {
        Ok(_) => {},
        Err(error) => {
            return Err(error);
        },
    }
    let ghost subject = trajectory::subject_of(*execution);
    let mut candidate = execution.fork();
    let told = describe(evaluation, step, config);
    let ghost described = told;
    assert(call_ensures(*describe, (evaluation, step, config), described));
    let bound = execution_binding(
        &candidate,
        told,
        source,
        &context.validate,
        &context.render,
    );
    let ghost given_bound = bound;
    assert(evidence::execution_bound(
        subject.execution,
        subject.dimension,
        subject.identity,
        subject.sources,
        described,
        source@,
        context.validate,
        context.render,
        given_bound,
    ));
    let binding = match bound {
        Ok(binding) => binding,
        Err(error) => {
            return Err(error);
        },
    };
    let encoded = checkpoint_bytes(&candidate, &context.encode, &context.render);
    let ghost given_before = encoded;
    assert(trajectory::checkpoint_encoded(
        subject,
        context.encode,
        context.render,
        given_before,
    ));
    let before = match encoded {
        Ok(bytes) => bytes,
        Err(error) => {
            return Err(error);
        },
    };
    let attempted = candidate.attempt_step(evaluation, step, config, attempt);
    let ghost tried = attempted;
    let ghost left = candidate@;
    assert(execution::attempted(
        subject.execution,
        subject.dimension,
        *evaluation,
        step,
        *config,
        *attempt,
        tried,
        left,
    ));
    let (disposition, evaluation_refusal) = classify(attempted);
    let encoded = checkpoint_bytes(&candidate, &context.encode, &context.render);
    let ghost given_after = encoded;
    assert(trajectory::checkpoint_encoded(
        subject.at(left),
        context.encode,
        context.render,
        given_after,
    ));
    let after = match encoded {
        Ok(bytes) => bytes,
        Err(error) => {
            let result: Result<RollbackIdentityReport, VerificationRefusal> = Err(error);
            assert(rollback_probed(
                subject,
                step,
                binding@,
                before@,
                *evaluation,
                *config,
                *attempt,
                context.encode,
                context.render,
                seal,
                result,
            ));
            return result;
        },
    };
    let byte_identical: bool = same_bytes(&before, &after);
    let evidence_accepted: bool = match binding.finitum_verification_accepted {
        Some(accepted) => accepted,
        None => false,
    };
    let ghost bound_to = binding@;
    let mut report = RollbackIdentityReport {
        report_digest: String::new(),
        binding,
        disposition,
        evaluation_refusal,
        checkpoint_before_digest: digest_bytes(&before),
        checkpoint_after_digest: digest_bytes(&after),
        byte_identical,
        passed: evidence_accepted && disposition != AttemptDisposition::UnexpectedAccepted
            && byte_identical,
    };
    let ghost unsealed = report;
    let ghost content = rollback_content(bound_to, tried, before@, after@);
    assert(unsealed@ == content);
    let encoded = seal(&report);
    assert(call_ensures(seal, (&unsealed,), encoded));
    let result = match encoded {
        Ok(bytes) => {
            report.report_digest = digest_bytes(&bytes);
            Ok(report)
        },
        Err(error) => Err(serialization_refusal(error)),
    };
    assert(rollback_sealed(content, seal, result));
    assert(rollback_probed(
        subject,
        step,
        bound_to,
        before@,
        *evaluation,
        *config,
        *attempt,
        context.encode,
        context.render,
        seal,
        result,
    ));
    result
}

/// Whether two rollback reports are equal.
pub fn same_rollback_report(left: &RollbackIdentityReport, right: &RollbackIdentityReport) -> (result:
    bool)
    ensures
        result == (left@ == right@),
{
    same_text(left.report_digest.as_str(), right.report_digest.as_str()) && same_binding(
        &left.binding,
        &right.binding,
    ) && left.disposition == right.disposition && same_refusal(
        &left.evaluation_refusal,
        &right.evaluation_refusal,
    ) && same_text(
        left.checkpoint_before_digest.as_str(),
        right.checkpoint_before_digest.as_str(),
    ) && same_text(
        left.checkpoint_after_digest.as_str(),
        right.checkpoint_after_digest.as_str(),
    ) && left.byte_identical == right.byte_identical && left.passed == right.passed
}

impl RollbackIdentityReport {
    /// Confirms the report by recomputing it.
    pub fn validate<Op, X, C, V, A, E, S, R>(
        &self,
        execution: &CoupledExecution<Op>,
        evaluation: &X,
        step: Scalar,
        config: &BdfConfig,
        describe: &C,
        source: &FinitumVerificationSource,
        context: &CheckContext<V, E, R>,
        attempt: &A,
        seal: S,
    ) -> (result: Result<ValidatedKrasisVerification, VerificationRefusal>) where
        Op: TransactionalOperator,
        C: Fn(&X, Scalar, &BdfConfig) -> Result<Vec<u8>, String>,
        V: Fn(usize, usize) -> Result<bool, String>,
        A: Fn(&X, BdfState, Scalar, &BdfConfig) -> Result<StepOutcome, SolveError>,
        E: Fn(&CoupledCheckpoint) -> Result<Vec<u8>, String>,
        S: FnOnce(&RollbackIdentityReport) -> Result<Vec<u8>, String>,
        R: Fn(Scalar) -> String,

        requires
            execution.wf(),
            context.callable(),
            call_requires(*describe, (evaluation, step, config)),
            forall|integrator: BdfState|
                call_requires(*attempt, (evaluation, integrator, step, config)),
            forall|report: &RollbackIdentityReport| call_requires(seal, (report,)),
        ensures
            exists|expected: Result<RollbackIdentityReport, VerificationRefusal>|
                {
                    &&& #[trigger] rollback_checked(
                        trajectory::subject_of(*execution),
                        *evaluation,
                        step,
                        *config,
                        *describe,
                        source@,
                        *context,
                        *attempt,
                        seal,
                        expected,
                    )
                    &&& match expected {
                        Err(refused) => result == Err::<
                            ValidatedKrasisVerification,
                            VerificationRefusal,
                        >(refused),
                        Ok(report) => validated(self@ == report@, self.passed, result),
                    }
                },
    {
        let expected = check_rollback_identity(
            execution,
            evaluation,
            step,
            config,
            describe,
            source,
            context,
            attempt,
            seal,
        );
        let ghost recomputed = expected;
        assert(rollback_checked(
            trajectory::subject_of(*execution),
            *evaluation,
            step,
            *config,
            *describe,
            source@,
            *context,
            *attempt,
            seal,
            recomputed,
        ));
        match expected {
            Err(error) => Err(error),
            Ok(report) => require_report(same_rollback_report(self, &report), self.passed),
        }
    }
}

} // verus!
