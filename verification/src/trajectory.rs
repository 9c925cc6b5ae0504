//! Steps that a check takes on a copy of an execution, and its encoded checkpoints.
use crate::error::KrasisError;
use crate::evidence;
use crate::evidence::validate_execution_identity_source;
use crate::execution;
use crate::execution::{CoupledCheckpoint, CoupledExecution};
use crate::execution_model::ExecutionModel;
use crate::numeric::{BdfState, EvaluationRefusal, RefusalModel, SolveError, StepOutcome};
use crate::operator::TransactionalOperator;
use crate::realization::FinitumRealization;
use crate::refusal;
use crate::refusal::{
    krasis_refusal, serialization_refusal, BdfConfig, RefusalText, VerificationRefusal,
};
use crate::scalar::{copy_scalars, Scalar};
use vstd::prelude::*;

verus! {

/// What a check over an execution takes from outside: `validate` recomputes a piece of
/// evidence against a realization, both by position; `encode` serialises restart data;
/// `render` gives the text of a scalar.
pub struct CheckContext<V, E, R> where
    V: Fn(usize, usize) -> Result<bool, String>,
    E: Fn(&CoupledCheckpoint) -> Result<Vec<u8>, String>,
    R: Fn(Scalar) -> String,
 {
    pub validate: V,
    pub encode: E,
    pub render: R,
}

impl<V, E, R> CheckContext<V, E, R> where
    V: Fn(usize, usize) -> Result<bool, String>,
    E: Fn(&CoupledCheckpoint) -> Result<Vec<u8>, String>,
    R: Fn(Scalar) -> String,
 {
    pub open spec fn callable(self) -> bool {
        &&& forall|entry: usize, realization: usize| call_requires(
            self.validate,
            (entry, realization),
        )
        &&& forall|checkpoint: &CoupledCheckpoint| call_requires(self.encode, (checkpoint,))
        &&& forall|value: Scalar| call_requires(self.render, (value,))
    }
}

/// An execution that a check starts from, with what it reads of the operator.
#[verifier::ext_equal]
pub struct Subject<'a> {
    pub execution: ExecutionModel,
    pub dimension: nat,
    pub identity: Seq<char>,
    pub sources: Seq<FinitumRealization<'a>>,
}

/// The subject of an execution; a check works on a copy, whose log is empty.
pub open spec fn subject_of<'a, Op: TransactionalOperator>(
    execution: CoupledExecution<Op>,
) -> Subject<'a> {
    Subject {
        execution: ExecutionModel { refusals: Seq::empty(), ..execution@ },
        dimension: execution.op().size(),
        identity: execution.op().identity_text(),
        sources: execution.op().sources(),
    }
}

impl<'a> Subject<'a> {
    /// The subject in another state.
    pub open spec fn at(self, execution: ExecutionModel) -> Subject<'a> {
        Subject { execution, ..self }
    }
}

/// Whether two byte strings are equal.
pub fn same_bytes(left: &Vec<u8>, right: &Vec<u8>) -> (result: bool)
    ensures
        result == (left@ == right@),
{
    if left.len() != right.len() {
        return false;
    }
    let mut index: usize = 0;
    while index < left.len()
        invariant
            index <= left.len(),
            left.len() == right.len(),
            forall|i: int| 0 <= i < index ==> left@[i] == right@[i],
        decreases left.len() - index,
    {
        if left[index] != right[index] {
            return false;
        }
        index += 1;
    }
    assert(left@ =~= right@);
    true
}

/// What encoding the restart data of a subject gives.
pub open spec fn checkpoint_encoded<E, R>(
    subject: Subject<'_>,
    encode: E,
    render: R,
    result: Result<Vec<u8>, VerificationRefusal>,
) -> bool where
    E: Fn(&CoupledCheckpoint) -> Result<Vec<u8>, String>,
    R: Fn(Scalar) -> String,
 {
    ||| result is Err && evidence::source_checked(
        subject.execution,
        subject.dimension,
        subject.identity,
        subject.sources,
        render,
        Err(result->Err_0),
    )
    ||| evidence::source_checked(
        subject.execution,
        subject.dimension,
        subject.identity,
        subject.sources,
        render,
        Ok(()),
    ) && exists|checkpoint: CoupledCheckpoint, encoded: Result<Vec<u8>, String>|
        {
            &&& execution::checkpointed(subject.execution, subject.dimension, subject.identity)
                == Ok::<_, crate::error::ErrorModel>(checkpoint@)
            &&& #[trigger] call_ensures(encode, (&checkpoint,), encoded)
            &&& match encoded {
                Ok(bytes) => result == Ok::<Vec<u8>, VerificationRefusal>(bytes),
                Err(error) => refusal::reports(
                    refusal::serialization_refused(error@),
                    result,
                ),
            }
        }
}

/// The encoded restart data of an execution whose scalars may all enter an identity.
pub fn checkpoint_bytes<Op, E, R>(execution: &CoupledExecution<Op>, encode: &E, render: &R) -> (result:
    Result<Vec<u8>, VerificationRefusal>) where
    Op: TransactionalOperator,
    E: Fn(&CoupledCheckpoint) -> Result<Vec<u8>, String>,
    R: Fn(Scalar) -> String,

    requires
        execution.wf(),
        forall|checkpoint: &CoupledCheckpoint| call_requires(*encode, (checkpoint,)),
        forall|value: Scalar| call_requires(*render, (value,)),
    ensures
        checkpoint_encoded(
            subject_of(*execution).at(execution@),
            *encode,
            *render,
            result,
        ),
{
    match validate_execution_identity_source(execution, render) {
        Ok(_) => {},
        Err(error) => {
            return Err(error);
        },
    }
    let checkpoint = match execution.checkpoint() {
        Ok(checkpoint) => checkpoint,
        Err(error) => {
            return Err(krasis_refusal(error, render));
        },
    };
    let encoded = encode(&checkpoint);
    assert(call_ensures(*encode, (&checkpoint,), encoded));
    match encoded {
        Ok(bytes) => Ok(bytes),
        Err(error) => Err(serialization_refusal(error)),
    }
}

/// How a probed attempt ended.
#[derive(Clone, Copy, Debug, PartialEq, Eq, Structural)]
pub enum AttemptDisposition {
    Rejected,
    SolverError,
    UnexpectedAccepted,
}

pub open spec fn disposition_of(result: Result<StepOutcome, KrasisError>) -> AttemptDisposition {
    match result {
        Ok(StepOutcome::Rejected(_)) => AttemptDisposition::Rejected,
        Ok(StepOutcome::Accepted(_)) => AttemptDisposition::UnexpectedAccepted,
        Err(_) => AttemptDisposition::SolverError,
    }
}

/// The typed refusal that an attempt ran into.
pub open spec fn refusal_of(result: Result<StepOutcome, KrasisError>) -> Option<RefusalModel> {
    match result {
        Err(KrasisError::EvaluationRefused { code, origin, message }) => Some(
            RefusalModel { code: code@, origin: origin@, message: message@ },
        ),
        _ => None,
    }
}

pub open spec fn refusal_model(refusal: Option<EvaluationRefusal>) -> Option<RefusalModel> {
    match refusal {
        Some(refusal) => Some(refusal@),
        None => None,
    }
}

/// How an attempt ended, and the typed refusal it ran into.
pub fn classify(result: Result<StepOutcome, KrasisError>) -> (ended: (
    AttemptDisposition,
    Option<EvaluationRefusal>,
))
    ensures
        ended.0 == disposition_of(result),
        refusal_model(ended.1) == refusal_of(result),
{
    match result {
        Ok(StepOutcome::Rejected(_)) => (AttemptDisposition::Rejected, None),
        Ok(StepOutcome::Accepted(_)) => (AttemptDisposition::UnexpectedAccepted, None),
        Err(error) => match error {
            KrasisError::EvaluationRefused { code, origin, message } => (
                AttemptDisposition::SolverError,
                Some(EvaluationRefusal { code, origin, message }),
            ),
            _ => (AttemptDisposition::SolverError, None),
        },
    }
}

/// Whether two optional refusals are equal.
pub fn same_refusal(left: &Option<EvaluationRefusal>, right: &Option<EvaluationRefusal>) -> (result:
    bool)
    ensures
        result == (refusal_model(*left) == refusal_model(*right)),
{
    match (left, right) {
        (Some(mine), Some(theirs)) => crate::text::same_text(
            mine.code.as_str(),
            theirs.code.as_str(),
        ) && crate::text::same_text(mine.origin.as_str(), theirs.origin.as_str())
            && crate::text::same_text(mine.message.as_str(), theirs.message.as_str()),
        (None, None) => true,
        _ => false,
    }
}

/// Whether a check refuses a step that it needed to be accepted.
pub open spec fn step_refused<R: Fn(Scalar) -> String>(
    result: Result<StepOutcome, KrasisError>,
    render: R,
    refused: RefusalText,
) -> bool {
    match result {
        Ok(StepOutcome::Accepted(_)) => false,
        Ok(StepOutcome::Rejected(_)) => refused == (RefusalText {
            code: "KRASIS_VERIFY_UNEXPECTED_REJECTION"@,
            message: "an accepted step was required"@,
        }),
        Err(error) => refusal::state_refused(error, render, refused),
    }
}

pub open spec fn accepted(result: Result<StepOutcome, KrasisError>) -> bool {
    result matches Ok(outcome) && outcome is Accepted
}

/// Whether `count` steps in a row were accepted, leading to `after` through the given
/// integrator values.
pub open spec fn steps_accepted<
    X,
    A: Fn(&X, BdfState, Scalar, &BdfConfig) -> Result<StepOutcome, SolveError>,
>(
    before: ExecutionModel,
    dimension: nat,
    evaluation: X,
    step: Scalar,
    config: BdfConfig,
    attempt: A,
    count: int,
    states: Seq<Seq<Scalar>>,
    after: ExecutionModel,
) -> bool
    decreases count,
{
    if count <= 0 {
        states.len() == 0 && after == before
    } else {
        exists|between: ExecutionModel, result: Result<StepOutcome, KrasisError>|
            {
                &&& steps_accepted(
                    before,
                    dimension,
                    evaluation,
                    step,
                    config,
                    attempt,
                    count - 1,
                    states.drop_last(),
                    between,
                )
                &&& #[trigger] execution::attempted(
                    between,
                    dimension,
                    evaluation,
                    step,
                    config,
                    attempt,
                    result,
                    after,
                )
                &&& accepted(result)
                &&& states.len() == count
                &&& states.last() == after.integrator.values
            }
    }
}

/// Whether one of `count` steps in a row was not accepted, and how a check says so.
pub open spec fn steps_refused<X, A, R>(
    before: ExecutionModel,
    dimension: nat,
    evaluation: X,
    step: Scalar,
    config: BdfConfig,
    attempt: A,
    render: R,
    count: int,
    refused: RefusalText,
) -> bool where
    A: Fn(&X, BdfState, Scalar, &BdfConfig) -> Result<StepOutcome, SolveError>,
    R: Fn(Scalar) -> String,
 {
    exists|
        done: int,
        states: Seq<Seq<Scalar>>,
        between: ExecutionModel,
        result: Result<StepOutcome, KrasisError>,
        after: ExecutionModel,
    |
        {
            &&& 0 <= done < count
            &&& #[trigger] steps_accepted(
                before,
                dimension,
                evaluation,
                step,
                config,
                attempt,
                done,
                states,
                between,
            )
            &&& #[trigger] execution::attempted(
                between,
                dimension,
                evaluation,
                step,
                config,
                attempt,
                result,
                after,
            )
            &&& step_refused(result, render, refused)
        }
}

pub open spec fn vectors(states: Seq<Vec<Scalar>>) -> Seq<Seq<Scalar>> {
    states.map_values(|state: Vec<Scalar>| state@)
}

/// The refusal of a step that a check needed to be accepted, if it was not.
pub fn require_accepted<R: Fn(Scalar) -> String>(
    result: Result<StepOutcome, KrasisError>,
    render: &R,
) -> (required: Result<(), VerificationRefusal>)
    requires
        forall|value: Scalar| call_requires(*render, (value,)),
    ensures
        match required {
            Ok(_) => accepted(result),
            Err(refused) => step_refused(result, *render, refused@),
        },
{
    match result {
        Ok(StepOutcome::Accepted(_)) => Ok(()),
        Ok(StepOutcome::Rejected(_)) => Err(
            refusal::refusal(
                "KRASIS_VERIFY_UNEXPECTED_REJECTION",
                "an accepted step was required",
            ),
        ),
        Err(error) => Err(krasis_refusal(error, render)),
    }
}

proof fn lemma_one_more_step<
    X,
    A: Fn(&X, BdfState, Scalar, &BdfConfig) -> Result<StepOutcome, SolveError>,
>(
    before: ExecutionModel,
    dimension: nat,
    evaluation: X,
    step: Scalar,
    config: BdfConfig,
    attempt: A,
    count: int,
    states: Seq<Seq<Scalar>>,
    between: ExecutionModel,
    result: Result<StepOutcome, KrasisError>,
    after: ExecutionModel,
)
    requires
        count >= 0,
        steps_accepted(
            before,
            dimension,
            evaluation,
            step,
            config,
            attempt,
            count,
            states,
            between,
        ),
        execution::attempted(between, dimension, evaluation, step, config, attempt, result, after),
        accepted(result),
    ensures
        steps_accepted(
            before,
            dimension,
            evaluation,
            step,
            config,
            attempt,
            count + 1,
            states.push(after.integrator.values),
            after,
        ),
{
    let longer = states.push(after.integrator.values);
    assert(longer.drop_last() =~= states);
    assert(longer.len() == count + 1);
    assert(steps_accepted(
        before,
        dimension,
        evaluation,
        step,
        config,
        attempt,
        (count + 1) - 1,
        longer.drop_last(),
        between,
    ));
}

/// Takes `count` steps, all of which must be accepted, and returns the integrator values
/// after each.
pub fn accept_steps<Op, X, A, R>(
    execution: &mut CoupledExecution<Op>,
    evaluation: &X,
    step: Scalar,
    config: &BdfConfig,
    attempt: &A,
    count: usize,
    render: &R,
) -> (result: Result<Vec<Vec<Scalar>>, VerificationRefusal>) where
    Op: TransactionalOperator,
    A: Fn(&X, BdfState, Scalar, &BdfConfig) -> Result<StepOutcome, SolveError>,
    R: Fn(Scalar) -> String,

    requires
        old(execution).wf(),
        forall|integrator: BdfState|
            call_requires(*attempt, (evaluation, integrator, step, config)),
        forall|value: Scalar| call_requires(*render, (value,)),
    ensures
        final(execution).wf(),
        final(execution).op() == old(execution).op(),
        match result {
            Ok(states) => steps_accepted(
                old(execution)@,
                old(execution).op().size(),
                *evaluation,
                step,
                *config,
                *attempt,
                count as int,
                vectors(states@),
                final(execution)@,
            ),
            Err(refused) => steps_refused(
                old(execution)@,
                old(execution).op().size(),
                *evaluation,
                step,
                *config,
                *attempt,
                *render,
                count as int,
                refused@,
            ),
        },
{
    let ghost start = execution@;
    let ghost op = execution.op();
    let mut states: Vec<Vec<Scalar>> = Vec::new();
    let mut index: usize = 0;
    while index < count
        invariant
            index <= count,
            start == old(execution)@,
            op == old(execution).op(),
            execution.wf(),
            execution.op() == op,
            steps_accepted(
                start,
                op.size(),
                *evaluation,
                step,
                *config,
                *attempt,
                index as int,
                vectors(states@),
                execution@,
            ),
            forall|integrator: BdfState|
            call_requires(*attempt, (evaluation, integrator, step, config)),
            forall|value: Scalar| call_requires(*render, (value,)),
        decreases count - index,
    {
        let ghost between = execution@;
        let ghost before = vectors(states@);
        let result = execution.attempt_step(evaluation, step, config, attempt);
        let ghost after = execution@;
        let ghost returned = result;
        assert(execution::attempted(
            between,
            op.size(),
            *evaluation,
            step,
            *config,
            *attempt,
            returned,
            after,
        ));
        match require_accepted(result, render) {
            Ok(_) => {},
            Err(refused) => {
                assert(steps_refused(
                    start,
                    op.size(),
                    *evaluation,
                    step,
                    *config,
                    *attempt,
                    *render,
                    count as int,
                    refused@,
                ));
                return Err(refused);
            },
        }
        states.push(copy_scalars(&execution.integrator().values));
        proof {
            lemma_one_more_step(
                start,
                op.size(),
                *evaluation,
                step,
                *config,
                *attempt,
                index as int,
                before,
                between,
                returned,
                after,
            );
            assert(vectors(states@) =~= before.push(after.integrator.values));
        }
        index += 1;
    }
    Ok(states)
}

} // verus!
