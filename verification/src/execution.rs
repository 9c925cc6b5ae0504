//! Transactional execution of implicit time steps.
use crate::checkpoint::Checkpoint;
use crate::error::{ErrorModel, KrasisError};
use crate::execution_model;
use crate::execution_model::{
    AttemptModel, CoupledCheckpointModel, ExecutionModel, RefusedModel,
};
use crate::layout;
use crate::numeric;
use crate::numeric::{
    equal_values, krasis_solve_error, BdfState, EvaluationRefusal, SolveError, StepOutcome,
};
use crate::operator::TransactionalOperator;
use crate::refusal::BdfConfig;
use crate::restore_laws;
use crate::scalar::{find_non_finite, Scalar};
use crate::state::SimulationState;
use crate::state_model;
use crate::state_model::{StateModel, TransactionPhase};
use crate::text::same_text;
use vstd::prelude::*;

verus! {

/// Restart data of an execution: the state and the integrator's history, bound to
/// the operator.
#[derive(Clone, Debug, PartialEq, Eq)]
pub struct CoupledCheckpoint {
    pub operator_identity: String,
    pub state: Checkpoint,
    pub integrator: BdfState,
}

impl View for CoupledCheckpoint {
    type V = CoupledCheckpointModel;

    open spec fn view(&self) -> CoupledCheckpointModel {
        CoupledCheckpointModel {
            operator_identity: self.operator_identity@,
            state: self.state@,
            integrator: self.integrator@,
        }
    }
}

/// One entry of the transaction log: an attempt that ran into a typed evaluation
/// failure, with the committed time it started from and its step. The log is in
/// memory only: no checkpoint holds it and restoring leaves it alone.
#[derive(Clone, Debug, PartialEq, Eq)]
pub struct RefusedAttempt {
    pub refusal: EvaluationRefusal,
    pub time: Scalar,
    pub step: Scalar,
}

impl View for RefusedAttempt {
    type V = RefusedModel;

    open spec fn view(&self) -> RefusedModel {
        RefusedModel { refusal: self.refusal@, time: self.time, step: self.step }
    }
}

pub open spec fn refused_models(attempts: Seq<RefusedAttempt>) -> Seq<RefusedModel> {
    attempts.map_values(|attempt: RefusedAttempt| attempt@)
}

/// What an attempt led to, as a mathematical value.
pub open spec fn attempt_model(outcome: Result<StepOutcome, SolveError>) -> AttemptModel {
    match outcome {
        Err(error) => AttemptModel::Failed(error@),
        Ok(StepOutcome::Rejected(_)) => AttemptModel::Rejected,
        Ok(StepOutcome::Accepted(accepted)) => AttemptModel::Accepted(accepted.state@),
    }
}

/// Checks that a committed state and an integrator belong together.
fn validate_pair(state: &SimulationState, integrator: &BdfState, dimension: usize) -> (result:
    Result<(), KrasisError>)
    requires
        state.wf(),
    ensures
        match execution_model::pair_failure(state@, integrator@, dimension as nat) {
            Some(failure) => result matches Err(error) && error@ == failure,
            None => result is Ok,
        },
{
    proof {
        state.lemma_wf();
    }
    let committed = match state.committed_vector() {
        Ok(committed) => committed,
        Err(error) => {
            return Err(error);
        },
    };
    proof {
        execution_model::lemma_committed_vector(state@, committed@);
    }
    if state.phase() != TransactionPhase::Committed || committed.len() != dimension
        || !equal_values(&integrator.values, &committed) || !integrator.time.is_equal(
        &state.time(),
    ) || integrator.accepted_steps != state.step() {
        return Err(
            KrasisError::InvalidCoupling(
                "Krasis committed state and Methodus BDF state are not synchronized".to_owned(),
            ),
        );
    }
    let newest = match state.history_vector(0) {
        Ok(newest) => newest,
        Err(error) => {
            return Err(error);
        },
    };
    proof {
        if newest is Some {
            execution_model::lemma_previous_vector(state@, newest->Some_0@);
        }
    }
    if integrator.accepted_steps == 0 && integrator.previous_values.is_none()
        && integrator.previous_step.is_none() {
        return if newest.is_some() {
            Err(
                KrasisError::InvalidCoupling(
                    "initial BDF state unexpectedly has Krasis history".to_owned(),
                ),
            )
        } else {
            Ok(())
        };
    }
    let agree: bool = match (&integrator.previous_values, integrator.previous_step, &newest) {
        (Some(previous), Some(step), Some(level)) => previous.len() == dimension
            && find_non_finite(previous).is_none() && step.is_finite() && step.is_positive()
            && equal_values(level, previous),
        _ => false,
    };
    if agree {
        Ok(())
    } else {
        Err(
            KrasisError::InvalidCoupling(
                "Krasis field history and Methodus BDF history are inconsistent".to_owned(),
            ),
        )
    }
}

/// Why an execution cannot start from a state.
pub open spec fn start_failure(state: StateModel, layout_text: Seq<char>) -> Option<ErrorModel> {
    if state.phase != TransactionPhase::Committed {
        Some(
            ErrorModel::InvalidCoupling("coupled execution must start from committed state"@),
        )
    } else if layout::identity_of(state.layout) != layout_text {
        Some(ErrorModel::InvalidCoupling("state layout does not match the coupled operator"@))
    } else if state.step != 0 {
        Some(
            ErrorModel::InvalidCoupling(
                "nonzero-step state must be loaded through a coupled checkpoint"@,
            ),
        )
    } else if !state_model::filled(state.layout, state.fields) {
        Some(state_model::missing_failure(state.layout, state.fields))
    } else {
        None
    }
}

/// Execution state for implicit transient solves over a transactional operator.
#[derive(Clone, Debug)]
pub struct CoupledExecution<Op: TransactionalOperator> {
    operator: Op,
    state: SimulationState,
    integrator: BdfState,
    refusals: Vec<RefusedAttempt>,
}

impl<Op: TransactionalOperator> View for CoupledExecution<Op> {
    type V = ExecutionModel;

    closed spec fn view(&self) -> ExecutionModel {
        ExecutionModel {
            state: self.state@,
            integrator: self.integrator@,
            refusals: refused_models(self.refusals@),
        }
    }
}

impl<Op: TransactionalOperator> CoupledExecution<Op> {
    pub closed spec fn op(&self) -> Op {
        self.operator
    }

    /// A valid operator and a well-formed state outside a trial.
    pub closed spec fn wf(&self) -> bool {
        &&& self.operator.valid()
        &&& self.state.wf()
        &&& self.state@.phase == TransactionPhase::Committed
    }

    pub proof fn lemma_wf(&self)
        requires
            self.wf(),
        ensures
            self.op().valid(),
            self@.state.consistent(),
            self@.state.phase == TransactionPhase::Committed,
    {
        self.state.lemma_wf();
    }

    /// The values that an integrator starts from, where the state can start an execution.
    pub fn initial_values(operator: &Op, state: &SimulationState) -> (result: Result<
        Vec<Scalar>,
        KrasisError,
    >)
        requires
            operator.valid(),
            state.wf(),
        ensures
            match start_failure(state@, operator.layout_text()) {
                Some(failure) => result matches Err(error) && error@ == failure,
                None => result matches Ok(values) && values@ == execution_model::committed_vector(
                    state@,
                ),
            },
    {
        if state.phase() != TransactionPhase::Committed {
            return Err(
                KrasisError::InvalidCoupling(
                    "coupled execution must start from committed state".to_owned(),
                ),
            );
        }
        if !same_text(state.layout().identity(), operator.state_layout_identity()) {
            return Err(
                KrasisError::InvalidCoupling(
                    "state layout does not match the coupled operator".to_owned(),
                ),
            );
        }
        if state.step() != 0 {
            return Err(
                KrasisError::InvalidCoupling(
                    "nonzero-step state must be loaded through a coupled checkpoint".to_owned(),
                ),
            );
        }
        match state.committed_vector() {
            Ok(values) => {
                proof {
                    state.lemma_wf();
                    execution_model::lemma_committed_vector(state@, values@);
                }
                Ok(values)
            },
            Err(error) => Err(error),
        }
    }

    /// Starts an execution with an initialized integrator, or reports why not.
    pub fn start(
        operator: Op,
        state: SimulationState,
        initialized: Result<BdfState, SolveError>,
    ) -> (result: Result<CoupledExecution<Op>, KrasisError>)
        requires
            operator.valid(),
            state.wf(),
        ensures
            started(operator, state@, initialized, result),
    {
        match CoupledExecution::initial_values(&operator, &state) {
            Ok(_) => {},
            Err(error) => {
                return Err(error);
            },
        }
        let integrator = match initialized {
            Ok(integrator) => integrator,
            Err(error) => {
                return Err(krasis_solve_error(error));
            },
        };
        match validate_pair(&state, &integrator, operator.dimension()) {
            Ok(_) => {},
            Err(error) => {
                return Err(error);
            },
        }
        let refusals: Vec<RefusedAttempt> = Vec::new();
        assert(refused_models(refusals@) =~= Seq::<RefusedModel>::empty());
        Ok(CoupledExecution { operator, state, integrator, refusals })
    }

    /// Starts an execution; `initialize` makes the integrator state from the initial
    /// time and values. A typed evaluation failure that it meets is reported as itself.
    pub fn new<I>(operator: Op, state: SimulationState, initialize: I) -> (result: Result<
        CoupledExecution<Op>,
        KrasisError,
    >) where I: FnOnce(Scalar, Vec<Scalar>) -> Result<BdfState, SolveError>
        requires
            operator.valid(),
            state.wf(),
            forall|time: Scalar, values: Vec<Scalar>| call_requires(initialize, (time, values)),
        ensures
            match start_failure(state@, operator.layout_text()) {
                Some(failure) => result matches Err(error) && error@ == failure,
                None => exists|values: Vec<Scalar>, initialized: Result<BdfState, SolveError>|
                    {
                        &&& values@ == execution_model::committed_vector(state@)
                        &&& #[trigger] call_ensures(
                            initialize,
                            (state@.time, values),
                            initialized,
                        )
                        &&& started(operator, state@, initialized, result)
                    },
            },
    {
        let values = match CoupledExecution::initial_values(&operator, &state) {
            Ok(values) => values,
            Err(error) => {
                return Err(error);
            },
        };
        let ghost given = values;
        let time = state.time();
        let initialized = initialize(time, values);
        assert(call_ensures(initialize, (time, given), initialized));
        CoupledExecution::start(operator, state, initialized)
    }

    /// The typed evaluation refusals that attempts ran into, in order.
    pub fn evaluation_refusals(&self) -> (result: &Vec<RefusedAttempt>)
        ensures
            refused_models(result@) == self@.refusals,
    {
        &self.refusals
    }

    pub fn operator(&self) -> (result: &Op)
        ensures
            *result == self.op(),
    {
        &self.operator
    }

    pub fn state(&self) -> (result: &SimulationState)
        requires
            self.wf(),
        ensures
            result@ == self@.state,
            result.wf(),
    {
        &self.state
    }

    pub fn integrator(&self) -> (result: &BdfState)
        ensures
            result@ == self@.integrator,
    {
        &self.integrator
    }

    /// An independent execution over the same operator, from the same state.
    pub fn fork(&self) -> (result: CoupledExecution<&Op>)
        requires
            self.wf(),
        ensures
            result.wf(),
            result.op() == &self.op(),
            result@ == (ExecutionModel { refusals: Seq::empty(), ..self@ }),
    {
        let refusals: Vec<RefusedAttempt> = Vec::new();
        assert(refused_models(refusals@) =~= Seq::<RefusedModel>::empty());
        CoupledExecution {
            operator: &self.operator,
            state: self.state.clone(),
            integrator: self.integrator.clone(),
            refusals,
        }
    }

    /// Checks that the committed state and the integrator are synchronized.
    pub fn validate_synchronized(&self) -> (result: Result<(), KrasisError>)
        requires
            self.wf(),
        ensures
            match execution_model::pair_failure(
                self@.state,
                self@.integrator,
                self.op().size(),
            ) {
                Some(failure) => result matches Err(error) && error@ == failure,
                None => result is Ok,
            },
    {
        validate_pair(&self.state, &self.integrator, self.operator.dimension())
    }

    /// Settles an attempt: an accepted step is committed at its time; a rejected step
    /// and a failure leave the committed state and the integrator untouched. A typed
    /// evaluation failure is logged and returned with its code and origin.
    pub fn settle_step(&mut self, step: Scalar, outcome: Result<StepOutcome, SolveError>) -> (result:
        Result<StepOutcome, KrasisError>)
        requires
            old(self).wf(),
        ensures
            final(self).wf(),
            final(self).op() == old(self).op(),
            settled(
                old(self)@,
                old(self).op().size(),
                step,
                outcome,
                result,
                final(self)@,
            ),
    {
        proof {
            self.state.lemma_wf();
        }
        match outcome {
            Err(failure) => {
                match &failure.refusal {
                    Some(refusal) => {
                        let attempt = RefusedAttempt {
                            refusal: refusal.clone(),
                            time: self.state.time(),
                            step,
                        };
                        let ghost logged = self.refusals@;
                        self.refusals.push(attempt);
                        assert(refused_models(self.refusals@) =~= refused_models(logged).push(
                            attempt@,
                        ));
                    },
                    None => {},
                }
                Err(krasis_solve_error(failure))
            },
            Ok(StepOutcome::Rejected(rejected)) => Ok(StepOutcome::Rejected(rejected)),
            Ok(StepOutcome::Accepted(accepted)) => {
                match self.state.commit_vector(&accepted.state.values, accepted.state.time) {
                    Ok(_) => {},
                    Err(error) => {
                        return Err(error);
                    },
                }
                self.integrator = accepted.state.clone();
                match self.validate_synchronized() {
                    Ok(_) => Ok(StepOutcome::Accepted(accepted)),
                    Err(error) => Err(error),
                }
            },
        }
    }

    /// Attempts one step inside a trial transaction; `attempt` makes the step from the
    /// evaluation context, the integrator state, the step and the configuration. Nothing is
    /// attempted from a state that is not synchronized.
    pub fn attempt_step<X, A>(
        &mut self,
        evaluation: &X,
        step: Scalar,
        config: &BdfConfig,
        attempt: &A,
    ) -> (result: Result<StepOutcome, KrasisError>) where
        A: Fn(&X, BdfState, Scalar, &BdfConfig) -> Result<StepOutcome, SolveError>,

        requires
            old(self).wf(),
            forall|integrator: BdfState|
                call_requires(*attempt, (evaluation, integrator, step, config)),
        ensures
            final(self).wf(),
            final(self).op() == old(self).op(),
            attempted(
                old(self)@,
                old(self).op().size(),
                *evaluation,
                step,
                *config,
                *attempt,
                result,
                final(self)@,
            ),
    {
        match self.validate_synchronized() {
            Ok(_) => {},
            Err(error) => {
                return Err(error);
            },
        }
        let integrator = self.integrator.clone();
        let ghost given = integrator;
        let outcome = attempt(evaluation, integrator, step, config);
        assert(call_ensures(*attempt, (evaluation, given, step, config), outcome));
        self.settle_step(step, outcome)
    }

    /// Attempts one step inside a trial transaction, with the nonlinear solve delegated to
    /// a solver; `attempt` makes the step from the evaluation context, the integrator state,
    /// the step and the configuration with that solver.
    pub fn attempt_step_with<X, N, A>(
        &mut self,
        evaluation: &X,
        step: Scalar,
        config: &BdfConfig,
        solver: &N,
        attempt: &A,
    ) -> (result: Result<StepOutcome, KrasisError>) where
        A: Fn(&X, BdfState, Scalar, &BdfConfig, &N) -> Result<StepOutcome, SolveError>,

        requires
            old(self).wf(),
            forall|integrator: BdfState|
                call_requires(*attempt, (evaluation, integrator, step, config, solver)),
        ensures
            final(self).wf(),
            final(self).op() == old(self).op(),
            attempted_with(
                old(self)@,
                old(self).op().size(),
                *evaluation,
                step,
                *config,
                *solver,
                *attempt,
                result,
                final(self)@,
            ),
    {
        match self.validate_synchronized() {
            Ok(_) => {},
            Err(error) => {
                return Err(error);
            },
        }
        let integrator = self.integrator.clone();
        let ghost given = integrator;
        let outcome = attempt(evaluation, integrator, step, config, solver);
        assert(call_ensures(*attempt, (evaluation, given, step, config, solver), outcome));
        self.settle_step(step, outcome)
    }

    /// The restart data of a synchronized execution.
    pub fn checkpoint(&self) -> (result: Result<CoupledCheckpoint, KrasisError>)
        requires
            self.wf(),
        ensures
            match checkpointed(self@, self.op().size(), self.op().identity_text()) {
                Ok(saved) => result matches Ok(checkpoint) && checkpoint@ == saved,
                Err(failure) => result matches Err(error) && error@ == failure,
            },
    {
        match self.validate_synchronized() {
            Ok(_) => {},
            Err(error) => {
                return Err(error);
            },
        }
        let state = match self.state.checkpoint() {
            Ok(state) => state,
            Err(error) => {
                return Err(error);
            },
        };
        Ok(
            CoupledCheckpoint {
                operator_identity: self.operator.identity().to_owned(),
                state,
                integrator: self.integrator.clone(),
            },
        )
    }

    /// Restores the state and the integrator together, after checking that the
    /// checkpoint belongs to this operator and is synchronized. A refused checkpoint
    /// changes nothing; the log stays.
    pub fn restore(&mut self, checkpoint: &CoupledCheckpoint) -> (result: Result<(), KrasisError>)
        requires
            old(self).wf(),
        ensures
            final(self).wf(),
            final(self).op() == old(self).op(),
            match restored(
                old(self)@,
                old(self).op().size(),
                old(self).op().identity_text(),
                checkpoint@,
            ) {
                Ok(next) => result is Ok && final(self)@ == next,
                Err(failure) => result matches Err(error) && error@ == failure && final(self)@
                    == old(self)@,
            },
    {
        if !same_text(checkpoint.operator_identity.as_str(), self.operator.identity()) {
            return Err(
                KrasisError::InvalidCoupling(
                    "checkpoint operator identity `".to_owned().concat(
                        checkpoint.operator_identity.as_str(),
                    ).concat("` does not match `").concat(self.operator.identity()).concat("`"),
                ),
            );
        }
        let mut candidate = self.state.clone();
        match candidate.restore(&checkpoint.state) {
            Ok(_) => {},
            Err(error) => {
                return Err(error);
            },
        }
        match validate_pair(&candidate, &checkpoint.integrator, self.operator.dimension()) {
            Ok(_) => {},
            Err(error) => {
                return Err(error);
            },
        }
        self.state = candidate;
        self.integrator = checkpoint.integrator.clone();
        Ok(())
    }
}

/// What starting an execution gives.
pub open spec fn started<Op: TransactionalOperator>(
    operator: Op,
    state: StateModel,
    initialized: Result<BdfState, SolveError>,
    result: Result<CoupledExecution<Op>, KrasisError>,
) -> bool {
    match start_failure(state, operator.layout_text()) {
        Some(failure) => result matches Err(error) && error@ == failure,
        None => match initialized {
            Err(reported) => result matches Err(error) && error@ == numeric::solve_failure(
                reported@,
            ),
            Ok(integrator) => match execution_model::pair_failure(
                state,
                integrator@,
                operator.size(),
            ) {
                Some(failure) => result matches Err(error) && error@ == failure,
                None => result matches Ok(execution) && {
                    &&& execution.wf()
                    &&& execution.op() == operator
                    &&& execution@ == (ExecutionModel {
                        state,
                        integrator: integrator@,
                        refusals: Seq::empty(),
                    })
                },
            },
        },
    }
}

/// What settling an attempt gives: the outcome itself where nothing failed.
pub open spec fn settled(
    before: ExecutionModel,
    dimension: nat,
    step: Scalar,
    outcome: Result<StepOutcome, SolveError>,
    result: Result<StepOutcome, KrasisError>,
    after: ExecutionModel,
) -> bool {
    let expected = execution_model::settle(before, dimension, step, attempt_model(outcome));
    &&& after == expected.0
    &&& match expected.1 {
        Some(failure) => result matches Err(error) && error@ == failure,
        None => outcome is Ok && result == Ok::<StepOutcome, KrasisError>(outcome->Ok_0),
    }
}

/// What attempting a step gives, whatever the attempt led to.
pub open spec fn attempted<X, A>(
    before: ExecutionModel,
    dimension: nat,
    evaluation: X,
    step: Scalar,
    config: BdfConfig,
    attempt: A,
    result: Result<StepOutcome, KrasisError>,
    after: ExecutionModel,
) -> bool where A: Fn(&X, BdfState, Scalar, &BdfConfig) -> Result<StepOutcome, SolveError> {
    match execution_model::pair_failure(before.state, before.integrator, dimension) {
        Some(failure) => result matches Err(error) && error@ == failure && after == before,
        None => exists|integrator: BdfState, outcome: Result<StepOutcome, SolveError>|
            {
                &&& integrator@ == before.integrator
                &&& #[trigger] call_ensures(
                    attempt,
                    (&evaluation, integrator, step, &config),
                    outcome,
                )
                &&& settled(before, dimension, step, outcome, result, after)
            },
    }
}

/// What an attempted step does when the attempt is made with a given solver.
pub open spec fn attempted_with<X, N, A>(
    before: ExecutionModel,
    dimension: nat,
    evaluation: X,
    step: Scalar,
    config: BdfConfig,
    solver: N,
    attempt: A,
    result: Result<StepOutcome, KrasisError>,
    after: ExecutionModel,
) -> bool where A: Fn(&X, BdfState, Scalar, &BdfConfig, &N) -> Result<StepOutcome, SolveError> {
    match execution_model::pair_failure(before.state, before.integrator, dimension) {
        Some(failure) => result matches Err(error) && error@ == failure && after == before,
        None => exists|integrator: BdfState, outcome: Result<StepOutcome, SolveError>|
            {
                &&& integrator@ == before.integrator
                &&& #[trigger] call_ensures(
                    attempt,
                    (&evaluation, integrator, step, &config, &solver),
                    outcome,
                )
                &&& settled(before, dimension, step, outcome, result, after)
            },
    }
}

/// The restart data of an execution, or why it has none.
pub open spec fn checkpointed(
    execution: ExecutionModel,
    dimension: nat,
    identity: Seq<char>,
) -> Result<CoupledCheckpointModel, ErrorModel> {
    match execution_model::pair_failure(execution.state, execution.integrator, dimension) {
        Some(failure) => Err(failure),
        None => match execution.state.checkpoint() {
            Err(failure) => Err(failure),
            Ok(state) => Ok(
                CoupledCheckpointModel {
                    operator_identity: identity,
                    state,
                    integrator: execution.integrator,
                },
            ),
        },
    }
}

/// The execution that restart data describe, or why they are refused.
pub open spec fn restored(
    execution: ExecutionModel,
    dimension: nat,
    identity: Seq<char>,
    saved: CoupledCheckpointModel,
) -> Result<ExecutionModel, ErrorModel> {
    if saved.operator_identity != identity {
        Err(
            ErrorModel::InvalidCoupling(
                "checkpoint operator identity `"@ + saved.operator_identity
                    + "` does not match `"@ + identity + "`"@,
            ),
        )
    } else {
        match execution.state.restore(saved.state) {
            Err(failure) => Err(failure),
            Ok(state) => match execution_model::pair_failure(state, saved.integrator, dimension) {
                Some(failure) => Err(failure),
                None => Ok(
                    ExecutionModel { state, integrator: saved.integrator, ..execution },
                ),
            },
        }
    }
}

/// Restoring the checkpoint of a synchronized execution gives back its state and its
/// integrator exactly, from any execution of the same structure and operator; the log
/// of the restored execution stays.
pub proof fn law_restore_undoes_checkpoint(
    saved: ExecutionModel,
    current: ExecutionModel,
    dimension: nat,
    identity: Seq<char>,
)
    requires
        saved.state.consistent(),
        current.state.consistent(),
        crate::restore_model::same_structure(saved.state, current.state),
        saved.state.phase == TransactionPhase::Committed,
        execution_model::pair_failure(saved.state, saved.integrator, dimension) is None,
    ensures
        checkpointed(saved, dimension, identity) is Ok,
        restored(current, dimension, identity, checkpointed(saved, dimension, identity)->Ok_0)
            == Ok::<ExecutionModel, ErrorModel>(
            ExecutionModel { state: saved.state, integrator: saved.integrator, ..current },
        ),
{
    crate::restore_model::law_restore_undoes_checkpoint(saved.state, current.state);
}

/// A checkpoint of another operator, or of the same operator with other content, is refused.
pub proof fn law_foreign_checkpoint_is_refused(
    saved: ExecutionModel,
    current: ExecutionModel,
    dimension: nat,
    foreign: Seq<char>,
    identity: Seq<char>,
)
    requires
        foreign != identity,
        checkpointed(saved, dimension, foreign) is Ok,
    ensures
        restored(current, dimension, identity, checkpointed(saved, dimension, foreign)->Ok_0)
            == Err::<ExecutionModel, ErrorModel>(
            ErrorModel::InvalidCoupling(
                "checkpoint operator identity `"@ + foreign + "` does not match `"@ + identity
                    + "`"@,
            ),
        ),
{
}

/// Whatever restart data are accepted, the execution they lead to is synchronized, and the
/// log of refused attempts stays as it was.
pub proof fn law_restored_execution_is_synchronized(
    current: ExecutionModel,
    dimension: nat,
    identity: Seq<char>,
    saved: CoupledCheckpointModel,
)
    requires
        current.state.consistent(),
        restored(current, dimension, identity, saved) is Ok,
    ensures
        ({
            let next = restored(current, dimension, identity, saved)->Ok_0;
            &&& next.state.consistent()
            &&& execution_model::pair_failure(next.state, next.integrator, dimension) is None
            &&& next.integrator == saved.integrator
            &&& next.refusals == current.refusals
        }),
{
    crate::restore_model::law_restore_keeps_consistency(current.state, saved.state);
}

/// After any accepted restore the restart data hold the given integrator, time and step, and
/// of each field and slot what was given of it; the log of refused attempts stays. Where
/// nothing was given beyond those fields and slots, the restart data are the given ones:
/// exactly, where they list their entries by name, and in the order of the names otherwise.
pub proof fn law_accepted_restart_data_come_back(
    current: ExecutionModel,
    dimension: nat,
    identity: Seq<char>,
    saved: CoupledCheckpointModel,
)
    requires
        current.state.consistent(),
        restored(current, dimension, identity, saved) is Ok,
    ensures
        ({
            let next = restored(current, dimension, identity, saved)->Ok_0;
            &&& next.refusals == current.refusals
            &&& checkpointed(next, dimension, identity) matches Ok(again) && {
                &&& again.operator_identity == saved.operator_identity
                &&& again.integrator == saved.integrator
                &&& again.state.time == saved.state.time
                &&& again.state.step == saved.state.step
                &&& restore_laws::taken_from(again.state.fields, saved.state.fields)
                &&& restore_laws::taken_from(
                    again.state.field_history,
                    saved.state.field_history,
                )
                &&& restore_laws::taken_from(again.state.constitutive, saved.state.constitutive)
                &&& restore_laws::nothing_beyond(current.state, saved.state) ==> {
                    &&& restore_laws::same_checkpoint(again.state, saved.state)
                    &&& restore_laws::sorted(saved.state) ==> again == saved
                }
            }
        }),
{
    restore_laws::law_accepted_checkpoint_comes_back(current.state, saved.state);
}

/// Whatever execution accepts restart data, it becomes, but for its log, the execution that
/// they were taken of, unless that one's state had fields or slots beyond its own.
pub proof fn law_accepted_restore_gives_the_saved_execution(
    saved: ExecutionModel,
    current: ExecutionModel,
    dimension: nat,
    identity: Seq<char>,
)
    requires
        saved.state.consistent(),
        current.state.consistent(),
        checkpointed(saved, dimension, identity) is Ok,
        restored(
            current,
            dimension,
            identity,
            checkpointed(saved, dimension, identity)->Ok_0,
        ) is Ok,
        restore_laws::same_counts(saved.state, current.state),
    ensures
        restored(current, dimension, identity, checkpointed(saved, dimension, identity)->Ok_0)
            == Ok::<ExecutionModel, ErrorModel>(
            ExecutionModel { state: saved.state, integrator: saved.integrator, ..current },
        ),
{
    restore_laws::law_accepted_restore_gives_the_saved_state(saved.state, current.state);
}

} // verus!
