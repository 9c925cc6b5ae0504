//! What each call is made of: the relation of its arguments and its result.
use crate::binding;
use crate::binding::{SemanticId, StateBinding};
use crate::connected::ConnectedSystemOperator;
use crate::connected_diagonal;
use crate::connected_evaluation;
use crate::connected_evaluation::TraceCalls;
use crate::consistency;
use crate::derivative;
use crate::derivative::{ComparisonTolerance, CrossBlockDerivativeReport, DerivativeContext};
use crate::error::KrasisError;
use crate::evaluation;
use crate::evaluation::SystemCalls;
use crate::event_check;
use crate::event_check::{EventContext, EventStateReport};
use crate::evidence::FinitumVerificationSource;
use crate::execution::{CoupledCheckpoint, CoupledExecution};
use crate::history;
use crate::history::HistoryReport;
use crate::initial;
use crate::initial::{InitialData, NodalContext};
use crate::initialization;
use crate::initialization::RowKind;
use crate::layout;
use crate::layout::{BlockId, StateBlock, StateLayout};
use crate::method::CrossDialectOperator;
use crate::method_evaluation;
use crate::method_evaluation::DialectCalls;
use crate::numeric::{
    BdfState, EvaluationRefusal, NewtonConfig, NewtonReport, NumericError, SolveError,
    StepOutcome,
};
use crate::operator;
use crate::operator::{BlockSpec, CoupledOperator, TransactionalOperator};
use crate::operator_evaluation;
use crate::realization::RealizationPlan;
use crate::reduced_rate;
use crate::refusal::{BdfConfig, VerificationRefusal};
use crate::restart;
use crate::restart::{RestartContext, RestartTrajectoryReport, TrajectoryNorms};
use crate::scalar::Scalar;
use crate::state::SimulationState;
use crate::strategy;
use crate::strategy::{
    BlockStrategy, ComparisonReport, StrategyContext, StrategyRun, StrategyWorkReport,
    WorkBudgetReport, WorkCount,
};
use crate::system::CoupledSystemOperator;
use crate::system_initial;
use crate::trajectory;
use crate::trajectory::CheckContext;
use crate::verification;
use crate::verification::RollbackIdentityReport;
use vstd::prelude::*;

verus! {

/// A composed system's residual is evaluated at the time, state and rate it is asked for.
pub proof fn law_system_residual_call<L, E, A>(
    operator: &CoupledSystemOperator,
    time: Scalar,
    state: &Vec<Scalar>,
    state_rate: &Vec<Scalar>,
    output_length: usize,
    calls: &SystemCalls<L, E, A>,
    result: Result<Vec<Scalar>, NumericError>,
) where
    L: Fn(usize, Scalar, &Vec<Vec<Scalar>>) -> Result<Vec<Scalar>, SolveError>,
    E: Fn(usize, &Vec<Scalar>) -> Result<Vec<Scalar>, SolveError>,
    A: Fn(Scalar, Scalar) -> Scalar,

    requires
        operator.wf(),
        calls.callable(operator@.leaves, operator@.edges),
        call_ensures(
            CoupledSystemOperator::residual::<L, E, A>,
            (operator, time, state, state_rate, output_length, calls),
            result,
        ),
    ensures
        evaluation::residual_given(
            *operator,
            time,
            state@,
            state_rate@,
            output_length as nat,
            *calls,
            result,
        ),
        result matches Ok(values) ==> values@.len() == operator.size(),
{
}

/// A composed system's product is evaluated at the time, state and rate it is asked for, along
/// the directions it is given.
pub proof fn law_system_product_call<L, E, A>(
    operator: &CoupledSystemOperator,
    time: Scalar,
    state: &Vec<Scalar>,
    state_rate: &Vec<Scalar>,
    state_direction: &Vec<Scalar>,
    rate_direction: &Vec<Scalar>,
    output_length: usize,
    calls: &SystemCalls<L, E, A>,
    result: Result<Vec<Scalar>, NumericError>,
) where
    L: Fn(usize, Scalar, &Vec<Vec<Scalar>>) -> Result<Vec<Scalar>, SolveError>,
    E: Fn(usize, &Vec<Scalar>) -> Result<Vec<Scalar>, SolveError>,
    A: Fn(Scalar, Scalar) -> Scalar,

    requires
        operator.wf(),
        calls.callable(operator@.leaves, operator@.edges),
        call_ensures(
            CoupledSystemOperator::jacobian_vector_product::<L, E, A>,
            (
                operator,
                time,
                state,
                state_rate,
                state_direction,
                rate_direction,
                output_length,
                calls,
            ),
            result,
        ),
    ensures
        evaluation::product_given(
            *operator,
            time,
            state@,
            state_rate@,
            state_direction@,
            rate_direction@,
            output_length as nat,
            *calls,
            result,
        ),
        result matches Ok(values) ==> values@.len() == operator.size(),
{
}

/// A composed system's steady residual is its residual at time zero and at rest.
pub proof fn law_system_steady_residual_call<L, E, A>(
    operator: &CoupledSystemOperator,
    state: &Vec<Scalar>,
    output_length: usize,
    calls: &SystemCalls<L, E, A>,
    result: Result<Vec<Scalar>, NumericError>,
) where
    L: Fn(usize, Scalar, &Vec<Vec<Scalar>>) -> Result<Vec<Scalar>, SolveError>,
    E: Fn(usize, &Vec<Scalar>) -> Result<Vec<Scalar>, SolveError>,
    A: Fn(Scalar, Scalar) -> Scalar,

    requires
        operator.wf(),
        calls.callable(operator@.leaves, operator@.edges),
        call_ensures(
            CoupledSystemOperator::steady_residual::<L, E, A>,
            (operator, state, output_length, calls),
            result,
        ),
    ensures
        evaluation::residual_given(
            *operator,
            Scalar::nil(),
            state@,
            evaluation::still(operator.size()),
            output_length as nat,
            *calls,
            result,
        ),
        result matches Ok(values) ==> values@.len() == operator.size(),
{
}

/// A composed system's steady product is its product at time zero and at rest, along the
/// direction with the rate held.
pub proof fn law_system_steady_product_call<L, E, A>(
    operator: &CoupledSystemOperator,
    state: &Vec<Scalar>,
    direction: &Vec<Scalar>,
    output_length: usize,
    calls: &SystemCalls<L, E, A>,
    result: Result<Vec<Scalar>, NumericError>,
) where
    L: Fn(usize, Scalar, &Vec<Vec<Scalar>>) -> Result<Vec<Scalar>, SolveError>,
    E: Fn(usize, &Vec<Scalar>) -> Result<Vec<Scalar>, SolveError>,
    A: Fn(Scalar, Scalar) -> Scalar,

    requires
        operator.wf(),
        calls.callable(operator@.leaves, operator@.edges),
        call_ensures(
            CoupledSystemOperator::steady_jacobian_vector_product::<L, E, A>,
            (operator, state, direction, output_length, calls),
            result,
        ),
    ensures
        evaluation::product_given(
            *operator,
            Scalar::nil(),
            state@,
            evaluation::still(operator.size()),
            direction@,
            evaluation::still(operator.size()),
            output_length as nat,
            *calls,
            result,
        ),
        result matches Ok(values) ==> values@.len() == operator.size(),
{
}

/// A connected system's residual is evaluated at the time, state and rate it is asked for.
pub proof fn law_connected_residual_call<X, H, Q, D, I, L, E, A>(
    operator: &ConnectedSystemOperator,
    time: Scalar,
    state: &Vec<Scalar>,
    state_rate: &Vec<Scalar>,
    output_length: usize,
    calls: &SystemCalls<L, E, A>,
    traces: &TraceCalls<X, H, Q, D, I>,
    result: Result<Vec<Scalar>, NumericError>,
) where
    X: Fn(&Vec<Scalar>) -> Result<Vec<Scalar>, String>,
    H: Fn(&Vec<Scalar>) -> Result<Vec<Scalar>, String>,
    Q: Fn(&Vec<Scalar>) -> Result<Vec<Scalar>, String>,
    D: Fn(Scalar, Scalar) -> Scalar,
    I: Fn(&str) -> String,
    L: Fn(usize, Scalar, &Vec<Vec<Scalar>>) -> Result<Vec<Scalar>, SolveError>,
    E: Fn(usize, &Vec<Scalar>) -> Result<Vec<Scalar>, SolveError>,
    A: Fn(Scalar, Scalar) -> Scalar,

    requires
        operator.wf(),
        calls.callable(operator.system()@.leaves, operator.system()@.edges),
        traces.callable(operator.size()),
        call_ensures(
            ConnectedSystemOperator::residual::<X, H, Q, D, I, L, E, A>,
            (operator, time, state, state_rate, output_length, calls, traces),
            result,
        ),
    ensures
        connected_evaluation::connected_residual(
            *operator,
            time,
            *state,
            *state_rate,
            output_length as nat,
            *calls,
            *traces,
            result,
        ),
        result matches Ok(values) ==> values@.len() == output_length,
{
}

/// A connected system's product is evaluated at the time, state and rate it is asked for,
/// along the directions it is given.
pub proof fn law_connected_product_call<X, H, Q, D, I, L, E, A>(
    operator: &ConnectedSystemOperator,
    time: Scalar,
    state: &Vec<Scalar>,
    state_rate: &Vec<Scalar>,
    state_direction: &Vec<Scalar>,
    rate_direction: &Vec<Scalar>,
    output_length: usize,
    calls: &SystemCalls<L, E, A>,
    traces: &TraceCalls<X, H, Q, D, I>,
    result: Result<Vec<Scalar>, NumericError>,
) where
    X: Fn(&Vec<Scalar>) -> Result<Vec<Scalar>, String>,
    H: Fn(&Vec<Scalar>) -> Result<Vec<Scalar>, String>,
    Q: Fn(&Vec<Scalar>) -> Result<Vec<Scalar>, String>,
    D: Fn(Scalar, Scalar) -> Scalar,
    I: Fn(&str) -> String,
    L: Fn(usize, Scalar, &Vec<Vec<Scalar>>) -> Result<Vec<Scalar>, SolveError>,
    E: Fn(usize, &Vec<Scalar>) -> Result<Vec<Scalar>, SolveError>,
    A: Fn(Scalar, Scalar) -> Scalar,

    requires
        operator.wf(),
        calls.callable(operator.system()@.leaves, operator.system()@.edges),
        traces.callable(operator.size()),
        call_ensures(
            ConnectedSystemOperator::jacobian_vector_product::<X, H, Q, D, I, L, E, A>,
            (
                operator,
                time,
                state,
                state_rate,
                state_direction,
                rate_direction,
                output_length,
                calls,
                traces,
            ),
            result,
        ),
    ensures
        connected_evaluation::connected_product(
            *operator,
            time,
            *state,
            *state_rate,
            *state_direction,
            *rate_direction,
            output_length as nat,
            *calls,
            *traces,
            result,
        ),
        result matches Ok(values) ==> values@.len() == output_length,
{
}

/// A connected system's diagonal is taken at the time, state, rate and shift it is asked for.
pub proof fn law_connected_diagonal_call<X, H, Q, D, I, G>(
    operator: &ConnectedSystemOperator,
    time: Scalar,
    state: &Vec<Scalar>,
    state_rate: &Vec<Scalar>,
    rate_shift: Scalar,
    local: &G,
    traces: &TraceCalls<X, H, Q, D, I>,
    result: Result<Option<Vec<Scalar>>, NumericError>,
) where
    X: Fn(&Vec<Scalar>) -> Result<Vec<Scalar>, String>,
    H: Fn(&Vec<Scalar>) -> Result<Vec<Scalar>, String>,
    Q: Fn(&Vec<Scalar>) -> Result<Vec<Scalar>, String>,
    D: Fn(Scalar, Scalar) -> Scalar,
    I: Fn(&str) -> String,
    G: Fn(usize, Scalar, &Vec<Vec<Scalar>>, Scalar) -> Result<Option<Vec<Scalar>>, SolveError>,

    requires
        operator.wf(),
        traces.callable(operator.size()),
        forall|index: usize, at: Scalar, parts: &Vec<Vec<Scalar>>, shift: Scalar|
            call_requires(*local, (index, at, parts, shift)),
        call_ensures(
            ConnectedSystemOperator::jacobian_diagonal::<X, H, Q, D, I, G>,
            (operator, time, state, state_rate, rate_shift, local, traces),
            result,
        ),
    ensures
        connected_diagonal::connected_diagonal(
            *operator,
            time,
            *state,
            *state_rate,
            rate_shift,
            *local,
            *traces,
            result,
        ),
{
}

/// A pair's residual is evaluated at the time, state and rate it is asked for.
pub proof fn law_pair_residual_call<L, P, A>(
    operator: &CrossDialectOperator,
    time: Scalar,
    state: &Vec<Scalar>,
    state_rate: &Vec<Scalar>,
    output_length: usize,
    calls: &DialectCalls<L, P, A>,
    result: Result<Vec<Scalar>, NumericError>,
) where
    L: Fn(usize, Scalar, &Vec<Vec<Scalar>>) -> Result<Vec<Scalar>, SolveError>,
    P: Fn(&Vec<Scalar>, &Vec<Scalar>) -> Scalar,
    A: Fn(Scalar, Scalar) -> Scalar,

    requires
        operator.wf(),
        calls.callable(operator.left_part().dimension, operator.right_part().dimension),
        call_ensures(
            CrossDialectOperator::residual::<L, P, A>,
            (operator, time, state, state_rate, output_length, calls),
            result,
        ),
    ensures
        method_evaluation::dialect_residual(
            *operator,
            time,
            state@,
            state_rate@,
            output_length as nat,
            *calls,
            result,
        ),
        result matches Ok(values) ==> values@.len() == operator.size(),
{
}

/// A pair's product is evaluated at the time, state and rate it is asked for, along the
/// directions it is given.
pub proof fn law_pair_product_call<L, P, A>(
    operator: &CrossDialectOperator,
    time: Scalar,
    state: &Vec<Scalar>,
    state_rate: &Vec<Scalar>,
    state_direction: &Vec<Scalar>,
    rate_direction: &Vec<Scalar>,
    output_length: usize,
    calls: &DialectCalls<L, P, A>,
    result: Result<Vec<Scalar>, NumericError>,
) where
    L: Fn(usize, Scalar, &Vec<Vec<Scalar>>) -> Result<Vec<Scalar>, SolveError>,
    P: Fn(&Vec<Scalar>, &Vec<Scalar>) -> Scalar,
    A: Fn(Scalar, Scalar) -> Scalar,

    requires
        operator.wf(),
        calls.callable(operator.left_part().dimension, operator.right_part().dimension),
        call_ensures(
            CrossDialectOperator::jacobian_vector_product::<L, P, A>,
            (
                operator,
                time,
                state,
                state_rate,
                state_direction,
                rate_direction,
                output_length,
                calls,
            ),
            result,
        ),
    ensures
        method_evaluation::dialect_product(
            *operator,
            time,
            state@,
            state_rate@,
            state_direction@,
            rate_direction@,
            output_length as nat,
            *calls,
            result,
        ),
        result matches Ok(values) ==> values@.len() == operator.size(),
{
}

/// A pair's steady residual is its residual at time zero and at rest.
pub proof fn law_pair_steady_residual_call<L, P, A>(
    operator: &CrossDialectOperator,
    state: &Vec<Scalar>,
    output_length: usize,
    calls: &DialectCalls<L, P, A>,
    result: Result<Vec<Scalar>, NumericError>,
) where
    L: Fn(usize, Scalar, &Vec<Vec<Scalar>>) -> Result<Vec<Scalar>, SolveError>,
    P: Fn(&Vec<Scalar>, &Vec<Scalar>) -> Scalar,
    A: Fn(Scalar, Scalar) -> Scalar,

    requires
        operator.wf(),
        calls.callable(operator.left_part().dimension, operator.right_part().dimension),
        call_ensures(
            CrossDialectOperator::steady_residual::<L, P, A>,
            (operator, state, output_length, calls),
            result,
        ),
    ensures
        method_evaluation::dialect_residual(
            *operator,
            Scalar::nil(),
            state@,
            evaluation::still(operator.size()),
            output_length as nat,
            *calls,
            result,
        ),
        result matches Ok(values) ==> values@.len() == operator.size(),
{
}

/// A pair's steady product is its product at time zero and at rest, along the direction with
/// the rate held.
pub proof fn law_pair_steady_product_call<L, P, A>(
    operator: &CrossDialectOperator,
    state: &Vec<Scalar>,
    direction: &Vec<Scalar>,
    output_length: usize,
    calls: &DialectCalls<L, P, A>,
    result: Result<Vec<Scalar>, NumericError>,
) where
    L: Fn(usize, Scalar, &Vec<Vec<Scalar>>) -> Result<Vec<Scalar>, SolveError>,
    P: Fn(&Vec<Scalar>, &Vec<Scalar>) -> Scalar,
    A: Fn(Scalar, Scalar) -> Scalar,

    requires
        operator.wf(),
        calls.callable(operator.left_part().dimension, operator.right_part().dimension),
        call_ensures(
            CrossDialectOperator::steady_jacobian_vector_product::<L, P, A>,
            (operator, state, direction, output_length, calls),
            result,
        ),
    ensures
        method_evaluation::dialect_product(
            *operator,
            Scalar::nil(),
            state@,
            evaluation::still(operator.size()),
            direction@,
            evaluation::still(operator.size()),
            output_length as nat,
            *calls,
            result,
        ),
        result matches Ok(values) ==> values@.len() == operator.size(),
{
}

/// A realization's residual is evaluated at the time, state and rate it is asked for.
pub proof fn law_realization_residual_call<F>(
    operator: &CoupledOperator,
    time: Scalar,
    state: &Vec<Scalar>,
    state_rate: &Vec<Scalar>,
    call: &F,
    result: Result<Vec<Scalar>, NumericError>,
) where
    F: Fn(Scalar, &Vec<Scalar>, &Vec<Scalar>) -> Result<Vec<Scalar>, SolveError>,

    requires
        call_requires(*call, (time, state, state_rate)),
        call_ensures(
            CoupledOperator::residual::<F>,
            (operator, time, state, state_rate, call),
            result,
        ),
    ensures
        operator_evaluation::residual_taken(*call, time, *state, *state_rate, result),
{
}

/// A realization's product is evaluated at the time, state and rate it is asked for, along
/// the directions it is given.
pub proof fn law_realization_product_call<F>(
    operator: &CoupledOperator,
    time: Scalar,
    state: &Vec<Scalar>,
    state_rate: &Vec<Scalar>,
    state_direction: &Vec<Scalar>,
    rate_direction: &Vec<Scalar>,
    call: &F,
    result: Result<Vec<Scalar>, NumericError>,
) where
    F: Fn(Scalar, &Vec<Scalar>, &Vec<Scalar>, &Vec<Scalar>, &Vec<Scalar>) -> Result<
        Vec<Scalar>,
        SolveError,
    >,

    requires
        call_requires(*call, (time, state, state_rate, state_direction, rate_direction)),
        call_ensures(
            CoupledOperator::jacobian_vector_product::<F>,
            (operator, time, state, state_rate, state_direction, rate_direction, call),
            result,
        ),
    ensures
        operator_evaluation::product_taken(
            *call,
            time,
            *state,
            *state_rate,
            *state_direction,
            *rate_direction,
            result,
        ),
{
}

/// A strategy check is made of the blocks, state, configuration and tolerance it is given.
pub proof fn law_strategy_check_call<X, W, C, L, F, B, G, S>(
    blocks: &Vec<BlockSpec>,
    operator_identity: &str,
    initial_state: &Vec<Scalar>,
    config: &NewtonConfig,
    tolerance: ComparisonTolerance,
    tolerance_valid: Result<(), SolveError>,
    calls: &StrategyContext<X, W, C, L, F, B, G, S>,
    result: Result<StrategyWorkReport, VerificationRefusal>,
) where
    C: Fn(&X, &Vec<Scalar>, &NewtonConfig, ComparisonTolerance, &W) -> Result<
        Vec<u8>,
        String,
    >,
    L: Fn(&Vec<BlockSpec>) -> Result<Vec<u8>, String>,
    F: Fn(&X, &Vec<Scalar>, BlockStrategy, &NewtonConfig) -> StrategyRun,
    B: Fn(WorkCount, &W) -> WorkBudgetReport,
    G: Fn(&Vec<Scalar>, &Vec<Scalar>, ComparisonTolerance) -> Result<ComparisonReport, SolveError>,
    S: Fn(&StrategyWorkReport) -> Result<Vec<u8>, String>,

    requires
        calls.callable(),
        call_ensures(
            strategy::check_strategy_work::<X, W, C, L, F, B, G, S>,
            (
                blocks,
                operator_identity,
                initial_state,
                config,
                tolerance,
                tolerance_valid,
                calls,
            ),
            result,
        ),
    ensures
        strategy::strategy_checked(
            *blocks,
            operator_identity@,
            *initial_state,
            *config,
            tolerance,
            tolerance_valid,
            *calls,
            result,
        ),
{
}

/// A derivative check is made of the blocks, state, direction, steps and tolerance it is given.
pub proof fn law_derivative_check_call<X, C, L, J, P, T, S>(
    blocks: &Vec<BlockSpec>,
    operator_identity: &str,
    state: &Vec<Scalar>,
    direction: &Vec<Scalar>,
    steps: &Vec<Scalar>,
    tolerance: ComparisonTolerance,
    tolerance_valid: Result<(), SolveError>,
    calls: &DerivativeContext<X, C, L, J, P, T, S>,
    result: Result<CrossBlockDerivativeReport, VerificationRefusal>,
) where
    C: Fn(
        &X,
        &Vec<Scalar>,
        &Vec<Scalar>,
        &Vec<Scalar>,
        ComparisonTolerance,
    ) -> Result<Vec<u8>, String>,
    L: Fn(&Vec<BlockSpec>) -> Result<Vec<u8>, String>,
    J: Fn(&X, &Vec<Scalar>, &Vec<Scalar>) -> Result<Vec<Scalar>, SolveError>,
    P: Fn(&X, &Vec<Scalar>, &Vec<Scalar>, usize, Scalar, &Vec<Scalar>) -> Result<
        Vec<Scalar>,
        SolveError,
    >,
    T: Fn(ComparisonTolerance, Scalar) -> Scalar,
    S: Fn(&CrossBlockDerivativeReport) -> Result<Vec<u8>, String>,

    requires
        derivative::block_start(blocks@, blocks@.len() as int) <= usize::MAX,
        calls.callable(derivative::block_start(blocks@, blocks@.len() as int)),
        call_ensures(
            derivative::check_cross_block_derivatives::<X, C, L, J, P, T, S>,
            (
                blocks,
                operator_identity,
                state,
                direction,
                steps,
                tolerance,
                tolerance_valid,
                calls,
            ),
            result,
        ),
    ensures
        derivative::derivative_checked(
            *blocks,
            operator_identity@,
            *state,
            *direction,
            *steps,
            tolerance,
            tolerance_valid,
            *calls,
            result,
        ),
{
}

/// A rollback check is made of the execution, step and configuration it is given.
pub proof fn law_rollback_check_call<Op, X, C, V, A, E, S, R>(
    execution: &CoupledExecution<Op>,
    evaluation: &X,
    step: Scalar,
    config: &BdfConfig,
    describe: &C,
    source: &FinitumVerificationSource,
    context: &CheckContext<V, E, R>,
    attempt: &A,
    seal: S,
    result: Result<RollbackIdentityReport, VerificationRefusal>,
) where
    Op: TransactionalOperator,
    C: Fn(&X, Scalar, &BdfConfig) -> Result<Vec<u8>, String>,
    V: Fn(usize, usize) -> Result<bool, String>,
    A: Fn(&X, BdfState, Scalar, &BdfConfig) -> Result<StepOutcome, SolveError>,
    E: Fn(&CoupledCheckpoint) -> Result<Vec<u8>, String>,
    S: FnOnce(&RollbackIdentityReport) -> Result<Vec<u8>, String>,
    R: Fn(Scalar) -> String,

    requires
        execution.wf(),
        context.callable(),
        call_requires(*describe, (evaluation, step, config)),
        forall|integrator: BdfState|
            call_requires(*attempt, (evaluation, integrator, step, config)),
        forall|report: &RollbackIdentityReport| call_requires(seal, (report,)),
        call_ensures(
            verification::check_rollback_identity::<Op, X, C, V, A, E, S, R>,
            (execution, evaluation, step, config, describe, source, context, attempt, seal),
            result,
        ),
    ensures
        verification::rollback_checked(
            trajectory::subject_of(*execution),
            *evaluation,
            step,
            *config,
            *describe,
            source@,
            *context,
            *attempt,
            seal,
            result,
        ),
{
}

/// A history check is made of the execution, step, count and configurations it is given.
pub proof fn law_history_check_call<Op, X, C, V, A, E, S, R>(
    execution: &CoupledExecution<Op>,
    evaluation: &X,
    step: Scalar,
    accepted_steps: usize,
    accepted_config: &BdfConfig,
    rejection_config: &BdfConfig,
    describe: &C,
    source: &FinitumVerificationSource,
    context: &CheckContext<V, E, R>,
    attempt: &A,
    seal: S,
    result: Result<HistoryReport, VerificationRefusal>,
) where
    Op: TransactionalOperator,
    C: Fn(&X, Scalar, usize, &BdfConfig, &BdfConfig) -> Result<Vec<u8>, String>,
    V: Fn(usize, usize) -> Result<bool, String>,
    A: Fn(&X, BdfState, Scalar, &BdfConfig) -> Result<StepOutcome, SolveError>,
    E: Fn(&CoupledCheckpoint) -> Result<Vec<u8>, String>,
    S: FnOnce(&HistoryReport) -> Result<Vec<u8>, String>,
    R: Fn(Scalar) -> String,

    requires
        execution.wf(),
        context.callable(),
        call_requires(
            *describe,
            (evaluation, step, accepted_steps, accepted_config, rejection_config),
        ),
        forall|integrator: BdfState|
            call_requires(*attempt, (evaluation, integrator, step, accepted_config)),
        forall|integrator: BdfState|
            call_requires(*attempt, (evaluation, integrator, step, rejection_config)),
        forall|report: &HistoryReport| call_requires(seal, (report,)),
        call_ensures(
            history::check_history_and_rejection::<Op, X, C, V, A, E, S, R>,
            (
                execution,
                evaluation,
                step,
                accepted_steps,
                accepted_config,
                rejection_config,
                describe,
                source,
                context,
                attempt,
                seal,
            ),
            result,
        ),
    ensures
        history::history_checked(
            trajectory::subject_of(*execution),
            *evaluation,
            step,
            accepted_steps,
            *accepted_config,
            *rejection_config,
            *describe,
            source@,
            *context,
            *attempt,
            seal,
            result,
        ),
{
}

/// A restart check is made of the execution, step, counts and configuration it is given.
pub proof fn law_restart_check_call<Op, X, C, V, A, E, R, D, N, S>(
    execution: &CoupledExecution<Op>,
    evaluation: &X,
    step: Scalar,
    total_steps: usize,
    split_after_steps: usize,
    config: &BdfConfig,
    describe: &C,
    source: &FinitumVerificationSource,
    context: &CheckContext<V, E, R>,
    attempt: &A,
    calls: &RestartContext<D, N, S>,
    result: Result<RestartTrajectoryReport, VerificationRefusal>,
) where
    Op: TransactionalOperator,
    C: Fn(&X, Scalar, usize, usize, &BdfConfig) -> Result<Vec<u8>, String>,
    V: Fn(usize, usize) -> Result<bool, String>,
    A: Fn(&X, BdfState, Scalar, &BdfConfig) -> Result<StepOutcome, SolveError>,
    E: Fn(&CoupledCheckpoint) -> Result<Vec<u8>, String>,
    R: Fn(Scalar) -> String,
    D: Fn(&Vec<u8>) -> Result<CoupledCheckpoint, String>,
    N: Fn(Scalar, Scalar, &Vec<Vec<Scalar>>, &Vec<Vec<Scalar>>) -> Result<TrajectoryNorms, String>,
    S: Fn(&RestartTrajectoryReport) -> Result<Vec<u8>, String>,

    requires
        execution.wf(),
        context.callable(),
        calls.callable(),
        call_requires(
            *describe,
            (evaluation, step, total_steps, split_after_steps, config),
        ),
        forall|integrator: BdfState|
            call_requires(*attempt, (evaluation, integrator, step, config)),
        call_ensures(
            restart::check_restart_trajectory::<Op, X, C, V, A, E, R, D, N, S>,
            (
                execution,
                evaluation,
                step,
                total_steps,
                split_after_steps,
                config,
                describe,
                source,
                context,
                attempt,
                calls,
            ),
            result,
        ),
    ensures
        restart::restart_checked(
            trajectory::subject_of(*execution),
            *evaluation,
            step,
            total_steps,
            split_after_steps,
            *config,
            *describe,
            source@,
            *context,
            *attempt,
            *calls,
            result,
        ),
{
}

/// An event check is made of the state, step and configuration it is given.
pub proof fn law_event_check_call<X, C, E, A, S>(
    dimension: usize,
    operator_identity: &str,
    state: BdfState,
    step: Scalar,
    config: &BdfConfig,
    calls: &EventContext<X, C, E, A, S>,
    result: Result<EventStateReport, VerificationRefusal>,
) where
    C: Fn(&X, &BdfState, Scalar, &BdfConfig) -> Result<Vec<u8>, String>,
    E: Fn(&BdfState) -> Result<Vec<u8>, String>,
    A: Fn(&X, &BdfState, Scalar, &BdfConfig) -> Result<StepOutcome, String>,
    S: Fn(&EventStateReport) -> Result<Vec<u8>, String>,

    requires
        calls.callable(),
        call_ensures(
            event_check::check_event_state_from::<X, C, E, A, S>,
            (dimension, operator_identity, state, step, config, calls),
            result,
        ),
    ensures
        event_check::event_checked(
            state,
            dimension as nat,
            operator_identity@,
            step,
            *config,
            *calls,
            result,
        ),
{
}

/// An event check from initial values is made of the time and values it is given.
pub proof fn law_initial_event_check_call<I, X, C, E, A, S>(
    dimension: usize,
    operator_identity: &str,
    initial_time: Scalar,
    initial_values: Vec<Scalar>,
    step: Scalar,
    config: &BdfConfig,
    initialize: I,
    calls: &EventContext<X, C, E, A, S>,
    result: Result<EventStateReport, VerificationRefusal>,
) where
    I: FnOnce(&X, Scalar, Vec<Scalar>) -> Result<BdfState, SolveError>,
    C: Fn(&X, &BdfState, Scalar, &BdfConfig) -> Result<Vec<u8>, String>,
    E: Fn(&BdfState) -> Result<Vec<u8>, String>,
    A: Fn(&X, &BdfState, Scalar, &BdfConfig) -> Result<StepOutcome, String>,
    S: Fn(&EventStateReport) -> Result<Vec<u8>, String>,

    requires
        calls.callable(),
        forall|time: Scalar, values: Vec<Scalar>|
            call_requires(initialize, (&calls.evaluation, time, values)),
        call_ensures(
            event_check::check_event_state::<I, X, C, E, A, S>,
            (
                dimension,
                operator_identity,
                initial_time,
                initial_values,
                step,
                config,
                initialize,
                calls,
            ),
            result,
        ),
    ensures
        event_check::initial_event_checked(
            dimension as nat,
            operator_identity@,
            initial_time,
            initial_values,
            step,
            *config,
            initialize,
            *calls,
            result,
        ),
{
}

/// A rate solve is made over the mask, configuration, time and state it is given.
pub proof fn law_rate_solve_call<S, R, T>(
    dimension: usize,
    mask: &Vec<RowKind>,
    newton: &NewtonConfig,
    time: Scalar,
    state: &Vec<Scalar>,
    solve: S,
    residual: R,
    render: &T,
    result: Result<Vec<Scalar>, KrasisError>,
) where
    S: FnOnce(&NewtonConfig, Scalar, &Vec<Scalar>, Vec<usize>, Vec<Scalar>) -> Result<
        NewtonReport,
        SolveError,
    >,
    R: FnOnce(Scalar, &Vec<Scalar>, Vec<Scalar>) -> Result<Vec<Scalar>, SolveError>,
    T: Fn(Scalar) -> String,

    requires
        forall|
            newton: &NewtonConfig,
            time: Scalar,
            state: &Vec<Scalar>,
            rows: Vec<usize>,
            guess: Vec<Scalar>,
        |
            call_requires(solve, (newton, time, state, rows, guess)),
        forall|
            newton: &NewtonConfig,
            time: Scalar,
            state: &Vec<Scalar>,
            rows: Vec<usize>,
            guess: Vec<Scalar>,
            report: Result<NewtonReport, SolveError>,
        |
            #[trigger] call_ensures(solve, (newton, time, state, rows, guess), report) && report is Ok
                ==> report->Ok_0.state@.len() == rows@.len(),
        forall|time: Scalar, state: &Vec<Scalar>, rate: Vec<Scalar>|
            call_requires(residual, (time, state, rate)),
        forall|
            time: Scalar,
            state: &Vec<Scalar>,
            rate: Vec<Scalar>,
            value: Result<Vec<Scalar>, SolveError>,
        |
            #[trigger] call_ensures(residual, (time, state, rate), value) && value is Ok
                ==> value->Ok_0@.len() == dimension,
        forall|value: Scalar| call_requires(*render, (value,)),
        call_ensures(
            initialization::solve_consistent_state_rate_for::<S, R, T>,
            (dimension, mask, newton, time, state, solve, residual, render),
            result,
        ),
    ensures
        initialization::rate_solved(
            dimension as nat,
            mask@,
            *newton,
            time,
            *state,
            solve,
            residual,
            *render,
            result,
        ),
{
}

/// A reduced residual is taken in the rows and at the rates it is given.
pub proof fn law_reduced_residual_call<R>(
    rows: &Vec<usize>,
    dimension: usize,
    rate: &Vec<Scalar>,
    residual: &R,
    result: Result<Vec<Scalar>, SolveError>,
) where
    R: Fn(&Vec<Scalar>) -> Result<Vec<Scalar>, SolveError>,

    requires
        reduced_rate::rows_within(rows@, dimension as int),
        rate@.len() == rows@.len(),
        forall|full: &Vec<Scalar>| call_requires(*residual, (full,)),
        forall|full: &Vec<Scalar>, value: Result<Vec<Scalar>, SolveError>|
            #[trigger] call_ensures(*residual, (full,), value) && value is Ok
                ==> value->Ok_0@.len() == dimension,
        call_ensures(
            reduced_rate::reduced_rate_residual::<R>,
            (rows, dimension, rate, residual),
            result,
        ),
    ensures
        reduced_rate::rate_residual(rows@, dimension as int, rate@, *residual, result),
{
}

/// A reduced product is taken in the rows, at the rates and along the direction it is given.
pub proof fn law_reduced_product_call<P>(
    rows: &Vec<usize>,
    dimension: usize,
    rate: &Vec<Scalar>,
    direction: &Vec<Scalar>,
    product: &P,
    result: Result<Vec<Scalar>, SolveError>,
) where
    P: Fn(&Vec<Scalar>, &Vec<Scalar>, &Vec<Scalar>) -> Result<Vec<Scalar>, SolveError>,

    requires
        reduced_rate::rows_within(rows@, dimension as int),
        rate@.len() == rows@.len(),
        direction@.len() == rows@.len(),
        forall|full: &Vec<Scalar>, still: &Vec<Scalar>, along: &Vec<Scalar>|
            call_requires(*product, (full, still, along)),
        forall|
            full: &Vec<Scalar>,
            still: &Vec<Scalar>,
            along: &Vec<Scalar>,
            value: Result<Vec<Scalar>, SolveError>,
        |
            #[trigger] call_ensures(*product, (full, still, along), value) && value is Ok
                ==> value->Ok_0@.len() == dimension,
        call_ensures(
            reduced_rate::reduced_rate_product::<P>,
            (rows, dimension, rate, direction, product),
            result,
        ),
    ensures
        reduced_rate::rate_product(rows@, dimension as int, rate@, direction@, *product, result),
{
}

/// An operator's rate solve is made over its recorded mask, at the time and state it is given.
pub proof fn law_operator_rate_solve_call<S, R, T>(
    operator: &CoupledOperator,
    time: Scalar,
    state: &Vec<Scalar>,
    solve: S,
    residual: R,
    render: &T,
    result: Result<Vec<Scalar>, KrasisError>,
) where
    S: FnOnce(&NewtonConfig, Scalar, &Vec<Scalar>, Vec<usize>, Vec<Scalar>) -> Result<
        NewtonReport,
        SolveError,
    >,
    R: FnOnce(Scalar, &Vec<Scalar>, Vec<Scalar>) -> Result<Vec<Scalar>, SolveError>,
    T: Fn(Scalar) -> String,

    requires
        operator.wf(),
        consistency::rate_calls(solve, residual, *render, operator.size()),
        call_ensures(
            CoupledOperator::solve_consistent_state_rate::<S, R, T>,
            (operator, time, state, solve, residual, render),
            result,
        ),
    ensures
        consistency::recorded_rate_solved(
            operator.initialization(),
            operator.size(),
            time,
            *state,
            solve,
            residual,
            *render,
            result,
        ),
{
}

/// An operator checks the initial time and state it is given against its recorded mask.
pub proof fn law_operator_initial_state_call<S, R, T>(
    operator: &CoupledOperator,
    time: Scalar,
    state: &Vec<Scalar>,
    solve: S,
    residual: R,
    render: &T,
    result: Result<(), NumericError>,
) where
    S: FnOnce(&NewtonConfig, Scalar, &Vec<Scalar>, Vec<usize>, Vec<Scalar>) -> Result<
        NewtonReport,
        SolveError,
    >,
    R: FnOnce(Scalar, &Vec<Scalar>, Vec<Scalar>) -> Result<Vec<Scalar>, SolveError>,
    T: Fn(Scalar) -> String,

    requires
        operator.wf(),
        consistency::rate_calls(solve, residual, *render, operator.size()),
        call_ensures(
            CoupledOperator::make_initial_state_consistent::<S, R, T>,
            (operator, time, state, solve, residual, render),
            result,
        ),
    ensures
        initialization::initial_state_checked(
            operator.initialization(),
            operator.size(),
            time,
            *state,
            solve,
            residual,
            *render,
            result,
        ),
{
}

/// A system's rate solve is made over its recorded mask, at the time and state it is given.
pub proof fn law_system_rate_solve_call<S, R, T>(
    operator: &CoupledSystemOperator,
    time: Scalar,
    state: &Vec<Scalar>,
    solve: S,
    residual: R,
    render: &T,
    result: Result<Vec<Scalar>, KrasisError>,
) where
    S: FnOnce(&NewtonConfig, Scalar, &Vec<Scalar>, Vec<usize>, Vec<Scalar>) -> Result<
        NewtonReport,
        SolveError,
    >,
    R: FnOnce(Scalar, &Vec<Scalar>, Vec<Scalar>) -> Result<Vec<Scalar>, SolveError>,
    T: Fn(Scalar) -> String,

    requires
        operator.wf(),
        consistency::rate_calls(solve, residual, *render, operator.size()),
        call_ensures(
            CoupledSystemOperator::solve_consistent_state_rate::<S, R, T>,
            (operator, time, state, solve, residual, render),
            result,
        ),
    ensures
        consistency::recorded_rate_solved(
            operator.initialization(),
            operator.size(),
            time,
            *state,
            solve,
            residual,
            *render,
            result,
        ),
{
}

/// A system checks the initial time and state it is given against its recorded mask.
pub proof fn law_system_initial_state_call<S, R, T>(
    operator: &CoupledSystemOperator,
    time: Scalar,
    state: &Vec<Scalar>,
    solve: S,
    residual: R,
    render: &T,
    result: Result<(), NumericError>,
) where
    S: FnOnce(&NewtonConfig, Scalar, &Vec<Scalar>, Vec<usize>, Vec<Scalar>) -> Result<
        NewtonReport,
        SolveError,
    >,
    R: FnOnce(Scalar, &Vec<Scalar>, Vec<Scalar>) -> Result<Vec<Scalar>, SolveError>,
    T: Fn(Scalar) -> String,

    requires
        operator.wf(),
        consistency::rate_calls(solve, residual, *render, operator.size()),
        call_ensures(
            CoupledSystemOperator::make_initial_state_consistent::<S, R, T>,
            (operator, time, state, solve, residual, render),
            result,
        ),
    ensures
        initialization::initial_state_checked(
            operator.initialization(),
            operator.size(),
            time,
            *state,
            solve,
            residual,
            *render,
            result,
        ),
{
}

/// A connected system checks the initial time and state it is given against its recorded mask.
pub proof fn law_connected_initial_state_call<S, R, T>(
    operator: &ConnectedSystemOperator,
    time: Scalar,
    state: &Vec<Scalar>,
    solve: S,
    residual: R,
    render: &T,
    result: Result<(), NumericError>,
) where
    S: FnOnce(&NewtonConfig, Scalar, &Vec<Scalar>, Vec<usize>, Vec<Scalar>) -> Result<
        NewtonReport,
        SolveError,
    >,
    R: FnOnce(Scalar, &Vec<Scalar>, Vec<Scalar>) -> Result<Vec<Scalar>, SolveError>,
    T: Fn(Scalar) -> String,

    requires
        operator.wf(),
        consistency::rate_calls(solve, residual, *render, operator.size()),
        call_ensures(
            ConnectedSystemOperator::make_initial_state_consistent::<S, R, T>,
            (operator, time, state, solve, residual, render),
            result,
        ),
    ensures
        initialization::initial_state_checked(
            operator.initialization(),
            operator.size(),
            time,
            *state,
            solve,
            residual,
            *render,
            result,
        ),
{
}

/// A system projects the data it is given onto a state of the history limit it is given.
pub proof fn law_system_projection_call<S, T>(
    operator: &CoupledSystemOperator,
    history_limit: usize,
    data: &InitialData<S, T>,
    result: Result<SimulationState, KrasisError>,
) where
    S: Fn(&str, &Vec<Scalar>, Scalar) -> Result<Vec<Scalar>, EvaluationRefusal>,
    T: Fn(Scalar) -> String,

    requires
        operator.wf(),
        data.callable(),
        call_ensures(
            CoupledSystemOperator::initial_state_from::<S, T>,
            (operator, history_limit, data),
            result,
        ),
    ensures
        system_initial::system_state_given(*data, *operator, history_limit as nat, result),
{
}

/// Initial data are projected onto the layout, points and history limit they are given with.
pub proof fn law_projection_call<S, T>(
    layout: &StateLayout,
    nodal: &NodalContext<'_>,
    history_limit: usize,
    data: &InitialData<S, T>,
    result: Result<SimulationState, KrasisError>,
) where
    S: Fn(&str, &Vec<Scalar>, Scalar) -> Result<Vec<Scalar>, EvaluationRefusal>,
    T: Fn(Scalar) -> String,

    requires
        layout.wf(),
        nodal.wf(),
        data.callable(),
        call_ensures(
            initial::initial_state_from::<S, T>,
            (layout, nodal, history_limit, data),
            result,
        ),
    ensures
        initial::initial_state_given(*data, layout@, nodal.points(), history_limit as nat, result),
{
}

/// An operator is composed of the realization, layout and binding it is given.
pub proof fn law_bound_operator_call<B>(
    realization: RealizationPlan,
    state_layout: &StateLayout,
    state_binding: Option<StateBinding>,
    accept: &B,
    result: Result<CoupledOperator, KrasisError>,
) where
    B: Fn(&Vec<BlockSpec>) -> Result<(), String>,

    requires
        state_layout.wf(),
        state_binding matches Some(binding) ==> binding.wf(),
        forall|blocks: &Vec<BlockSpec>| call_requires(*accept, (blocks,)),
        call_ensures(
            CoupledOperator::new_with_bindings::<B>,
            (realization, state_layout, state_binding, accept),
            result,
        ),
    ensures
        operator::accepted(
            realization,
            state_layout@,
            operator::binding_model(state_binding),
            *accept,
            result,
        ),
{
}

/// An operator is composed of the realization and layout it is given, without a binding.
pub proof fn law_operator_call<B>(
    realization: RealizationPlan,
    state_layout: &StateLayout,
    accept: &B,
    result: Result<CoupledOperator, KrasisError>,
) where B: Fn(&Vec<BlockSpec>) -> Result<(), String>
    requires
        state_layout.wf(),
        forall|blocks: &Vec<BlockSpec>| call_requires(*accept, (blocks,)),
        call_ensures(
            CoupledOperator::new::<B>,
            (realization, state_layout, accept),
            result,
        ),
    ensures
        operator::accepted(realization, state_layout@, None, *accept, result),
{
}

/// A layout is made of the blocks it is given.
pub proof fn law_layout_call(
    blocks: Vec<StateBlock>,
    result: Result<StateLayout, KrasisError>,
)
    requires
        call_ensures(
            StateLayout::new,
            (blocks,),
            result,
        ),
    ensures
        match layout::layout_of(layout::block_models(blocks@)) {
            Ok(model) => result matches Ok(layout) && layout@ == model && layout.wf(),
            Err(failure) => result matches Err(error) && error@ == failure,
        },
{
}

/// A binding is made over the layout of the pairs it is given.
pub proof fn law_binding_call(
    layout: &StateLayout,
    bindings: Vec<(SemanticId, BlockId)>,
    result: Result<StateBinding, KrasisError>,
)
    requires
        call_ensures(
            StateBinding::new,
            (layout, bindings),
            result,
        ),
    ensures
        match binding::binding_of(layout@, binding::bound_models(bindings@)) {
            Ok(model) => result matches Ok(binding) && binding@ == model && binding.wf(),
            Err(failure) => result matches Err(error) && error@ == failure,
        },
{
}

} // verus!
