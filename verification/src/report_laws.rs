//! What a report is bound to: the operator, the layout, the evaluation context and the
//! configuration that its check was made with.
use crate::derivative;
use crate::derivative::{
    ComparisonTolerance, CrossBlockDerivativeReport, DerivativeContext,
};
use crate::digest;
use crate::event_check;
use crate::event_check::{EventContext, EventStateReport};
use crate::evidence;
use crate::evidence::{BindingModel, EntryModel};
use crate::execution::CoupledCheckpoint;
use crate::history;
use crate::history::HistoryReport;
use crate::layout;
use crate::numeric::{BdfState, NewtonConfig, SolveError, StepOutcome};
use crate::operator::BlockSpec;
use crate::refusal::{BdfConfig, RefusalText, VerificationRefusal};
use crate::restart;
use crate::restart::{RestartContext, RestartTrajectoryReport, TrajectoryNorms};
use crate::scalar::Scalar;
use crate::strategy;
use crate::strategy::{
    BlockStrategy, ComparisonReport, StrategyAgreement, StrategyContext, StrategyOutcome,
    StrategyRun, StrategyWorkReport, WorkBudgetReport, WorkCount,
};
use crate::text;
use crate::trajectory::{CheckContext, Subject};
use crate::verification;
use crate::verification::RollbackIdentityReport;
use vstd::prelude::*;

verus! {

/// Whether a binding names an execution's operator and layout, and a configuration that was
/// serialised as the given bytes.
pub open spec fn binds_execution(
    binding: BindingModel,
    subject: Subject<'_>,
    described: Seq<u8>,
) -> bool {
    &&& binding.schema == evidence::KRASIS_VERIFICATION_SCHEMA@
    &&& binding.operator_identity == subject.identity
    &&& binding.layout_identity == layout::identity_of(subject.execution.state.layout)
    &&& binding.config_identity == digest::digest_of_bytes(described)
}

/// Whether a binding names an operator without evidence, a layout and a configuration that
/// was serialised as the given bytes.
pub open spec fn binds_operator(
    binding: BindingModel,
    operator_identity: Seq<char>,
    layout_identity: Seq<char>,
    described: Seq<u8>,
) -> bool {
    &&& binding.schema == evidence::KRASIS_VERIFICATION_SCHEMA@
    &&& binding.operator_identity == operator_identity
    &&& binding.layout_identity == layout_identity
    &&& binding.config_identity == digest::digest_of_bytes(described)
    &&& binding.sources.len() == 0
    &&& binding.accepted is None
}

/// A rollback report binds the operator, the state layout and the evaluation context, step
/// and configuration that its attempt was made with.
pub proof fn law_rollback_report_binds_its_check<X, C, V, A, E, S, R>(
    subject: Subject<'_>,
    evaluation: X,
    step: Scalar,
    config: BdfConfig,
    describe: C,
    entries: Seq<EntryModel>,
    context: CheckContext<V, E, R>,
    attempt: A,
    seal: S,
    report: RollbackIdentityReport,
) where
    C: Fn(&X, Scalar, &BdfConfig) -> Result<Vec<u8>, String>,
    V: Fn(usize, usize) -> Result<bool, String>,
    A: Fn(&X, BdfState, Scalar, &BdfConfig) -> Result<StepOutcome, SolveError>,
    E: Fn(&CoupledCheckpoint) -> Result<Vec<u8>, String>,
    R: Fn(Scalar) -> String,
    S: FnOnce(&RollbackIdentityReport) -> Result<Vec<u8>, String>,

    requires
        verification::rollback_checked(
            subject,
            evaluation,
            step,
            config,
            describe,
            entries,
            context,
            attempt,
            seal,
            Ok::<RollbackIdentityReport, VerificationRefusal>(report),
        ),
    ensures
        exists|bytes: Vec<u8>|
            {
                &&& #[trigger] call_ensures(
                    describe,
                    (&evaluation, step, &config),
                    Ok::<Vec<u8>, String>(bytes),
                )
                &&& binds_execution(report@.binding, subject, bytes@)
            },
{
}

/// A restart report binds the operator, the state layout and the evaluation context, step,
/// counts and configuration that its runs were made with.
pub proof fn law_restart_report_binds_its_check<X, C, V, A, E, R, D, N, S>(
    subject: Subject<'_>,
    evaluation: X,
    step: Scalar,
    total: usize,
    split: usize,
    config: BdfConfig,
    describe: C,
    entries: Seq<EntryModel>,
    context: CheckContext<V, E, R>,
    attempt: A,
    calls: RestartContext<D, N, S>,
    report: RestartTrajectoryReport,
) where
    C: Fn(&X, Scalar, usize, usize, &BdfConfig) -> Result<Vec<u8>, String>,
    V: Fn(usize, usize) -> Result<bool, String>,
    A: Fn(&X, BdfState, Scalar, &BdfConfig) -> Result<StepOutcome, SolveError>,
    E: Fn(&CoupledCheckpoint) -> Result<Vec<u8>, String>,
    R: Fn(Scalar) -> String,
    D: Fn(&Vec<u8>) -> Result<CoupledCheckpoint, String>,
    N: Fn(Scalar, Scalar, &Vec<Vec<Scalar>>, &Vec<Vec<Scalar>>) -> Result<TrajectoryNorms, String>,
    S: Fn(&RestartTrajectoryReport) -> Result<Vec<u8>, String>,

    requires
        restart::restart_checked(
            subject,
            evaluation,
            step,
            total,
            split,
            config,
            describe,
            entries,
            context,
            attempt,
            calls,
            Ok::<RestartTrajectoryReport, VerificationRefusal>(report),
        ),
    ensures
        exists|bytes: Vec<u8>|
            {
                &&& #[trigger] call_ensures(
                    describe,
                    (&evaluation, step, total, split, &config),
                    Ok::<Vec<u8>, String>(bytes),
                )
                &&& binds_execution(report@.binding, subject, bytes@)
            },
{
}

/// A history report binds the operator, the state layout and the evaluation context, step,
/// count and configurations that its attempts were made with.
pub proof fn law_history_report_binds_its_check<X, C, V, A, E, S, R>(
    subject: Subject<'_>,
    evaluation: X,
    step: Scalar,
    steps: usize,
    accepted_config: BdfConfig,
    rejection_config: BdfConfig,
    describe: C,
    entries: Seq<EntryModel>,
    context: CheckContext<V, E, R>,
    attempt: A,
    seal: S,
    report: HistoryReport,
) where
    C: Fn(&X, Scalar, usize, &BdfConfig, &BdfConfig) -> Result<Vec<u8>, String>,
    V: Fn(usize, usize) -> Result<bool, String>,
    A: Fn(&X, BdfState, Scalar, &BdfConfig) -> Result<StepOutcome, SolveError>,
    E: Fn(&CoupledCheckpoint) -> Result<Vec<u8>, String>,
    R: Fn(Scalar) -> String,
    S: FnOnce(&HistoryReport) -> Result<Vec<u8>, String>,

    requires
        history::history_checked(
            subject,
            evaluation,
            step,
            steps,
            accepted_config,
            rejection_config,
            describe,
            entries,
            context,
            attempt,
            seal,
            Ok::<HistoryReport, VerificationRefusal>(report),
        ),
    ensures
        exists|bytes: Vec<u8>|
            {
                &&& #[trigger] call_ensures(
                    describe,
                    (&evaluation, step, steps, &accepted_config, &rejection_config),
                    Ok::<Vec<u8>, String>(bytes),
                )
                &&& binds_execution(report@.binding, subject, bytes@)
            },
{
}

/// A derivative report binds the operator, the block layout and the evaluation context,
/// state, direction, steps and tolerance that its probes were made with.
pub proof fn law_derivative_report_binds_its_check<X, C, L, J, P, T, S>(
    blocks: Vec<BlockSpec>,
    operator_identity: Seq<char>,
    state: Vec<Scalar>,
    direction: Vec<Scalar>,
    steps: Vec<Scalar>,
    tolerance: ComparisonTolerance,
    tolerance_valid: Result<(), SolveError>,
    calls: DerivativeContext<X, C, L, J, P, T, S>,
    report: CrossBlockDerivativeReport,
) where
    C: Fn(
        &X,
        &Vec<Scalar>,
        &Vec<Scalar>,
        &Vec<Scalar>,
        ComparisonTolerance,
    ) -> Result<Vec<u8>, String>,
    L: Fn(&Vec<BlockSpec>) -> Result<Vec<u8>, String>,
    J: Fn(&X, &Vec<Scalar>, &Vec<Scalar>) -> Result<Vec<Scalar>, SolveError>,
    P: Fn(&X, &Vec<Scalar>, &Vec<Scalar>, usize, Scalar, &Vec<Scalar>) -> Result<
        Vec<Scalar>,
        SolveError,
    >,
    T: Fn(ComparisonTolerance, Scalar) -> Scalar,
    S: Fn(&CrossBlockDerivativeReport) -> Result<Vec<u8>, String>,

    requires
        derivative::derivative_checked(
            blocks,
            operator_identity,
            state,
            direction,
            steps,
            tolerance,
            tolerance_valid,
            calls,
            Ok::<CrossBlockDerivativeReport, VerificationRefusal>(report),
        ),
    ensures
        exists|layout: Vec<u8>, bytes: Vec<u8>|
            {
                &&& #[trigger] call_ensures(
                    calls.layout,
                    (&blocks,),
                    Ok::<Vec<u8>, String>(layout),
                )
                &&& #[trigger] call_ensures(
                    calls.describe,
                    (&calls.evaluation, &state, &direction, &steps, tolerance),
                    Ok::<Vec<u8>, String>(bytes),
                )
                &&& binds_operator(
                    report@.binding,
                    operator_identity,
                    digest::digest_of_bytes(layout@),
                    bytes@,
                )
            },
{
}

proof fn lemma_compared_binding<G, S>(
    binding: BindingModel,
    outcomes: Seq<(BlockStrategy, StrategyOutcome)>,
    tolerance: ComparisonTolerance,
    agree: G,
    seal: S,
    pairs: Seq<(int, int)>,
    before: Seq<StrategyAgreement>,
    report: StrategyWorkReport,
) where
    G: Fn(&Vec<Scalar>, &Vec<Scalar>, ComparisonTolerance) -> Result<ComparisonReport, SolveError>,
    S: Fn(&StrategyWorkReport) -> Result<Vec<u8>, String>,

    requires
        strategy::strategies_compared(
            binding,
            outcomes,
            tolerance,
            agree,
            seal,
            pairs,
            before,
            Ok::<StrategyWorkReport, VerificationRefusal>(report),
        ),
    ensures
        report@.binding == binding,
    decreases pairs.len(),
{
    if pairs.len() > 0 {
        let compared = choose|compared: Result<Seq<StrategyAgreement>, RefusalText>|
            {
                &&& #[trigger] strategy::pair_compared(
                    outcomes,
                    tolerance,
                    agree,
                    pairs[0].0,
                    pairs[0].1,
                    before,
                    compared,
                )
                &&& compared matches Ok(agreements) && strategy::strategies_compared(
                    binding,
                    outcomes,
                    tolerance,
                    agree,
                    seal,
                    pairs.drop_first(),
                    agreements,
                    Ok::<StrategyWorkReport, VerificationRefusal>(report),
                )
            };
        lemma_compared_binding(
            binding,
            outcomes,
            tolerance,
            agree,
            seal,
            pairs.drop_first(),
            compared->Ok_0,
            report,
        );
    }
}

/// A strategy report binds the operator, the block layout and the evaluation context, initial
/// state, configuration, tolerance and work limits that its runs were made with.
pub proof fn law_strategy_report_binds_its_check<X, W, C, L, F, B, G, S>(
    blocks: Vec<BlockSpec>,
    operator_identity: Seq<char>,
    initial_state: Vec<Scalar>,
    config: NewtonConfig,
    tolerance: ComparisonTolerance,
    tolerance_valid: Result<(), SolveError>,
    calls: StrategyContext<X, W, C, L, F, B, G, S>,
    report: StrategyWorkReport,
) where
    C: Fn(&X, &Vec<Scalar>, &NewtonConfig, ComparisonTolerance, &W) -> Result<Vec<u8>, String>,
    L: Fn(&Vec<BlockSpec>) -> Result<Vec<u8>, String>,
    F: Fn(&X, &Vec<Scalar>, BlockStrategy, &NewtonConfig) -> StrategyRun,
    B: Fn(WorkCount, &W) -> WorkBudgetReport,
    G: Fn(&Vec<Scalar>, &Vec<Scalar>, ComparisonTolerance) -> Result<ComparisonReport, SolveError>,
    S: Fn(&StrategyWorkReport) -> Result<Vec<u8>, String>,

    requires
        strategy::strategy_checked(
            blocks,
            operator_identity,
            initial_state,
            config,
            tolerance,
            tolerance_valid,
            calls,
            Ok::<StrategyWorkReport, VerificationRefusal>(report),
        ),
    ensures
        exists|layout: Vec<u8>, bytes: Vec<u8>|
            {
                &&& #[trigger] call_ensures(
                    calls.layout,
                    (&blocks,),
                    Ok::<Vec<u8>, String>(layout),
                )
                &&& #[trigger] call_ensures(
                    calls.describe,
                    (&calls.evaluation, &initial_state, &config, tolerance, &calls.limits),
                    Ok::<Vec<u8>, String>(bytes),
                )
                &&& binds_operator(
                    report@.binding,
                    operator_identity,
                    digest::digest_of_bytes(layout@),
                    bytes@,
                )
            },
{
    assert forall|
        binding: BindingModel,
        outcomes: Seq<(BlockStrategy, StrategyOutcome)>,
    |
        #[trigger] strategy::strategies_compared(
            binding,
            outcomes,
            tolerance,
            calls.agree,
            calls.seal,
            strategy::all_pairs(),
            Seq::empty(),
            Ok::<StrategyWorkReport, VerificationRefusal>(report),
        ) implies report@.binding == binding by {
        lemma_compared_binding(
            binding,
            outcomes,
            tolerance,
            calls.agree,
            calls.seal,
            strategy::all_pairs(),
            Seq::empty(),
            report,
        );
    }
}

/// An event report binds the operator, the dimension and the evaluation context, state, step
/// and configuration that its step was made with.
pub proof fn law_event_report_binds_its_check<X, C, E, A, S>(
    state: BdfState,
    dimension: nat,
    operator_identity: Seq<char>,
    step: Scalar,
    config: BdfConfig,
    calls: EventContext<X, C, E, A, S>,
    report: EventStateReport,
) where
    C: Fn(&X, &BdfState, Scalar, &BdfConfig) -> Result<Vec<u8>, String>,
    E: Fn(&BdfState) -> Result<Vec<u8>, String>,
    A: Fn(&X, &BdfState, Scalar, &BdfConfig) -> Result<StepOutcome, String>,
    S: Fn(&EventStateReport) -> Result<Vec<u8>, String>,

    requires
        event_check::event_checked(
            state,
            dimension,
            operator_identity,
            step,
            config,
            calls,
            Ok::<EventStateReport, VerificationRefusal>(report),
        ),
    ensures
        exists|bytes: Vec<u8>|
            {
                &&& #[trigger] call_ensures(
                    calls.describe,
                    (&calls.evaluation, &state, step, &config),
                    Ok::<Vec<u8>, String>(bytes),
                )
                &&& binds_operator(
                    report@.binding,
                    operator_identity,
                    "generic-dae-dimension/1:"@ + text::decimal(dimension),
                    bytes@,
                )
            },
{
}

} // verus!
