//! Transactional state, composition and verification of coupled simulations.
pub mod binding;
pub mod block_binding;
pub mod block_solve;
pub mod block_solve_laws;
pub mod call_laws;
pub mod check_laws;
pub mod checkpoint;
pub mod connected;
pub mod connected_diagonal;
pub mod connected_evaluation;
pub mod connected_laws;
pub mod consistency;
pub mod derivative;
pub mod derivative_laws;
pub mod dialect_laws;
pub mod digest;
pub mod error;
pub mod evaluation;
pub mod evaluation_laws;
pub mod event;
pub mod event_check;
pub mod evidence;
pub mod execution;
pub mod execution_laws;
pub mod execution_model;
pub mod graph;
pub mod graph_laws;
pub mod history;
pub mod identity_model;
pub mod initial;
pub mod initial_laws;
pub mod initialization;
pub mod initialization_laws;
pub mod layout;
pub mod layout_laws;
pub mod leaf_laws;
pub mod method;
pub mod method_evaluation;
pub mod method_laws;
pub mod numeric;
pub mod operator;
pub mod operator_evaluation;
pub mod operator_laws;
pub mod realization;
pub mod reduced_rate;
pub mod refusal;
pub mod refusal_laws;
pub mod rendering;
pub mod report_laws;
pub mod restart;
pub mod restore_laws;
pub mod restore_model;
pub mod scalar;
pub mod scalar_laws;
pub mod state;
pub mod state_laws;
pub mod state_model;
pub mod strategy;
pub mod strategy_laws;
pub mod system;
pub mod system_initial;
pub mod system_laws;
pub mod system_model;
pub mod text;
pub mod trace_laws;
pub mod trajectory;
pub mod trajectory_laws;
pub mod validation_laws;
pub mod verification;

pub use binding::{SemanticId, StateBinding};
pub use block_binding::block_state_layout;
pub use block_solve::{
    BlockLinearAlgorithm, BlockLinearCheckpoint, BlockLinearExecution, BlockLinearReport,
    BlockLinearSolver, BlockOperatorShape, LinearSolve, LinearSolveReport,
};
pub use checkpoint::{Checkpoint, NamedHistory, NamedScalars};
pub use connected::{ConnectedSystemOperator, ConstraintSet};
pub use connected_evaluation::TraceCalls;
pub use derivative::{
    check_cross_block_derivatives, ComparisonTolerance, CrossBlockDerivativeCheck,
    CrossBlockDerivativeReport, DerivativeContext,
};
pub use error::KrasisError;
pub use evaluation::SystemCalls;
pub use event::{EventDirection, EventRecord};
pub use event_check::{
    check_event_state, check_event_state_from, EventContext, EventDisposition, EventStateReport,
};
pub use evidence::{
    EvidenceKind, FinitumSourceBinding, FinitumSourceEntry, FinitumVerificationSource,
    VerificationBinding, KRASIS_VERIFICATION_SCHEMA,
};
pub use execution::{CoupledCheckpoint, CoupledExecution, RefusedAttempt};
pub use graph::{CouplingArgument, CouplingDependency, CouplingGraph};
pub use history::{check_history_and_rejection, HistoryDepth, HistoryReport};
pub use initial::{initial_state_from, FieldSource, InitialData, NodalContext};
pub use initialization::{ConsistentInitialization, RateSolvePolicy, RowKind};
pub use layout::{BlockId, StateBlock, StateLayout};
pub use method::{CrossDialectOperator, DiscreteOperator};
pub use method_evaluation::DialectCalls;
pub use numeric::{
    AcceptedStep, BdfState, EvaluationRefusal, EventSample, NewtonConfig, NewtonReport,
    NumericError, RejectedStep, SolveError, StepOutcome,
};
pub use operator::{BlockSpec, CoupledOperator, TransactionalOperator};
pub use realization::{
    BasisSample, Constraint, ConstraintDependency, FieldBlock, FinitumRealization, MixedOperator,
    OperatorIdentity, QuadraturePoint, RealizationPlan, ReducedSystem, SystemOperator,
};
pub use reduced_rate::{reduced_rate_product, reduced_rate_residual};
pub use refusal::{BdfConfig, VerificationRefusal};
pub use restart::{
    check_restart_trajectory, RestartContext, RestartTrajectoryReport, TrajectoryNorms,
};
pub use scalar::Scalar;
pub use state::{ConstitutiveSlot, FieldId, SimulationState};
pub use state_model::TransactionPhase;
pub use strategy::{
    check_strategy_work, BlockSolveReport, BlockStrategy, ComparisonReport, CountedOperator,
    StrategyAgreement, StrategyContext, StrategyOutcome, StrategyRun, StrategyWorkReport,
    WorkBudgetReport, WorkCount,
};
pub use system::{CoupledLeaf, CoupledSystemOperator, CouplingEdge, LeafSource, ResolvedEdge};
pub use trajectory::{AttemptDisposition, CheckContext};
pub use verification::{
    check_rollback_identity, RollbackIdentityReport, ValidatedKrasisVerification,
};
