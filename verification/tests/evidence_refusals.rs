//! What each check refuses, over one decaying unknown.

use krasis::strategy::checked_operator_evaluations;
use krasis::{
    check_cross_block_derivatives, check_event_state_from, check_history_and_rejection,
    check_restart_trajectory, check_rollback_identity, AcceptedStep, AttemptDisposition,
    BasisSample, BdfConfig, BdfState, BlockId, BlockSpec, CheckContext, ComparisonTolerance,
    CountedOperator, CoupledCheckpoint, CoupledExecution, CoupledOperator,
    CrossBlockDerivativeReport, DerivativeContext, EvaluationRefusal, EventContext,
    EventStateReport, FieldId, FinitumRealization, FinitumVerificationSource, HistoryReport,
    NewtonConfig, QuadraturePoint, RealizationPlan, RejectedStep, RestartContext,
    RestartTrajectoryReport, RollbackIdentityReport, Scalar, SimulationState, SolveError,
    StateBlock, StateLayout, StepOutcome, TrajectoryNorms, VerificationRefusal,
};
use std::cell::RefCell;

/// A block solver that takes any blocks but empty ones.
fn solver_accepts(blocks: &Vec<BlockSpec>) -> Result<(), String> {
    match blocks.iter().find(|block| block.length == 0) {
        Some(block) => Err(format!("block `{}` is empty", block.name)),
        None => Ok(()),
    }
}

const STEP: f64 = 0.5;
const CONTEXT: &str = "reproducible";

fn scalar(value: f64) -> Scalar {
    Scalar::from_bits(value.to_bits())
}

fn scalars(values: &[f64]) -> Vec<Scalar> {
    values.iter().map(|value| scalar(*value)).collect()
}

fn float(value: Scalar) -> f64 {
    f64::from_bits(value.to_bits())
}

/// A rejection on the error estimate.
fn rejection() -> StepOutcome {
    StepOutcome::Rejected(RejectedStep {
        report: "{\"error_norm\":4.0}".to_owned(),
    })
}

fn render(value: Scalar) -> String {
    format!("{}", float(value))
}

fn newton() -> NewtonConfig {
    NewtonConfig {
        absolute_tolerance: scalar(1.0e-10),
        relative_tolerance: scalar(1.0e-10),
        initial_damping: scalar(1.0),
        minimum_damping: scalar(1.0e-4),
        encoding: "{}".to_owned(),
    }
}

fn config() -> BdfConfig {
    BdfConfig {
        absolute_tolerance: scalar(1.0),
        relative_tolerance: scalar(1.0),
        minimum_step: scalar(STEP),
        maximum_step: scalar(STEP),
        newton: newton(),
    }
}

fn plan() -> RealizationPlan {
    RealizationPlan {
        dimension: 1,
        digest: "blake3:decay".to_owned(),
        algorithm: "blake3".to_owned(),
        hex: "decay".to_owned(),
        vertices: vec![scalars(&[0.5])],
        quadrature: Vec::new(),
        constraints: Vec::new(),
        stored_inputs: Vec::new(),
    }
}

fn source(plan: &RealizationPlan) -> FinitumVerificationSource {
    FinitumVerificationSource::check_patch(
        &FinitumRealization::Plan(plan),
        Ok("{\"kind\":\"patch\"}".to_owned()),
    )
    .unwrap()
}

fn start(plan: RealizationPlan) -> CoupledExecution<CoupledOperator> {
    let layout = StateLayout::new(vec![StateBlock::new(BlockId::new("u"), 0..1)]).unwrap();
    let operator = CoupledOperator::new(plan, &layout, &solver_accepts).unwrap();
    let mut state = SimulationState::new(layout, 2);
    state
        .insert_field(FieldId::new("u"), scalars(&[1.0]))
        .unwrap();
    CoupledExecution::new(operator, state, |time: Scalar, values: Vec<Scalar>| {
        Ok(BdfState {
            time,
            values,
            previous_values: None,
            previous_step: None,
            accepted_steps: 0,
        })
    })
    .unwrap()
}

/// One backward step of `u' = -u`.
fn decay(state: BdfState) -> Result<StepOutcome, SolveError> {
    let next = float(state.values[0]) / (1.0 + STEP);
    Ok(StepOutcome::Accepted(AcceptedStep {
        state: BdfState {
            time: scalar(float(state.time) + STEP),
            values: scalars(&[next]),
            previous_values: Some(state.values),
            previous_step: Some(scalar(STEP)),
            accepted_steps: state.accepted_steps + 1,
        },
        events: Vec::new(),
        report: String::new(),
    }))
}

fn rejected(_: BdfState) -> Result<StepOutcome, SolveError> {
    Ok(rejection())
}

fn diverged(_: BdfState) -> Result<StepOutcome, SolveError> {
    Err(SolveError {
        refusal: None,
        text: "Newton diverged".to_owned(),
    })
}

fn refused(_: BdfState) -> Result<StepOutcome, SolveError> {
    Err(SolveError {
        refusal: Some(EvaluationRefusal {
            code: "NEGATIVE_DENSITY".to_owned(),
            origin: "material".to_owned(),
            message: "density is negative".to_owned(),
        }),
        text: "evaluation refused".to_owned(),
    })
}

fn agrees(_: usize, _: usize) -> Result<bool, String> {
    Ok(true)
}

fn encode(checkpoint: &CoupledCheckpoint) -> Result<Vec<u8>, String> {
    Ok(format!("{checkpoint:?}").into_bytes())
}

fn describe(context: &&str, step: Scalar, config: &BdfConfig) -> Result<Vec<u8>, String> {
    Ok(format!("{context}{step:?}{config:?}").into_bytes())
}

type Attempt = fn(BdfState) -> Result<StepOutcome, SolveError>;

fn rollback_with(
    plan: RealizationPlan,
    step: f64,
    config: &BdfConfig,
    attempt: Attempt,
) -> Result<RollbackIdentityReport, VerificationRefusal> {
    let source = source(&plan);
    let context = CheckContext {
        validate: agrees,
        encode,
        render,
    };
    check_rollback_identity(
        &start(plan),
        &CONTEXT,
        scalar(step),
        config,
        &describe,
        &source,
        &context,
        &|_: &&str, state: BdfState, _: Scalar, _: &BdfConfig| attempt(state),
        |report: &RollbackIdentityReport| Ok(format!("{report:?}").into_bytes()),
    )
}

fn rollback(attempt: Attempt) -> RollbackIdentityReport {
    rollback_with(plan(), STEP, &config(), attempt).unwrap()
}

fn code<T>(result: Result<T, VerificationRefusal>) -> String {
    match result {
        Ok(_) => panic!("expected a refusal"),
        Err(refusal) => refusal.code,
    }
}

#[test]
fn rollback_passes_where_the_attempt_was_not_accepted() {
    let report = rollback(rejected);
    assert!(report.passed && report.byte_identical);
    assert_eq!(report.disposition, AttemptDisposition::Rejected);
    assert_eq!(
        report.checkpoint_before_digest,
        report.checkpoint_after_digest
    );

    let report = rollback(refused);
    assert!(report.passed && report.byte_identical);
    assert_eq!(
        report.evaluation_refusal.unwrap().code,
        "NEGATIVE_DENSITY"
    );

    let report = rollback(decay);
    assert!(!report.passed);
    assert_eq!(report.disposition, AttemptDisposition::UnexpectedAccepted);
}

#[test]
fn identity_inputs_are_finite_with_positive_zeros() {
    assert_eq!(
        code(rollback_with(plan(), f64::NAN, &config(), rejected)),
        "KRASIS_VERIFY_NONFINITE_IDENTITY_INPUT"
    );
    assert_eq!(
        code(rollback_with(plan(), -0.0, &config(), rejected)),
        "KRASIS_VERIFY_NEGATIVE_ZERO_IDENTITY_INPUT"
    );
    let mut infinite = config();
    infinite.maximum_step = scalar(f64::INFINITY);
    assert_eq!(
        code(rollback_with(plan(), STEP, &infinite, rejected)),
        "KRASIS_VERIFY_NONFINITE_IDENTITY_INPUT"
    );
    let mut elsewhere = plan();
    elsewhere.vertices = vec![scalars(&[-0.0])];
    assert_eq!(
        code(rollback_with(elsewhere, STEP, &config(), rejected)),
        "KRASIS_VERIFY_NEGATIVE_ZERO_IDENTITY_INPUT"
    );
}

#[test]
fn incomplete_basis_tables_are_refused() {
    let mut incomplete = plan();
    incomplete.quadrature = vec![QuadraturePoint {
        coordinates: scalars(&[0.5]),
        weight: scalar(1.0),
        basis: vec![BasisSample {
            value: Some(scalar(1.0)),
            gradient: None,
        }],
    }];
    let refusal = rollback_with(incomplete, STEP, &config(), rejected).unwrap_err();
    assert_eq!(refusal.code, "KRASIS_VERIFY_REALIZATION_SOURCE");
    assert_eq!(
        refusal.message,
        "Finitum element omitted an expected basis gradient"
    );
    assert_eq!(
        refusal.message(),
        "KRASIS_VERIFY_REALIZATION_SOURCE: Finitum element omitted an expected basis gradient"
    );
}

#[test]
fn evidence_must_be_bound_to_the_realizations_of_the_operator() {
    let mut other = plan();
    other.digest = "blake3:other".to_owned();
    other.hex = "other".to_owned();
    let context = CheckContext {
        validate: agrees,
        encode,
        render,
    };
    let refusal = check_rollback_identity(
        &start(plan()),
        &CONTEXT,
        scalar(STEP),
        &config(),
        &describe,
        &source(&other),
        &context,
        &|_: &&str, state: BdfState, _: Scalar, _: &BdfConfig| rejected(state),
        |report: &RollbackIdentityReport| Ok(format!("{report:?}").into_bytes()),
    )
    .unwrap_err();
    assert_eq!(refusal.code, "KRASIS_VERIFY_FINITUM_SOURCE");

    let failed = FinitumVerificationSource::check_patch(
        &FinitumRealization::Plan(&other),
        Err("patch test failed".to_owned()),
    )
    .unwrap_err();
    assert_eq!(failed.code, "KRASIS_VERIFY_FINITUM_SOURCE");
    assert_eq!(
        failed.message,
        "Finitum verification did not validate against its bound source: patch test failed"
    );
}

#[test]
fn serialization_failures_are_reported() {
    let plan = plan();
    let source = source(&plan);
    let context = CheckContext {
        validate: agrees,
        encode: |_: &CoupledCheckpoint| Err::<Vec<u8>, String>("no space".to_owned()),
        render,
    };
    let refusal = check_rollback_identity(
        &start(plan.clone()),
        &CONTEXT,
        scalar(STEP),
        &config(),
        &describe,
        &source,
        &context,
        &|_: &&str, state: BdfState, _: Scalar, _: &BdfConfig| rejected(state),
        |report: &RollbackIdentityReport| Ok(format!("{report:?}").into_bytes()),
    )
    .unwrap_err();
    assert_eq!(refusal.code, "KRASIS_VERIFY_SERIALIZATION");
    assert_eq!(refusal.message, "no space");

    // A configuration that cannot be serialised binds to nothing.
    let refusal = check_rollback_identity(
        &start(plan),
        &CONTEXT,
        scalar(STEP),
        &config(),
        &|_: &&str, _: Scalar, _: &BdfConfig| Err::<Vec<u8>, String>("no context".to_owned()),
        &source,
        &context,
        &|_: &&str, state: BdfState, _: Scalar, _: &BdfConfig| rejected(state),
        |report: &RollbackIdentityReport| Ok(format!("{report:?}").into_bytes()),
    )
    .unwrap_err();
    assert_eq!(refusal.code, "KRASIS_VERIFY_SERIALIZATION");
    assert_eq!(refusal.message, "no context");
}

#[test]
fn reports_are_bound_to_context_step_and_configuration() {
    let bound = |context: &str, step: f64, config: &BdfConfig| {
        let plan = plan();
        let source = source(&plan);
        let calls = CheckContext {
            validate: agrees,
            encode,
            render,
        };
        check_rollback_identity(
            &start(plan),
            &context,
            scalar(step),
            config,
            &|context: &&str, step: Scalar, config: &BdfConfig| {
                Ok(format!("{context}{step:?}{config:?}").into_bytes())
            },
            &source,
            &calls,
            &|_: &&str, state: BdfState, _: Scalar, _: &BdfConfig| rejected(state),
            |report: &RollbackIdentityReport| Ok(format!("{report:?}").into_bytes()),
        )
        .unwrap()
        .binding
        .config_identity
    };
    let wide = BdfConfig {
        maximum_step: scalar(2.0 * STEP),
        ..config()
    };
    let plain = bound("reproducible", STEP, &config());
    assert_eq!(plain, bound("reproducible", STEP, &config()));
    assert_ne!(plain, bound("default", STEP, &config()));
    assert_ne!(plain, bound("reproducible", 0.25, &config()));
    assert_ne!(plain, bound("reproducible", STEP, &wide));
}

fn history(
    accepted_steps: usize,
    attempt: Attempt,
    reject: Attempt,
) -> Result<HistoryReport, VerificationRefusal> {
    let plan = plan();
    let source = source(&plan);
    let context = CheckContext {
        validate: agrees,
        encode,
        render,
    };
    let rejecting = BdfConfig {
        absolute_tolerance: scalar(1.0e-16),
        ..config()
    };
    check_history_and_rejection(
        &start(plan),
        &CONTEXT,
        scalar(STEP),
        accepted_steps,
        &config(),
        &rejecting,
        &|context: &&str, step: Scalar, steps: usize, first: &BdfConfig, last: &BdfConfig| {
            Ok(format!("{context}{step:?}{steps}{first:?}{last:?}").into_bytes())
        },
        &source,
        &context,
        &|_: &&str, state: BdfState, step: Scalar, given: &BdfConfig| {
            assert_eq!(step, scalar(STEP));
            if *given == rejecting {
                reject(state)
            } else {
                attempt(state)
            }
        },
        |report: &HistoryReport| Ok(format!("{report:?}").into_bytes()),
    )
}

#[test]
fn history_fills_up_to_its_limit() {
    for (steps, depth) in [(1, 1), (2, 2), (5, 2)] {
        let report = history(steps, decay, rejected).unwrap();
        assert!(report.passed, "{report:#?}");
        assert_eq!(report.field_history_depths.len(), 1);
        assert_eq!(report.field_history_depths[0].field, "u");
        assert_eq!(report.field_history_depths[0].depth, depth);
    }
    assert!(!history(1, decay, decay).unwrap().passed);
}

#[test]
fn history_checks_name_what_went_wrong() {
    assert_eq!(
        code(history(0, decay, rejected)),
        "KRASIS_VERIFY_EMPTY_HISTORY_SEQUENCE"
    );
    assert_eq!(
        code(history(1, rejected, rejected)),
        "KRASIS_VERIFY_UNEXPECTED_REJECTION"
    );
    let solve = history(1, diverged, rejected).unwrap_err();
    assert_eq!(solve.code, "KRASIS_VERIFY_STATE");
    assert_eq!(
        solve.message,
        "coupled numerical solve failed: Newton diverged"
    );
    assert_eq!(code(history(1, refused, rejected)), "NEGATIVE_DENSITY");
}

/// Keeps encoded restart data, to be read back from their bytes.
struct Archive {
    kept: RefCell<Vec<(Vec<u8>, CoupledCheckpoint)>>,
}

impl Archive {
    fn save(&self, checkpoint: &CoupledCheckpoint) -> Result<Vec<u8>, String> {
        let bytes = encode(checkpoint)?;
        self.kept
            .borrow_mut()
            .push((bytes.clone(), checkpoint.clone()));
        Ok(bytes)
    }

    fn load(&self, bytes: &[u8]) -> Result<CoupledCheckpoint, String> {
        self.kept
            .borrow()
            .iter()
            .find(|(kept, _)| kept == bytes)
            .map(|(_, checkpoint)| checkpoint.clone())
            .ok_or("unknown restart data".to_owned())
    }
}

fn largest(
    _: Scalar,
    step: Scalar,
    left: &Vec<Vec<Scalar>>,
    right: &Vec<Vec<Scalar>>,
) -> Result<TrajectoryNorms, String> {
    let differences: Vec<f64> = left
        .iter()
        .zip(right)
        .map(|(l, r)| (float(l[0]) - float(r[0])).abs())
        .collect();
    Ok(TrajectoryNorms {
        l_infinity: scalar(differences.iter().copied().fold(0.0, f64::max)),
        l2_time: scalar(float(step) * differences.iter().sum::<f64>()),
    })
}

type Decode = fn(&Archive, &[u8]) -> Result<CoupledCheckpoint, String>;
type Norms = fn(
    Scalar,
    Scalar,
    &Vec<Vec<Scalar>>,
    &Vec<Vec<Scalar>>,
) -> Result<TrajectoryNorms, String>;

fn restart(
    total: usize,
    split: usize,
    decode: Decode,
    norms: Norms,
) -> Result<RestartTrajectoryReport, VerificationRefusal> {
    let plan = plan();
    let source = source(&plan);
    let archive = Archive {
        kept: RefCell::new(Vec::new()),
    };
    let context = CheckContext {
        validate: agrees,
        encode: |checkpoint: &CoupledCheckpoint| archive.save(checkpoint),
        render,
    };
    let calls = RestartContext {
        decode: |bytes: &Vec<u8>| decode(&archive, bytes),
        norms,
        seal: |report: &RestartTrajectoryReport| Ok(format!("{report:?}").into_bytes()),
    };
    check_restart_trajectory(
        &start(plan),
        &CONTEXT,
        scalar(STEP),
        total,
        split,
        &config(),
        &|context: &&str, step: Scalar, total: usize, split: usize, config: &BdfConfig| {
            Ok(format!("{context}{step:?}{total}{split}{config:?}").into_bytes())
        },
        &source,
        &context,
        &|_: &&str, state: BdfState, _: Scalar, _: &BdfConfig| decay(state),
        &calls,
    )
}

#[test]
fn restarted_runs_end_where_uninterrupted_ones_do() {
    let report = restart(5, 2, Archive::load, largest).unwrap();
    assert!(report.passed && report.final_checkpoint_byte_identical);
    assert_eq!(float(report.trajectory_l_infinity), 0.0);
    assert_eq!(float(report.trajectory_l2_time), 0.0);
    assert_eq!(
        report.continuous_final_checkpoint_digest,
        report.restarted_final_checkpoint_digest
    );

    // Restart data with another value give another run.
    let shifted: Decode = |archive, bytes| {
        let mut checkpoint = archive.load(bytes)?;
        checkpoint.integrator.values = scalars(&[2.0]);
        checkpoint.state.fields[0].values = scalars(&[2.0]);
        Ok(checkpoint)
    };
    let report = restart(5, 2, shifted, largest).unwrap();
    assert!(!report.passed && !report.final_checkpoint_byte_identical);
    assert!(float(report.trajectory_l_infinity) > 0.0);
}

#[test]
fn restart_checks_name_what_went_wrong() {
    for (total, split) in [(0, 0), (3, 0), (3, 3), (3, 4)] {
        assert_eq!(
            code(restart(total, split, Archive::load, largest)),
            "KRASIS_VERIFY_INVALID_RESTART_SEQUENCE"
        );
    }
    assert_eq!(
        code(restart(
            3,
            1,
            |_, _| Err("truncated".to_owned()),
            largest
        )),
        "KRASIS_VERIFY_CHECKPOINT_DECODE"
    );
    let foreign: Decode = |archive, bytes| {
        let mut checkpoint = archive.load(bytes)?;
        checkpoint.operator_identity.push('x');
        Ok(checkpoint)
    };
    assert_eq!(
        code(restart(3, 1, foreign, largest)),
        "KRASIS_VERIFY_CHECKPOINT_RESTORE"
    );
    assert_eq!(
        code(restart(3, 1, Archive::load, |_, _, _, _| Err(
            "trajectories differ in length".to_owned()
        ))),
        "KRASIS_VERIFY_TRAJECTORY"
    );
}

#[test]
fn altered_reports_do_not_validate() {
    let plan = plan();
    let source = source(&plan);
    let execution = start(plan);
    let context = CheckContext {
        validate: agrees,
        encode,
        render,
    };
    let seal = |report: &RollbackIdentityReport| Ok(format!("{report:?}").into_bytes());
    let report = rollback(rejected);
    let validate = |report: &RollbackIdentityReport| {
        report.validate(
            &execution,
            &CONTEXT,
            scalar(STEP),
            &config(),
            &describe,
            &source,
            &context,
            &|_: &&str, state: BdfState, _: Scalar, _: &BdfConfig| rejected(state),
            seal,
        )
    };
    assert!(validate(&report).unwrap().accepted);
    let mut altered = report.clone();
    altered.passed = false;
    assert_eq!(code(validate(&altered)), "KRASIS_VERIFY_REPORT_MISMATCH");
}

fn probe(
    blocks: &[(&str, usize)],
    identity: &str,
    direction: &[f64],
    product_fails: bool,
) -> Result<CrossBlockDerivativeReport, VerificationRefusal> {
    let blocks: Vec<BlockSpec> = blocks
        .iter()
        .map(|(name, length)| BlockSpec {
            name: (*name).to_owned(),
            length: *length,
        })
        .collect();
    let calls = DerivativeContext {
        evaluation: CONTEXT,
        describe: |_: &&str,
                   _: &Vec<Scalar>,
                   _: &Vec<Scalar>,
                   _: &Vec<Scalar>,
                   _: ComparisonTolerance| Ok::<Vec<u8>, String>(b"config".to_vec()),
        layout: |blocks: &Vec<BlockSpec>| Ok::<Vec<u8>, String>(format!("{blocks:?}").into_bytes()),
        product: |_: &&str, _: &Vec<Scalar>, direction: &Vec<Scalar>| {
            if product_fails {
                Err(SolveError {
                    refusal: None,
                    text: "singular".to_owned(),
                })
            } else {
                Ok(direction.clone())
            }
        },
        probe: |_: &&str,
                _: &Vec<Scalar>,
                _: &Vec<Scalar>,
                _: usize,
                _: Scalar,
                _: &Vec<Scalar>| {
            Ok::<Vec<Scalar>, SolveError>(scalars(&[0.0]))
        },
        allowed: |_: ComparisonTolerance, _: Scalar| scalar(1.0),
        seal: |report: &CrossBlockDerivativeReport| Ok(format!("{report:?}").into_bytes()),
    };
    check_cross_block_derivatives(
        &blocks,
        identity,
        &scalars(&vec![0.5; direction.len()]),
        &scalars(direction),
        &scalars(&[1.0e-3]),
        ComparisonTolerance {
            absolute: scalar(1.0),
            relative: scalar(1.0),
        },
        Ok(()),
        &calls,
    )
}

#[test]
fn derivative_checks_name_what_went_wrong() {
    let two = [("a", 1), ("b", 2)];
    let report = probe(&two, "op", &[1.0, 1.0, 1.0], false).unwrap();
    assert!(report.passed);
    // One check per ordered pair of different blocks.
    let pairs: Vec<(String, String)> = report
        .checks
        .iter()
        .map(|check| (check.source_block.clone(), check.target_block.clone()))
        .collect();
    assert_eq!(
        pairs,
        [
            ("a".to_owned(), "b".to_owned()),
            ("b".to_owned(), "a".to_owned())
        ]
    );
    assert_eq!(
        code(probe(&two, " ", &[1.0, 1.0, 1.0], false)),
        "KRASIS_VERIFY_MISSING_IDENTITY"
    );
    assert_eq!(
        code(probe(&[("a", 1)], "op", &[1.0], false)),
        "KRASIS_VERIFY_INVALID_BLOCK_PROBE"
    );
    let still = probe(&two, "op", &[1.0, 0.0, 0.0], false).unwrap_err();
    assert_eq!(still.code, "KRASIS_VERIFY_ZERO_BLOCK_DIRECTION");
    assert_eq!(still.message, "source block b has a zero direction");
    let numeric = probe(&two, "op", &[1.0, 1.0, 1.0], true).unwrap_err();
    assert_eq!(numeric.code, "KRASIS_VERIFY_NUMERIC");
    assert_eq!(numeric.message, "singular");
}

#[test]
fn event_states_have_the_dimension_of_their_operator() {
    let calls = EventContext {
        evaluation: CONTEXT,
        describe: |_: &&str, _: &BdfState, _: Scalar, _: &BdfConfig| Ok(Vec::new()),
        encode: |_: &BdfState| Ok(Vec::new()),
        attempt: |_: &&str, _: &BdfState, _: Scalar, _: &BdfConfig| {
            Ok::<StepOutcome, String>(rejection())
        },
        seal: |_: &EventStateReport| Ok(Vec::new()),
    };
    let state = BdfState {
        time: scalar(0.0),
        values: scalars(&[1.0]),
        previous_values: None,
        previous_step: None,
        accepted_steps: 0,
    };
    let refusal =
        check_event_state_from(2, "op", state, scalar(STEP), &config(), &calls).unwrap_err();
    assert_eq!(refusal.code, "KRASIS_VERIFY_EVENT_DIMENSION");
}

#[test]
fn work_is_counted_without_wrapping() {
    let mut counted = CountedOperator::new();
    counted.count_residual();
    counted.count_residual();
    counted.count_product();
    assert_eq!(counted.counts().unwrap(), (2, 1));
    assert_eq!(checked_operator_evaluations((2, 1)).unwrap(), 3);
    assert_eq!(
        code(checked_operator_evaluations((u64::MAX, 1))),
        "KRASIS_VERIFY_WORK_OVERFLOW"
    );
}
