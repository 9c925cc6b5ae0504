//! Derivative, strategy and event checks over small operators.

use krasis::{
    check_cross_block_derivatives, check_event_state, check_event_state_from, check_strategy_work,
    AcceptedStep, BdfConfig, BdfState, BlockSolveReport, BlockSpec, BlockStrategy, ComparisonReport,
    ComparisonTolerance, CountedOperator, CrossBlockDerivativeReport, DerivativeContext,
    EventContext, EventDirection, EventSample, EventStateReport, NewtonConfig, RejectedStep, Scalar,
    SolveError, StepOutcome, StrategyContext, StrategyOutcome, StrategyRun, StrategyWorkReport,
    ValidatedKrasisVerification, VerificationRefusal, WorkBudgetReport, WorkCount,
};

const CONTEXT: &str = "reproducible";

fn scalar(value: f64) -> Scalar {
    Scalar::from_bits(value.to_bits())
}

fn scalars(values: &[f64]) -> Vec<Scalar> {
    values.iter().map(|value| scalar(*value)).collect()
}

fn float(value: Scalar) -> f64 {
    f64::from_bits(value.to_bits())
}

/// A rejection on the error estimate.
fn rejection() -> StepOutcome {
    StepOutcome::Rejected(RejectedStep {
        report: "{\"error_norm\":4.0}".to_owned(),
    })
}

fn floats(values: &[Scalar]) -> Vec<f64> {
    values.iter().map(|value| float(*value)).collect()
}

fn newton() -> NewtonConfig {
    NewtonConfig {
        absolute_tolerance: scalar(1.0e-10),
        relative_tolerance: scalar(1.0e-10),
        initial_damping: scalar(1.0),
        minimum_damping: scalar(1.0e-4),
        encoding: "{\"absolute_tolerance\":1e-10}".to_owned(),
    }
}

fn tolerance(absolute: f64, relative: f64) -> ComparisonTolerance {
    ComparisonTolerance {
        absolute: scalar(absolute),
        relative: scalar(relative),
    }
}

/// What validating a tolerance gives: it must be positive somewhere and finite.
fn tolerance_valid(tolerance: ComparisonTolerance) -> Result<(), SolveError> {
    let (absolute, relative) = (float(tolerance.absolute), float(tolerance.relative));
    if absolute >= 0.0 && relative >= 0.0 && absolute + relative > 0.0 {
        Ok(())
    } else {
        Err(SolveError {
            refusal: None,
            text: "comparison tolerance must be positive".to_owned(),
        })
    }
}

fn block(name: &str, length: usize) -> BlockSpec {
    BlockSpec {
        name: name.to_owned(),
        length,
    }
}

/// An operator by its residual and its claimed Jacobian action.
struct Probed {
    blocks: Vec<BlockSpec>,
    residual: Box<dyn Fn(&[f64]) -> Vec<f64>>,
    product: Box<dyn Fn(&[f64]) -> Vec<f64>>,
}

fn two_block_linear(coupling: f64) -> Probed {
    Probed {
        blocks: vec![block("left", 1), block("right", 1)],
        residual: Box::new(move |state| {
            vec![
                state[0] + coupling * state[1] - 1.0,
                coupling * state[0] + state[1] - 1.0,
            ]
        }),
        product: Box::new(move |direction| {
            vec![
                direction[0] + coupling * direction[1],
                coupling * direction[0] + direction[1],
            ]
        }),
    }
}

/// The claimed action is wrong in the small target component alone.
fn uneven_cross_derivative() -> Probed {
    Probed {
        blocks: vec![block("source", 1), block("target", 2)],
        residual: Box::new(|state| {
            vec![
                state[0],
                1.0e6 * state[0] + state[1],
                state[0] + state[2],
            ]
        }),
        product: Box::new(|direction| {
            vec![
                direction[0],
                1.0e6 * direction[0] + direction[1],
                1.2 * direction[0] + direction[2],
            ]
        }),
    }
}

/// Runs a derivative check, or revalidates a report of one.
fn derivatives(
    operator: &Probed,
    identity: &str,
    state: &[f64],
    direction: &[f64],
    steps: &[f64],
    tolerance: ComparisonTolerance,
    report: Option<&CrossBlockDerivativeReport>,
) -> Result<(Option<CrossBlockDerivativeReport>, bool), VerificationRefusal> {
    let calls = DerivativeContext {
        evaluation: CONTEXT,
        describe: |context: &&str,
                   state: &Vec<Scalar>,
                   direction: &Vec<Scalar>,
                   steps: &Vec<Scalar>,
                   tolerance: ComparisonTolerance| {
            Ok::<Vec<u8>, String>(
                format!("{context}{state:?}{direction:?}{steps:?}{tolerance:?}").into_bytes(),
            )
        },
        layout: described_layout,
        product: |_: &&str, _: &Vec<Scalar>, direction: &Vec<Scalar>| {
            Ok::<Vec<Scalar>, SolveError>(scalars(&(operator.product)(&floats(direction))))
        },
        probe: |_: &&str,
                state: &Vec<Scalar>,
                direction: &Vec<Scalar>,
                row: usize,
                analytic: Scalar,
                steps: &Vec<Scalar>| {
            let state = floats(state);
            let errors: Vec<f64> = floats(steps)
                .iter()
                .map(|step| {
                    let at = |sign: f64| {
                        let moved: Vec<f64> = state
                            .iter()
                            .zip(direction)
                            .map(|(value, along)| value + sign * step * float(*along))
                            .collect();
                        (operator.residual)(&moved)[row]
                    };
                    ((at(1.0) - at(-1.0)) / (2.0 * step) - float(analytic)).abs()
                })
                .collect();
            Ok::<Vec<Scalar>, SolveError>(scalars(&errors))
        },
        allowed: |tolerance: ComparisonTolerance, analytic: Scalar| {
            scalar(float(tolerance.absolute) + float(tolerance.relative) * float(analytic).abs())
        },
        seal: |report: &CrossBlockDerivativeReport| Ok(format!("{report:?}").into_bytes()),
    };
    match report {
        Some(report) => report
            .validate(
                &operator.blocks,
                identity,
                &scalars(state),
                &scalars(direction),
                &scalars(steps),
                tolerance,
                tolerance_valid(tolerance),
                &calls,
            )
            .map(|validated: ValidatedKrasisVerification| (None, validated.accepted)),
        None => check_cross_block_derivatives(
            &operator.blocks,
            identity,
            &scalars(state),
            &scalars(direction),
            &scalars(steps),
            tolerance,
            tolerance_valid(tolerance),
            &calls,
        )
        .map(|report| (Some(report), true)),
    }
}

fn derivative_report(
    operator: &Probed,
    identity: &str,
    state: &[f64],
    direction: &[f64],
    steps: &[f64],
    tolerance: ComparisonTolerance,
) -> Result<CrossBlockDerivativeReport, VerificationRefusal> {
    derivatives(operator, identity, state, direction, steps, tolerance, None)
        .map(|(report, _)| report.unwrap())
}

fn described_layout(blocks: &Vec<BlockSpec>) -> Result<Vec<u8>, String> {
    Ok(format!("{blocks:?}").into_bytes())
}

/// Solves the two-block system by one strategy.
fn solve(
    operator: &Probed,
    start: &[f64],
    strategy: BlockStrategy,
    config: &NewtonConfig,
    iterations: usize,
) -> StrategyRun {
    let mut counted = CountedOperator::new();
    let mut state = start.to_vec();
    let tolerance = float(config.absolute_tolerance);
    let mut trace_length = 1;
    let mut converged = false;
    let column = |index: usize| {
        let mut direction = vec![0.0, 0.0];
        direction[index] = 1.0;
        (operator.product)(&direction)
    };
    let (first, second) = (column(0), column(1));
    counted.count_product();
    counted.count_product();
    for _ in 0..iterations {
        counted.count_residual();
        let residual = (operator.residual)(&state);
        if residual.iter().all(|value| value.abs() <= tolerance) {
            converged = true;
            break;
        }
        match strategy {
            BlockStrategy::Monolithic => {
                let determinant = first[0] * second[1] - second[0] * first[1];
                state[0] -= (residual[0] * second[1] - second[0] * residual[1]) / determinant;
                state[1] -= (first[0] * residual[1] - residual[0] * first[1]) / determinant;
            }
            BlockStrategy::GaussSeidel => {
                state[0] -= residual[0] / first[0];
                counted.count_residual();
                state[1] -= (operator.residual)(&state)[1] / second[1];
            }
            BlockStrategy::Jacobi => {
                state[0] -= residual[0] / first[0];
                state[1] -= residual[1] / second[1];
            }
        }
        trace_length += 1;
    }
    StrategyRun {
        solved: Ok(BlockSolveReport {
            state: scalars(&state),
            converged,
            trace_length,
        }),
        counted,
    }
}

/// What a strategy check is asked for.
struct Asked<'a> {
    operator: &'a Probed,
    identity: &'a str,
    context: &'a str,
    iterations: usize,
    tolerance: ComparisonTolerance,
    evaluations: u64,
}

fn strategies(
    asked: &Asked<'_>,
    report: Option<&StrategyWorkReport>,
) -> Result<(Option<StrategyWorkReport>, bool), VerificationRefusal> {
    let calls = StrategyContext {
        evaluation: asked.context,
        limits: (asked.evaluations, 100u64),
        describe: |context: &&str,
                   state: &Vec<Scalar>,
                   config: &NewtonConfig,
                   tolerance: ComparisonTolerance,
                   limits: &(u64, u64)| {
            Ok::<Vec<u8>, String>(
                format!("{context}{state:?}{config:?}{tolerance:?}{limits:?}").into_bytes(),
            )
        },
        layout: described_layout,
        solve: |_: &&str, start: &Vec<Scalar>, strategy: BlockStrategy, config: &NewtonConfig| {
            solve(asked.operator, &floats(start), strategy, config, asked.iterations)
        },
        budget: |count: WorkCount, limits: &(u64, u64)| WorkBudgetReport {
            count,
            accepted: count.operator_evaluations <= limits.0
                && count.nonlinear_iterations <= limits.1,
        },
        agree: |left: &Vec<Scalar>, right: &Vec<Scalar>, tolerance: ComparisonTolerance| {
            let difference = floats(left)
                .iter()
                .zip(&floats(right))
                .map(|(l, r)| (l - r).abs())
                .fold(0.0, f64::max);
            Ok::<ComparisonReport, SolveError>(ComparisonReport {
                accepted: difference <= float(tolerance.absolute),
                encoding: format!("{{\"difference\":{difference:e}}}"),
            })
        },
        seal: |report: &StrategyWorkReport| Ok(format!("{report:?}").into_bytes()),
    };
    let start = scalars(&[0.0, 0.0]);
    match report {
        Some(report) => report
            .validate(
                &asked.operator.blocks,
                asked.identity,
                &start,
                &newton(),
                asked.tolerance,
                tolerance_valid(asked.tolerance),
                &calls,
            )
            .map(|validated| (None, validated.accepted)),
        None => check_strategy_work(
            &asked.operator.blocks,
            asked.identity,
            &start,
            &newton(),
            asked.tolerance,
            tolerance_valid(asked.tolerance),
            &calls,
        )
        .map(|report| (Some(report), true)),
    }
}

fn strategy_report(asked: &Asked<'_>) -> Result<StrategyWorkReport, VerificationRefusal> {
    strategies(asked, None).map(|(report, _)| report.unwrap())
}

#[test]
fn isolated_cross_derivatives_and_counted_strategies_are_reusable() {
    let operator = two_block_linear(0.1);
    let tolerance = tolerance(2.0e-8, 2.0e-8);
    let (state, direction, steps) = ([0.2, -0.3], [0.7, -0.4], [1.0e-3, 5.0e-4]);
    let report = derivative_report(
        &operator,
        "two-block-linear/1",
        &state,
        &direction,
        &steps,
        tolerance,
    )
    .unwrap();
    assert!(report.passed, "{report:#?}");
    assert!(report.report_digest.starts_with("blake3:"));
    let (_, accepted) = derivatives(
        &operator,
        "two-block-linear/1",
        &state,
        &direction,
        &steps,
        tolerance,
        Some(&report),
    )
    .unwrap();
    assert!(accepted);
    assert_eq!(report.checks.len(), 2);
    assert!(report
        .checks
        .iter()
        .all(|check| check.source_block != check.target_block));

    let asked = Asked {
        operator: &operator,
        identity: "two-block-linear/1",
        context: "reproducible",
        iterations: 100,
        tolerance,
        evaluations: 1_000,
    };
    let first = strategy_report(&asked).unwrap();
    let second = strategy_report(&asked).unwrap();
    assert!(first.passed, "{first:#?}");
    assert!(strategies(&asked, Some(&first)).unwrap().1);
    assert!(strategies(
        &Asked {
            context: "default",
            ..asked
        },
        Some(&first)
    )
    .is_err());
    assert_eq!(first, second);
    assert_eq!(first.agreements.len(), 3);

    let tight = strategy_report(&Asked {
        evaluations: 0,
        ..asked
    })
    .unwrap();
    assert!(!tight.passed);
    assert_ne!(first.binding.config_identity, tight.binding.config_identity);

    let renamed = strategy_report(&Asked {
        identity: "two-block-linear/2",
        ..asked
    })
    .unwrap();
    assert_ne!(
        first.binding.operator_identity,
        renamed.binding.operator_identity
    );
}

#[test]
fn nonconverged_strategy_is_not_laundered_as_agreement() {
    let operator = two_block_linear(2.0);
    let report = strategy_report(&Asked {
        operator: &operator,
        identity: "strong-two-block-linear/1",
        context: "reproducible",
        iterations: 4,
        tolerance: tolerance(1.0e-10, 1.0e-10),
        evaluations: 1_000,
    })
    .unwrap();
    assert!(!report.passed);
    assert!(report.outcomes.iter().any(|(_, outcome)| {
        matches!(
            outcome,
            StrategyOutcome::NotConverged { .. } | StrategyOutcome::Refused { .. }
        )
    }));
}

#[test]
fn cross_derivative_tolerance_is_applied_per_target_component() {
    let report = derivative_report(
        &uneven_cross_derivative(),
        "uneven-cross-derivative/1",
        &[0.25, 0.0, 0.0],
        &[1.0, 1.0, 1.0],
        &[1.0e-4],
        tolerance(1.0e-12, 1.0e-5),
    )
    .unwrap();
    assert!(!report.passed);
    assert!(report.checks.iter().any(|check| {
        check.source_block == "source" && check.target_block == "target" && !check.accepted
    }));
}

fn bdf_config(tolerance: f64, minimum_step: f64, maximum_step: f64) -> BdfConfig {
    BdfConfig {
        absolute_tolerance: scalar(tolerance),
        relative_tolerance: scalar(tolerance),
        minimum_step: scalar(minimum_step),
        maximum_step: scalar(maximum_step),
        newton: newton(),
    }
}

fn initialize(_: &&str, time: Scalar, values: Vec<Scalar>) -> Result<BdfState, SolveError> {
    Ok(BdfState {
        time,
        values,
        previous_values: None,
        previous_step: None,
        accepted_steps: 0,
    })
}

fn encode(state: &BdfState) -> Result<Vec<u8>, String> {
    Ok(format!("{state:?}").into_bytes())
}

fn describe(
    context: &&str,
    state: &BdfState,
    step: Scalar,
    config: &BdfConfig,
) -> Result<Vec<u8>, String> {
    Ok(format!("{context}{state:?}{step:?}{config:?}").into_bytes())
}

fn seal(report: &EventStateReport) -> Result<Vec<u8>, String> {
    Ok(format!("{report:?}").into_bytes())
}

/// The next state and the events between the two, located by linear interpolation.
fn stepped(
    state: &BdfState,
    step: f64,
    next: f64,
    events: &[fn(f64) -> f64],
) -> Result<StepOutcome, String> {
    let (time, value) = (float(state.time), float(state.values[0]));
    let mut samples = Vec::new();
    for (index, event) in events.iter().enumerate() {
        let (before, after) = (event(value), event(next));
        if !before.is_finite() || !after.is_finite() {
            return Err("event function value is not finite".to_owned());
        }
        if (before < 0.0) != (after < 0.0) {
            samples.push(EventSample {
                index,
                time: scalar(time + step * before / (before - after)),
                value_before: scalar(before),
                value_after: scalar(after),
            });
        }
    }
    Ok(StepOutcome::Accepted(AcceptedStep {
        state: BdfState {
            time: scalar(time + step),
            values: scalars(&[next]),
            previous_values: Some(state.values.clone()),
            previous_step: Some(scalar(step)),
            accepted_steps: state.accepted_steps + 1,
        },
        events: samples,
        report: String::new(),
    }))
}

#[test]
fn generic_event_report_is_truthfully_scoped_and_directional() {
    let calls = EventContext {
        evaluation: CONTEXT,
        describe,
        encode,
        attempt: |_: &&str, state: &BdfState, step: Scalar, _: &BdfConfig| {
            let events: [fn(f64) -> f64; 2] = [|value| value - 0.5, |value| 0.5 - value];
            let step = float(step);
            stepped(state, step, float(state.values[0]) + step, &events)
        },
        seal,
    };
    let config = bdf_config(1.0e6, 1.0, 1.0);
    let report = check_event_state(
        1,
        "unit-speed-event/1",
        scalar(0.0),
        scalars(&[0.0]),
        scalar(1.0),
        &config,
        initialize,
        &calls,
    )
    .unwrap();
    assert!(report.passed);
    assert!(
        report
            .validate_initial(
                1,
                "unit-speed-event/1",
                scalar(0.0),
                scalars(&[0.0]),
                scalar(1.0),
                &config,
                initialize,
                &calls,
            )
            .unwrap()
            .accepted
    );
    assert!(report.accepted_step);
    assert_eq!(report.events.len(), 2);
    assert_eq!(report.events[0].direction, EventDirection::Rising);
    assert_eq!(report.events[1].direction, EventDirection::Falling);
    assert!(report
        .scope
        .contains("no Krasis CoupledExecution event persistence claim"));
}

#[test]
fn rejected_event_attempt_emits_nothing_and_nonfinite_events_refuse() {
    let state = BdfState {
        time: scalar(1.0),
        values: scalars(&[0.5]),
        previous_values: Some(scalars(&[1.0])),
        previous_step: Some(scalar(1.0)),
        accepted_steps: 1,
    };
    let strict = bdf_config(1.0e-12, 0.1, 1.0);
    // The second-order estimate exceeds the tolerance, so the step is rejected.
    let calls = EventContext {
        evaluation: CONTEXT,
        describe,
        encode,
        attempt: |_: &&str, _: &BdfState, _: Scalar, config: &BdfConfig| {
            assert!(float(config.absolute_tolerance) < 1.0e-6);
            Ok::<StepOutcome, String>(rejection())
        },
        seal,
    };
    let report = check_event_state_from(
        1,
        "decay-event/1",
        state.clone(),
        scalar(1.0),
        &strict,
        &calls,
    )
    .unwrap();
    assert!(report.passed);
    assert!(!report.accepted_step);
    assert!(report.events.is_empty());
    assert!(report.input_state_unchanged);
    assert!(
        report
            .validate_from_state(1, "decay-event/1", state, scalar(1.0), &strict, &calls)
            .unwrap()
            .accepted
    );

    let nonfinite = EventContext {
        evaluation: CONTEXT,
        describe,
        encode,
        attempt: |_: &&str, state: &BdfState, step: Scalar, _: &BdfConfig| {
            let events: [fn(f64) -> f64; 1] = [|_| f64::NAN];
            let step = float(step);
            stepped(state, step, float(state.values[0]) / (1.0 + step), &events)
        },
        seal,
    };
    let error = check_event_state(
        1,
        "nonfinite-event/1",
        scalar(0.0),
        scalars(&[1.0]),
        scalar(0.1),
        &bdf_config(1.0e6, 0.1, 0.1),
        initialize,
        &nonfinite,
    )
    .unwrap_err();
    assert_eq!(error.code, "KRASIS_VERIFY_EVENT_SOLVE");
    let mut fields = serde_json::Map::new();
    fields.insert("code".to_owned(), error.code.clone().into());
    fields.insert("message".to_owned(), error.message.clone().into());
    let encoded = serde_json::to_vec(&serde_json::Value::Object(fields)).unwrap();
    let read: serde_json::Value = serde_json::from_slice(&encoded).unwrap();
    let decoded = VerificationRefusal {
        code: read["code"].as_str().unwrap().to_owned(),
        message: read["message"].as_str().unwrap().to_owned(),
    };
    assert_eq!(decoded, error);
}

#[test]
fn malformed_probe_identities_and_dimensions_refuse() {
    let operator = two_block_linear(0.1);
    let refused = |identity: &str, direction: &[f64]| {
        derivative_report(
            &operator,
            identity,
            &[0.0, 0.0],
            direction,
            &[1.0e-3],
            tolerance(1.0e-8, 1.0e-8),
        )
        .is_err()
    };
    assert!(refused("", &[1.0, 1.0]));
    assert!(refused("two-block-linear/1", &[1.0]));
    assert!(refused("two-block-linear/1", &[0.0, 1.0]));
    assert!(strategy_report(&Asked {
        operator: &operator,
        identity: "two-block-linear/1",
        context: "reproducible",
        iterations: 100,
        tolerance: tolerance(0.0, 0.0),
        evaluations: 1_000,
    })
    .is_err());
}
