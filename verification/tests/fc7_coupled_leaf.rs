//! One mesh through a plan and through a one-leaf reduced system: the same verdicts.

use krasis::{
    check_history_and_rejection, check_restart_trajectory, check_rollback_identity,
    initial_state_from, AcceptedStep, AttemptDisposition, BdfConfig, BdfState, BlockId, BlockSpec,
    CheckContext, Constraint, CoupledCheckpoint, CoupledExecution, CoupledLeaf, CoupledOperator,
    CoupledSystemOperator, EvaluationRefusal, FieldBlock, FieldSource, FinitumRealization,
    FinitumSourceBinding, FinitumVerificationSource, HistoryReport, InitialData, NewtonConfig,
    NewtonReport, NodalContext, OperatorIdentity, RealizationPlan, ReducedSystem, RejectedStep,
    RestartContext, RestartTrajectoryReport, RollbackIdentityReport, RowKind, Scalar, SolveError,
    StateBlock, StateLayout, StepOutcome, SystemCalls, TrajectoryNorms, TransactionalOperator,
    VerificationBinding,
};
use serde_json::Value;
use std::cell::RefCell;

/// A block solver that takes any blocks but empty ones.
fn solver_accepts(blocks: &Vec<BlockSpec>) -> Result<(), String> {
    match blocks.iter().find(|block| block.length == 0) {
        Some(block) => Err(format!("block `{}` is empty", block.name)),
        None => Ok(()),
    }
}

const STEP: f64 = 0.025;
const STEPS: usize = 4;
const CONTEXT: &str = "reproducible";
const TRAJECTORY_TOLERANCE: f64 = 1.0e-10;

fn scalar(value: f64) -> Scalar {
    Scalar::from_bits(value.to_bits())
}

fn scalars(values: &[f64]) -> Vec<Scalar> {
    values.iter().map(|value| scalar(*value)).collect()
}

fn float(value: Scalar) -> f64 {
    f64::from_bits(value.to_bits())
}

/// A rejection on the error estimate.
fn rejection() -> StepOutcome {
    StepOutcome::Rejected(RejectedStep {
        report: "{\"error_norm\":4.0}".to_owned(),
    })
}

fn floats(values: &[Scalar]) -> Vec<f64> {
    values.iter().map(|value| float(*value)).collect()
}

fn render(value: Scalar) -> String {
    format!("{}", float(value))
}

type Matrix = Vec<Vec<f64>>;

fn apply(matrix: &Matrix, vector: &[f64]) -> Vec<f64> {
    matrix
        .iter()
        .map(|row| row.iter().zip(vector).map(|(a, b)| a * b).sum())
        .collect()
}

/// Solves a dense system by elimination with pivoting.
fn solve_dense(matrix: &Matrix, right: &[f64]) -> Vec<f64> {
    let n = right.len();
    let mut rows: Matrix = matrix.clone();
    let mut values = right.to_vec();
    for column in 0..n {
        let mut pivot = column;
        for row in column + 1..n {
            if rows[row][column].abs() > rows[pivot][column].abs() {
                pivot = row;
            }
        }
        rows.swap(column, pivot);
        values.swap(column, pivot);
        for row in column + 1..n {
            let factor = rows[row][column] / rows[column][column];
            for entry in column..n {
                let above = rows[column][entry];
                rows[row][entry] -= factor * above;
            }
            values[row] -= factor * values[column];
        }
    }
    for column in (0..n).rev() {
        for entry in column + 1..n {
            values[column] -= rows[column][entry] * values[entry];
        }
        values[column] /= rows[column][column];
    }
    values
}

fn max_abs_difference(left: &[f64], right: &[f64]) -> f64 {
    assert_eq!(left.len(), right.len());
    left.iter()
        .zip(right)
        .map(|(l, r)| (l - r).abs())
        .fold(0.0, f64::max)
}

/// Heat on a square of piecewise linear triangles, its wall unknowns pinned to zero.
#[derive(Clone)]
struct Heat {
    vertices: Vec<Vec<f64>>,
    walls: Vec<bool>,
    mass: Matrix,
    stiffness: Matrix,
}

fn heat(subdivisions: usize, diffusivity: f64, constrained: bool) -> Heat {
    let width = subdivisions + 1;
    let count = width * width;
    let vertices: Vec<Vec<f64>> = (0..count)
        .map(|index| {
            vec![
                (index % width) as f64 / subdivisions as f64,
                (index / width) as f64 / subdivisions as f64,
            ]
        })
        .collect();
    let walls: Vec<bool> = (0..count)
        .map(|index| {
            let (row, column) = (index / width, index % width);
            constrained
                && (row == 0 || column == 0 || row == subdivisions || column == subdivisions)
        })
        .collect();
    let mut mass = vec![vec![0.0; count]; count];
    let mut stiffness = vec![vec![0.0; count]; count];
    for row in 0..subdivisions {
        for column in 0..subdivisions {
            let lower_left = row * width + column;
            let lower_right = lower_left + 1;
            let upper_left = lower_left + width;
            let upper_right = upper_left + 1;
            for cell in [
                [lower_left, lower_right, upper_right],
                [lower_left, upper_right, upper_left],
            ] {
                let p: Vec<&Vec<f64>> = cell.iter().map(|vertex| &vertices[*vertex]).collect();
                let twice = (p[1][0] - p[0][0]) * (p[2][1] - p[0][1])
                    - (p[2][0] - p[0][0]) * (p[1][1] - p[0][1]);
                let area = twice / 2.0;
                let gradients: Vec<[f64; 2]> = (0..3)
                    .map(|i| {
                        let (a, b) = (p[(i + 1) % 3], p[(i + 2) % 3]);
                        [(a[1] - b[1]) / twice, (b[0] - a[0]) / twice]
                    })
                    .collect();
                for i in 0..3 {
                    for j in 0..3 {
                        if walls[cell[i]] || walls[cell[j]] {
                            continue;
                        }
                        let weight = if i == j { 2.0 } else { 1.0 };
                        mass[cell[i]][cell[j]] += area * weight / 12.0;
                        stiffness[cell[i]][cell[j]] += diffusivity
                            * area
                            * (gradients[i][0] * gradients[j][0]
                                + gradients[i][1] * gradients[j][1]);
                    }
                }
            }
        }
    }
    for (index, wall) in walls.iter().enumerate() {
        if *wall {
            stiffness[index][index] = 1.0;
        }
    }
    Heat {
        vertices,
        walls,
        mass,
        stiffness,
    }
}

impl Heat {
    fn dimension(&self) -> usize {
        self.vertices.len()
    }

    fn product(&self, state: &[f64], rate: &[f64]) -> Vec<f64> {
        let moved = apply(&self.mass, rate);
        let held = apply(&self.stiffness, state);
        (0..state.len()).map(|row| moved[row] + held[row]).collect()
    }

    fn row_kinds(&self) -> Vec<RowKind> {
        self.walls
            .iter()
            .map(|wall| {
                if *wall {
                    RowKind::Algebraic
                } else {
                    RowKind::Differential
                }
            })
            .collect()
    }

    fn constraints(&self) -> Vec<Constraint> {
        (0..self.dimension())
            .filter(|dof| self.walls[*dof])
            .map(|target| Constraint {
                target,
                dependencies: Vec::new(),
                offset: scalar(0.0),
            })
            .collect()
    }

    fn points(&self) -> Vec<Vec<Scalar>> {
        self.vertices.iter().map(|point| scalars(point)).collect()
    }
}

fn bump(point: &[f64]) -> f64 {
    (std::f64::consts::PI * point[0]).sin() * (std::f64::consts::PI * point[1]).sin()
}

/// The bump at the vertices, with the walls at rest.
fn bump_values(field: &Heat) -> Vec<f64> {
    field
        .vertices
        .iter()
        .zip(&field.walls)
        .map(|(point, wall)| if *wall { 0.0 } else { bump(point) })
        .collect()
}

fn newton() -> NewtonConfig {
    NewtonConfig {
        absolute_tolerance: scalar(1.0e-13),
        relative_tolerance: scalar(1.0e-12),
        initial_damping: scalar(1.0),
        minimum_damping: scalar(1.0e-4),
        encoding: "{\"absolute_tolerance\":1e-13}".to_owned(),
    }
}

type Residual<'a> = &'a dyn Fn(f64, &[f64], &[f64]) -> Result<Vec<f64>, SolveError>;
type Product<'a> = &'a dyn Fn(&[f64], &[f64]) -> Vec<f64>;

/// The matrix `dF/dx + shift dF/dx'` restricted to rows and columns.
fn jacobian(product: Product<'_>, n: usize, rows: &[usize], state: f64, rate: f64) -> Matrix {
    let columns: Vec<Vec<f64>> = rows
        .iter()
        .map(|column| {
            let mut direction = vec![0.0; n];
            direction[*column] = state;
            let mut rate_direction = vec![0.0; n];
            rate_direction[*column] = rate;
            product(&direction, &rate_direction)
        })
        .collect();
    rows.iter()
        .map(|row| columns.iter().map(|column| column[*row]).collect())
        .collect()
}

/// One backward step; a strict one with history is rejected on its error estimate.
fn bdf_step(
    residual: Residual<'_>,
    product: Product<'_>,
    state: &BdfState,
    step: f64,
    strict: bool,
) -> Result<StepOutcome, SolveError> {
    let values = floats(&state.values);
    let n = values.len();
    let shift = 1.0 / step;
    let time = float(state.time) + step;
    let value = residual(time, &values, &vec![0.0; n])?;
    let all: Vec<usize> = (0..n).collect();
    let correction = solve_dense(&jacobian(product, n, &all, 1.0, shift), &value);
    if strict && state.previous_values.is_some() {
        return Ok(rejection());
    }
    let next: Vec<f64> = values
        .iter()
        .zip(&correction)
        .map(|(value, change)| value - change)
        .collect();
    Ok(StepOutcome::Accepted(AcceptedStep {
        state: BdfState {
            time: scalar(time),
            values: scalars(&next),
            previous_values: Some(state.values.clone()),
            previous_step: Some(scalar(step)),
            accepted_steps: state.accepted_steps + 1,
        },
        events: Vec::new(),
        report: String::new(),
    }))
}

/// Solves for the rate of the given rows; the residual is linear in it.
fn rate_solve(
    residual: Residual<'_>,
    product: Product<'_>,
    state: &[f64],
    rows: &[usize],
) -> Result<NewtonReport, SolveError> {
    let n = state.len();
    let value = residual(0.0, state, &vec![0.0; n])?;
    let right: Vec<f64> = rows.iter().map(|row| -value[*row]).collect();
    Ok(NewtonReport {
        state: scalars(&solve_dense(&jacobian(product, n, rows, 0.0, 1.0), &right)),
        converged: true,
    })
}

fn fresh(time: Scalar, values: Vec<Scalar>) -> BdfState {
    BdfState {
        time,
        values,
        previous_values: None,
        previous_step: None,
        accepted_steps: 0,
    }
}

fn config() -> BdfConfig {
    BdfConfig {
        absolute_tolerance: scalar(1.0),
        relative_tolerance: scalar(1.0),
        minimum_step: scalar(STEP),
        maximum_step: scalar(STEP),
        newton: newton(),
    }
}

fn rejecting_config() -> BdfConfig {
    BdfConfig {
        absolute_tolerance: scalar(1.0e-16),
        relative_tolerance: scalar(1.0e-16),
        minimum_step: scalar(1.0e-8),
        maximum_step: scalar(STEP),
        newton: newton(),
    }
}

fn encode(checkpoint: &CoupledCheckpoint) -> Result<Vec<u8>, String> {
    Ok(format!("{checkpoint:?}").into_bytes())
}

/// Keeps encoded restart data, to be read back from their bytes.
struct Archive {
    kept: RefCell<Vec<(Vec<u8>, CoupledCheckpoint)>>,
}

impl Archive {
    fn new() -> Archive {
        Archive {
            kept: RefCell::new(Vec::new()),
        }
    }

    fn save(&self, checkpoint: &CoupledCheckpoint) -> Result<Vec<u8>, String> {
        let bytes = encode(checkpoint)?;
        self.kept
            .borrow_mut()
            .push((bytes.clone(), checkpoint.clone()));
        Ok(bytes)
    }

    fn load(&self, bytes: &[u8]) -> Result<CoupledCheckpoint, String> {
        self.kept
            .borrow()
            .iter()
            .find(|(kept, _)| kept == bytes)
            .map(|(_, checkpoint)| checkpoint.clone())
            .ok_or("unknown restart data".to_owned())
    }
}

fn norms(
    _: Scalar,
    step: Scalar,
    left: &Vec<Vec<Scalar>>,
    right: &Vec<Vec<Scalar>>,
) -> Result<TrajectoryNorms, String> {
    let differences: Vec<f64> = left
        .iter()
        .zip(right)
        .map(|(l, r)| max_abs_difference(&floats(l), &floats(r)))
        .collect();
    let sum: f64 = differences.iter().map(|value| value * value).sum();
    Ok(TrajectoryNorms {
        l_infinity: scalar(differences.iter().copied().fold(0.0, f64::max)),
        l2_time: scalar((sum * float(step)).sqrt()),
    })
}

fn sample(
    _: &str,
    point: &Vec<Scalar>,
    _: Scalar,
) -> Result<Vec<Scalar>, EvaluationRefusal> {
    let point = floats(point);
    let on_wall = point.iter().any(|x| *x == 0.0 || *x == 1.0);
    Ok(scalars(&[if on_wall { 0.0 } else { bump(&point) }]))
}

/// The steps of one path: through the plan's law, or through the composed residual.
struct Path<'a> {
    field: &'a Heat,
    system: Option<&'a CoupledSystemOperator>,
}

impl Path<'_> {
    fn residual(&self, state: &[f64], rate: &[f64]) -> Result<Vec<f64>, SolveError> {
        let Some(system) = self.system else {
            return Ok(self.field.product(state, rate));
        };
        let calls = SystemCalls {
            leaf: |_: usize, _: Scalar, parts: &Vec<Vec<Scalar>>| {
                Ok::<Vec<Scalar>, SolveError>(scalars(
                    &self.field.product(&floats(&parts[0]), &floats(&parts[1])),
                ))
            },
            action: |_: usize, source: &Vec<Scalar>| {
                Ok::<Vec<Scalar>, SolveError>(source.clone())
            },
            sum: |left: Scalar, right: Scalar| scalar(float(left) + float(right)),
        };
        let values = system
            .residual(
                scalar(0.0),
                &scalars(state),
                &scalars(rate),
                state.len(),
                &calls,
            )
            .unwrap();
        Ok(floats(&values))
    }

    fn step(
        &self,
        state: BdfState,
        step: Scalar,
        config: &BdfConfig,
    ) -> Result<StepOutcome, SolveError> {
        bdf_step(
            &|_: f64, state: &[f64], rate: &[f64]| self.residual(state, rate),
            &|direction: &[f64], rate: &[f64]| self.field.product(direction, rate),
            &state,
            float(step),
            float(config.absolute_tolerance) < 1.0e-6,
        )
    }
}

fn accept<Op: TransactionalOperator>(execution: &mut CoupledExecution<Op>, path: &Path<'_>) {
    let outcome = execution
        .attempt_step(
            &CONTEXT,
            scalar(STEP),
            &config(),
            &|_: &&str, state: BdfState, step: Scalar, config: &BdfConfig| {
                path.step(state, step, config)
            },
        )
        .unwrap();
    assert!(matches!(outcome, StepOutcome::Accepted(_)));
}

fn trajectory<Op: TransactionalOperator + Clone>(
    execution: &CoupledExecution<Op>,
    path: &Path<'_>,
) -> Vec<Vec<f64>> {
    let mut running = execution.clone();
    let mut states = vec![floats(&running.integrator().values)];
    for _ in 0..STEPS {
        accept(&mut running, path);
        states.push(floats(&running.integrator().values));
    }
    states
}

fn max_relative_difference(left: &[Vec<f64>], right: &[Vec<f64>]) -> f64 {
    let scale = left
        .iter()
        .flatten()
        .fold(0.0_f64, |scale, value| scale.max(value.abs()));
    assert!(scale > 0.0);
    left.iter()
        .zip(right)
        .map(|(left, right)| max_abs_difference(left, right))
        .fold(0.0_f64, f64::max)
        / scale
}

fn describe(context: &&str, step: Scalar, config: &BdfConfig) -> Result<Vec<u8>, String> {
    Ok(format!("{context}{step:?}{config:?}").into_bytes())
}

fn text(value: &str) -> Value {
    Value::String(value.to_owned())
}

fn object(entries: Vec<(&str, Value)>) -> Value {
    let mut map = serde_json::Map::new();
    for (key, value) in entries {
        map.insert(key.to_owned(), value);
    }
    Value::Object(map)
}

fn restart_json(report: &RestartTrajectoryReport) -> Value {
    let sources = report.binding.finitum_sources.iter().map(|source| {
        object(vec![
            ("realization_identity", text(&source.realization_identity)),
            ("verification", text(&source.verification)),
            ("accepted", Value::Bool(source.accepted)),
        ])
    });
    let binding = object(vec![
        ("schema", text(&report.binding.schema)),
        ("operator_identity", text(&report.binding.operator_identity)),
        ("layout_identity", text(&report.binding.layout_identity)),
        ("config_identity", text(&report.binding.config_identity)),
        ("finitum_sources", Value::Array(sources.collect())),
        (
            "finitum_verification_accepted",
            report
                .binding
                .finitum_verification_accepted
                .map_or(Value::Null, Value::Bool),
        ),
    ]);
    object(vec![
        ("report_digest", text(&report.report_digest)),
        ("binding", binding),
        ("split_after_steps", Value::from(report.split_after_steps)),
        ("total_steps", Value::from(report.total_steps)),
        (
            "initial_checkpoint_digest",
            text(&report.initial_checkpoint_digest),
        ),
        (
            "trajectory_l_infinity",
            Value::from(float(report.trajectory_l_infinity)),
        ),
        (
            "trajectory_l2_time",
            Value::from(float(report.trajectory_l2_time)),
        ),
        (
            "continuous_final_checkpoint_digest",
            text(&report.continuous_final_checkpoint_digest),
        ),
        (
            "restarted_final_checkpoint_digest",
            text(&report.restarted_final_checkpoint_digest),
        ),
        (
            "final_checkpoint_byte_identical",
            Value::Bool(report.final_checkpoint_byte_identical),
        ),
        ("passed", Value::Bool(report.passed)),
    ])
}

fn read_restart(value: &Value) -> RestartTrajectoryReport {
    let word = |value: &Value, key: &str| value[key].as_str().unwrap().to_owned();
    let count = |key: &str| value[key].as_u64().unwrap() as usize;
    let number = |key: &str| scalar(value[key].as_f64().unwrap());
    let binding = &value["binding"];
    let sources = binding["finitum_sources"].as_array().unwrap();
    RestartTrajectoryReport {
        report_digest: word(value, "report_digest"),
        binding: VerificationBinding {
            schema: word(binding, "schema"),
            operator_identity: word(binding, "operator_identity"),
            layout_identity: word(binding, "layout_identity"),
            config_identity: word(binding, "config_identity"),
            finitum_sources: sources
                .iter()
                .map(|source| FinitumSourceBinding {
                    realization_identity: word(source, "realization_identity"),
                    verification: word(source, "verification"),
                    accepted: source["accepted"].as_bool().unwrap(),
                })
                .collect(),
            finitum_verification_accepted: binding["finitum_verification_accepted"].as_bool(),
        },
        split_after_steps: count("split_after_steps"),
        total_steps: count("total_steps"),
        initial_checkpoint_digest: word(value, "initial_checkpoint_digest"),
        trajectory_l_infinity: number("trajectory_l_infinity"),
        trajectory_l2_time: number("trajectory_l2_time"),
        continuous_final_checkpoint_digest: word(value, "continuous_final_checkpoint_digest"),
        restarted_final_checkpoint_digest: word(value, "restarted_final_checkpoint_digest"),
        final_checkpoint_byte_identical: value["final_checkpoint_byte_identical"]
            .as_bool()
            .unwrap(),
        passed: value["passed"].as_bool().unwrap(),
    }
}

/// The three reports over one path.
struct Reports {
    rollback: RollbackIdentityReport,
    restart: RestartTrajectoryReport,
    history: HistoryReport,
    revalidated: bool,
}

fn reports<Op: TransactionalOperator + Clone>(
    execution: &CoupledExecution<Op>,
    path: &Path<'_>,
    source: &FinitumVerificationSource,
) -> Reports {
    let archive = Archive::new();
    let context = CheckContext {
        validate: |_: usize, _: usize| {
            let expected = bump_values(path.field);
            let values = floats(&execution.integrator().values);
            Ok::<bool, String>(max_abs_difference(&values, &expected) <= 1.0e-12)
        },
        encode: |checkpoint: &CoupledCheckpoint| archive.save(checkpoint),
        render,
    };
    let calls = RestartContext {
        decode: |bytes: &Vec<u8>| archive.load(bytes),
        norms,
        seal: |report: &RestartTrajectoryReport| Ok(format!("{report:?}").into_bytes()),
    };
    let attempt = |_: &&str, state: BdfState, step: Scalar, config: &BdfConfig| {
        path.step(state, step, config)
    };
    let described = |context: &&str, step: Scalar, total: usize, split: usize, config: &BdfConfig| {
        Ok::<Vec<u8>, String>(format!("{context}{step:?}{total}{split}{config:?}").into_bytes())
    };

    // Primed by one accepted step, so that there is an error estimate to reject on.
    let mut primed = execution.clone();
    accept(&mut primed, path);
    let rollback = check_rollback_identity(
        &primed,
        &CONTEXT,
        scalar(STEP),
        &rejecting_config(),
        &describe,
        source,
        &context,
        &attempt,
        |report: &RollbackIdentityReport| Ok(format!("{report:?}").into_bytes()),
    )
    .unwrap();
    let restart = check_restart_trajectory(
        execution,
        &CONTEXT,
        scalar(STEP),
        STEPS,
        2,
        &config(),
        &described,
        source,
        &context,
        &attempt,
        &calls,
    )
    .unwrap();
    let revalidated = restart
        .validate(
            execution,
            &CONTEXT,
            scalar(STEP),
            STEPS,
            2,
            &config(),
            &described,
            source,
            &context,
            &attempt,
            &calls,
        )
        .unwrap()
        .accepted;
    let history = check_history_and_rejection(
        execution,
        &CONTEXT,
        scalar(STEP),
        2,
        &config(),
        &rejecting_config(),
        &|context: &&str, step: Scalar, steps: usize, first: &BdfConfig, last: &BdfConfig| {
            Ok(format!("{context}{step:?}{steps}{first:?}{last:?}").into_bytes())
        },
        source,
        &context,
        &attempt,
        |report: &HistoryReport| Ok(format!("{report:?}").into_bytes()),
    )
    .unwrap();
    Reports {
        rollback,
        restart,
        history,
        revalidated,
    }
}

#[test]
fn one_leaf_reduced_system_sources_match_the_coupled_operator_path() {
    let field = heat(4, 1.0, true);
    let plan = RealizationPlan {
        dimension: field.dimension(),
        digest: "blake3:plan".to_owned(),
        algorithm: "blake3".to_owned(),
        hex: "plan".to_owned(),
        vertices: field.points(),
        quadrature: Vec::new(),
        constraints: field.constraints(),
        stored_inputs: Vec::new(),
    };
    let reduced = ReducedSystem {
        dimension: field.dimension(),
        digest: "blake3:reduced".to_owned(),
        constraint_encoding: format!("{:?}", field.walls).into_bytes(),
        fields: vec![FieldBlock {
            variable: 0,
            offset: 0,
            extent: field.dimension(),
        }],
        vertices: field.points(),
        constraints: field.constraints(),
    };
    let plan_layout = StateLayout::new(vec![StateBlock::new(
        BlockId::new("u"),
        0..field.dimension(),
    )])
    .unwrap();
    let plan_operator = CoupledOperator::new(plan.clone(), &plan_layout, &solver_accepts).unwrap();
    let leaf = CoupledLeaf::reduced_system("system", reduced.clone()).unwrap();
    let system_operator =
        CoupledSystemOperator::new(vec![leaf], Vec::new(), &solver_accepts).unwrap();
    assert_eq!(system_operator.layout().blocks().len(), 1);
    assert_eq!(system_operator.realizations().len(), 1);
    assert_eq!(
        system_operator.realizations()[0].identity(),
        reduced.content_identity()
    );
    let system_block = system_operator.layout().blocks()[0].id().clone();
    assert_eq!(plan_operator.dimension(), system_operator.dimension());

    // The initial state over both layouts, and the composition's own projection, are equal.
    let vertices = field.points();
    let nodal = NodalContext::new(&vertices).unwrap();
    let data = |block: &BlockId| InitialData {
        bindings: vec![(block.clone(), FieldSource::Fallible)],
        sample,
        render,
    };
    let plan_state =
        initial_state_from(&plan_layout, &nodal, 2, &data(&BlockId::new("u"))).unwrap();
    let system_state =
        initial_state_from(system_operator.layout(), &nodal, 2, &data(&system_block)).unwrap();
    let projected = system_operator
        .initial_state_from(2, &data(&system_block))
        .unwrap();
    assert_eq!(
        plan_state.committed_vector().unwrap(),
        system_state.committed_vector().unwrap()
    );
    assert_eq!(
        system_state.committed_vector().unwrap(),
        projected.committed_vector().unwrap()
    );

    let plan_path = Path {
        field: &field,
        system: None,
    };
    let system_copy = system_operator.clone();
    let system_path = Path {
        field: &field,
        system: Some(&system_copy),
    };
    let start = |time: Scalar, values: Vec<Scalar>| Ok::<BdfState, SolveError>(fresh(time, values));
    let plan_execution = CoupledExecution::new(plan_operator, plan_state, start).unwrap();
    let system_execution = CoupledExecution::new(system_operator, system_state, start).unwrap();

    // The trajectories agree.
    let left = trajectory(&plan_execution, &plan_path);
    let right = trajectory(&system_execution, &system_path);
    let difference = max_relative_difference(&left, &right);
    assert!(
        difference <= TRAJECTORY_TOLERANCE,
        "plan vs system trajectory relative difference {difference:e}"
    );

    // The evidence over the plan and over the reduced system.
    let plan_source = FinitumVerificationSource::check_patch(
        &FinitumRealization::from(&plan),
        Ok("finitum-patch/1".to_owned()),
    )
    .unwrap();
    let system_source = FinitumVerificationSource::check_patch(
        &FinitumRealization::from(&reduced),
        Ok("finitum-patch/1".to_owned()),
    )
    .unwrap();
    let plan_reports = reports(&plan_execution, &plan_path, &plan_source);
    let system_reports = reports(&system_execution, &system_path, &system_source);

    let (plan_rollback, system_rollback) = (&plan_reports.rollback, &system_reports.rollback);
    assert!(plan_rollback.passed, "{plan_rollback:#?}");
    assert!(system_rollback.passed, "{system_rollback:#?}");
    assert_eq!(plan_rollback.disposition, AttemptDisposition::Rejected);
    assert_eq!(system_rollback.disposition, plan_rollback.disposition);
    assert!(plan_rollback.byte_identical && system_rollback.byte_identical);
    assert_eq!(system_rollback.binding.schema, "krasis-verification/2");
    assert_eq!(system_rollback.binding.finitum_sources.len(), 1);
    assert_eq!(
        system_rollback.binding.finitum_sources[0].realization_identity,
        reduced.content_identity()
    );
    assert_eq!(
        system_rollback.binding.finitum_verification_accepted,
        plan_rollback.binding.finitum_verification_accepted
    );
    assert_eq!(
        system_rollback.binding.finitum_verification_accepted,
        Some(true)
    );

    for reports in [&plan_reports, &system_reports] {
        let restart = &reports.restart;
        assert!(restart.passed, "{restart:#?}");
        assert_eq!(float(restart.trajectory_l_infinity), 0.0);
        assert_eq!(float(restart.trajectory_l2_time), 0.0);
        assert!(restart.final_checkpoint_byte_identical);
        let history = &reports.history;
        assert!(history.passed, "{history:#?}");
        assert!(history.synchronized);
        assert!(history.rejection_byte_identical);
        assert_eq!(history.accepted_steps, 2);
    }
    assert!(system_reports.revalidated);
    let encoded = serde_json::to_vec(&restart_json(&system_reports.restart)).unwrap();
    let decoded = read_restart(&serde_json::from_slice(&encoded).unwrap());
    assert_eq!(decoded, system_reports.restart);
    assert_eq!(
        plan_reports.history.rejected_attempt,
        system_reports.history.rejected_attempt
    );
    let depths = |report: &HistoryReport| -> Vec<usize> {
        report
            .field_history_depths
            .iter()
            .map(|entry| entry.depth)
            .collect()
    };
    assert_eq!(
        depths(&plan_reports.history),
        depths(&system_reports.history)
    );
    assert_eq!(
        system_reports.history.field_history_depths[0].field,
        system_block.as_str()
    );

    // Evidence bound to the other path's realization is refused on both sides.
    let context = CheckContext {
        validate: |_: usize, _: usize| Ok::<bool, String>(true),
        encode,
        render,
    };
    let seal = |report: &RollbackIdentityReport| Ok(format!("{report:?}").into_bytes());
    let crossed = check_rollback_identity(
        &system_execution,
        &CONTEXT,
        scalar(STEP),
        &rejecting_config(),
        &describe,
        &plan_source,
        &context,
        &|_: &&str, state: BdfState, step: Scalar, config: &BdfConfig| {
            system_path.step(state, step, config)
        },
        seal,
    )
    .unwrap_err();
    assert_eq!(crossed.code, "KRASIS_VERIFY_FINITUM_SOURCE");
    let crossed = check_rollback_identity(
        &plan_execution,
        &CONTEXT,
        scalar(STEP),
        &rejecting_config(),
        &describe,
        &system_source,
        &context,
        &|_: &&str, state: BdfState, step: Scalar, config: &BdfConfig| {
            plan_path.step(state, step, config)
        },
        seal,
    )
    .unwrap_err();
    assert_eq!(crossed.code, "KRASIS_VERIFY_FINITUM_SOURCE");
}
