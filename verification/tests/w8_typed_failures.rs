//! Typed evaluation failures through steps, initialization, initial data and checks.

use krasis::{
    check_cross_block_derivatives, check_history_and_rejection, check_restart_trajectory,
    check_rollback_identity, initial_state_from, AcceptedStep, AttemptDisposition, BdfConfig,
    BdfState, BlockId, BlockSpec, CheckContext, ComparisonTolerance, Constraint, CoupledCheckpoint,
    CoupledExecution, CoupledLeaf, CoupledSystemOperator, CouplingArgument, CouplingEdge,
    CrossBlockDerivativeReport, DerivativeContext, EvaluationRefusal, FieldBlock, FieldId,
    FieldSource, FinitumRealization, FinitumVerificationSource, HistoryReport, InitialData,
    KrasisError, NewtonConfig, NewtonReport, NodalContext, NumericError, ReducedSystem,
    RejectedStep, RestartContext, RestartTrajectoryReport, RollbackIdentityReport, RowKind, Scalar,
    SemanticId, SimulationState, SolveError, StateBinding, StepOutcome, SystemCalls,
    TrajectoryNorms, TransactionPhase, TransactionalOperator,
};
use std::cell::{Cell, RefCell};

/// A block solver that takes any blocks but empty ones.
fn solver_accepts(blocks: &Vec<BlockSpec>) -> Result<(), String> {
    match blocks.iter().find(|block| block.length == 0) {
        Some(block) => Err(format!("block `{}` is empty", block.name)),
        None => Ok(()),
    }
}

fn scalar(value: f64) -> Scalar {
    Scalar::from_bits(value.to_bits())
}

fn scalars(values: &[f64]) -> Vec<Scalar> {
    values.iter().map(|value| scalar(*value)).collect()
}

fn float(value: Scalar) -> f64 {
    f64::from_bits(value.to_bits())
}

/// A rejection on the error estimate.
fn rejection() -> StepOutcome {
    StepOutcome::Rejected(RejectedStep {
        report: "{\"error_norm\":4.0}".to_owned(),
    })
}

fn floats(values: &[Scalar]) -> Vec<f64> {
    values.iter().map(|value| float(*value)).collect()
}

fn render(value: Scalar) -> String {
    format!("{}", float(value))
}

type Matrix = Vec<Vec<f64>>;

fn apply(matrix: &Matrix, vector: &[f64]) -> Vec<f64> {
    matrix
        .iter()
        .map(|row| row.iter().zip(vector).map(|(a, b)| a * b).sum())
        .collect()
}

/// Solves a dense system by elimination with pivoting.
fn solve_dense(matrix: &Matrix, right: &[f64]) -> Vec<f64> {
    let n = right.len();
    let mut rows: Matrix = matrix.clone();
    let mut values = right.to_vec();
    for column in 0..n {
        let mut pivot = column;
        for row in column + 1..n {
            if rows[row][column].abs() > rows[pivot][column].abs() {
                pivot = row;
            }
        }
        rows.swap(column, pivot);
        values.swap(column, pivot);
        for row in column + 1..n {
            let factor = rows[row][column] / rows[column][column];
            for entry in column..n {
                let above = rows[column][entry];
                rows[row][entry] -= factor * above;
            }
            values[row] -= factor * values[column];
        }
    }
    for column in (0..n).rev() {
        for entry in column + 1..n {
            values[column] -= rows[column][entry] * values[entry];
        }
        values[column] /= rows[column][column];
    }
    values
}

fn max_abs_difference(left: &[f64], right: &[f64]) -> f64 {
    assert_eq!(left.len(), right.len());
    left.iter()
        .zip(right)
        .map(|(l, r)| (l - r).abs())
        .fold(0.0, f64::max)
}

/// Heat on a square of piecewise linear triangles, its wall unknowns pinned to zero.
#[derive(Clone)]
struct Heat {
    vertices: Vec<Vec<f64>>,
    walls: Vec<bool>,
    mass: Matrix,
    stiffness: Matrix,
}

fn heat(subdivisions: usize, diffusivity: f64, constrained: bool) -> Heat {
    let width = subdivisions + 1;
    let count = width * width;
    let vertices: Vec<Vec<f64>> = (0..count)
        .map(|index| {
            vec![
                (index % width) as f64 / subdivisions as f64,
                (index / width) as f64 / subdivisions as f64,
            ]
        })
        .collect();
    let walls: Vec<bool> = (0..count)
        .map(|index| {
            let (row, column) = (index / width, index % width);
            constrained
                && (row == 0 || column == 0 || row == subdivisions || column == subdivisions)
        })
        .collect();
    let mut mass = vec![vec![0.0; count]; count];
    let mut stiffness = vec![vec![0.0; count]; count];
    for row in 0..subdivisions {
        for column in 0..subdivisions {
            let lower_left = row * width + column;
            let lower_right = lower_left + 1;
            let upper_left = lower_left + width;
            let upper_right = upper_left + 1;
            for cell in [
                [lower_left, lower_right, upper_right],
                [lower_left, upper_right, upper_left],
            ] {
                let p: Vec<&Vec<f64>> = cell.iter().map(|vertex| &vertices[*vertex]).collect();
                let twice = (p[1][0] - p[0][0]) * (p[2][1] - p[0][1])
                    - (p[2][0] - p[0][0]) * (p[1][1] - p[0][1]);
                let area = twice / 2.0;
                let gradients: Vec<[f64; 2]> = (0..3)
                    .map(|i| {
                        let (a, b) = (p[(i + 1) % 3], p[(i + 2) % 3]);
                        [(a[1] - b[1]) / twice, (b[0] - a[0]) / twice]
                    })
                    .collect();
                for i in 0..3 {
                    for j in 0..3 {
                        if walls[cell[i]] || walls[cell[j]] {
                            continue;
                        }
                        let weight = if i == j { 2.0 } else { 1.0 };
                        mass[cell[i]][cell[j]] += area * weight / 12.0;
                        stiffness[cell[i]][cell[j]] += diffusivity
                            * area
                            * (gradients[i][0] * gradients[j][0]
                                + gradients[i][1] * gradients[j][1]);
                    }
                }
            }
        }
    }
    for (index, wall) in walls.iter().enumerate() {
        if *wall {
            stiffness[index][index] = 1.0;
        }
    }
    Heat {
        vertices,
        walls,
        mass,
        stiffness,
    }
}

impl Heat {
    fn dimension(&self) -> usize {
        self.vertices.len()
    }

    fn product(&self, state: &[f64], rate: &[f64]) -> Vec<f64> {
        let moved = apply(&self.mass, rate);
        let held = apply(&self.stiffness, state);
        (0..state.len()).map(|row| moved[row] + held[row]).collect()
    }

    fn row_kinds(&self) -> Vec<RowKind> {
        self.walls
            .iter()
            .map(|wall| {
                if *wall {
                    RowKind::Algebraic
                } else {
                    RowKind::Differential
                }
            })
            .collect()
    }

    fn constraints(&self) -> Vec<Constraint> {
        (0..self.dimension())
            .filter(|dof| self.walls[*dof])
            .map(|target| Constraint {
                target,
                dependencies: Vec::new(),
                offset: scalar(0.0),
            })
            .collect()
    }

    fn points(&self) -> Vec<Vec<Scalar>> {
        self.vertices.iter().map(|point| scalars(point)).collect()
    }
}

fn bump(point: &[f64]) -> f64 {
    (std::f64::consts::PI * point[0]).sin() * (std::f64::consts::PI * point[1]).sin()
}

/// The bump at the vertices, with the walls at rest.
fn bump_values(field: &Heat) -> Vec<f64> {
    field
        .vertices
        .iter()
        .zip(&field.walls)
        .map(|(point, wall)| if *wall { 0.0 } else { bump(point) })
        .collect()
}

fn newton() -> NewtonConfig {
    NewtonConfig {
        absolute_tolerance: scalar(1.0e-13),
        relative_tolerance: scalar(1.0e-12),
        initial_damping: scalar(1.0),
        minimum_damping: scalar(1.0e-4),
        encoding: "{\"absolute_tolerance\":1e-13}".to_owned(),
    }
}

type Residual<'a> = &'a dyn Fn(f64, &[f64], &[f64]) -> Result<Vec<f64>, SolveError>;
type Product<'a> = &'a dyn Fn(&[f64], &[f64]) -> Vec<f64>;

/// The matrix `dF/dx + shift dF/dx'` restricted to rows and columns.
fn jacobian(product: Product<'_>, n: usize, rows: &[usize], state: f64, rate: f64) -> Matrix {
    let columns: Vec<Vec<f64>> = rows
        .iter()
        .map(|column| {
            let mut direction = vec![0.0; n];
            direction[*column] = state;
            let mut rate_direction = vec![0.0; n];
            rate_direction[*column] = rate;
            product(&direction, &rate_direction)
        })
        .collect();
    rows.iter()
        .map(|row| columns.iter().map(|column| column[*row]).collect())
        .collect()
}

/// Whether a configuration asks for more than a second-order estimate can give.
fn strict(config: &BdfConfig) -> bool {
    float(config.absolute_tolerance) < 1.0e-6
}

/// One backward step; a strict one with history is rejected on its error estimate.
fn bdf_step(
    residual: Residual<'_>,
    product: Product<'_>,
    state: &BdfState,
    step: f64,
    strict: bool,
) -> Result<StepOutcome, SolveError> {
    let values = floats(&state.values);
    let n = values.len();
    let shift = 1.0 / step;
    let time = float(state.time) + step;
    let value = residual(time, &values, &vec![0.0; n])?;
    let all: Vec<usize> = (0..n).collect();
    let correction = solve_dense(&jacobian(product, n, &all, 1.0, shift), &value);
    if strict && state.previous_values.is_some() {
        return Ok(rejection());
    }
    let next: Vec<f64> = values
        .iter()
        .zip(&correction)
        .map(|(value, change)| value - change)
        .collect();
    Ok(StepOutcome::Accepted(AcceptedStep {
        state: BdfState {
            time: scalar(time),
            values: scalars(&next),
            previous_values: Some(state.values.clone()),
            previous_step: Some(scalar(step)),
            accepted_steps: state.accepted_steps + 1,
        },
        events: Vec::new(),
        report: String::new(),
    }))
}

/// Solves for the rate of the given rows; the residual is linear in it.
fn rate_solve(
    residual: Residual<'_>,
    product: Product<'_>,
    state: &[f64],
    rows: &[usize],
) -> Result<NewtonReport, SolveError> {
    let n = state.len();
    let value = residual(0.0, state, &vec![0.0; n])?;
    let right: Vec<f64> = rows.iter().map(|row| -value[*row]).collect();
    Ok(NewtonReport {
        state: scalars(&solve_dense(&jacobian(product, n, rows, 0.0, 1.0), &right)),
        converged: true,
    })
}

fn fresh(time: Scalar, values: Vec<Scalar>) -> BdfState {
    BdfState {
        time,
        values,
        previous_values: None,
        previous_step: None,
        accepted_steps: 0,
    }
}

const FIELD: u32 = 4;
const SECOND_INSTANCE_OFFSET: u32 = 100;
const STEP: f64 = 0.02;
const CONTEXT: &str = "reproducible";
const STEPS: usize = 5;

const CODE: &str = "PROVIDER_LAW_UNSUPPORTED";
const ORIGIN: &str = "constitutive/diffusivity";
const MESSAGE: &str = "outside the calibrated range";
const REFUSING_CELL: usize = 3;

/// Counts the evaluations of the hot leaf and refuses them when armed.
struct Probe {
    armed_after: Cell<Option<f64>>,
    values: Cell<usize>,
    refusals: Cell<usize>,
    directions: Cell<usize>,
}

impl Probe {
    fn new() -> Probe {
        Probe {
            armed_after: Cell::new(None),
            values: Cell::new(0),
            refusals: Cell::new(0),
            directions: Cell::new(0),
        }
    }

    fn arm(&self) {
        self.armed_after.set(Some(f64::NEG_INFINITY));
    }

    fn arm_after(&self, time: f64) {
        self.armed_after.set(Some(time));
    }

    fn disarm(&self) {
        self.armed_after.set(None);
    }

    fn evaluate(&self, time: f64) -> Result<(), SolveError> {
        self.values.set(self.values.get() + 1);
        match self.armed_after.get() {
            Some(after) if time > after => {
                self.refusals.set(self.refusals.get() + 1);
                let refusal = EvaluationRefusal {
                    code: CODE.to_owned(),
                    origin: ORIGIN.to_owned(),
                    message: format!(
                        "point (0.625, 0.125), t = {time}, cell {REFUSING_CELL}: {MESSAGE}"
                    ),
                };
                let text = format!("{CODE} at {ORIGIN}: {}", refusal.message);
                Err(SolveError {
                    refusal: Some(refusal),
                    text,
                })
            }
            _ => Ok(()),
        }
    }
}

/// Two heat leaves on two meshes, the cold one heated by the hot one.
struct Fixture {
    operator: CoupledSystemOperator,
    hot: Heat,
    cold: Heat,
    exchange: Matrix,
    probe: Probe,
}

fn reduced_system(name: &str, field: &Heat) -> ReducedSystem {
    ReducedSystem {
        dimension: field.dimension(),
        digest: format!("blake3:{name}"),
        constraint_encoding: format!("{:?}", field.walls).into_bytes(),
        fields: vec![FieldBlock {
            variable: FIELD,
            offset: 0,
            extent: field.dimension(),
        }],
        vertices: field.points(),
        constraints: field.constraints(),
    }
}

/// `scale` times the cold mass matrix applied to the hot values at the cold vertices.
fn sampling_matrix(cold: &Heat, hot: &Heat, scale: f64) -> Matrix {
    let sample: Matrix = cold
        .vertices
        .iter()
        .map(|point| {
            hot.vertices
                .iter()
                .map(|vertex| {
                    if max_abs_difference(vertex, point) < 1.0e-12 {
                        1.0
                    } else {
                        0.0
                    }
                })
                .collect()
        })
        .collect();
    cold.mass
        .iter()
        .map(|row| {
            (0..hot.dimension())
                .map(|column| {
                    scale
                        * row
                            .iter()
                            .zip(&sample)
                            .map(|(mass, from)| mass * from[column])
                            .sum::<f64>()
                })
                .collect()
        })
        .collect()
}

fn two_heat_leaves(scale: f64, constrained: bool, when_algebraic: bool) -> Fixture {
    let hot = heat(4, 1.0, constrained);
    let cold = heat(2, 0.5, constrained);
    let hot_leaf = CoupledLeaf::reduced_system("hot", reduced_system("hot", &hot))
        .unwrap()
        .with_row_kinds(hot.row_kinds())
        .unwrap();
    let cold_leaf = CoupledLeaf::reduced_system("cold", reduced_system("cold", &cold))
        .unwrap()
        .with_row_kinds(cold.row_kinds())
        .unwrap();
    let cold_binding = StateBinding::new(
        cold_leaf.layout(),
        vec![(
            SemanticId::new(FIELD + SECOND_INSTANCE_OFFSET),
            BlockId::new(&format!("cold/field_{FIELD}")),
        )],
    )
    .unwrap();
    let cold_leaf = cold_leaf.with_binding(cold_binding).unwrap();
    let exchange = sampling_matrix(&cold, &hot, -scale);
    let edges = if scale == 0.0 {
        Vec::new()
    } else {
        vec![CouplingEdge::matrix(
            "cold",
            "hot",
            CouplingArgument::State,
            cold.dimension(),
            hot.dimension(),
            &format!("{exchange:?}"),
        )]
    };
    let operator =
        CoupledSystemOperator::new(vec![hot_leaf, cold_leaf], edges, &solver_accepts).unwrap();
    let operator = if when_algebraic {
        operator.with_consistent_initialization_when_algebraic(newton())
    } else {
        operator.with_consistent_initialization(newton())
    }
    .unwrap();
    Fixture {
        operator,
        hot,
        cold,
        exchange,
        probe: Probe::new(),
    }
}

fn solve_error(error: NumericError) -> SolveError {
    match error {
        NumericError::Reported(reported) => reported,
        other => SolveError {
            refusal: None,
            text: format!("{other:?}"),
        },
    }
}

impl Fixture {
    fn dimension(&self) -> usize {
        self.operator.layout().width()
    }

    fn residual(&self, time: f64, state: &[f64], rate: &[f64]) -> Result<Vec<f64>, SolveError> {
        let calls = SystemCalls {
            leaf: |leaf: usize, time: Scalar, parts: &Vec<Vec<Scalar>>| {
                let field = if leaf == 0 { &self.hot } else { &self.cold };
                if leaf == 0 {
                    self.probe.evaluate(float(time))?;
                }
                Ok(scalars(
                    &field.product(&floats(&parts[0]), &floats(&parts[1])),
                ))
            },
            action: |_: usize, source: &Vec<Scalar>| {
                Ok::<Vec<Scalar>, SolveError>(scalars(&apply(&self.exchange, &floats(source))))
            },
            sum: |left: Scalar, right: Scalar| scalar(float(left) + float(right)),
        };
        self.operator
            .residual(
                scalar(time),
                &scalars(state),
                &scalars(rate),
                self.dimension(),
                &calls,
            )
            .map(|values| floats(&values))
            .map_err(solve_error)
    }

    fn product(&self, direction: &[f64], rate_direction: &[f64]) -> Vec<f64> {
        let zero = vec![0.0; self.dimension()];
        let calls = SystemCalls {
            leaf: |leaf: usize, _: Scalar, parts: &Vec<Vec<Scalar>>| {
                let field = if leaf == 0 { &self.hot } else { &self.cold };
                if leaf == 0 {
                    self.probe.directions.set(self.probe.directions.get() + 1);
                }
                Ok::<Vec<Scalar>, SolveError>(scalars(
                    &field.product(&floats(&parts[2]), &floats(&parts[3])),
                ))
            },
            action: |_: usize, source: &Vec<Scalar>| {
                Ok::<Vec<Scalar>, SolveError>(scalars(&apply(&self.exchange, &floats(source))))
            },
            sum: |left: Scalar, right: Scalar| scalar(float(left) + float(right)),
        };
        let values = self
            .operator
            .jacobian_vector_product(
                scalar(0.0),
                &scalars(&zero),
                &scalars(&zero),
                &scalars(direction),
                &scalars(rate_direction),
                self.dimension(),
                &calls,
            )
            .unwrap();
        floats(&values)
    }

    fn step(
        &self,
        state: BdfState,
        step: Scalar,
        config: &BdfConfig,
    ) -> Result<StepOutcome, SolveError> {
        bdf_step(
            &|time: f64, state: &[f64], rate: &[f64]| self.residual(time, state, rate),
            &|direction: &[f64], rate: &[f64]| self.product(direction, rate),
            &state,
            float(step),
            strict(config),
        )
    }

    fn rate(&self, state: &[f64]) -> Result<Vec<Scalar>, KrasisError> {
        self.operator.solve_consistent_state_rate(
            scalar(0.0),
            &scalars(state),
            |_: &NewtonConfig, _: Scalar, at: &Vec<Scalar>, rows: Vec<usize>, _: Vec<Scalar>| {
                self.solve_rows(&floats(at), &rows)
            },
            |time: Scalar, at: &Vec<Scalar>, rate: Vec<Scalar>| {
                self.residual(float(time), &floats(at), &floats(&rate))
                    .map(|values| scalars(&values))
            },
            &render,
        )
    }

    fn solve_rows(&self, state: &[f64], rows: &[usize]) -> Result<NewtonReport, SolveError> {
        rate_solve(
            &|time: f64, state: &[f64], rate: &[f64]| self.residual(time, state, rate),
            &|direction: &[f64], rate: &[f64]| self.product(direction, rate),
            state,
            rows,
        )
    }

    fn make_consistent(&self, state: &Vec<Scalar>) -> Result<(), NumericError> {
        self.operator.make_initial_state_consistent(
            scalar(0.0),
            state,
            |_: &NewtonConfig, _: Scalar, at: &Vec<Scalar>, rows: Vec<usize>, _: Vec<Scalar>| {
                self.solve_rows(&floats(at), &rows)
            },
            |time: Scalar, at: &Vec<Scalar>, rate: Vec<Scalar>| {
                self.residual(float(time), &floats(at), &floats(&rate))
                    .map(|values| scalars(&values))
            },
            &render,
        )
    }

    fn start(&self) -> Result<CoupledExecution<CoupledSystemOperator>, KrasisError> {
        CoupledExecution::new(
            self.operator.clone(),
            initial_state(self),
            |time: Scalar, values: Vec<Scalar>| {
                self.make_consistent(&values).map_err(|error| match error {
                    NumericError::Evaluation(refusal) => SolveError {
                        text: refusal.message.clone(),
                        refusal: Some(refusal),
                    },
                    other => solve_error(other),
                })?;
                Ok(fresh(time, values))
            },
        )
    }
}

/// A bump on the hot leaf, the cold leaf at rest.
fn initial_values(fixture: &Fixture) -> Vec<f64> {
    let mut values = bump_values(&fixture.hot);
    values.extend(vec![0.0; fixture.cold.dimension()]);
    values
}

fn initial_state(fixture: &Fixture) -> SimulationState {
    let values = initial_values(fixture);
    let mut state = SimulationState::new(fixture.operator.layout().clone(), 4);
    for block in fixture.operator.layout().blocks() {
        state
            .insert_field(
                FieldId::new(block.id().as_str()),
                scalars(&values[block.range()]),
            )
            .unwrap();
    }
    state
}

fn accept(execution: &mut CoupledExecution<CoupledSystemOperator>, fixture: &Fixture) {
    let outcome = execution
        .attempt_step(
            &CONTEXT,
            scalar(STEP),
            &config(),
            &|_: &&str, state: BdfState, step: Scalar, config: &BdfConfig| {
                fixture.step(state, step, config)
            },
        )
        .unwrap();
    assert!(matches!(outcome, StepOutcome::Accepted(_)));
}

fn committed(execution: &CoupledExecution<CoupledSystemOperator>) -> Vec<f64> {
    floats(&execution.state().committed_vector().unwrap())
}

fn config() -> BdfConfig {
    BdfConfig {
        absolute_tolerance: scalar(1.0),
        relative_tolerance: scalar(1.0),
        minimum_step: scalar(STEP),
        maximum_step: scalar(STEP),
        newton: newton(),
    }
}

fn rejecting_config() -> BdfConfig {
    BdfConfig {
        absolute_tolerance: scalar(1.0e-16),
        relative_tolerance: scalar(1.0e-16),
        minimum_step: scalar(1.0e-8),
        maximum_step: scalar(STEP),
        newton: newton(),
    }
}

fn encode(checkpoint: &CoupledCheckpoint) -> Result<Vec<u8>, String> {
    Ok(format!("{checkpoint:?}").into_bytes())
}

/// Keeps encoded restart data, to be read back from their bytes.
struct Archive {
    kept: RefCell<Vec<(Vec<u8>, CoupledCheckpoint)>>,
}

impl Archive {
    fn new() -> Archive {
        Archive {
            kept: RefCell::new(Vec::new()),
        }
    }

    fn save(&self, checkpoint: &CoupledCheckpoint) -> Result<Vec<u8>, String> {
        let bytes = encode(checkpoint)?;
        self.kept
            .borrow_mut()
            .push((bytes.clone(), checkpoint.clone()));
        Ok(bytes)
    }

    fn load(&self, bytes: &[u8]) -> Result<CoupledCheckpoint, String> {
        self.kept
            .borrow()
            .iter()
            .find(|(kept, _)| kept == bytes)
            .map(|(_, checkpoint)| checkpoint.clone())
            .ok_or("unknown restart data".to_owned())
    }
}

fn norms(
    _: Scalar,
    step: Scalar,
    left: &Vec<Vec<Scalar>>,
    right: &Vec<Vec<Scalar>>,
) -> Result<TrajectoryNorms, String> {
    let differences: Vec<f64> = left
        .iter()
        .zip(right)
        .map(|(l, r)| max_abs_difference(&floats(l), &floats(r)))
        .collect();
    let sum: f64 = differences.iter().map(|value| value * value).sum();
    Ok(TrajectoryNorms {
        l_infinity: scalar(differences.iter().copied().fold(0.0, f64::max)),
        l2_time: scalar((sum * float(step)).sqrt()),
    })
}

fn checkpoint_bytes(execution: &CoupledExecution<CoupledSystemOperator>) -> Vec<u8> {
    encode(&execution.checkpoint().unwrap()).unwrap()
}

/// How many times one residual evaluation reaches the hot leaf, and how many of those
/// refuse.
fn per_residual(fixture: &Fixture, time: f64) -> (usize, usize) {
    let state = initial_values(fixture);
    let (calls, refusals) = (fixture.probe.values.get(), fixture.probe.refusals.get());
    let _ = fixture.residual(time, &state, &vec![0.0; state.len()]);
    (
        fixture.probe.values.get() - calls,
        fixture.probe.refusals.get() - refusals,
    )
}

fn assert_typed(error: &KrasisError, time: f64) -> EvaluationRefusal {
    let KrasisError::EvaluationRefused {
        code,
        origin,
        message,
    } = error
    else {
        panic!("expected a typed evaluation refusal, got {error:?}");
    };
    assert_eq!(code, CODE);
    assert_eq!(origin, ORIGIN);
    assert!(
        message.starts_with("point (")
            && message.contains(&format!(", t = {time}, "))
            && message.ends_with(&format!("cell {REFUSING_CELL}: {MESSAGE}")),
        "located message: {message}"
    );
    assert_eq!(
        error.message(&render),
        format!("{CODE} at {ORIGIN}: {message}")
    );
    EvaluationRefusal {
        code: code.clone(),
        origin: origin.clone(),
        message: message.clone(),
    }
}

/// A solver that counts the implicit solves it is asked for.
struct CountingSolver {
    calls: Cell<usize>,
}

#[test]
fn a_typed_constitutive_refusal_is_the_transaction_outcome_rolled_back_after_one_attempt() {
    let fixture = two_heat_leaves(0.8, true, false);
    let mut execution = fixture.start().unwrap();
    // One accepted step first, so the refusal interrupts a trajectory with history.
    accept(&mut execution, &fixture);
    let before = checkpoint_bytes(&execution);
    let refused_time = float(execution.integrator().time) + STEP;

    fixture.probe.arm();
    let (_, refusals_per_residual) = per_residual(&fixture, refused_time);
    assert!(refusals_per_residual >= 1);
    let value_refusals = fixture.probe.refusals.get();
    let directions = fixture.probe.directions.get();
    let solver = CountingSolver {
        calls: Cell::new(0),
    };
    let counted = |_: &&str,
                   state: BdfState,
                   step: Scalar,
                   config: &BdfConfig,
                   solver: &CountingSolver| {
        solver.calls.set(solver.calls.get() + 1);
        fixture.step(state, step, config)
    };
    let error = execution
        .attempt_step_with(&CONTEXT, scalar(STEP), &config(), &solver, &counted)
        .unwrap_err();
    let refusal = assert_typed(&error, refused_time);

    // Exactly one attempt: one implicit solve, one residual evaluation, no Jacobian action,
    // and an error rather than a rejected step.
    assert_eq!(solver.calls.get(), 1);
    assert_eq!(
        fixture.probe.refusals.get() - value_refusals,
        refusals_per_residual
    );
    assert_eq!(fixture.probe.directions.get() - directions, 0);

    // Rolled back bitwise; the log carries the same code and origin; the checkpoint does
    // not carry the log.
    assert_eq!(execution.state().phase(), TransactionPhase::Committed);
    assert_eq!(checkpoint_bytes(&execution), before);
    assert_eq!(execution.integrator().accepted_steps, 1);
    let log = execution.evaluation_refusals();
    assert_eq!(log.len(), 1);
    assert_eq!(log[0].refusal, refusal);
    assert_eq!(float(log[0].time), STEP);
    assert_eq!(float(log[0].step), STEP);

    // Every way of making the attempt returns the identical typed outcome.
    let dense = execution
        .attempt_step(
            &CONTEXT,
            scalar(STEP),
            &config(),
            &|_: &&str, state: BdfState, step: Scalar, config: &BdfConfig| {
                fixture.step(state, step, config)
            },
        )
        .unwrap_err();
    assert_eq!(dense, error);
    let again = execution
        .attempt_step_with(&CONTEXT, scalar(STEP), &config(), &solver, &counted)
        .unwrap_err();
    assert_eq!(again, error);
    assert_eq!(execution.evaluation_refusals().len(), 3);
    assert_eq!(checkpoint_bytes(&execution), before);

    // Disarmed, the execution continues from the rolled-back state along the trajectory of
    // the composition that never refused.
    fixture.probe.disarm();
    for _ in 1..STEPS {
        accept(&mut execution, &fixture);
    }
    let clean = two_heat_leaves(0.8, true, false);
    let mut reference = clean.start().unwrap();
    for _ in 0..STEPS {
        accept(&mut reference, &clean);
    }
    assert_eq!(
        execution.state().committed_vector().unwrap(),
        reference.state().committed_vector().unwrap()
    );
    assert!(reference.evaluation_refusals().is_empty());
}

#[test]
fn a_typed_refusal_during_consistent_initialization_is_typed_from_coupled_execution_new() {
    let fixture = two_heat_leaves(0.8, true, false);
    fixture.probe.arm();

    // The composed operator passes the typed error on unchanged.
    let initial = initial_values(&fixture);
    let state = scalars(&initial);
    let error = fixture.make_consistent(&state).unwrap_err();
    let NumericError::Evaluation(refusal) = &error else {
        panic!("{error:?}");
    };
    assert_eq!(refusal.code, CODE);
    assert_eq!(refusal.origin, ORIGIN);
    assert_eq!(state, scalars(&initial));
    let error = fixture.rate(&initial).unwrap_err();
    assert_typed(&error, 0.0);

    // ... and so does the execution's constructor.
    let error = fixture.start().unwrap_err();
    assert_typed(&error, 0.0);
}

#[test]
fn initial_state_from_evaluates_a_fallible_source_at_the_initial_time_and_refuses_typed() {
    let fixture = two_heat_leaves(0.8, true, false);
    let hot_block = BlockId::new(&format!("hot/field_{FIELD}"));
    let cold_block = BlockId::new(&format!("cold/field_{FIELD}"));
    let both = || {
        vec![
            (hot_block.clone(), FieldSource::Fallible),
            (cold_block.clone(), FieldSource::Constant(scalars(&[0.0]))),
        ]
    };
    let times: RefCell<Vec<f64>> = RefCell::new(Vec::new());
    let value = |point: &Vec<Scalar>| {
        let point = floats(point);
        if point.iter().any(|x| *x == 0.0 || *x == 1.0) {
            0.0
        } else {
            bump(&point)
        }
    };
    let observed = |bindings: Vec<(BlockId, FieldSource)>| InitialData {
        bindings,
        sample: |_: &str, point: &Vec<Scalar>, time: Scalar| {
            times.borrow_mut().push(float(time));
            Ok::<Vec<Scalar>, EvaluationRefusal>(scalars(&[value(point)]))
        },
        render,
    };

    // A time-observed source projects exactly as the baseline, at the initial time.
    let plain = InitialData {
        bindings: both(),
        sample: |_: &str, point: &Vec<Scalar>, _: Scalar| {
            Ok::<Vec<Scalar>, EvaluationRefusal>(scalars(&[value(point)]))
        },
        render,
    };
    let sampled = fixture.operator.initial_state_from(4, &plain).unwrap();
    let projected = fixture
        .operator
        .initial_state_from(4, &observed(both()))
        .unwrap();
    assert_eq!(
        projected.committed_vector().unwrap(),
        sampled.committed_vector().unwrap()
    );
    assert_eq!(
        projected.committed_vector().unwrap(),
        scalars(&initial_values(&fixture))
    );
    assert_eq!(float(projected.time()), 0.0);
    let hot_leaf = &fixture.operator.leaves()[0];
    let vertices = fixture.hot.points();
    let nodal = NodalContext::new(&vertices).unwrap();
    let direct = initial_state_from(
        hot_leaf.layout(),
        &nodal,
        4,
        &observed(vec![(hot_block.clone(), FieldSource::Fallible)]),
    )
    .unwrap();
    assert_eq!(
        &direct.committed_vector().unwrap(),
        projected
            .committed(&FieldId::new(hot_block.as_str()))
            .unwrap()
    );
    assert_eq!(times.borrow().len(), 2 * fixture.hot.dimension());
    assert!(times.borrow().iter().all(|time| *time == 0.0));

    // A refusing one is the typed refusal, located at the first refusing vertex and at the
    // initial time.
    let refusing = |bindings: Vec<(BlockId, FieldSource)>| InitialData {
        bindings,
        sample: |_: &str, point: &Vec<Scalar>, _: Scalar| {
            if float(point[0]) > 0.6 {
                Err(EvaluationRefusal {
                    code: "RUN_INITIAL_DATA_UNAVAILABLE".to_owned(),
                    origin: "initial/u".to_owned(),
                    message: "no initial datum here".to_owned(),
                })
            } else {
                Ok(scalars(&[value(point)]))
            }
        },
        render,
    };
    let vertex = fixture
        .hot
        .vertices
        .iter()
        .find(|point| point[0] > 0.6)
        .unwrap();
    let expected = KrasisError::EvaluationRefused {
        code: "RUN_INITIAL_DATA_UNAVAILABLE".into(),
        origin: "initial/u".into(),
        message: format!(
            "point ({}, {}), t = 0: no initial datum here",
            vertex[0], vertex[1]
        ),
    };
    let error = initial_state_from(
        hot_leaf.layout(),
        &nodal,
        4,
        &refusing(vec![(hot_block.clone(), FieldSource::Fallible)]),
    )
    .unwrap_err();
    assert_eq!(error, expected);
    let error = fixture
        .operator
        .initial_state_from(4, &refusing(both()))
        .unwrap_err();
    assert_eq!(error, expected);
    assert_eq!(
        error.message(&render),
        format!(
            "RUN_INITIAL_DATA_UNAVAILABLE at initial/u: point ({}, {}), t = 0: no initial datum here",
            vertex[0], vertex[1]
        )
    );
}

#[test]
fn check_functions_report_the_producer_code_when_the_operator_refuses() {
    let fixture = two_heat_leaves(0.8, true, false);
    let execution = fixture.start().unwrap();
    let values = initial_values(&fixture);
    let hot_reduced = reduced_system("hot", &fixture.hot);
    let cold_reduced = reduced_system("cold", &fixture.cold);
    let patch = |reduced: &ReducedSystem| {
        FinitumVerificationSource::check_patch(
            &FinitumRealization::from(reduced),
            Ok("finitum-patch/1".to_owned()),
        )
        .unwrap()
    };
    let source =
        FinitumVerificationSource::compose(vec![patch(&hot_reduced), patch(&cold_reduced)]);
    let archive = Archive::new();
    let context = CheckContext {
        validate: |_: usize, _: usize| Ok::<bool, String>(true),
        encode: |checkpoint: &CoupledCheckpoint| archive.save(checkpoint),
        render,
    };
    let attempt = |_: &&str, state: BdfState, step: Scalar, config: &BdfConfig| {
        fixture.step(state, step, config)
    };
    let seal = |report: &RollbackIdentityReport| Ok(format!("{report:?}").into_bytes());
    let probed = |context: &&str, step: Scalar, config: &BdfConfig| {
        Ok::<Vec<u8>, String>(format!("{context}{step:?}{config:?}").into_bytes())
    };
    let typed_prefix = format!("{ORIGIN}: point (");

    // Without a refusal the rollback report has none.
    let plain = check_rollback_identity(
        &execution,
        &CONTEXT,
        scalar(STEP),
        &config(),
        &probed,
        &source,
        &context,
        &attempt,
        seal,
    )
    .unwrap();
    assert_eq!(plain.disposition, AttemptDisposition::UnexpectedAccepted);
    assert!(plain.evaluation_refusal.is_none());

    // A refusing operator inside a derivative check: the refusal carries the producer's
    // code.
    fixture.probe.arm();
    let dimension = fixture.dimension();
    let direction: Vec<f64> = (0..dimension)
        .map(|index| ((index as f64 + 0.3) * 0.618_034).sin())
        .collect();
    let calls = DerivativeContext {
        evaluation: CONTEXT,
        describe: |context: &&str,
                   state: &Vec<Scalar>,
                   direction: &Vec<Scalar>,
                   steps: &Vec<Scalar>,
                   tolerance: ComparisonTolerance| {
            Ok::<Vec<u8>, String>(
                format!("{context}{state:?}{direction:?}{steps:?}{tolerance:?}").into_bytes(),
            )
        },
        layout: |blocks: &Vec<BlockSpec>| Ok::<Vec<u8>, String>(format!("{blocks:?}").into_bytes()),
        product: |_: &&str, _: &Vec<Scalar>, direction: &Vec<Scalar>| {
            let zero = vec![0.0; dimension];
            Ok::<Vec<Scalar>, SolveError>(scalars(&fixture.product(&floats(direction), &zero)))
        },
        probe: |_: &&str,
                state: &Vec<Scalar>,
                direction: &Vec<Scalar>,
                _: usize,
                _: Scalar,
                steps: &Vec<Scalar>| {
            let ahead: Vec<f64> = state
                .iter()
                .zip(direction)
                .map(|(value, along)| float(*value) + float(steps[0]) * float(*along))
                .collect();
            fixture
                .residual(0.0, &ahead, &vec![0.0; dimension])
                .map(|_| scalars(&[0.0, 0.0]))
        },
        allowed: |tolerance: ComparisonTolerance, _: Scalar| tolerance.absolute,
        seal: |report: &CrossBlockDerivativeReport| Ok(format!("{report:?}").into_bytes()),
    };
    let refusal = check_cross_block_derivatives(
        &fixture.operator.block_layout(),
        fixture.operator.identity(),
        &scalars(&values),
        &scalars(&direction),
        &scalars(&[1.0e-3, 1.0e-4]),
        ComparisonTolerance {
            absolute: scalar(1.0e-12),
            relative: scalar(1.0e-12),
        },
        Ok(()),
        &calls,
    )
    .unwrap_err();
    assert_eq!(refusal.code, CODE);
    assert!(
        refusal.message.starts_with(&typed_prefix),
        "{}",
        refusal.message
    );
    assert!(refusal.message.ends_with(MESSAGE), "{}", refusal.message);

    // The probed attempt of a rollback check: rolled back byte-identically as any solver
    // error, with the typed refusal in the report; it revalidates.
    let rollback = check_rollback_identity(
        &execution,
        &CONTEXT,
        scalar(STEP),
        &config(),
        &probed,
        &source,
        &context,
        &attempt,
        seal,
    )
    .unwrap();
    assert_eq!(rollback.disposition, AttemptDisposition::SolverError);
    assert!(rollback.byte_identical);
    assert!(rollback.passed, "{rollback:#?}");
    let recorded = rollback
        .evaluation_refusal
        .clone()
        .expect("typed refusal recorded");
    assert_eq!(recorded.code, CODE);
    assert_eq!(recorded.origin, ORIGIN);
    assert!(recorded.message.contains(&format!(", t = {STEP}, ")));
    assert!(
        rollback
            .validate(
                &execution,
                &CONTEXT,
                scalar(STEP),
                &config(),
                &probed,
                &source,
                &context,
                &attempt,
                seal,
            )
            .unwrap()
            .accepted
    );

    // A refusal on the way to a required accepted step is the check's refusal, typed.
    fixture.probe.arm_after(STEP);
    let restart_calls = RestartContext {
        decode: |bytes: &Vec<u8>| archive.load(bytes),
        norms,
        seal: |report: &RestartTrajectoryReport| Ok(format!("{report:?}").into_bytes()),
    };
    let refusal = check_restart_trajectory(
        &execution,
        &CONTEXT,
        scalar(STEP),
        4,
        2,
        &config(),
        &|context: &&str, step: Scalar, total: usize, split: usize, config: &BdfConfig| {
            Ok(format!("{context}{step:?}{total}{split}{config:?}").into_bytes())
        },
        &source,
        &context,
        &attempt,
        &restart_calls,
    )
    .unwrap_err();
    assert_eq!(refusal.code, CODE);
    assert!(
        refusal.message.starts_with(&typed_prefix),
        "{}",
        refusal.message
    );

    // The history check: one accepted step, then the rejection attempt refuses typed and is
    // rolled back byte-identically.
    let history = check_history_and_rejection(
        &execution,
        &CONTEXT,
        scalar(STEP),
        1,
        &config(),
        &rejecting_config(),
        &|context: &&str, step: Scalar, steps: usize, first: &BdfConfig, last: &BdfConfig| {
            Ok(format!("{context}{step:?}{steps}{first:?}{last:?}").into_bytes())
        },
        &source,
        &context,
        &attempt,
        |report: &HistoryReport| Ok(format!("{report:?}").into_bytes()),
    )
    .unwrap();
    assert!(history.synchronized);
    assert_eq!(history.rejected_attempt, AttemptDisposition::SolverError);
    assert!(history.rejection_byte_identical);
    assert!(history.passed, "{history:#?}");
    let recorded = history
        .evaluation_refusal
        .clone()
        .expect("typed refusal recorded");
    assert_eq!(recorded.code, CODE);
    assert_eq!(recorded.origin, ORIGIN);
    assert!(recorded
        .message
        .contains(&format!(", t = {}, ", 2.0 * STEP)));
    assert!(execution.evaluation_refusals().is_empty());
}

#[test]
fn consistent_initialization_when_algebraic_solves_only_with_an_algebraic_row() {
    for constrained in [true, false] {
        let always = two_heat_leaves(0.8, constrained, false);
        let when = two_heat_leaves(0.8, constrained, true);
        assert_ne!(always.operator.identity(), when.operator.identity());
        assert!(always.operator.identity().contains(":consistent-init="));
        assert!(when.operator.identity().contains(":consistent-init="));
        let (calls_per_residual, _) = per_residual(&when, 0.0);
        assert!(calls_per_residual >= 1);

        let always_calls = always.probe.values.get();
        let when_calls = when.probe.values.get();
        let when_directions = when.probe.directions.get();
        let mut always_execution = always.start().unwrap();
        let mut when_execution = when.start().unwrap();
        let always_solved = always.probe.values.get() - always_calls;
        let when_solved = when.probe.values.get() - when_calls;
        // The rate is always solved under the first policy.
        assert!(always.probe.directions.get() > 0);
        if constrained {
            // An algebraic row: both policies solve alike.
            assert!(when_solved > calls_per_residual);
            assert_eq!(when_solved, always_solved);
            assert_eq!(
                when.probe.directions.get() - when_directions,
                always.probe.directions.get()
            );
        } else {
            // All rows differential: exactly one residual evaluation and no Jacobian action.
            assert_eq!(when_solved, calls_per_residual);
            assert_eq!(when.probe.directions.get() - when_directions, 0);
        }

        // Identical committed initial state, identical trajectory.
        assert_eq!(
            when_execution.state().committed_vector().unwrap(),
            always_execution.state().committed_vector().unwrap()
        );
        for _ in 0..STEPS {
            accept(&mut always_execution, &always);
            accept(&mut when_execution, &when);
            let always_values = committed(&always_execution);
            let when_values = committed(&when_execution);
            assert!(max_abs_difference(&always_values, &when_values) <= 1.0e-12);
            assert_eq!(scalars(&always_values), scalars(&when_values));
        }
        assert_eq!(always_execution.integrator().accepted_steps, STEPS as u64);
    }
}
