//! Two reduced-system leaves on two meshes as one transient system.

use krasis::{
    block_state_layout, check_history_and_rejection, check_restart_trajectory,
    check_rollback_identity, AcceptedStep, AttemptDisposition, BdfConfig, BdfState, BlockId,
    BlockSpec, CheckContext, Constraint, CoupledCheckpoint, CoupledExecution, CoupledLeaf,
    CoupledSystemOperator, CouplingArgument, CouplingEdge, EvaluationRefusal, FieldBlock, FieldId,
    FieldSource, FinitumRealization, FinitumVerificationSource, HistoryReport, InitialData,
    KrasisError, NewtonConfig, NewtonReport, NumericError, OperatorIdentity, ReducedSystem,
    RejectedStep, RestartContext, RestartTrajectoryReport, RollbackIdentityReport, RowKind, Scalar,
    SemanticId, SimulationState, SolveError, StateBinding, StateBlock, StateLayout, StepOutcome,
    SystemCalls, TrajectoryNorms, TransactionalOperator,
};
use std::cell::{Cell, RefCell};

/// A block solver that takes any blocks but empty ones.
fn solver_accepts(blocks: &Vec<BlockSpec>) -> Result<(), String> {
    match blocks.iter().find(|block| block.length == 0) {
        Some(block) => Err(format!("block `{}` is empty", block.name)),
        None => Ok(()),
    }
}

fn scalar(value: f64) -> Scalar {
    Scalar::from_bits(value.to_bits())
}

fn scalars(values: &[f64]) -> Vec<Scalar> {
    values.iter().map(|value| scalar(*value)).collect()
}

fn float(value: Scalar) -> f64 {
    f64::from_bits(value.to_bits())
}

/// A rejection on the error estimate.
fn rejection() -> StepOutcome {
    StepOutcome::Rejected(RejectedStep {
        report: "{\"error_norm\":4.0}".to_owned(),
    })
}

fn floats(values: &[Scalar]) -> Vec<f64> {
    values.iter().map(|value| float(*value)).collect()
}

fn render(value: Scalar) -> String {
    format!("{}", float(value))
}

type Matrix = Vec<Vec<f64>>;

fn apply(matrix: &Matrix, vector: &[f64]) -> Vec<f64> {
    matrix
        .iter()
        .map(|row| row.iter().zip(vector).map(|(a, b)| a * b).sum())
        .collect()
}

/// Solves a dense system by elimination with pivoting.
fn solve_dense(matrix: &Matrix, right: &[f64]) -> Vec<f64> {
    let n = right.len();
    let mut rows: Matrix = matrix.clone();
    let mut values = right.to_vec();
    for column in 0..n {
        let mut pivot = column;
        for row in column + 1..n {
            if rows[row][column].abs() > rows[pivot][column].abs() {
                pivot = row;
            }
        }
        rows.swap(column, pivot);
        values.swap(column, pivot);
        for row in column + 1..n {
            let factor = rows[row][column] / rows[column][column];
            for entry in column..n {
                let above = rows[column][entry];
                rows[row][entry] -= factor * above;
            }
            values[row] -= factor * values[column];
        }
    }
    for column in (0..n).rev() {
        for entry in column + 1..n {
            values[column] -= rows[column][entry] * values[entry];
        }
        values[column] /= rows[column][column];
    }
    values
}

fn max_abs_difference(left: &[f64], right: &[f64]) -> f64 {
    assert_eq!(left.len(), right.len());
    left.iter()
        .zip(right)
        .map(|(l, r)| (l - r).abs())
        .fold(0.0, f64::max)
}

/// Heat on a square of piecewise linear triangles, its wall unknowns pinned to zero.
#[derive(Clone)]
struct Heat {
    vertices: Vec<Vec<f64>>,
    walls: Vec<bool>,
    mass: Matrix,
    stiffness: Matrix,
}

fn heat(subdivisions: usize, diffusivity: f64, constrained: bool) -> Heat {
    let width = subdivisions + 1;
    let count = width * width;
    let vertices: Vec<Vec<f64>> = (0..count)
        .map(|index| {
            vec![
                (index % width) as f64 / subdivisions as f64,
                (index / width) as f64 / subdivisions as f64,
            ]
        })
        .collect();
    let walls: Vec<bool> = (0..count)
        .map(|index| {
            let (row, column) = (index / width, index % width);
            constrained
                && (row == 0 || column == 0 || row == subdivisions || column == subdivisions)
        })
        .collect();
    let mut mass = vec![vec![0.0; count]; count];
    let mut stiffness = vec![vec![0.0; count]; count];
    for row in 0..subdivisions {
        for column in 0..subdivisions {
            let lower_left = row * width + column;
            let lower_right = lower_left + 1;
            let upper_left = lower_left + width;
            let upper_right = upper_left + 1;
            for cell in [
                [lower_left, lower_right, upper_right],
                [lower_left, upper_right, upper_left],
            ] {
                let p: Vec<&Vec<f64>> = cell.iter().map(|vertex| &vertices[*vertex]).collect();
                let twice = (p[1][0] - p[0][0]) * (p[2][1] - p[0][1])
                    - (p[2][0] - p[0][0]) * (p[1][1] - p[0][1]);
                let area = twice / 2.0;
                let gradients: Vec<[f64; 2]> = (0..3)
                    .map(|i| {
                        let (a, b) = (p[(i + 1) % 3], p[(i + 2) % 3]);
                        [(a[1] - b[1]) / twice, (b[0] - a[0]) / twice]
                    })
                    .collect();
                for i in 0..3 {
                    for j in 0..3 {
                        if walls[cell[i]] || walls[cell[j]] {
                            continue;
                        }
                        let weight = if i == j { 2.0 } else { 1.0 };
                        mass[cell[i]][cell[j]] += area * weight / 12.0;
                        stiffness[cell[i]][cell[j]] += diffusivity
                            * area
                            * (gradients[i][0] * gradients[j][0]
                                + gradients[i][1] * gradients[j][1]);
                    }
                }
            }
        }
    }
    for (index, wall) in walls.iter().enumerate() {
        if *wall {
            stiffness[index][index] = 1.0;
        }
    }
    Heat {
        vertices,
        walls,
        mass,
        stiffness,
    }
}

impl Heat {
    fn dimension(&self) -> usize {
        self.vertices.len()
    }

    fn product(&self, state: &[f64], rate: &[f64]) -> Vec<f64> {
        let moved = apply(&self.mass, rate);
        let held = apply(&self.stiffness, state);
        (0..state.len()).map(|row| moved[row] + held[row]).collect()
    }

    fn row_kinds(&self) -> Vec<RowKind> {
        self.walls
            .iter()
            .map(|wall| {
                if *wall {
                    RowKind::Algebraic
                } else {
                    RowKind::Differential
                }
            })
            .collect()
    }

    fn constraints(&self) -> Vec<Constraint> {
        (0..self.dimension())
            .filter(|dof| self.walls[*dof])
            .map(|target| Constraint {
                target,
                dependencies: Vec::new(),
                offset: scalar(0.0),
            })
            .collect()
    }

    fn points(&self) -> Vec<Vec<Scalar>> {
        self.vertices.iter().map(|point| scalars(point)).collect()
    }
}

fn bump(point: &[f64]) -> f64 {
    (std::f64::consts::PI * point[0]).sin() * (std::f64::consts::PI * point[1]).sin()
}

/// The bump at the vertices, with the walls at rest.
fn bump_values(field: &Heat) -> Vec<f64> {
    field
        .vertices
        .iter()
        .zip(&field.walls)
        .map(|(point, wall)| if *wall { 0.0 } else { bump(point) })
        .collect()
}

fn newton() -> NewtonConfig {
    NewtonConfig {
        absolute_tolerance: scalar(1.0e-13),
        relative_tolerance: scalar(1.0e-12),
        initial_damping: scalar(1.0),
        minimum_damping: scalar(1.0e-4),
        encoding: "{\"absolute_tolerance\":1e-13}".to_owned(),
    }
}

type Residual<'a> = &'a dyn Fn(f64, &[f64], &[f64]) -> Result<Vec<f64>, SolveError>;
type Product<'a> = &'a dyn Fn(&[f64], &[f64]) -> Vec<f64>;

/// The matrix `dF/dx + shift dF/dx'` restricted to rows and columns.
fn jacobian(product: Product<'_>, n: usize, rows: &[usize], state: f64, rate: f64) -> Matrix {
    let columns: Vec<Vec<f64>> = rows
        .iter()
        .map(|column| {
            let mut direction = vec![0.0; n];
            direction[*column] = state;
            let mut rate_direction = vec![0.0; n];
            rate_direction[*column] = rate;
            product(&direction, &rate_direction)
        })
        .collect();
    rows.iter()
        .map(|row| columns.iter().map(|column| column[*row]).collect())
        .collect()
}

/// Whether a configuration asks for more than a second-order estimate can give.
fn strict(config: &BdfConfig) -> bool {
    float(config.absolute_tolerance) < 1.0e-6
}

/// One backward step; a strict one with history is rejected on its error estimate.
fn bdf_step(
    residual: Residual<'_>,
    product: Product<'_>,
    state: &BdfState,
    step: f64,
    strict: bool,
) -> Result<StepOutcome, SolveError> {
    let values = floats(&state.values);
    let n = values.len();
    let shift = 1.0 / step;
    let time = float(state.time) + step;
    let value = residual(time, &values, &vec![0.0; n])?;
    let all: Vec<usize> = (0..n).collect();
    let correction = solve_dense(&jacobian(product, n, &all, 1.0, shift), &value);
    if strict && state.previous_values.is_some() {
        return Ok(rejection());
    }
    let next: Vec<f64> = values
        .iter()
        .zip(&correction)
        .map(|(value, change)| value - change)
        .collect();
    Ok(StepOutcome::Accepted(AcceptedStep {
        state: BdfState {
            time: scalar(time),
            values: scalars(&next),
            previous_values: Some(state.values.clone()),
            previous_step: Some(scalar(step)),
            accepted_steps: state.accepted_steps + 1,
        },
        events: Vec::new(),
        report: String::new(),
    }))
}

/// Solves for the rate of the given rows; the residual is linear in it.
fn rate_solve(
    residual: Residual<'_>,
    product: Product<'_>,
    state: &[f64],
    rows: &[usize],
) -> Result<NewtonReport, SolveError> {
    let n = state.len();
    let value = residual(0.0, state, &vec![0.0; n])?;
    let right: Vec<f64> = rows.iter().map(|row| -value[*row]).collect();
    Ok(NewtonReport {
        state: scalars(&solve_dense(&jacobian(product, n, rows, 0.0, 1.0), &right)),
        converged: true,
    })
}

fn fresh(time: Scalar, values: Vec<Scalar>) -> BdfState {
    BdfState {
        time,
        values,
        previous_values: None,
        previous_step: None,
        accepted_steps: 0,
    }
}

const FIELD: u32 = 4;
const SECOND_INSTANCE_OFFSET: u32 = 100;
const STEP: f64 = 0.02;
const CONTEXT: &str = "reproducible";
const STEPS: usize = 5;

const CODE: &str = "PROVIDER_LAW_UNSUPPORTED";
const ORIGIN: &str = "constitutive/diffusivity";
const MESSAGE: &str = "outside the calibrated range";
const REFUSING_CELL: usize = 3;

/// Counts the evaluations of the hot leaf and refuses them when armed.
struct Probe {
    armed_after: Cell<Option<f64>>,
    values: Cell<usize>,
    refusals: Cell<usize>,
    directions: Cell<usize>,
}

impl Probe {
    fn new() -> Probe {
        Probe {
            armed_after: Cell::new(None),
            values: Cell::new(0),
            refusals: Cell::new(0),
            directions: Cell::new(0),
        }
    }

    fn arm(&self) {
        self.armed_after.set(Some(f64::NEG_INFINITY));
    }

    fn arm_after(&self, time: f64) {
        self.armed_after.set(Some(time));
    }

    fn disarm(&self) {
        self.armed_after.set(None);
    }

    fn evaluate(&self, time: f64) -> Result<(), SolveError> {
        self.values.set(self.values.get() + 1);
        match self.armed_after.get() {
            Some(after) if time > after => {
                self.refusals.set(self.refusals.get() + 1);
                let refusal = EvaluationRefusal {
                    code: CODE.to_owned(),
                    origin: ORIGIN.to_owned(),
                    message: format!(
                        "point (0.625, 0.125), t = {time}, cell {REFUSING_CELL}: {MESSAGE}"
                    ),
                };
                let text = format!("{CODE} at {ORIGIN}: {}", refusal.message);
                Err(SolveError {
                    refusal: Some(refusal),
                    text,
                })
            }
            _ => Ok(()),
        }
    }
}

/// Two heat leaves on two meshes, the cold one heated by the hot one.
struct Fixture {
    operator: CoupledSystemOperator,
    hot: Heat,
    cold: Heat,
    exchange: Matrix,
    probe: Probe,
}

fn reduced_system(name: &str, field: &Heat) -> ReducedSystem {
    ReducedSystem {
        dimension: field.dimension(),
        digest: format!("blake3:{name}"),
        constraint_encoding: format!("{:?}", field.walls).into_bytes(),
        fields: vec![FieldBlock {
            variable: FIELD,
            offset: 0,
            extent: field.dimension(),
        }],
        vertices: field.points(),
        constraints: field.constraints(),
    }
}

/// `scale` times the cold mass matrix applied to the hot values at the cold vertices.
fn sampling_matrix(cold: &Heat, hot: &Heat, scale: f64) -> Matrix {
    let sample: Matrix = cold
        .vertices
        .iter()
        .map(|point| {
            hot.vertices
                .iter()
                .map(|vertex| {
                    if max_abs_difference(vertex, point) < 1.0e-12 {
                        1.0
                    } else {
                        0.0
                    }
                })
                .collect()
        })
        .collect();
    cold.mass
        .iter()
        .map(|row| {
            (0..hot.dimension())
                .map(|column| {
                    scale
                        * row
                            .iter()
                            .zip(&sample)
                            .map(|(mass, from)| mass * from[column])
                            .sum::<f64>()
                })
                .collect()
        })
        .collect()
}

fn two_heat_leaves(scale: f64, constrained: bool, when_algebraic: bool) -> Fixture {
    let hot = heat(4, 1.0, constrained);
    let cold = heat(2, 0.5, constrained);
    let hot_leaf = CoupledLeaf::reduced_system("hot", reduced_system("hot", &hot))
        .unwrap()
        .with_row_kinds(hot.row_kinds())
        .unwrap();
    let cold_leaf = CoupledLeaf::reduced_system("cold", reduced_system("cold", &cold))
        .unwrap()
        .with_row_kinds(cold.row_kinds())
        .unwrap();
    let cold_binding = StateBinding::new(
        cold_leaf.layout(),
        vec![(
            SemanticId::new(FIELD + SECOND_INSTANCE_OFFSET),
            BlockId::new(&format!("cold/field_{FIELD}")),
        )],
    )
    .unwrap();
    let cold_leaf = cold_leaf.with_binding(cold_binding).unwrap();
    let exchange = sampling_matrix(&cold, &hot, -scale);
    let edges = if scale == 0.0 {
        Vec::new()
    } else {
        vec![CouplingEdge::matrix(
            "cold",
            "hot",
            CouplingArgument::State,
            cold.dimension(),
            hot.dimension(),
            &format!("{exchange:?}"),
        )]
    };
    let operator =
        CoupledSystemOperator::new(vec![hot_leaf, cold_leaf], edges, &solver_accepts).unwrap();
    let operator = if when_algebraic {
        operator.with_consistent_initialization_when_algebraic(newton())
    } else {
        operator.with_consistent_initialization(newton())
    }
    .unwrap();
    Fixture {
        operator,
        hot,
        cold,
        exchange,
        probe: Probe::new(),
    }
}

fn solve_error(error: NumericError) -> SolveError {
    match error {
        NumericError::Reported(reported) => reported,
        other => SolveError {
            refusal: None,
            text: format!("{other:?}"),
        },
    }
}

impl Fixture {
    fn dimension(&self) -> usize {
        self.operator.layout().width()
    }

    fn residual(&self, time: f64, state: &[f64], rate: &[f64]) -> Result<Vec<f64>, SolveError> {
        let calls = SystemCalls {
            leaf: |leaf: usize, time: Scalar, parts: &Vec<Vec<Scalar>>| {
                let field = if leaf == 0 { &self.hot } else { &self.cold };
                if leaf == 0 {
                    self.probe.evaluate(float(time))?;
                }
                Ok(scalars(
                    &field.product(&floats(&parts[0]), &floats(&parts[1])),
                ))
            },
            action: |_: usize, source: &Vec<Scalar>| {
                Ok::<Vec<Scalar>, SolveError>(scalars(&apply(&self.exchange, &floats(source))))
            },
            sum: |left: Scalar, right: Scalar| scalar(float(left) + float(right)),
        };
        self.operator
            .residual(
                scalar(time),
                &scalars(state),
                &scalars(rate),
                self.dimension(),
                &calls,
            )
            .map(|values| floats(&values))
            .map_err(solve_error)
    }

    fn product(&self, direction: &[f64], rate_direction: &[f64]) -> Vec<f64> {
        let zero = vec![0.0; self.dimension()];
        let calls = SystemCalls {
            leaf: |leaf: usize, _: Scalar, parts: &Vec<Vec<Scalar>>| {
                let field = if leaf == 0 { &self.hot } else { &self.cold };
                if leaf == 0 {
                    self.probe.directions.set(self.probe.directions.get() + 1);
                }
                Ok::<Vec<Scalar>, SolveError>(scalars(
                    &field.product(&floats(&parts[2]), &floats(&parts[3])),
                ))
            },
            action: |_: usize, source: &Vec<Scalar>| {
                Ok::<Vec<Scalar>, SolveError>(scalars(&apply(&self.exchange, &floats(source))))
            },
            sum: |left: Scalar, right: Scalar| scalar(float(left) + float(right)),
        };
        let values = self
            .operator
            .jacobian_vector_product(
                scalar(0.0),
                &scalars(&zero),
                &scalars(&zero),
                &scalars(direction),
                &scalars(rate_direction),
                self.dimension(),
                &calls,
            )
            .unwrap();
        floats(&values)
    }

    fn step(
        &self,
        state: BdfState,
        step: Scalar,
        config: &BdfConfig,
    ) -> Result<StepOutcome, SolveError> {
        bdf_step(
            &|time: f64, state: &[f64], rate: &[f64]| self.residual(time, state, rate),
            &|direction: &[f64], rate: &[f64]| self.product(direction, rate),
            &state,
            float(step),
            strict(config),
        )
    }

    fn rate(&self, state: &[f64]) -> Result<Vec<Scalar>, KrasisError> {
        self.operator.solve_consistent_state_rate(
            scalar(0.0),
            &scalars(state),
            |_: &NewtonConfig, _: Scalar, at: &Vec<Scalar>, rows: Vec<usize>, _: Vec<Scalar>| {
                self.solve_rows(&floats(at), &rows)
            },
            |time: Scalar, at: &Vec<Scalar>, rate: Vec<Scalar>| {
                self.residual(float(time), &floats(at), &floats(&rate))
                    .map(|values| scalars(&values))
            },
            &render,
        )
    }

    fn solve_rows(&self, state: &[f64], rows: &[usize]) -> Result<NewtonReport, SolveError> {
        rate_solve(
            &|time: f64, state: &[f64], rate: &[f64]| self.residual(time, state, rate),
            &|direction: &[f64], rate: &[f64]| self.product(direction, rate),
            state,
            rows,
        )
    }

    fn make_consistent(&self, state: &Vec<Scalar>) -> Result<(), NumericError> {
        self.operator.make_initial_state_consistent(
            scalar(0.0),
            state,
            |_: &NewtonConfig, _: Scalar, at: &Vec<Scalar>, rows: Vec<usize>, _: Vec<Scalar>| {
                self.solve_rows(&floats(at), &rows)
            },
            |time: Scalar, at: &Vec<Scalar>, rate: Vec<Scalar>| {
                self.residual(float(time), &floats(at), &floats(&rate))
                    .map(|values| scalars(&values))
            },
            &render,
        )
    }

    fn start(&self) -> Result<CoupledExecution<CoupledSystemOperator>, KrasisError> {
        CoupledExecution::new(
            self.operator.clone(),
            initial_state(self),
            |time: Scalar, values: Vec<Scalar>| {
                self.make_consistent(&values).map_err(|error| match error {
                    NumericError::Evaluation(refusal) => SolveError {
                        text: refusal.message.clone(),
                        refusal: Some(refusal),
                    },
                    other => solve_error(other),
                })?;
                Ok(fresh(time, values))
            },
        )
    }
}

/// A bump on the hot leaf, the cold leaf at rest.
fn initial_values(fixture: &Fixture) -> Vec<f64> {
    let mut values = bump_values(&fixture.hot);
    values.extend(vec![0.0; fixture.cold.dimension()]);
    values
}

fn initial_state(fixture: &Fixture) -> SimulationState {
    let values = initial_values(fixture);
    let mut state = SimulationState::new(fixture.operator.layout().clone(), 4);
    for block in fixture.operator.layout().blocks() {
        state
            .insert_field(
                FieldId::new(block.id().as_str()),
                scalars(&values[block.range()]),
            )
            .unwrap();
    }
    state
}

fn accept(execution: &mut CoupledExecution<CoupledSystemOperator>, fixture: &Fixture) {
    let outcome = execution
        .attempt_step(
            &CONTEXT,
            scalar(STEP),
            &config(),
            &|_: &&str, state: BdfState, step: Scalar, config: &BdfConfig| {
                fixture.step(state, step, config)
            },
        )
        .unwrap();
    assert!(matches!(outcome, StepOutcome::Accepted(_)));
}

fn committed(execution: &CoupledExecution<CoupledSystemOperator>) -> Vec<f64> {
    floats(&execution.state().committed_vector().unwrap())
}

fn config() -> BdfConfig {
    BdfConfig {
        absolute_tolerance: scalar(1.0),
        relative_tolerance: scalar(1.0),
        minimum_step: scalar(STEP),
        maximum_step: scalar(STEP),
        newton: newton(),
    }
}

fn rejecting_config() -> BdfConfig {
    BdfConfig {
        absolute_tolerance: scalar(1.0e-16),
        relative_tolerance: scalar(1.0e-16),
        minimum_step: scalar(1.0e-8),
        maximum_step: scalar(STEP),
        newton: newton(),
    }
}

fn encode(checkpoint: &CoupledCheckpoint) -> Result<Vec<u8>, String> {
    Ok(format!("{checkpoint:?}").into_bytes())
}

/// Keeps encoded restart data, to be read back from their bytes.
struct Archive {
    kept: RefCell<Vec<(Vec<u8>, CoupledCheckpoint)>>,
}

impl Archive {
    fn new() -> Archive {
        Archive {
            kept: RefCell::new(Vec::new()),
        }
    }

    fn save(&self, checkpoint: &CoupledCheckpoint) -> Result<Vec<u8>, String> {
        let bytes = encode(checkpoint)?;
        self.kept
            .borrow_mut()
            .push((bytes.clone(), checkpoint.clone()));
        Ok(bytes)
    }

    fn load(&self, bytes: &[u8]) -> Result<CoupledCheckpoint, String> {
        self.kept
            .borrow()
            .iter()
            .find(|(kept, _)| kept == bytes)
            .map(|(_, checkpoint)| checkpoint.clone())
            .ok_or("unknown restart data".to_owned())
    }
}

fn norms(
    _: Scalar,
    step: Scalar,
    left: &Vec<Vec<Scalar>>,
    right: &Vec<Vec<Scalar>>,
) -> Result<TrajectoryNorms, String> {
    let differences: Vec<f64> = left
        .iter()
        .zip(right)
        .map(|(l, r)| max_abs_difference(&floats(l), &floats(r)))
        .collect();
    let sum: f64 = differences.iter().map(|value| value * value).sum();
    Ok(TrajectoryNorms {
        l_infinity: scalar(differences.iter().copied().fold(0.0, f64::max)),
        l2_time: scalar((sum * float(step)).sqrt()),
    })
}

fn probe_vector(dimension: usize, seed: f64, scale: f64) -> Vec<f64> {
    (0..dimension)
        .map(|index| scale * ((index as f64 + seed) * 0.618_034).sin())
        .collect()
}

#[test]
fn finitum_reduced_system_leaves_compose_into_one_transient_dae() {
    let fixture = two_heat_leaves(0.8, true, false);
    let operator = &fixture.operator;
    let (hot, cold) = (&fixture.hot, &fixture.cold);
    assert_eq!(operator.dimension(), hot.dimension() + cold.dimension());
    assert_eq!(operator.leaf_range(0).unwrap(), 0..hot.dimension());
    assert_eq!(
        operator.leaf_range(1).unwrap(),
        hot.dimension()..hot.dimension() + cold.dimension()
    );

    // Blocks are namespaced by leaf; the binding carries the per-model field id for the
    // first instance and the system-level id for the second.
    let hot_block = BlockId::new(&format!("hot/field_{FIELD}"));
    let cold_block = BlockId::new(&format!("cold/field_{FIELD}"));
    assert!(operator.layout().block(&hot_block).is_some());
    assert!(operator.layout().block(&cold_block).is_some());
    assert_eq!(
        operator.binding().semantic_for(&hot_block),
        Some(SemanticId::new(FIELD))
    );
    assert_eq!(
        operator.binding().semantic_for(&cold_block),
        Some(SemanticId::new(FIELD + SECOND_INSTANCE_OFFSET))
    );
    for leaf in operator.leaves() {
        assert!(
            leaf.identity().starts_with("finitum-reduced-system:"),
            "{}",
            leaf.identity()
        );
    }
    assert_ne!(
        operator.leaves()[0].identity(),
        operator.leaves()[1].identity()
    );
    assert!(operator.graph().is_acyclic());
    assert_eq!(operator.graph().stages(), &[vec![0], vec![1]]);

    // The composed residual is the leaf residuals plus the sampled exchange.
    let dimension = operator.dimension();
    let time = 0.3;
    let state = probe_vector(dimension, 0.4, 1.0);
    let rate = probe_vector(dimension, 2.2, 0.7);
    let composed = fixture.residual(time, &state, &rate).unwrap();
    let hot_range = operator.leaf_range(0).unwrap();
    let cold_range = operator.leaf_range(1).unwrap();
    let mut expected = hot.product(&state[hot_range.clone()], &rate[hot_range.clone()]);
    expected.extend(cold.product(&state[cold_range.clone()], &rate[cold_range.clone()]));
    let sampled = apply(&sampling_matrix(cold, hot, -0.8), &state[hot_range]);
    for (value, contribution) in expected[cold_range].iter_mut().zip(&sampled) {
        *value += contribution;
    }
    assert!(sampled.iter().any(|value| value.abs() > 1.0e-3));
    assert!(max_abs_difference(&composed, &expected) <= 1.0e-13);

    // The product is the derivative of the residual.
    let direction = probe_vector(dimension, 1.1, 1.0);
    let rate_direction = probe_vector(dimension, 3.3, 0.8);
    let shifted = |values: &[f64], along: &[f64], by: f64| -> Vec<f64> {
        values.iter().zip(along).map(|(v, d)| v + by * d).collect()
    };
    let at = |by: f64| {
        fixture
            .residual(
                time,
                &shifted(&state, &direction, by),
                &shifted(&rate, &rate_direction, by),
            )
            .unwrap()
    };
    let centered: Vec<f64> = at(1.0e-5)
        .iter()
        .zip(&at(-1.0e-5))
        .map(|(ahead, behind)| (ahead - behind) / 2.0e-5)
        .collect();
    let discrepancy = max_abs_difference(&centered, &fixture.product(&direction, &rate_direction));
    assert!(discrepancy <= 1.0e-6, "discrepancy {discrepancy}");

    // The consistent initial rate over the composed residual: every differential row
    // vanishes, every wall row's rate is zero.
    let initial = initial_values(&fixture);
    let consistent = floats(&fixture.rate(&initial).unwrap());
    let residual = fixture.residual(0.0, &initial, &consistent).unwrap();
    let mut differential_rows = 0;
    for (row, kind) in hot
        .row_kinds()
        .iter()
        .chain(&cold.row_kinds())
        .enumerate()
    {
        match kind {
            RowKind::Differential => {
                differential_rows += 1;
                assert!(residual[row].abs() <= 1.0e-9, "row {row}: {}", residual[row]);
            }
            RowKind::Algebraic => assert_eq!(consistent[row], 0.0),
        }
    }
    assert!(differential_rows > 0);
    let cold_start = operator.leaf_range(1).unwrap().start;
    assert!(consistent[cold_start..]
        .iter()
        .any(|rate| rate.abs() > 1.0e-3));
}

/// The same steps on one instance alone.
fn run_standalone(field: &Heat, initial: Vec<f64>) -> Vec<f64> {
    let mut state = fresh(scalar(0.0), scalars(&initial));
    for _ in 0..STEPS {
        let outcome = bdf_step(
            &|_: f64, state: &[f64], rate: &[f64]| Ok(field.product(state, rate)),
            &|direction: &[f64], rate: &[f64]| field.product(direction, rate),
            &state,
            STEP,
            false,
        );
        match outcome.unwrap() {
            StepOutcome::Accepted(accepted) => state = accepted.state,
            StepOutcome::Rejected(rejected) => panic!("unexpected rejection: {rejected:?}"),
        }
    }
    floats(&state.values)
}

/// A nonlinear solver hook, by the number of sweeps it makes.
struct SweepSolver {
    sweeps: usize,
}

impl SweepSolver {
    /// Solves a step by sweeps over single rows.
    fn step(&self, fixture: &Fixture, state: BdfState) -> Result<StepOutcome, SolveError> {
        let values = floats(&state.values);
        let n = values.len();
        let shift = 1.0 / STEP;
        let all: Vec<usize> = (0..n).collect();
        let product = |direction: &[f64], rate: &[f64]| fixture.product(direction, rate);
        let matrix = jacobian(&product, n, &all, 1.0, shift);
        let right = fixture.residual(float(state.time) + STEP, &values, &vec![0.0; n])?;
        let mut correction = vec![0.0; n];
        for _ in 0..self.sweeps {
            for row in 0..n {
                let known: f64 = (0..n)
                    .filter(|column| *column != row)
                    .map(|column| matrix[row][column] * correction[column])
                    .sum();
                correction[row] = (right[row] - known) / matrix[row][row];
            }
        }
        let next: Vec<f64> = values
            .iter()
            .zip(&correction)
            .map(|(value, change)| value - change)
            .collect();
        Ok(StepOutcome::Accepted(AcceptedStep {
            state: BdfState {
                time: scalar(float(state.time) + STEP),
                values: scalars(&next),
                previous_values: Some(state.values.clone()),
                previous_step: Some(scalar(STEP)),
                accepted_steps: state.accepted_steps + 1,
            },
            events: Vec::new(),
            report: String::new(),
        }))
    }
}

fn run_transaction(
    fixture: &Fixture,
    solver: Option<&SweepSolver>,
) -> CoupledExecution<CoupledSystemOperator> {
    let mut execution = fixture.start().unwrap();
    for _ in 0..STEPS {
        match solver {
            Some(solver) => {
                let outcome = execution
                    .attempt_step_with(
                        &CONTEXT,
                        scalar(STEP),
                        &config(),
                        solver,
                        &|_: &&str,
                          state: BdfState,
                          step: Scalar,
                          _: &BdfConfig,
                          solver: &SweepSolver| {
                            assert_eq!(step, scalar(STEP));
                            solver.step(fixture, state)
                        },
                    )
                    .unwrap();
                assert!(matches!(outcome, StepOutcome::Accepted(_)));
            }
            None => accept(&mut execution, fixture),
        }
    }
    assert_eq!(execution.integrator().accepted_steps, STEPS as u64);
    assert!((float(execution.integrator().time) - STEPS as f64 * STEP).abs() <= 1.0e-12);
    execution
}

#[test]
fn newton_inside_bdf_advances_two_finitum_leaves_through_the_transaction() {
    // Uncoupled: the composition reproduces each instance's own trajectory.
    let uncoupled = two_heat_leaves(0.0, true, false);
    let hot_range = uncoupled.operator.leaf_range(0).unwrap();
    let cold_range = uncoupled.operator.leaf_range(1).unwrap();
    let initial = initial_values(&uncoupled);
    let hot_alone = run_standalone(&uncoupled.hot, initial[hot_range.clone()].to_vec());
    let cold_alone = run_standalone(&uncoupled.cold, initial[cold_range.clone()].to_vec());
    let composed = committed(&run_transaction(&uncoupled, None));
    assert!(max_abs_difference(&composed[hot_range.clone()], &hot_alone) <= 1.0e-10);
    assert!(max_abs_difference(&composed[cold_range.clone()], &cold_alone) <= 1.0e-10);
    assert!(max_abs_difference(&hot_alone, &initial[hot_range.clone()]) > 1.0e-3);
    assert!(cold_alone.iter().all(|value| *value == 0.0));

    // Coupled one way: `hot` is unchanged, `cold` is heated, walls stay eliminated, and the
    // two solvers agree.
    let coupled = two_heat_leaves(0.8, true, false);
    let dense = run_transaction(&coupled, None);
    let dense_final = committed(&dense);
    assert!(max_abs_difference(&dense_final[hot_range.clone()], &hot_alone) <= 1.0e-10);
    let cold_final = &dense_final[cold_range.clone()];
    assert!(cold_final.iter().any(|value| value.abs() > 1.0e-4));
    for (dof, value) in cold_final.iter().enumerate() {
        if coupled.cold.walls[dof] {
            assert!(value.abs() <= 1.0e-12, "cold wall dof {dof} = {value}");
        }
    }
    for (dof, value) in dense_final[hot_range].iter().enumerate() {
        if coupled.hot.walls[dof] {
            assert!(value.abs() <= 1.0e-12, "hot wall dof {dof} = {value}");
        }
    }
    let iterative = run_transaction(&coupled, Some(&SweepSolver { sweeps: 400 }));
    let disagreement = max_abs_difference(&committed(&iterative), &dense_final);
    assert!(disagreement <= 1.0e-9, "disagreement {disagreement}");

    // A checkpoint of the composition is refused by the uncoupled composition.
    let checkpoint = dense.checkpoint().unwrap();
    let mut other = uncoupled.start().unwrap();
    let error = other.restore(&checkpoint).unwrap_err();
    assert!(
        matches!(error, KrasisError::InvalidCoupling(_)),
        "{error:?}"
    );
}

#[test]
fn a_reduced_system_leaf_refuses_a_binding_over_other_blocks() {
    let instance = heat(2, 1.0, true);
    let reduced = || reduced_system("instance", &instance);
    let leaf = CoupledLeaf::reduced_system("hot", reduced()).unwrap();
    let foreign = StateLayout::new(vec![StateBlock::new(
        BlockId::new("elsewhere"),
        0..instance.dimension(),
    )])
    .unwrap();
    let binding = StateBinding::new(
        &foreign,
        vec![(SemanticId::new(7), BlockId::new("elsewhere"))],
    )
    .unwrap();
    let error = leaf.with_binding(binding).unwrap_err();
    assert!(
        matches!(error, KrasisError::StateBindingLayoutMismatch),
        "{error:?}"
    );

    // Two instances with the same per-model id cannot compose until one is rebound.
    let twin = CoupledLeaf::reduced_system("cold", reduced()).unwrap();
    let leaf_again = CoupledLeaf::reduced_system("hot", reduced()).unwrap();
    let error =
        CoupledSystemOperator::new(vec![leaf_again, twin], Vec::new(), &solver_accepts)
            .unwrap_err();
    assert!(
        matches!(error, KrasisError::StateBindingDuplicateSemanticId(_)),
        "{error:?}"
    );
}

/// Whether nodal values agree with an exact solution, as a patch report recomputes it.
fn patch_accepts(field: &Heat, values: &[f64], exact: &dyn Fn(&[f64]) -> f64) -> bool {
    field
        .vertices
        .iter()
        .zip(&field.walls)
        .zip(values)
        .all(|((point, wall), value)| {
            let expected = if *wall && exact(point).abs() < 1.0e-12 {
                0.0
            } else {
                exact(point)
            };
            (value - expected).abs() <= 1.0e-12
        })
}

#[test]
fn fc7_sources_over_two_reduced_system_leaves_roll_back_and_restart_bit_exactly() {
    let fixture = two_heat_leaves(0.5, true, false);
    let execution = fixture.start().unwrap();
    let values = floats(&execution.integrator().values);
    let hot_values = values[fixture.operator.leaf_range(0).unwrap()].to_vec();
    let cold_values = values[fixture.operator.leaf_range(1).unwrap()].to_vec();
    let hot_reduced = reduced_system("hot", &fixture.hot);
    let cold_reduced = reduced_system("cold", &fixture.cold);
    let patch = |reduced: &ReducedSystem| {
        FinitumVerificationSource::check_patch(
            &FinitumRealization::from(reduced),
            Ok("finitum-patch/1".to_owned()),
        )
        .unwrap()
    };
    let hot = patch(&hot_reduced);
    let cold = patch(&cold_reduced);
    assert_eq!(
        hot.realization_identities(),
        vec![hot_reduced.content_identity()]
    );
    let archive = Archive::new();
    let validated = |cold_exact: f64| {
        let (fixture, hot_values, cold_values) = (&fixture, &hot_values, &cold_values);
        move |_: usize, realization: usize| {
            Ok::<bool, String>(if realization == 0 {
                patch_accepts(&fixture.hot, hot_values, &bump)
            } else {
                patch_accepts(&fixture.cold, cold_values, &|_| cold_exact)
            })
        }
    };
    let context = CheckContext {
        validate: validated(0.0),
        encode: |checkpoint: &CoupledCheckpoint| archive.save(checkpoint),
        render,
    };
    let calls = RestartContext {
        decode: |bytes: &Vec<u8>| archive.load(bytes),
        norms,
        seal: |report: &RestartTrajectoryReport| Ok(format!("{report:?}").into_bytes()),
    };
    let attempt = |_: &&str, state: BdfState, step: Scalar, config: &BdfConfig| {
        fixture.step(state, step, config)
    };
    let restarted = |context: &&str, step: Scalar, total: usize, split: usize, config: &BdfConfig| {
        Ok::<Vec<u8>, String>(format!("{context}{step:?}{total}{split}{config:?}").into_bytes())
    };
    let probed = |context: &&str, step: Scalar, config: &BdfConfig| {
        Ok::<Vec<u8>, String>(format!("{context}{step:?}{config:?}").into_bytes())
    };

    // Evidence over the hot leaf alone leaves the cold realization uncovered.
    let refusal = check_restart_trajectory(
        &execution,
        &CONTEXT,
        scalar(STEP),
        4,
        2,
        &config(),
        &restarted,
        &hot,
        &context,
        &attempt,
        &calls,
    )
    .unwrap_err();
    assert_eq!(refusal.code, "KRASIS_VERIFY_FINITUM_SOURCE");
    assert!(refusal.message.contains(&cold_reduced.content_identity()));

    let source = FinitumVerificationSource::compose(vec![hot, cold]);
    let restart = check_restart_trajectory(
        &execution,
        &CONTEXT,
        scalar(STEP),
        4,
        2,
        &config(),
        &restarted,
        &source,
        &context,
        &attempt,
        &calls,
    )
    .unwrap();
    assert!(restart.passed, "{restart:#?}");
    assert_eq!(float(restart.trajectory_l_infinity), 0.0);
    assert_eq!(float(restart.trajectory_l2_time), 0.0);
    assert!(restart.final_checkpoint_byte_identical);
    assert_eq!(restart.binding.schema, "krasis-verification/2");
    assert_eq!(
        restart
            .binding
            .finitum_sources
            .iter()
            .map(|source| source.realization_identity.clone())
            .collect::<Vec<_>>(),
        vec![
            hot_reduced.content_identity(),
            cold_reduced.content_identity()
        ]
    );
    assert!(restart.binding.finitum_sources.iter().all(|s| s.accepted));
    assert!(
        restart
            .validate(
                &execution,
                &CONTEXT,
                scalar(STEP),
                4,
                2,
                &config(),
                &restarted,
                &source,
                &context,
                &attempt,
                &calls,
            )
            .unwrap()
            .accepted
    );

    let mut primed = execution.clone();
    accept(&mut primed, &fixture);
    let seal = |report: &RollbackIdentityReport| Ok(format!("{report:?}").into_bytes());
    let rollback = check_rollback_identity(
        &primed,
        &CONTEXT,
        scalar(STEP),
        &rejecting_config(),
        &probed,
        &source,
        &context,
        &attempt,
        seal,
    )
    .unwrap();
    assert!(rollback.passed, "{rollback:#?}");
    assert_eq!(rollback.disposition, AttemptDisposition::Rejected);
    assert!(rollback.byte_identical);
    assert_eq!(
        rollback.checkpoint_before_digest,
        rollback.checkpoint_after_digest
    );

    let history = check_history_and_rejection(
        &execution,
        &CONTEXT,
        scalar(STEP),
        2,
        &config(),
        &rejecting_config(),
        &|context: &&str, step: Scalar, steps: usize, first: &BdfConfig, last: &BdfConfig| {
            Ok(format!("{context}{step:?}{steps}{first:?}{last:?}").into_bytes())
        },
        &source,
        &context,
        &attempt,
        |report: &HistoryReport| Ok(format!("{report:?}").into_bytes()),
    )
    .unwrap();
    assert!(history.passed, "{history:#?}");
    assert!(history.synchronized);
    assert_eq!(history.rejected_attempt, AttemptDisposition::Rejected);
    assert!(history.rejection_byte_identical);
    let mut depths: Vec<(String, usize)> = history
        .field_history_depths
        .iter()
        .map(|depth| (depth.field.clone(), depth.depth))
        .collect();
    depths.sort();
    let mut expected: Vec<(String, usize)> = fixture
        .operator
        .layout()
        .blocks()
        .iter()
        .map(|block| (block.id().as_str().to_owned(), 2))
        .collect();
    expected.sort();
    assert_eq!(depths, expected);

    // A failed cold patch is recomputed as not accepted and fails the report without
    // refusing it.
    let failed = CheckContext {
        validate: validated(1.0),
        encode: |checkpoint: &CoupledCheckpoint| archive.save(checkpoint),
        render,
    };
    let not_accepted = check_rollback_identity(
        &primed,
        &CONTEXT,
        scalar(STEP),
        &rejecting_config(),
        &probed,
        &source,
        &failed,
        &attempt,
        seal,
    )
    .unwrap();
    assert_eq!(
        not_accepted.binding.finitum_verification_accepted,
        Some(false)
    );
    assert!(not_accepted.binding.finitum_sources[0].accepted);
    assert!(!not_accepted.binding.finitum_sources[1].accepted);
    assert!(!not_accepted.passed);
    assert!(not_accepted.byte_identical);
}

#[test]
fn initial_state_from_projects_onto_each_leaf_mesh() {
    let fixture = two_heat_leaves(0.0, true, false);
    let layout = fixture.operator.layout();
    assert_eq!(layout.blocks().len(), 2);
    let sample = |_: &str, point: &Vec<Scalar>, _: Scalar| {
        let point = floats(point);
        let on_wall = point.iter().any(|x| *x == 0.0 || *x == 1.0);
        Ok::<Vec<Scalar>, EvaluationRefusal>(scalars(&[if on_wall {
            0.0
        } else {
            bump(&point)
        }]))
    };
    let bindings: Vec<(BlockId, FieldSource)> = layout
        .blocks()
        .iter()
        .map(|block| {
            let source = if block.id().as_str().starts_with("hot/") {
                FieldSource::Fallible
            } else {
                FieldSource::Constant(scalars(&[0.0]))
            };
            (block.id().clone(), source)
        })
        .collect();
    let data = |bindings: Vec<(BlockId, FieldSource)>| InitialData {
        bindings,
        sample,
        render,
    };
    let state = fixture
        .operator
        .initial_state_from(4, &data(bindings.clone()))
        .unwrap();
    assert_eq!(
        floats(&state.committed_vector().unwrap()),
        initial_values(&fixture)
    );
    assert_eq!(
        state.committed_vector().unwrap(),
        initial_state(&fixture).committed_vector().unwrap()
    );
    let start = |state: SimulationState| {
        CoupledExecution::new(
            fixture.operator.clone(),
            state,
            |time: Scalar, values: Vec<Scalar>| Ok(fresh(time, values)),
        )
        .unwrap()
    };
    assert_eq!(
        start(state).checkpoint().unwrap(),
        start(initial_state(&fixture)).checkpoint().unwrap()
    );

    let missing = fixture
        .operator
        .initial_state_from(4, &data(bindings[..1].to_vec()))
        .unwrap_err();
    assert!(
        matches!(missing, KrasisError::InitialBlockMissing(_)),
        "{missing:?}"
    );
    let mut extended = bindings.clone();
    extended.push((
        BlockId::new("warm/field_0"),
        FieldSource::Constant(scalars(&[0.0])),
    ));
    let unknown = fixture
        .operator
        .initial_state_from(4, &data(extended))
        .unwrap_err();
    assert!(
        matches!(unknown, KrasisError::InitialBlockUnknown(_)),
        "{unknown:?}"
    );
}

#[test]
fn block_state_layout_binds_the_system_variable_and_finitum_still_refuses_a_keyed_plan() {
    let block = |variable: u32| FieldBlock {
        variable,
        offset: 0,
        extent: 9,
    };
    let keyed = vec![block(FIELD + SECOND_INSTANCE_OFFSET)];
    let (layout, binding) = block_state_layout(&keyed).unwrap();
    let name = BlockId::new(&format!("field_{}", FIELD + SECOND_INSTANCE_OFFSET));
    assert_eq!(layout.blocks()[0].id(), &name);
    assert_eq!(
        binding.semantic_for(&name),
        Some(SemanticId::new(FIELD + SECOND_INSTANCE_OFFSET))
    );
    let (identity_layout, identity_binding) = block_state_layout(&vec![block(FIELD)]).unwrap();
    assert_eq!(
        identity_layout.blocks()[0].id(),
        &BlockId::new(&format!("field_{FIELD}"))
    );
    assert_eq!(
        identity_binding.semantic_for(identity_layout.blocks()[0].id()),
        Some(SemanticId::new(FIELD))
    );
}
