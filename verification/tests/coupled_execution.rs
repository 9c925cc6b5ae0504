//! One realization driven through transactional steps.

use krasis::{
    AcceptedStep, BdfConfig, BdfState, BlockId, BlockSpec, Constraint, CoupledExecution,
    CoupledOperator, FieldId, NewtonConfig, NewtonReport, NumericError, RealizationPlan,
    RejectedStep, RowKind, Scalar, SimulationState, SolveError, StateBlock, StateLayout,
    StepOutcome, TransactionPhase, TransactionalOperator,
};

/// A block solver that takes any blocks but empty ones.
fn solver_accepts(blocks: &Vec<BlockSpec>) -> Result<(), String> {
    match blocks.iter().find(|block| block.length == 0) {
        Some(block) => Err(format!("block `{}` is empty", block.name)),
        None => Ok(()),
    }
}

const STEP: f64 = 0.05;
const CONTEXT: &str = "reproducible";
const LOOSE: f64 = 1.0e12;
const TIGHT: f64 = 1.0e-16;

fn scalar(value: f64) -> Scalar {
    Scalar::from_bits(value.to_bits())
}

fn scalars(values: &[f64]) -> Vec<Scalar> {
    values.iter().map(|value| scalar(*value)).collect()
}

fn float(value: Scalar) -> f64 {
    f64::from_bits(value.to_bits())
}

/// A rejection on the error estimate.
fn rejection() -> StepOutcome {
    StepOutcome::Rejected(RejectedStep {
        report: "{\"error_norm\":4.0}".to_owned(),
    })
}

fn floats(values: &[Scalar]) -> Vec<f64> {
    values.iter().map(|value| float(*value)).collect()
}

fn render(value: Scalar) -> String {
    format!("{}", float(value))
}

type Matrix = Vec<Vec<f64>>;

fn apply(matrix: &Matrix, vector: &[f64]) -> Vec<f64> {
    matrix
        .iter()
        .map(|row| row.iter().zip(vector).map(|(a, b)| a * b).sum())
        .collect()
}

/// Solves a dense system by elimination with pivoting.
fn solve_dense(matrix: &Matrix, right: &[f64]) -> Vec<f64> {
    let n = right.len();
    let mut rows: Matrix = matrix.clone();
    let mut values = right.to_vec();
    for column in 0..n {
        let mut pivot = column;
        for row in column + 1..n {
            if rows[row][column].abs() > rows[pivot][column].abs() {
                pivot = row;
            }
        }
        rows.swap(column, pivot);
        values.swap(column, pivot);
        for row in column + 1..n {
            let factor = rows[row][column] / rows[column][column];
            for entry in column..n {
                let above = rows[column][entry];
                rows[row][entry] -= factor * above;
            }
            values[row] -= factor * values[column];
        }
    }
    for column in (0..n).rev() {
        for entry in column + 1..n {
            values[column] -= rows[column][entry] * values[entry];
        }
        values[column] /= rows[column][column];
    }
    values
}

fn max_abs_difference(left: &[f64], right: &[f64]) -> f64 {
    assert_eq!(left.len(), right.len());
    left.iter()
        .zip(right)
        .map(|(l, r)| (l - r).abs())
        .fold(0.0, f64::max)
}

/// Heat on a square of piecewise linear triangles, its wall unknowns pinned to zero.
#[derive(Clone)]
struct Heat {
    vertices: Vec<Vec<f64>>,
    walls: Vec<bool>,
    mass: Matrix,
    stiffness: Matrix,
}

fn heat(subdivisions: usize, diffusivity: f64, constrained: bool) -> Heat {
    let width = subdivisions + 1;
    let count = width * width;
    let vertices: Vec<Vec<f64>> = (0..count)
        .map(|index| {
            vec![
                (index % width) as f64 / subdivisions as f64,
                (index / width) as f64 / subdivisions as f64,
            ]
        })
        .collect();
    let walls: Vec<bool> = (0..count)
        .map(|index| {
            let (row, column) = (index / width, index % width);
            constrained
                && (row == 0 || column == 0 || row == subdivisions || column == subdivisions)
        })
        .collect();
    let mut mass = vec![vec![0.0; count]; count];
    let mut stiffness = vec![vec![0.0; count]; count];
    for row in 0..subdivisions {
        for column in 0..subdivisions {
            let lower_left = row * width + column;
            let lower_right = lower_left + 1;
            let upper_left = lower_left + width;
            let upper_right = upper_left + 1;
            for cell in [
                [lower_left, lower_right, upper_right],
                [lower_left, upper_right, upper_left],
            ] {
                let p: Vec<&Vec<f64>> = cell.iter().map(|vertex| &vertices[*vertex]).collect();
                let twice = (p[1][0] - p[0][0]) * (p[2][1] - p[0][1])
                    - (p[2][0] - p[0][0]) * (p[1][1] - p[0][1]);
                let area = twice / 2.0;
                let gradients: Vec<[f64; 2]> = (0..3)
                    .map(|i| {
                        let (a, b) = (p[(i + 1) % 3], p[(i + 2) % 3]);
                        [(a[1] - b[1]) / twice, (b[0] - a[0]) / twice]
                    })
                    .collect();
                for i in 0..3 {
                    for j in 0..3 {
                        if walls[cell[i]] || walls[cell[j]] {
                            continue;
                        }
                        let weight = if i == j { 2.0 } else { 1.0 };
                        mass[cell[i]][cell[j]] += area * weight / 12.0;
                        stiffness[cell[i]][cell[j]] += diffusivity
                            * area
                            * (gradients[i][0] * gradients[j][0]
                                + gradients[i][1] * gradients[j][1]);
                    }
                }
            }
        }
    }
    for (index, wall) in walls.iter().enumerate() {
        if *wall {
            stiffness[index][index] = 1.0;
        }
    }
    Heat {
        vertices,
        walls,
        mass,
        stiffness,
    }
}

impl Heat {
    fn dimension(&self) -> usize {
        self.vertices.len()
    }

    fn product(&self, state: &[f64], rate: &[f64]) -> Vec<f64> {
        let moved = apply(&self.mass, rate);
        let held = apply(&self.stiffness, state);
        (0..state.len()).map(|row| moved[row] + held[row]).collect()
    }

    fn row_kinds(&self) -> Vec<RowKind> {
        self.walls
            .iter()
            .map(|wall| {
                if *wall {
                    RowKind::Algebraic
                } else {
                    RowKind::Differential
                }
            })
            .collect()
    }

    fn constraints(&self) -> Vec<Constraint> {
        (0..self.dimension())
            .filter(|dof| self.walls[*dof])
            .map(|target| Constraint {
                target,
                dependencies: Vec::new(),
                offset: scalar(0.0),
            })
            .collect()
    }

    fn points(&self) -> Vec<Vec<Scalar>> {
        self.vertices.iter().map(|point| scalars(point)).collect()
    }
}

fn bump(point: &[f64]) -> f64 {
    (std::f64::consts::PI * point[0]).sin() * (std::f64::consts::PI * point[1]).sin()
}

/// The bump at the vertices, with the walls at rest.
fn bump_values(field: &Heat) -> Vec<f64> {
    field
        .vertices
        .iter()
        .zip(&field.walls)
        .map(|(point, wall)| if *wall { 0.0 } else { bump(point) })
        .collect()
}

fn newton() -> NewtonConfig {
    NewtonConfig {
        absolute_tolerance: scalar(1.0e-13),
        relative_tolerance: scalar(1.0e-12),
        initial_damping: scalar(1.0),
        minimum_damping: scalar(1.0e-4),
        encoding: "{\"absolute_tolerance\":1e-13}".to_owned(),
    }
}

type Residual<'a> = &'a dyn Fn(f64, &[f64], &[f64]) -> Result<Vec<f64>, SolveError>;
type Product<'a> = &'a dyn Fn(&[f64], &[f64]) -> Vec<f64>;

/// The matrix `dF/dx + shift dF/dx'` restricted to rows and columns.
fn jacobian(product: Product<'_>, n: usize, rows: &[usize], state: f64, rate: f64) -> Matrix {
    let columns: Vec<Vec<f64>> = rows
        .iter()
        .map(|column| {
            let mut direction = vec![0.0; n];
            direction[*column] = state;
            let mut rate_direction = vec![0.0; n];
            rate_direction[*column] = rate;
            product(&direction, &rate_direction)
        })
        .collect();
    rows.iter()
        .map(|row| columns.iter().map(|column| column[*row]).collect())
        .collect()
}

/// One backward step; a strict one with history is rejected on its error estimate.
fn bdf_step(
    residual: Residual<'_>,
    product: Product<'_>,
    state: &BdfState,
    step: f64,
    strict: bool,
) -> Result<StepOutcome, SolveError> {
    let values = floats(&state.values);
    let n = values.len();
    let shift = 1.0 / step;
    let time = float(state.time) + step;
    let value = residual(time, &values, &vec![0.0; n])?;
    let all: Vec<usize> = (0..n).collect();
    let correction = solve_dense(&jacobian(product, n, &all, 1.0, shift), &value);
    if strict && state.previous_values.is_some() {
        return Ok(rejection());
    }
    let next: Vec<f64> = values
        .iter()
        .zip(&correction)
        .map(|(value, change)| value - change)
        .collect();
    Ok(StepOutcome::Accepted(AcceptedStep {
        state: BdfState {
            time: scalar(time),
            values: scalars(&next),
            previous_values: Some(state.values.clone()),
            previous_step: Some(scalar(step)),
            accepted_steps: state.accepted_steps + 1,
        },
        events: Vec::new(),
        report: String::new(),
    }))
}

/// Solves for the rate of the given rows; the residual is linear in it.
fn rate_solve(
    residual: Residual<'_>,
    product: Product<'_>,
    state: &[f64],
    rows: &[usize],
) -> Result<NewtonReport, SolveError> {
    let n = state.len();
    let value = residual(0.0, state, &vec![0.0; n])?;
    let right: Vec<f64> = rows.iter().map(|row| -value[*row]).collect();
    Ok(NewtonReport {
        state: scalars(&solve_dense(&jacobian(product, n, rows, 0.0, 1.0), &right)),
        converged: true,
    })
}

fn fresh(time: Scalar, values: Vec<Scalar>) -> BdfState {
    BdfState {
        time,
        values,
        previous_values: None,
        previous_step: None,
        accepted_steps: 0,
    }
}

const INTERIOR: usize = 4;

fn interior_vector(value: f64) -> Vec<f64> {
    let mut values = vec![0.0; 9];
    values[INTERIOR] = value;
    values
}

/// Nonlinear heat on a 3x3 grid: the conductivity grows with the interior value.
struct Nonlinear {
    base: Heat,
    slope: f64,
}

impl Nonlinear {
    fn residual(&self, state: &[f64], rate: &[f64]) -> Vec<f64> {
        let mut values = self.base.product(state, rate);
        values[INTERIOR] += self.slope
            * self.base.stiffness[INTERIOR][INTERIOR]
            * state[INTERIOR]
            * state[INTERIOR];
        values
    }

    fn product(&self, state: &[f64], direction: &[f64], rate_direction: &[f64]) -> Vec<f64> {
        let mut values = self.base.product(direction, rate_direction);
        values[INTERIOR] += 2.0
            * self.slope
            * self.base.stiffness[INTERIOR][INTERIOR]
            * state[INTERIOR]
            * direction[INTERIOR];
        values
    }

    /// One backward step by Newton iteration; a strict one with history is rejected.
    fn step(
        &self,
        state: &BdfState,
        step: f64,
        config: &BdfConfig,
    ) -> Result<StepOutcome, SolveError> {
        let values = floats(&state.values);
        let n = values.len();
        let all: Vec<usize> = (0..n).collect();
        let mut next = values.clone();
        for _ in 0..20 {
            let rate: Vec<f64> = next
                .iter()
                .zip(&values)
                .map(|(after, before)| (after - before) / step)
                .collect();
            let residual = self.residual(&next, &rate);
            let at = next.clone();
            let product =
                |direction: &[f64], rate: &[f64]| self.product(&at, direction, rate);
            let change = solve_dense(&jacobian(&product, n, &all, 1.0, 1.0 / step), &residual);
            for (value, by) in next.iter_mut().zip(&change) {
                *value -= by;
            }
        }
        if strict(config) && state.previous_values.is_some() {
            return Ok(rejection());
        }
        Ok(StepOutcome::Accepted(AcceptedStep {
            state: BdfState {
                time: scalar(float(state.time) + step),
                values: scalars(&next),
                previous_values: Some(state.values.clone()),
                previous_step: Some(scalar(step)),
                accepted_steps: state.accepted_steps + 1,
            },
            events: Vec::new(),
            report: String::new(),
        }))
    }
}

/// Whether a configuration asks for more than a second-order estimate can give.
fn strict(config: &BdfConfig) -> bool {
    float(config.absolute_tolerance) < 1.0e-6
}

/// The tolerances are never exceeded, or never met.
fn config(tolerance: f64) -> BdfConfig {
    BdfConfig {
        absolute_tolerance: scalar(tolerance),
        relative_tolerance: scalar(tolerance),
        minimum_step: scalar(STEP),
        maximum_step: scalar(STEP),
        newton: newton(),
    }
}

fn coupled_fixture() -> (CoupledOperator, SimulationState, Nonlinear) {
    coupled_fixture_variant("k=1+0.1u;direction=0.1du/v1", 0.1, 0.0)
}

fn coupled_fixture_variant(
    conductivity_identity: &str,
    slope: f64,
    center_shift: f64,
) -> (CoupledOperator, SimulationState, Nonlinear) {
    let mut base = heat(2, 1.0, true);
    base.vertices[INTERIOR][0] += center_shift;
    let content = format!("{conductivity_identity}|{:?}", base.vertices);
    let plan = RealizationPlan {
        dimension: 9,
        digest: format!("blake3:{content}"),
        algorithm: "blake3".to_owned(),
        hex: content,
        vertices: base.points(),
        quadrature: Vec::new(),
        constraints: base.constraints(),
        stored_inputs: Vec::new(),
    };
    let layout = StateLayout::new(vec![StateBlock::new(BlockId::new("u"), 0..9)]).unwrap();
    let operator = CoupledOperator::new(plan, &layout, &solver_accepts).unwrap();
    let mut state = SimulationState::new(layout, 2);
    state
        .insert_field(FieldId::new("u"), scalars(&interior_vector(1.0)))
        .unwrap();
    state
        .insert_constitutive("material", scalars(&[7.0]))
        .unwrap();
    (operator, state, Nonlinear { base, slope })
}

fn start(operator: CoupledOperator, state: SimulationState) -> CoupledExecution<CoupledOperator> {
    CoupledExecution::new(operator, state, |time: Scalar, values: Vec<Scalar>| {
        Ok(fresh(time, values))
    })
    .unwrap()
}

fn attempt(
    execution: &mut CoupledExecution<CoupledOperator>,
    law: &Nonlinear,
    tolerance: f64,
) -> StepOutcome {
    execution
        .attempt_step(
            &CONTEXT,
            scalar(STEP),
            &config(tolerance),
            &|_: &&str, state: BdfState, step: Scalar, config: &BdfConfig| {
                law.step(&state, float(step), config)
            },
        )
        .unwrap()
}

fn encoded(execution: &CoupledExecution<CoupledOperator>) -> String {
    format!("{:?}", execution.checkpoint().unwrap())
}

#[test]
fn real_composition_implements_nonlinear_block_and_dae_derivatives() {
    let (operator, _, law) = coupled_fixture();
    let total: usize = operator
        .block_layout()
        .iter()
        .map(|block| block.length)
        .sum();
    assert_eq!(total, operator.dimension());
    assert_eq!(operator.block_layout()[0].name, "u");
    let state = interior_vector(0.35);
    let rate = interior_vector(-0.17);
    let state_direction = interior_vector(0.73);
    let rate_direction = interior_vector(-0.41);
    let shifted = |values: &[f64], along: &[f64], by: f64| -> Vec<f64> {
        values.iter().zip(along).map(|(v, d)| v + by * d).collect()
    };
    let evaluated = |_: Scalar, state: &Vec<Scalar>, rate: &Vec<Scalar>| {
        Ok::<Vec<Scalar>, SolveError>(scalars(&law.residual(&floats(state), &floats(rate))))
    };
    let directed = |_: Scalar,
                    state: &Vec<Scalar>,
                    _: &Vec<Scalar>,
                    direction: &Vec<Scalar>,
                    rate_direction: &Vec<Scalar>| {
        Ok::<Vec<Scalar>, SolveError>(scalars(&law.product(
            &floats(state),
            &floats(direction),
            &floats(rate_direction),
        )))
    };
    let residual = |time: f64, state: &[f64], rate: &[f64]| {
        floats(
            &operator
                .residual(scalar(time), &scalars(state), &scalars(rate), &evaluated)
                .unwrap(),
        )
    };
    for rate_direction in [vec![0.0; 9], rate_direction] {
        let at = |by: f64| {
            residual(
                0.3,
                &shifted(&state, &state_direction, by),
                &shifted(&rate, &rate_direction, by),
            )
        };
        let centered: Vec<f64> = at(1.0e-6)
            .iter()
            .zip(&at(-1.0e-6))
            .map(|(ahead, behind)| (ahead - behind) / 2.0e-6)
            .collect();
        let product = operator
            .jacobian_vector_product(
                scalar(0.3),
                &scalars(&state),
                &scalars(&rate),
                &scalars(&state_direction),
                &scalars(&rate_direction),
                &directed,
            )
            .unwrap();
        assert!(max_abs_difference(&centered, &floats(&product)) < 2.0e-9);
    }

    // The steady view holds time and rate at zero.
    let steady = |by: f64| {
        let moved = scalars(&shifted(&state, &state_direction, by));
        floats(&operator.steady_residual(&moved, &evaluated).unwrap())
    };
    assert_eq!(steady(0.0), residual(0.0, &state, &[0.0; 9]));
    let centered: Vec<f64> = steady(1.0e-6)
        .iter()
        .zip(&steady(-1.0e-6))
        .map(|(ahead, behind)| (ahead - behind) / 2.0e-6)
        .collect();
    let product = operator
        .steady_jacobian_vector_product(&scalars(&state), &scalars(&state_direction), &directed)
        .unwrap();
    assert!(max_abs_difference(&centered, &floats(&product)) < 2.0e-9);

    // A refusal of the realization comes back as it is.
    let refused = operator
        .residual(
            scalar(0.0),
            &scalars(&state),
            &scalars(&rate),
            &|_: Scalar, _: &Vec<Scalar>, _: &Vec<Scalar>| {
                Err::<Vec<Scalar>, SolveError>(SolveError {
                    refusal: None,
                    text: "inverted element".to_owned(),
                })
            },
        )
        .unwrap_err();
    let NumericError::Reported(reported) = refused else {
        panic!("{refused:?}")
    };
    assert_eq!(reported.text, "inverted element");
}

#[test]
fn accepted_rejected_and_restarted_steps_preserve_transactional_history() {
    let (operator, state, law) = coupled_fixture();
    let mut execution = start(operator.clone(), state);

    let first = attempt(&mut execution, &law, LOOSE);
    assert!(matches!(first, StepOutcome::Accepted(_)));
    assert_eq!(execution.state().phase(), TransactionPhase::Committed);
    assert_eq!(execution.state().step(), 1);
    assert_eq!(
        execution.state().history(&FieldId::new("u")).unwrap()[0],
        scalars(&interior_vector(1.0))
    );

    let before_rejection = encoded(&execution);
    let rejected = attempt(&mut execution, &law, TIGHT);
    assert_eq!(rejected, rejection());
    assert_eq!(encoded(&execution), before_rejection);

    let mut continuous = execution.clone();
    for _ in 0..3 {
        assert!(matches!(
            attempt(&mut continuous, &law, LOOSE),
            StepOutcome::Accepted(_)
        ));
    }

    assert!(matches!(
        attempt(&mut execution, &law, LOOSE),
        StepOutcome::Accepted(_)
    ));
    let checkpoint = execution.checkpoint().unwrap();
    let (_, fresh_state, _) = coupled_fixture();
    let mut restarted = start(operator, fresh_state);
    restarted.restore(&checkpoint).unwrap();
    for _ in 0..2 {
        assert!(matches!(
            attempt(&mut restarted, &law, LOOSE),
            StepOutcome::Accepted(_)
        ));
    }
    assert_eq!(encoded(&continuous), encoded(&restarted));
}

#[test]
fn checkpoint_refuses_same_size_geometry_and_material_changes() {
    let (source_operator, source_state, _) = coupled_fixture();
    let source = start(source_operator, source_state);
    let checkpoint = source.checkpoint().unwrap();

    for (identity, slope, shift) in [
        ("k=1+0.2u;direction=0.2du/v1", 0.2, 0.0),
        ("k=1+0.1u;direction=0.1du/v1", 0.1, 0.03),
    ] {
        let (operator, state, _) = coupled_fixture_variant(identity, slope, shift);
        assert_ne!(source.operator().identity(), operator.identity());
        assert_ne!(
            source.operator().realization().digest,
            operator.realization().digest
        );
        let mut execution = start(operator, state);
        let before = execution.checkpoint().unwrap();
        assert!(execution.restore(&checkpoint).is_err());
        assert_eq!(execution.checkpoint().unwrap(), before);
    }
}
