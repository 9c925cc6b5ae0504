//! Composition of leaves over one state: residuals, steps inside a transaction, restart,
//! consistent initialization, the coupling graph and the composed identity.

use krasis::{
    check_strategy_work, AcceptedStep, BdfConfig, BdfState, BlockId, BlockSolveReport, BlockSpec,
    BlockStrategy, ComparisonReport, ComparisonTolerance, CountedOperator, CoupledExecution,
    CoupledLeaf, CoupledOperator, CoupledSystemOperator, CouplingArgument, CouplingEdge, FieldId,
    KrasisError, NewtonConfig, NewtonReport, NumericError, RealizationPlan, RowKind, Scalar,
    SemanticId, SimulationState, SolveError, StateBinding, StateBlock, StateLayout, StepOutcome,
    StrategyContext, StrategyRun, StrategyWorkReport, SystemCalls, TransactionalOperator,
    WorkBudgetReport, WorkCount,
};

/// A block solver that takes any blocks but empty ones.
fn solver_accepts(blocks: &Vec<BlockSpec>) -> Result<(), String> {
    match blocks.iter().find(|block| block.length == 0) {
        Some(block) => Err(format!("block `{}` is empty", block.name)),
        None => Ok(()),
    }
}

fn scalar(value: f64) -> Scalar {
    Scalar::from_bits(value.to_bits())
}

fn scalars(values: &[f64]) -> Vec<Scalar> {
    values.iter().map(|value| scalar(*value)).collect()
}

fn float(value: Scalar) -> f64 {
    f64::from_bits(value.to_bits())
}

fn floats(values: &[Scalar]) -> Vec<f64> {
    values.iter().map(|value| float(*value)).collect()
}

fn render(value: Scalar) -> String {
    format!("{}", float(value))
}

type Matrix = Vec<Vec<f64>>;

fn apply(matrix: &Matrix, vector: &[f64]) -> Vec<f64> {
    matrix
        .iter()
        .map(|row| row.iter().zip(vector).map(|(a, b)| a * b).sum())
        .collect()
}

fn scaled(matrix: &Matrix, scale: f64) -> Matrix {
    matrix
        .iter()
        .map(|row| row.iter().map(|value| scale * value).collect())
        .collect()
}

/// Solves a dense system by elimination with pivoting.
fn solve_dense(matrix: &Matrix, right: &[f64]) -> Vec<f64> {
    let n = right.len();
    let mut rows: Matrix = matrix.clone();
    let mut values = right.to_vec();
    for column in 0..n {
        let mut pivot = column;
        for row in column + 1..n {
            if rows[row][column].abs() > rows[pivot][column].abs() {
                pivot = row;
            }
        }
        rows.swap(column, pivot);
        values.swap(column, pivot);
        for row in column + 1..n {
            let factor = rows[row][column] / rows[column][column];
            for entry in column..n {
                let above = rows[column][entry];
                rows[row][entry] -= factor * above;
            }
            values[row] -= factor * values[column];
        }
    }
    for column in (0..n).rev() {
        for entry in column + 1..n {
            values[column] -= rows[column][entry] * values[entry];
        }
        values[column] /= rows[column][column];
    }
    values
}

/// The linear law `mass x' + stiffness x = load` of one leaf.
#[derive(Clone)]
struct LinearLaw {
    mass: Matrix,
    stiffness: Matrix,
    load: Vec<f64>,
}

impl LinearLaw {
    fn residual(&self, state: &[f64], rate: &[f64]) -> Vec<f64> {
        let moved = apply(&self.mass, rate);
        let held = apply(&self.stiffness, state);
        (0..state.len())
            .map(|row| moved[row] + held[row] - self.load[row])
            .collect()
    }

    fn product(&self, direction: &[f64], rate_direction: &[f64]) -> Vec<f64> {
        let moved = apply(&self.mass, rate_direction);
        let held = apply(&self.stiffness, direction);
        (0..direction.len()).map(|row| moved[row] + held[row]).collect()
    }
}

/// A composed operator with the laws of its leaves and the matrices of its declared edges.
#[derive(Clone)]
struct Composed {
    operator: CoupledSystemOperator,
    laws: Vec<LinearLaw>,
    matrices: Vec<Matrix>,
}

impl Composed {
    fn dimension(&self) -> usize {
        self.operator.layout().width()
    }

    fn residual(&self, time: f64, state: &[f64], rate: &[f64]) -> Result<Vec<f64>, NumericError> {
        let calls = SystemCalls {
            leaf: |leaf: usize, _: Scalar, parts: &Vec<Vec<Scalar>>| {
                let (state, rate) = (floats(&parts[0]), floats(&parts[1]));
                Ok::<Vec<Scalar>, SolveError>(scalars(&self.laws[leaf].residual(&state, &rate)))
            },
            action: |edge: usize, source: &Vec<Scalar>| {
                Ok::<Vec<Scalar>, SolveError>(scalars(&apply(
                    &self.matrices[edge],
                    &floats(source),
                )))
            },
            sum: |left: Scalar, right: Scalar| scalar(float(left) + float(right)),
        };
        self.operator
            .residual(
                scalar(time),
                &scalars(state),
                &scalars(rate),
                self.dimension(),
                &calls,
            )
            .map(|values| floats(&values))
    }

    fn product(&self, direction: &[f64], rate_direction: &[f64]) -> Vec<f64> {
        let zero = vec![0.0; self.dimension()];
        let calls = SystemCalls {
            leaf: |leaf: usize, _: Scalar, parts: &Vec<Vec<Scalar>>| {
                let (direction, rate) = (floats(&parts[2]), floats(&parts[3]));
                Ok::<Vec<Scalar>, SolveError>(scalars(&self.laws[leaf].product(&direction, &rate)))
            },
            action: |edge: usize, source: &Vec<Scalar>| {
                Ok::<Vec<Scalar>, SolveError>(scalars(&apply(
                    &self.matrices[edge],
                    &floats(source),
                )))
            },
            sum: |left: Scalar, right: Scalar| scalar(float(left) + float(right)),
        };
        let values = self
            .operator
            .jacobian_vector_product(
                scalar(0.0),
                &scalars(&zero),
                &scalars(&zero),
                &scalars(direction),
                &scalars(rate_direction),
                self.dimension(),
                &calls,
            )
            .unwrap();
        floats(&values)
    }

    /// The matrix `dF/dx + shift dF/dx'`.
    fn jacobian(&self, shift: f64) -> Matrix {
        let n = self.dimension();
        let mut matrix = vec![vec![0.0; n]; n];
        for column in 0..n {
            let mut direction = vec![0.0; n];
            direction[column] = 1.0;
            let rate: Vec<f64> = direction.iter().map(|value| shift * value).collect();
            for (row, value) in self.product(&direction, &rate).iter().enumerate() {
                matrix[row][column] = *value;
            }
        }
        matrix
    }

    fn initialize(
        &self,
        time: Scalar,
        values: Vec<Scalar>,
    ) -> Result<BdfState, SolveError> {
        Ok(BdfState {
            time,
            values,
            previous_values: None,
            previous_step: None,
            accepted_steps: 0,
        })
    }

    /// One fixed backward step of first or second order; the law is linear, so one Newton
    /// iteration solves it.
    /// One implicit step by one Newton iteration, which must reach the tolerances.
    fn bdf_step(
        &self,
        state: &BdfState,
        step: f64,
        order: usize,
        config: &BdfConfig,
    ) -> Result<StepOutcome, SolveError> {
        let values = floats(&state.values);
        let (shift, known): (f64, Vec<f64>) = match &state.previous_values {
            Some(previous) if order == 2 => {
                let earlier = floats(previous);
                (
                    1.5 / step,
                    values
                        .iter()
                        .zip(&earlier)
                        .map(|(now, before)| (-2.0 * now + 0.5 * before) / step)
                        .collect(),
                )
            }
            _ => (
                1.0 / step,
                values.iter().map(|value| -value / step).collect(),
            ),
        };
        let rate_at = |state: &[f64]| -> Vec<f64> {
            state
                .iter()
                .zip(&known)
                .map(|(value, history)| shift * value + history)
                .collect()
        };
        let time = float(state.time) + step;
        let residual = self.residual(time, &values, &rate_at(&values)).unwrap();
        let correction = solve_dense(&self.jacobian(shift), &residual);
        let next: Vec<f64> = values
            .iter()
            .zip(&correction)
            .map(|(value, change)| value - change)
            .collect();
        let norm = |values: &[f64]| values.iter().map(|v| v * v).sum::<f64>().sqrt();
        let left = norm(&self.residual(time, &next, &rate_at(&next)).unwrap());
        let allowed = float(config.newton.absolute_tolerance)
            + float(config.newton.relative_tolerance) * norm(&residual);
        if left > allowed {
            return Err(SolveError {
                refusal: None,
                text: format!("Newton left a residual of {left:e} after 1 iteration"),
            });
        }
        Ok(StepOutcome::Accepted(AcceptedStep {
            state: BdfState {
                time: scalar(time),
                values: scalars(&next),
                previous_values: Some(state.values.clone()),
                previous_step: Some(scalar(step)),
                accepted_steps: state.accepted_steps + 1,
            },
            events: Vec::new(),
            report: String::new(),
        }))
    }
}

const NETWORK_DIMENSION: usize = 3;

fn network_mass() -> Matrix {
    vec![
        vec![2.0, 0.5, 0.0],
        vec![0.5, 2.0, 0.5],
        vec![0.0, 0.5, 2.0],
    ]
}

/// `M (x' + x) = 0` with a full mass matrix.
fn network_law() -> LinearLaw {
    LinearLaw {
        mass: network_mass(),
        stiffness: network_mass(),
        load: vec![0.0; NETWORK_DIMENSION],
    }
}

fn single_block_layout(block: &str, width: usize) -> StateLayout {
    StateLayout::new(vec![StateBlock::new(BlockId::new(block), 0..width)]).unwrap()
}

fn single_binding(layout: &StateLayout, block: &str, semantic: u32) -> StateBinding {
    StateBinding::new(
        layout,
        vec![(SemanticId::new(semantic), BlockId::new(block))],
    )
    .unwrap()
}

fn network_leaf(name: &str, semantic: u32) -> CoupledLeaf {
    let layout = single_block_layout(name, NETWORK_DIMENSION);
    let binding = single_binding(&layout, name, semantic);
    CoupledLeaf::new(name, NETWORK_DIMENSION, layout, binding, "network-dae/1")
        .unwrap()
        .with_row_kinds(vec![RowKind::Differential; NETWORK_DIMENSION])
        .unwrap()
}

fn matrix_edge(
    row: &str,
    column: &str,
    argument: CouplingArgument,
    matrix: &Matrix,
) -> CouplingEdge {
    CouplingEdge::matrix(
        row,
        column,
        argument,
        matrix.len(),
        matrix[0].len(),
        &format!("{matrix:?}"),
    )
}

fn exchange(row: &str, column: &str, scale: f64) -> CouplingEdge {
    matrix_edge(
        row,
        column,
        CouplingArgument::State,
        &scaled(&network_mass(), scale),
    )
}

/// Two network leaves exchanging through `-epsilon M`.
fn two_block_network(epsilon: f64) -> Composed {
    let operator = CoupledSystemOperator::new(
        vec![network_leaf("a", 0), network_leaf("b", 1)],
        vec![exchange("a", "b", -epsilon), exchange("b", "a", -epsilon)],
        &solver_accepts,
    )
    .unwrap();
    let matrix = scaled(&network_mass(), -epsilon);
    Composed {
        operator,
        laws: vec![network_law(), network_law()],
        matrices: vec![matrix.clone(), matrix],
    }
}

fn initial_state(operator: &CoupledSystemOperator, a: f64, b: f64) -> SimulationState {
    let mut state = SimulationState::new(operator.layout().clone(), 4);
    for (index, value) in [a, b].into_iter().enumerate() {
        let range = operator.leaf_range(index).unwrap();
        state
            .insert_field(
                FieldId::new(operator.leaves()[index].name()),
                scalars(&vec![value; range.len()]),
            )
            .unwrap();
    }
    state
}

fn newton() -> NewtonConfig {
    NewtonConfig {
        absolute_tolerance: scalar(1.0e-10),
        relative_tolerance: scalar(1.0e-10),
        initial_damping: scalar(1.0),
        minimum_damping: scalar(1.0e-4),
        encoding: "{\"absolute_tolerance\":1e-10}".to_owned(),
    }
}

const CONTEXT: &str = "reproducible";

/// Tolerances that a fixed step never exceeds.
fn fixed_step_config(step: f64) -> BdfConfig {
    BdfConfig {
        absolute_tolerance: scalar(1.0e12),
        relative_tolerance: scalar(1.0e12),
        minimum_step: scalar(step),
        maximum_step: scalar(step),
        newton: newton(),
    }
}

fn pseudo_random_vector(dimension: usize, seed: u64) -> Vec<f64> {
    let mut state = seed.wrapping_mul(6364136223846793005).wrapping_add(1);
    (0..dimension)
        .map(|_| {
            state = state.wrapping_mul(6364136223846793005).wrapping_add(1);
            let bits = (state >> 11) as f64 / (1u64 << 53) as f64;
            2.0 * bits - 1.0
        })
        .collect()
}

fn max_abs_difference(left: &[f64], right: &[f64]) -> f64 {
    assert_eq!(left.len(), right.len());
    left.iter()
        .zip(right)
        .map(|(l, r)| (l - r).abs())
        .fold(0.0, f64::max)
}

/// The largest difference between the product and a centered difference of the residual.
fn jvp_discrepancy(
    system: &Composed,
    time: f64,
    state: &[f64],
    rate: &[f64],
    direction: &[f64],
    rate_direction: &[f64],
    step: f64,
) -> f64 {
    let shifted = |values: &[f64], along: &[f64], by: f64| -> Vec<f64> {
        values.iter().zip(along).map(|(v, d)| v + by * d).collect()
    };
    let ahead = system
        .residual(
            time,
            &shifted(state, direction, step),
            &shifted(rate, rate_direction, step),
        )
        .unwrap();
    let behind = system
        .residual(
            time,
            &shifted(state, direction, -step),
            &shifted(rate, rate_direction, -step),
        )
        .unwrap();
    let centered: Vec<f64> = ahead
        .iter()
        .zip(&behind)
        .map(|(a, b)| (a - b) / (2.0 * step))
        .collect();
    max_abs_difference(&centered, &system.product(direction, rate_direction))
}

#[test]
fn composed_residual_is_leaf_residuals_plus_edge_actions_and_the_jvp_is_consistent() {
    let epsilon = 0.3;
    let system = two_block_network(epsilon);
    let operator = &system.operator;
    let n = NETWORK_DIMENSION;
    assert_eq!(operator.dimension(), 2 * n);
    assert_eq!(operator.layout().blocks().len(), 2);
    assert_eq!(
        operator.binding().block_for(SemanticId::new(1)),
        Some(&BlockId::new("b"))
    );
    let state = pseudo_random_vector(2 * n, 1);
    let rate = pseudo_random_vector(2 * n, 2);
    let composed = system.residual(0.7, &state, &rate).unwrap();

    let single = network_law();
    let mut expected = single.residual(&state[0..n], &rate[0..n]);
    expected.extend(single.residual(&state[n..2 * n], &rate[n..2 * n]));
    for (row, value) in apply(&single.mass, &state[n..2 * n]).iter().enumerate() {
        expected[row] -= epsilon * value;
    }
    for (row, value) in apply(&single.mass, &state[0..n]).iter().enumerate() {
        expected[n + row] -= epsilon * value;
    }
    assert!(max_abs_difference(&composed, &expected) < 1.0e-14);
    assert!(composed.iter().any(|value| value.abs() > 0.1));

    let discrepancy = jvp_discrepancy(
        &system,
        0.7,
        &state,
        &rate,
        &pseudo_random_vector(2 * n, 3),
        &pseudo_random_vector(2 * n, 4),
        1.0e-6,
    );
    assert!(discrepancy < 1.0e-8, "JVP discrepancy {discrepancy}");
}

fn start(system: &Composed) -> CoupledExecution<CoupledSystemOperator> {
    CoupledExecution::new(
        system.operator.clone(),
        initial_state(&system.operator, 1.0, 0.0),
        |time: Scalar, values: Vec<Scalar>| system.initialize(time, values),
    )
    .unwrap()
}

fn advance(
    execution: &mut CoupledExecution<CoupledSystemOperator>,
    system: &Composed,
    order: usize,
    step: f64,
    steps: usize,
) {
    for _ in 0..steps {
        let outcome = execution
            .attempt_step(
                &CONTEXT,
                scalar(step),
                &fixed_step_config(step),
                &|_: &&str, state: BdfState, step: Scalar, config: &BdfConfig| {
                    system.bdf_step(&state, float(step), order, config)
                },
            )
            .unwrap();
        assert!(matches!(outcome, StepOutcome::Accepted(_)));
    }
}

fn run_fixed_steps(
    system: &Composed,
    order: usize,
    step: f64,
    steps: usize,
) -> CoupledExecution<CoupledSystemOperator> {
    let mut execution = start(system);
    advance(&mut execution, system, order, step, steps);
    execution
}

fn committed(execution: &CoupledExecution<CoupledSystemOperator>) -> Vec<f64> {
    floats(&execution.state().committed_vector().unwrap())
}

/// From `a = 1`, `b = 0` every unknown follows `a = exp(-t) cosh(epsilon t)` and
/// `b = exp(-t) sinh(epsilon t)`.
fn manufactured(operator: &CoupledSystemOperator, epsilon: f64, time: f64) -> Vec<f64> {
    let a = (-time).exp() * (epsilon * time).cosh();
    let b = (-time).exp() * (epsilon * time).sinh();
    let mut exact = vec![0.0; operator.dimension()];
    exact[operator.leaf_range(0).unwrap()].fill(a);
    exact[operator.leaf_range(1).unwrap()].fill(b);
    exact
}

#[test]
fn newton_inside_bdf_reproduces_the_manufactured_solution_at_first_and_second_order() {
    let epsilon = 0.4;
    let system = two_block_network(epsilon);
    let operator = &system.operator;
    let final_time = 0.8;
    let exact = manufactured(operator, epsilon, final_time);

    let error_at = |order: usize, steps: usize| {
        let execution = run_fixed_steps(&system, order, final_time / steps as f64, steps);
        assert_eq!(execution.state().step(), steps as u64);
        assert!((float(execution.state().time()) - final_time).abs() < 1.0e-12);
        assert_eq!(execution.integrator().accepted_steps, steps as u64);
        max_abs_difference(&committed(&execution), &exact)
    };

    let bdf1_coarse = error_at(1, 16);
    let bdf1_fine = error_at(1, 32);
    let bdf1_ratio = bdf1_coarse / bdf1_fine;
    assert!(bdf1_coarse < 5.0e-2, "BDF1 error {bdf1_coarse}");
    assert!((1.8..2.2).contains(&bdf1_ratio), "ratio {bdf1_ratio}");

    let bdf2_coarse = error_at(2, 16);
    let bdf2_fine = error_at(2, 32);
    let bdf2_ratio = bdf2_coarse / bdf2_fine;
    assert!(bdf2_coarse < bdf1_coarse);
    assert!((3.4..4.6).contains(&bdf2_ratio), "ratio {bdf2_ratio}");

    // Every unknown of every leaf follows the same scalar law.
    let execution = run_fixed_steps(&system, 2, final_time / 64.0, 64);
    let values = committed(&execution);
    let a = &values[operator.leaf_range(0).unwrap()];
    let b = &values[operator.leaf_range(1).unwrap()];
    assert!(max_abs_difference(a, &vec![a[0]; a.len()]) < 1.0e-10);
    assert!(max_abs_difference(b, &vec![b[0]; b.len()]) < 1.0e-10);
    assert!(b[0] > 0.1);
}

#[test]
fn checkpoint_restart_reproduces_the_composed_trajectory_bitwise() {
    let system = two_block_network(0.25);
    let step = 0.05;
    let reference = run_fixed_steps(&system, 2, step, 6);
    let reference_final = reference.state().committed_vector().unwrap();

    let mut execution = start(&system);
    advance(&mut execution, &system, 2, step, 3);
    let checkpoint = execution.checkpoint().unwrap();
    assert_eq!(checkpoint.operator_identity, system.operator.identity());
    assert_eq!(checkpoint.integrator.accepted_steps, 3);
    advance(&mut execution, &system, 2, step, 3);
    assert_eq!(
        execution.state().committed_vector().unwrap(),
        reference_final
    );

    // Restore and replay: bitwise the same final state and integrator history.
    execution.restore(&checkpoint).unwrap();
    assert_eq!(execution.state().step(), 3);
    advance(&mut execution, &system, 2, step, 3);
    assert_eq!(
        execution.state().committed_vector().unwrap(),
        reference_final
    );
    assert_eq!(execution.integrator(), reference.integrator());

    // A checkpoint from a differently coupled system is refused.
    let other = two_block_network(0.5);
    assert_ne!(other.operator.identity(), system.operator.identity());
    let mut other_execution = start(&other);
    let error = other_execution.restore(&checkpoint).unwrap_err();
    assert!(
        matches!(error, KrasisError::InvalidCoupling(_)),
        "{error:?}"
    );

    // A Newton policy that cannot converge rolls the transaction back and commits nothing.
    let hopeless = BdfConfig {
        newton: NewtonConfig {
            absolute_tolerance: scalar(1.0e-300),
            relative_tolerance: scalar(0.0),
            ..newton()
        },
        ..fixed_step_config(step)
    };
    let before = execution.checkpoint().unwrap();
    let error = execution
        .attempt_step(
            &CONTEXT,
            scalar(step),
            &hopeless,
            &|_: &&str, state: BdfState, step: Scalar, config: &BdfConfig| {
                system.bdf_step(&state, float(step), 1, config)
            },
        )
        .unwrap_err();
    assert!(matches!(error, KrasisError::Solve(_)), "{error:?}");
    assert_eq!(execution.checkpoint().unwrap(), before);
}

/// Solves for the rate of the given rows; the residual is linear in it.
fn rate_solve(
    system: &Composed,
    state: &[f64],
    rows: &[usize],
) -> Result<NewtonReport, SolveError> {
    let n = state.len();
    let residual = system.residual(0.0, state, &vec![0.0; n]).unwrap();
    let mass: Matrix = {
        let zero = vec![0.0; n];
        let mut columns = Vec::new();
        for row in rows {
            let mut direction = vec![0.0; n];
            direction[*row] = 1.0;
            columns.push(system.product(&zero, &direction));
        }
        rows.iter()
            .map(|row| columns.iter().map(|column| column[*row]).collect())
            .collect()
    };
    let right: Vec<f64> = rows.iter().map(|row| -residual[*row]).collect();
    Ok(NewtonReport {
        state: scalars(&solve_dense(&mass, &right)),
        converged: true,
    })
}

#[test]
fn consistent_initialization_is_solved_over_the_composed_residual() {
    let epsilon = 0.35;
    let plain = two_block_network(epsilon);
    let system = Composed {
        operator: plain
            .operator
            .clone()
            .with_consistent_initialization(newton())
            .unwrap(),
        ..plain.clone()
    };
    let operator = &system.operator;
    let state = initial_state(operator, 1.0, 0.0)
        .committed_vector()
        .unwrap();
    let rate = operator
        .solve_consistent_state_rate(
            scalar(0.0),
            &state,
            |_: &NewtonConfig, _: Scalar, at: &Vec<Scalar>, rows: Vec<usize>, _: Vec<Scalar>| {
                rate_solve(&system, &floats(at), &rows)
            },
            |time: Scalar, at: &Vec<Scalar>, rate: Vec<Scalar>| {
                Ok::<Vec<Scalar>, SolveError>(scalars(
                    &system
                        .residual(float(time), &floats(at), &floats(&rate))
                        .unwrap(),
                ))
            },
            &render,
        )
        .unwrap();
    // a' = -a + epsilon b = -1, b' = -b + epsilon a = epsilon: the exchange takes part.
    let mut expected = vec![0.0; 2 * NETWORK_DIMENSION];
    expected[operator.leaf_range(0).unwrap()].fill(-1.0);
    expected[operator.leaf_range(1).unwrap()].fill(epsilon);
    assert!(max_abs_difference(&floats(&rate), &expected) < 1.0e-9);

    // The mask is part of the identity, and the check runs over it.
    assert_ne!(plain.operator.identity(), operator.identity());
    assert!(operator
        .make_initial_state_consistent(
            scalar(0.0),
            &state,
            |_: &NewtonConfig, _: Scalar, at: &Vec<Scalar>, rows: Vec<usize>, _: Vec<Scalar>| {
                rate_solve(&system, &floats(at), &rows)
            },
            |time: Scalar, at: &Vec<Scalar>, rate: Vec<Scalar>| {
                Ok::<Vec<Scalar>, SolveError>(scalars(
                    &system
                        .residual(float(time), &floats(at), &floats(&rate))
                        .unwrap(),
                ))
            },
            &render,
        )
        .is_ok());

    // A leaf without row kinds cannot take part in a composed mask.
    let layout = single_block_layout("bare", NETWORK_DIMENSION);
    let binding = single_binding(&layout, "bare", 7);
    let bare =
        CoupledLeaf::new("bare", NETWORK_DIMENSION, layout, binding, "bare-identity").unwrap();
    assert!(bare.row_kinds().is_none());
    let error = CoupledSystemOperator::new(vec![bare], Vec::new(), &solver_accepts)
        .unwrap()
        .with_consistent_initialization(newton())
        .unwrap_err();
    assert!(
        matches!(error, KrasisError::InvalidCoupling(_)),
        "{error:?}"
    );
}

/// A square of unit diffusion with pinned wall values: its law, mass matrix and row kinds.
struct Diffusion {
    law: LinearLaw,
    rows: Vec<RowKind>,
    vertices: Vec<Vec<f64>>,
}

fn diffusion(subdivisions: usize, boundary: impl Fn(&[f64]) -> f64) -> Diffusion {
    let width = subdivisions + 1;
    let count = width * width;
    let vertices: Vec<Vec<f64>> = (0..count)
        .map(|index| {
            vec![
                (index % width) as f64 / subdivisions as f64,
                (index / width) as f64 / subdivisions as f64,
            ]
        })
        .collect();
    let is_wall = |index: usize| {
        let (row, column) = (index / width, index % width);
        row == 0 || column == 0 || row == subdivisions || column == subdivisions
    };
    let mut mass = vec![vec![0.0; count]; count];
    let mut stiffness = vec![vec![0.0; count]; count];
    let mut load = vec![0.0; count];
    let cell = 1.0 / (subdivisions * subdivisions) as f64;
    for index in 0..count {
        if is_wall(index) {
            stiffness[index][index] = 1.0;
            load[index] = boundary(&vertices[index]);
        } else {
            mass[index][index] = cell;
            stiffness[index][index] = 4.0;
            for neighbour in [index - 1, index + 1, index - width, index + width] {
                stiffness[index][neighbour] = -1.0;
            }
        }
    }
    let rows = (0..count)
        .map(|index| {
            if is_wall(index) {
                RowKind::Algebraic
            } else {
                RowKind::Differential
            }
        })
        .collect();
    Diffusion {
        law: LinearLaw {
            mass,
            stiffness,
            load,
        },
        rows,
        vertices,
    }
}

fn diffusion_plan(name: &str, field: &Diffusion) -> RealizationPlan {
    RealizationPlan {
        dimension: field.vertices.len(),
        digest: format!("blake3:{name}"),
        algorithm: "blake3".to_owned(),
        hex: name.to_owned(),
        vertices: field.vertices.iter().map(|point| scalars(point)).collect(),
        quadrature: Vec::new(),
        constraints: Vec::new(),
        stored_inputs: Vec::new(),
    }
}

fn realization_leaf(name: &str, semantic: u32, field: &Diffusion) -> CoupledLeaf {
    let plan = diffusion_plan(name, field);
    let layout = single_block_layout(name, plan.dimension);
    let binding = single_binding(&layout, name, semantic);
    let operator = CoupledOperator::new_with_bindings(plan, &layout, Some(binding), &solver_accepts)
        .unwrap()
        .with_consistent_initialization(field.rows.clone(), newton())
        .unwrap();
    CoupledLeaf::realization(name, operator, layout).unwrap()
}

fn two_block_diffusion(epsilon: f64) -> Composed {
    let hot = diffusion(3, |point| 1.0 + point[0]);
    let cold = diffusion(3, |_| 0.0);
    let upper = scaled(&hot.law.mass, -epsilon);
    let lower = scaled(&cold.law.mass, -epsilon);
    let operator = CoupledSystemOperator::new(
        vec![
            realization_leaf("hot", 10, &hot),
            realization_leaf("cold", 11, &cold),
        ],
        vec![
            matrix_edge("hot", "cold", CouplingArgument::State, &upper),
            matrix_edge("cold", "hot", CouplingArgument::State, &lower),
        ],
        &solver_accepts,
    )
    .unwrap();
    Composed {
        operator,
        laws: vec![hot.law, cold.law],
        matrices: vec![upper, lower],
    }
}

/// Solves the steady system block by block, sweep after sweep, from a start; gives the
/// last state, whether it converged and the number of states visited.
fn solve_blocks(
    system: &Composed,
    start: &[f64],
    strategy: BlockStrategy,
    tolerance: f64,
    counted: &mut CountedOperator,
) -> BlockSolveReport {
    let n = start.len();
    let zero = vec![0.0; n];
    let mut state = start.to_vec();
    let mut visited = 1;
    let jacobian = system.jacobian(0.0);
    for _ in 0..n {
        counted.count_product();
    }
    let ranges: Vec<Vec<usize>> = match strategy {
        BlockStrategy::Monolithic => vec![(0..n).collect()],
        _ => (0..system.laws.len())
            .map(|leaf| system.operator.leaf_range(leaf).unwrap().collect())
            .collect(),
    };
    for _ in 0..200 {
        counted.count_residual();
        let residual = system.residual(0.0, &state, &zero).unwrap();
        if residual.iter().all(|value| value.abs() <= tolerance) {
            return BlockSolveReport {
                state: scalars(&state),
                converged: true,
                trace_length: visited,
            };
        }
        let swept = state.clone();
        for rows in &ranges {
            let base = match strategy {
                BlockStrategy::Jacobi => swept.clone(),
                _ => state.clone(),
            };
            counted.count_residual();
            let residual = system.residual(0.0, &base, &zero).unwrap();
            let block: Matrix = rows
                .iter()
                .map(|row| rows.iter().map(|column| jacobian[*row][*column]).collect())
                .collect();
            let right: Vec<f64> = rows.iter().map(|row| residual[*row]).collect();
            for (row, change) in rows.iter().zip(solve_dense(&block, &right)) {
                state[*row] = base[*row] - change;
            }
        }
        visited += 1;
    }
    BlockSolveReport {
        state: scalars(&state),
        converged: false,
        trace_length: visited,
    }
}

#[test]
fn partitioned_gauss_seidel_and_jacobi_agree_with_monolithic_newton() {
    let system = two_block_diffusion(0.3);
    let operator = &system.operator;
    let dimension = operator.dimension();
    let start = vec![0.0; dimension];
    let config = NewtonConfig {
        absolute_tolerance: scalar(1.0e-12),
        ..newton()
    };
    let run = |_: &&str, from: &Vec<Scalar>, strategy: BlockStrategy, config: &NewtonConfig| {
        let mut counted = CountedOperator::new();
        let tolerance = float(config.absolute_tolerance);
        let report = solve_blocks(&system, &floats(from), strategy, tolerance, &mut counted);
        StrategyRun {
            solved: Ok(report),
            counted,
        }
    };
    let solve = |strategy: BlockStrategy| run(&CONTEXT, &scalars(&start), strategy, &config);

    let monolithic = solve(BlockStrategy::Monolithic).solved.unwrap();
    assert!(monolithic.converged);
    let values = floats(&monolithic.state);
    let residual = system
        .residual(0.0, &values, &vec![0.0; dimension])
        .unwrap();
    assert!(residual.iter().all(|value| value.abs() < 1.0e-10));

    // The cold leaf's interior is heated by the exchange; the hot leaf's interior lies
    // between its wall data.
    let cold = &values[operator.leaf_range(1).unwrap()];
    assert!(cold.iter().any(|value| *value > 1.0e-3), "{cold:?}");
    let hot = &values[operator.leaf_range(0).unwrap()];
    assert!(hot.iter().any(|value| *value > 1.0 && *value < 2.0));

    for strategy in [BlockStrategy::GaussSeidel, BlockStrategy::Jacobi] {
        let partitioned = solve(strategy).solved.unwrap();
        assert!(partitioned.converged, "{strategy:?}");
        assert!(partitioned.trace_length > 2, "{strategy:?}");
        let difference = max_abs_difference(&floats(&partitioned.state), &values);
        assert!(difference < 1.0e-9, "{strategy:?} differs by {difference}");
    }

    // The counted agreement report over the composed operator.
    let calls = StrategyContext {
        evaluation: CONTEXT,
        limits: (200_000u64, 200u64),
        describe: |context: &&str,
                   state: &Vec<Scalar>,
                   config: &NewtonConfig,
                   tolerance: ComparisonTolerance,
                   limits: &(u64, u64)| {
            Ok::<Vec<u8>, String>(
                format!("{context}{state:?}{config:?}{tolerance:?}{limits:?}").into_bytes(),
            )
        },
        layout: |blocks: &Vec<BlockSpec>| Ok::<Vec<u8>, String>(format!("{blocks:?}").into_bytes()),
        solve: run,
        budget: |count: WorkCount, limits: &(u64, u64)| WorkBudgetReport {
            count,
            accepted: count.operator_evaluations <= limits.0
                && count.nonlinear_iterations <= limits.1,
        },
        agree: |left: &Vec<Scalar>, right: &Vec<Scalar>, tolerance: ComparisonTolerance| {
            let difference = max_abs_difference(&floats(left), &floats(right));
            Ok::<ComparisonReport, SolveError>(ComparisonReport {
                accepted: difference <= float(tolerance.absolute),
                encoding: format!("{{\"difference\":{difference:e}}}"),
            })
        },
        seal: |report: &StrategyWorkReport| Ok(format!("{report:?}").into_bytes()),
    };
    let report = check_strategy_work(
        &operator.block_layout(),
        operator.identity(),
        &scalars(&start),
        &config,
        ComparisonTolerance {
            absolute: scalar(1.0e-9),
            relative: scalar(1.0e-9),
        },
        Ok(()),
        &calls,
    )
    .unwrap();
    assert!(report.passed, "{report:?}");
    assert_eq!(report.agreements.len(), 3);
}

#[test]
fn the_coupling_graph_orders_dependencies_first_and_detects_cycles() {
    let leaves = || vec![network_leaf("a", 0), network_leaf("b", 1), network_leaf("c", 2)];

    // No edges: every leaf its own stage, declaration order.
    let independent = CoupledSystemOperator::new(leaves(), Vec::new(), &solver_accepts).unwrap();
    assert_eq!(independent.graph().stages(), &[vec![0], vec![1], vec![2]]);
    assert!(independent.graph().is_acyclic());
    assert_eq!(independent.graph().nodes(), &["a", "b", "c"]);

    // A chain a <- b <- c is solved c, b, a.
    let chain = CoupledSystemOperator::new(
        leaves(),
        vec![exchange("a", "b", -0.1), exchange("b", "c", -0.1)],
        &solver_accepts,
    )
    .unwrap();
    assert_eq!(chain.graph().stages(), &[vec![2], vec![1], vec![0]]);
    assert!(chain.graph().is_acyclic());
    assert_eq!(chain.graph().dependencies().len(), 2);
    assert_eq!(chain.graph().dependencies()[0].row, 0);
    assert_eq!(chain.graph().dependencies()[0].column, 1);

    // Closing the cycle makes one fixed-point block.
    let cycle = CoupledSystemOperator::new(
        leaves(),
        vec![
            exchange("a", "b", -0.1),
            exchange("b", "c", -0.1),
            exchange("c", "a", -0.1),
        ],
        &solver_accepts,
    )
    .unwrap();
    assert_eq!(cycle.graph().stages(), &[vec![0, 1, 2]]);
    assert!(!cycle.graph().is_acyclic());

    // A two-way pair plus a one-way consumer: the pair is solved before its consumer.
    let mixed = CoupledSystemOperator::new(
        leaves(),
        vec![
            exchange("a", "b", -0.1),
            exchange("b", "a", -0.1),
            exchange("c", "a", -0.1),
        ],
        &solver_accepts,
    )
    .unwrap();
    assert_eq!(mixed.graph().stages(), &[vec![0, 1], vec![2]]);
}

#[test]
fn a_one_way_coupling_is_solved_exactly_by_one_ordered_sweep() {
    let composed = |names: [(&str, u32); 2]| Composed {
        operator: CoupledSystemOperator::new(
            names
                .iter()
                .map(|(name, semantic)| network_leaf(name, *semantic))
                .collect(),
            vec![exchange("a", "b", -0.5)],
            &solver_accepts,
        )
        .unwrap(),
        laws: vec![network_law(), network_law()],
        matrices: vec![scaled(&network_mass(), -0.5)],
    };
    let declared = composed([("a", 0), ("b", 1)]);
    let scheduled = composed([("b", 1), ("a", 0)]);
    assert_eq!(declared.operator.graph().stages(), &[vec![1], vec![0]]);
    assert_eq!(scheduled.operator.graph().stages(), &[vec![0], vec![1]]);

    let start = pseudo_random_vector(2 * NETWORK_DIMENSION, 9);
    let sweeps = |system: &Composed| {
        let mut counted = CountedOperator::new();
        solve_blocks(
            system,
            &start,
            BlockStrategy::GaussSeidel,
            1.0e-12,
            &mut counted,
        )
        .trace_length
            - 1
    };
    assert_eq!(sweeps(&scheduled), 1);
    assert_eq!(sweeps(&declared), 2);
}

#[test]
fn composition_refuses_malformed_leaves_and_edges() {
    let a = || network_leaf("a", 0);
    let b = || network_leaf("b", 1);
    let refused = |result: Result<CoupledSystemOperator, KrasisError>| {
        let error = result.unwrap_err();
        assert!(
            matches!(error, KrasisError::InvalidCoupling(_)),
            "{error:?}"
        );
    };

    // Unknown endpoint, self edge, shape mismatch, duplicate leaf name, no leaves.
    refused(CoupledSystemOperator::new(
        vec![a(), b()],
        vec![exchange("a", "zzz", -0.1)],
        &solver_accepts,
    ));
    refused(CoupledSystemOperator::new(
        vec![a(), b()],
        vec![exchange("a", "a", -0.1)],
        &solver_accepts,
    ));
    let field = diffusion(2, |_| 0.0);
    let big = realization_leaf("big", 2, &field);
    refused(CoupledSystemOperator::new(
        vec![a(), big],
        vec![matrix_edge(
            "a",
            "big",
            CouplingArgument::State,
            &scaled(&field.law.mass, -0.1),
        )],
        &solver_accepts,
    ));
    refused(CoupledSystemOperator::new(vec![a(), a()], Vec::new(), &solver_accepts));
    assert!(matches!(
        CoupledSystemOperator::new(Vec::new(), Vec::new(), &solver_accepts).unwrap_err(),
        KrasisError::EmptyLayout
    ));

    // Two leaves binding the same semantic id.
    let a_again = network_leaf("a2", 0);
    assert_eq!(
        CoupledSystemOperator::new(vec![a(), a_again], Vec::new(), &solver_accepts).unwrap_err(),
        KrasisError::StateBindingDuplicateSemanticId(0)
    );

    // Two leaves whose blocks share a block id.
    let layout = single_block_layout("a", NETWORK_DIMENSION);
    let binding = single_binding(&layout, "a", 5);
    let clash = CoupledLeaf::new("other", NETWORK_DIMENSION, layout, binding, "other").unwrap();
    assert_eq!(
        CoupledSystemOperator::new(vec![a(), clash], Vec::new(), &solver_accepts).unwrap_err(),
        KrasisError::DuplicateBlock("a".into())
    );

    // Leaf construction: width mismatch, a binding over other blocks, blank name.
    let short = single_block_layout("w", NETWORK_DIMENSION - 1);
    let short_binding = single_binding(&short, "w", 1);
    let error = CoupledLeaf::new("w", NETWORK_DIMENSION, short, short_binding, "w").unwrap_err();
    assert!(
        matches!(error, KrasisError::InvalidCoupling(_)),
        "{error:?}"
    );
    let other_blocks = single_block_layout("v", NETWORK_DIMENSION);
    let other_binding = single_binding(&other_blocks, "v", 1);
    assert_eq!(
        CoupledLeaf::new(
            "w",
            NETWORK_DIMENSION,
            single_block_layout("w", NETWORK_DIMENSION),
            other_binding,
            "w"
        )
        .unwrap_err(),
        KrasisError::StateBindingLayoutMismatch
    );
    let layout = single_block_layout("w", NETWORK_DIMENSION);
    let binding = single_binding(&layout, "w", 1);
    let error = CoupledLeaf::new(" ", NETWORK_DIMENSION, layout, binding, "w").unwrap_err();
    assert!(
        matches!(error, KrasisError::InvalidCoupling(_)),
        "{error:?}"
    );

    // A realization leaf needs a bound coupled operator and its own layout.
    let plan = diffusion_plan("w", &field);
    let layout = single_block_layout("w", plan.dimension);
    let unbound = CoupledOperator::new(plan.clone(), &layout, &solver_accepts).unwrap();
    let error = CoupledLeaf::realization("w", unbound, layout.clone()).unwrap_err();
    assert!(
        matches!(error, KrasisError::InvalidCoupling(_)),
        "{error:?}"
    );
    let bound =
        CoupledOperator::new_with_bindings(
            plan,
            &layout,
            Some(single_binding(&layout, "w", 3)),
            &solver_accepts,
        )
            .unwrap();
    let error =
        CoupledLeaf::realization("w", bound.clone(), single_block_layout("w", 1)).unwrap_err();
    assert!(
        matches!(error, KrasisError::InvalidCoupling(_)),
        "{error:?}"
    );
    assert!(CoupledLeaf::realization("w", bound, layout)
        .unwrap()
        .row_kinds()
        .is_none());

    // Mask length.
    assert!(matches!(
        a().with_row_kinds(vec![RowKind::Differential; NETWORK_DIMENSION + 1])
            .unwrap_err(),
        KrasisError::ConsistentInitializationMaskLength { .. }
    ));
}

#[test]
fn identity_is_canonical_and_covers_leaves_edges_and_edge_content() {
    let baseline = two_block_network(0.25).operator;
    assert_eq!(
        baseline.identity(),
        two_block_network(0.25).operator.identity()
    );
    assert!(baseline.identity().starts_with("blake3:"));
    assert_ne!(
        baseline.identity(),
        two_block_network(0.5).operator.identity()
    );

    // Edge order does not matter; edge direction does; the leaf name does.
    let leaves = || vec![network_leaf("a", 0), network_leaf("b", 1)];
    let forward = CoupledSystemOperator::new(
        leaves(),
        vec![exchange("a", "b", -0.1), exchange("b", "a", -0.1)],
        &solver_accepts,
    )
    .unwrap();
    let reordered = CoupledSystemOperator::new(
        leaves(),
        vec![exchange("b", "a", -0.1), exchange("a", "b", -0.1)],
        &solver_accepts,
    )
    .unwrap();
    assert_eq!(forward.identity(), reordered.identity());
    let one_way =
        CoupledSystemOperator::new(leaves(), vec![exchange("a", "b", -0.1)], &solver_accepts)
            .unwrap();
    assert_ne!(forward.identity(), one_way.identity());
    let renamed_system =
        CoupledSystemOperator::new(
            vec![network_leaf("a", 0), network_leaf("b2", 1)],
            Vec::new(),
            &solver_accepts,
        )
            .unwrap();
    let plain_system = CoupledSystemOperator::new(leaves(), Vec::new(), &solver_accepts).unwrap();
    assert_ne!(renamed_system.identity(), plain_system.identity());

    // A rate edge is a different relation from a state edge of the same content.
    let rate = CoupledSystemOperator::new(
        leaves(),
        vec![matrix_edge(
            "a",
            "b",
            CouplingArgument::Rate,
            &scaled(&network_mass(), -0.1),
        )],
        &solver_accepts,
    )
    .unwrap();
    assert_ne!(rate.identity(), one_way.identity());
    assert_eq!(
        rate.graph().dependencies()[0].argument,
        CouplingArgument::Rate
    );
}

/// Upwind transport on a ring of two cells, and a one-state network.
fn cross_dialect_system(fv_from_network: Matrix) -> Composed {
    let transport = LinearLaw {
        mass: vec![vec![1.0, 0.0], vec![0.0, 1.0]],
        stiffness: vec![vec![1.0, -1.0], vec![-1.0, 1.0]],
        load: vec![0.0; 2],
    };
    let network = LinearLaw {
        mass: vec![vec![1.0]],
        stiffness: vec![vec![2.0]],
        load: vec![0.0],
    };
    let fv_layout = single_block_layout("q", 2);
    let fv_binding = single_binding(&fv_layout, "q", 0);
    let net_layout = single_block_layout("x", 1);
    let net_binding = single_binding(&net_layout, "x", 1);
    let leaves = vec![
        CoupledLeaf::new("fv", 2, fv_layout, fv_binding, "finite-volume/upwind").unwrap(),
        CoupledLeaf::new("net", 1, net_layout, net_binding, "network-dae/2").unwrap(),
    ];
    let back = vec![vec![0.25, -0.25]];
    let edges = vec![
        matrix_edge("fv", "net", CouplingArgument::State, &fv_from_network),
        matrix_edge("net", "fv", CouplingArgument::State, &back),
    ];
    Composed {
        operator: CoupledSystemOperator::new(leaves, edges, &solver_accepts).unwrap(),
        laws: vec![transport, network],
        matrices: vec![fv_from_network, back],
    }
}

#[test]
fn fc10_explicit_off_diagonal_blocks_form_a_real_bidirectional_dae() {
    let system = cross_dialect_system(vec![vec![0.5], vec![-0.5]]);
    let residual = system
        .residual(0.0, &[1.0, 0.0, 2.0], &[0.1, 0.2, 0.3])
        .unwrap();
    assert_eq!(residual, vec![2.1, -1.8, 4.55]);
    assert_eq!(system.operator.graph().stages(), &[vec![0, 1]]);
    let discrepancy = jvp_discrepancy(
        &system,
        0.3,
        &[1.0, 0.0, 2.0],
        &[0.1, 0.2, 0.3],
        &[-0.4, 0.7, 0.2],
        &[0.5, -0.1, 0.6],
        1.0e-6,
    );
    assert!(discrepancy < 1.0e-9);
}

#[test]
fn fc10_identity_is_canonical_and_covers_coupling_matrices() {
    let identity = |matrix: Matrix| cross_dialect_system(matrix).operator.identity().to_owned();
    let baseline = identity(vec![vec![0.5], vec![-0.5]]);
    assert_eq!(baseline, identity(vec![vec![0.5], vec![-0.5]]));
    assert_ne!(baseline, identity(vec![vec![0.75], vec![-0.5]]));
}

#[test]
fn fc10_methodus_advances_the_cross_dialect_system_without_method_specific_policy() {
    let system = cross_dialect_system(vec![vec![0.5], vec![-0.5]]);
    let operator = &system.operator;
    let state = system
        .initialize(scalar(0.0), scalars(&[1.0, 0.0, 0.5]))
        .unwrap();
    let StepOutcome::Accepted(accepted) = system
        .bdf_step(&state, 0.1, 1, &fixed_step_config(0.1))
        .unwrap() else {
        panic!("the first-order fixed step must be accepted")
    };
    assert_eq!(accepted.state.accepted_steps, 1);
    assert_eq!(float(accepted.state.time), 0.1);
    assert_ne!(accepted.state.values, state.values);

    // The same through the transaction, with the leaf partition as the block layout.
    let mut fields = SimulationState::new(operator.layout().clone(), 2);
    fields
        .insert_field(FieldId::new("q"), scalars(&[1.0, 0.0]))
        .unwrap();
    fields
        .insert_field(FieldId::new("x"), scalars(&[0.5]))
        .unwrap();
    let mut execution = CoupledExecution::new(
        operator.clone(),
        fields,
        |time: Scalar, values: Vec<Scalar>| system.initialize(time, values),
    )
    .unwrap();
    let outcome = execution
        .attempt_step(
            &CONTEXT,
            scalar(0.1),
            &fixed_step_config(0.1),
            &|_: &&str, state: BdfState, step: Scalar, config: &BdfConfig| {
                system.bdf_step(&state, float(step), 1, config)
            },
        )
        .unwrap();
    assert!(matches!(outcome, StepOutcome::Accepted(_)));
    assert_eq!(
        execution.state().committed_vector().unwrap(),
        accepted.state.values
    );
    let blocks = operator.block_layout();
    let names: Vec<&str> = blocks.iter().map(|block| block.name.as_str()).collect();
    assert_eq!(names, ["fv", "net"]);
}
