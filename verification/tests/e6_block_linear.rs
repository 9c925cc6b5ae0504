//! Linear solves over one block state inside transactions: convergence, rollback, restart
//! and history.

use krasis::{
    block_state_layout, BlockId, BlockLinearExecution, BlockLinearSolver, BlockOperatorShape,
    BlockSpec, FieldBlock, FieldId, KrasisError, LinearSolve, LinearSolveReport, MixedOperator,
    Scalar, SimulationState, SolveError, StateBlock, StateLayout, TransactionPhase,
};

const FIELD_A: u32 = 0;
const FIELD_B: u32 = 1;

fn scalar(value: f64) -> Scalar {
    Scalar::from_bits(value.to_bits())
}

fn scalars(values: &[f64]) -> Vec<Scalar> {
    values.iter().map(|value| scalar(*value)).collect()
}

fn floats(values: &[Scalar]) -> Vec<f64> {
    values
        .iter()
        .map(|value| f64::from_bits(value.to_bits()))
        .collect()
}

/// A symmetric saddle-point matrix over two fields: a free chain and the constraints that
/// couple neighbours. The constant second field is in its kernel.
struct Saddle {
    matrix: Vec<Vec<f64>>,
    first: usize,
    second: usize,
}

fn saddle(count: usize) -> Saddle {
    let (first, second) = (2 * count + 1, count + 1);
    let n = first + second;
    let mut matrix = vec![vec![0.0; n]; n];
    for link in 0..first - 1 {
        matrix[link][link] += 1.0;
        matrix[link + 1][link + 1] += 1.0;
        matrix[link][link + 1] -= 1.0;
        matrix[link + 1][link] -= 1.0;
    }
    for row in 0..first - 1 {
        let left = first + row / 2;
        for (column, sign) in [(left, -1.0), (left + 1, 1.0)] {
            matrix[row][column] += 0.5 * sign;
            matrix[column][row] += 0.5 * sign;
        }
    }
    Saddle {
        matrix,
        first,
        second,
    }
}

impl Saddle {
    fn dimension(&self) -> usize {
        self.first + self.second
    }

    fn operator(&self) -> MixedOperator {
        MixedOperator {
            digest: format!("blake3:saddle-{}", self.first),
        }
    }

    fn fields(&self) -> Vec<FieldBlock> {
        vec![
            FieldBlock {
                variable: FIELD_A,
                offset: 0,
                extent: self.first,
            },
            FieldBlock {
                variable: FIELD_B,
                offset: self.first,
                extent: self.second,
            },
        ]
    }

    fn shape(&self) -> BlockOperatorShape {
        BlockOperatorShape {
            rows: self.dimension(),
            columns: self.dimension(),
            dimension: self.dimension(),
            blocks: vec![
                BlockSpec {
                    name: "field_a".to_owned(),
                    length: self.first,
                },
                BlockSpec {
                    name: "field_b".to_owned(),
                    length: self.second,
                },
            ],
            properties: "{\"symmetry\":\"symmetric\"}".to_owned(),
            block_layout: format!("[{},{}]", self.first, self.second),
        }
    }

    fn apply(&self, vector: &[f64]) -> Vec<f64> {
        self.matrix
            .iter()
            .map(|row| row.iter().zip(vector).map(|(a, b)| a * b).sum())
            .collect()
    }

    /// Minimal residual iteration by conjugate gradients on the normal equations.
    fn minres(
        &self,
        right: &[f64],
        guess: &[f64],
        max_iterations: usize,
        tolerance: f64,
    ) -> LinearSolve<f64> {
        let norm = |vector: &[f64]| vector.iter().map(|v| v * v).sum::<f64>().sqrt();
        let mut solution = guess.to_vec();
        let difference = |solution: &[f64]| -> Vec<f64> {
            self.apply(solution)
                .iter()
                .zip(right)
                .map(|(action, expected)| expected - action)
                .collect()
        };
        let mut residual = difference(&solution);
        let mut gradient = self.apply(&residual);
        let mut direction = gradient.clone();
        let mut trace = vec![norm(&residual)];
        while norm(&residual) > tolerance && trace.len() <= max_iterations {
            let moved = self.apply(&direction);
            let squared = norm(&gradient).powi(2);
            let by = squared / norm(&moved).powi(2);
            for (value, along) in solution.iter_mut().zip(&direction) {
                *value += by * along;
            }
            residual = difference(&solution);
            gradient = self.apply(&residual);
            let keep = norm(&gradient).powi(2) / squared;
            for (along, new) in direction.iter_mut().zip(&gradient) {
                *along = new + keep * *along;
            }
            trace.push(norm(&residual));
        }
        LinearSolve {
            report: LinearSolveReport {
                solution: scalars(&solution),
                converged: norm(&residual) <= tolerance,
                trace,
            },
            restart_cycles: 0,
        }
    }

    fn residual_norm(&self, solution: &[f64], right: &[f64]) -> f64 {
        self.apply(solution)
            .iter()
            .zip(right)
            .map(|(actual, expected)| (actual - expected).powi(2))
            .sum::<f64>()
            .sqrt()
    }

    /// The operator applied to a probe: always in its range.
    fn consistent_right_hand_side(&self, seed: u64) -> Vec<f64> {
        self.apply(&pseudo_random_vector(self.dimension(), seed))
    }
}

type Solver = BlockLinearSolver<(), (usize, f64), ()>;

fn reachable() -> Solver {
    BlockLinearSolver::Minres((2_000, 1.0e-10))
}

fn unreachable_policy() -> Solver {
    BlockLinearSolver::Minres((1, 1.0e-14))
}

fn run(
    fixture: &Saddle,
    solver: &Solver,
    right: &[f64],
    guess: &[Scalar],
) -> Result<LinearSolve<f64>, SolveError> {
    let BlockLinearSolver::Minres((iterations, tolerance)) = solver else {
        panic!("only minres is asked for")
    };
    Ok(fixture.minres(right, &floats(guess), *iterations, *tolerance))
}

fn zero_state(layout: &StateLayout) -> SimulationState {
    let mut state = SimulationState::new(layout.clone(), 4);
    for block in layout.blocks() {
        state
            .insert_field(
                FieldId::new(block.id().as_str()),
                scalars(&vec![0.0; block.range().len()]),
            )
            .unwrap();
    }
    state
}

fn pseudo_random_vector(dimension: usize, seed: u64) -> Vec<f64> {
    let mut state = seed.wrapping_mul(6364136223846793005).wrapping_add(1);
    (0..dimension)
        .map(|_| {
            state = state.wrapping_mul(6364136223846793005).wrapping_add(1);
            let bits = (state >> 11) as f64 / (1u64 << 53) as f64;
            2.0 * bits - 1.0
        })
        .collect()
}

fn bound(fixture: &Saddle) -> BlockLinearExecution<MixedOperator> {
    let (layout, binding) = block_state_layout(&fixture.fields()).unwrap();
    assert_eq!(binding.blocks().len(), 2);
    BlockLinearExecution::new(fixture.operator(), &fixture.shape(), zero_state(&layout)).unwrap()
}

#[test]
fn minres_reaches_the_expected_solution_with_rollback_restart_and_history_evidence() {
    let fixture = saddle(3);
    let mut execution = bound(&fixture);
    let solver = reachable();

    // The first solve converges, commits, and becomes the committed state.
    let rhs_1 = fixture.consistent_right_hand_side(7);
    let report = execution
        .solve(
            &scalars(&rhs_1),
            &solver,
            false,
            scalar(1.0),
            |solver: &Solver, projected: bool, right: &Vec<Scalar>, guess: Vec<Scalar>| {
                assert!(!projected);
                run(&fixture, solver, &floats(right), &guess)
            },
        )
        .unwrap();
    assert!(report.report.converged);
    let solution_1 = report.report.solution.clone();
    assert!(fixture.residual_norm(&floats(&solution_1), &rhs_1) < 1.0e-6);
    assert_eq!(execution.state().committed_vector().unwrap(), solution_1);
    assert_eq!(execution.state().time(), scalar(1.0));
    assert_eq!(execution.state().phase(), TransactionPhase::Committed);

    let checkpoint_after_solve_1 = execution.checkpoint().unwrap();

    // The second solve, over another right-hand side, commits as well.
    let rhs_2 = fixture.consistent_right_hand_side(13);
    let report_2 = execution
        .solve(
            &scalars(&rhs_2),
            &solver,
            false,
            scalar(2.0),
            |solver: &Solver, projected: bool, right: &Vec<Scalar>, guess: Vec<Scalar>| {
                assert!(!projected);
                run(&fixture, solver, &floats(right), &guess)
            },
        )
        .unwrap();
    assert!(report_2.report.converged);
    let solution_2 = report_2.report.solution.clone();
    assert!(fixture.residual_norm(&floats(&solution_2), &rhs_2) < 1.0e-6);
    assert_eq!(execution.state().committed_vector().unwrap(), solution_2);
    assert_ne!(solution_1, solution_2);

    // The prior committed solution is kept as history.
    assert_eq!(
        execution.state().history_vector(0).unwrap().unwrap(),
        solution_1
    );

    // A policy too tight to converge never commits.
    let tight = unreachable_policy();
    let error = execution
        .solve(
            &scalars(&rhs_1),
            &tight,
            false,
            scalar(3.0),
            |solver: &Solver, projected: bool, right: &Vec<Scalar>, guess: Vec<Scalar>| {
                assert!(!projected);
                run(&fixture, solver, &floats(right), &guess)
            },
        )
        .unwrap_err();
    assert!(
        matches!(error, KrasisError::SolveDidNotConverge { .. }),
        "{error:?}"
    );
    assert_eq!(execution.state().committed_vector().unwrap(), solution_2);
    assert_eq!(execution.state().time(), scalar(2.0));
    assert_eq!(execution.state().phase(), TransactionPhase::Committed);

    // Restoring the earlier checkpoint returns to the first solution.
    execution.restore(&checkpoint_after_solve_1).unwrap();
    assert_eq!(execution.state().committed_vector().unwrap(), solution_1);
    assert_eq!(execution.state().time(), scalar(1.0));
}

/// Removes the mean of the second field.
fn project(fixture: &Saddle, vector: &mut [f64]) {
    let part = &mut vector[fixture.first..];
    let mean = part.iter().sum::<f64>() / part.len() as f64;
    for value in part {
        *value -= mean;
    }
}

#[test]
fn nullspace_projector_path_converges_the_declared_reduced_residual() {
    let fixture = saddle(3);
    let mut execution = bound(&fixture);
    let solver = reachable();
    let rhs = fixture.consistent_right_hand_side(21);
    let report = execution
        .solve(
            &scalars(&rhs),
            &solver,
            true,
            scalar(1.0),
            |solver: &Solver, projected: bool, right: &Vec<Scalar>, guess: Vec<Scalar>| {
                let mut right = floats(right);
                if projected {
                    project(&fixture, &mut right);
                }
                run(&fixture, solver, &right, &guess)
            },
        )
        .unwrap();
    assert!(report.report.converged);

    let mut raw: Vec<f64> = fixture
        .apply(&floats(&report.report.solution))
        .iter()
        .zip(&rhs)
        .map(|(action, expected)| action - expected)
        .collect();
    project(&fixture, &mut raw);
    let norm = raw.iter().map(|value| value * value).sum::<f64>().sqrt();
    assert!(norm < 1.0e-6, "projected residual = {norm}");
    assert_eq!(
        execution.state().committed_vector().unwrap(),
        report.report.solution
    );

    // The projector is admitted with minres alone.
    let other: Solver = BlockLinearSolver::Gmres(());
    let error = execution
        .solve(
            &scalars(&rhs),
            &other,
            true,
            scalar(2.0),
            |_: &Solver, _: bool, _: &Vec<Scalar>, _: Vec<Scalar>|
             -> Result<LinearSolve<f64>, SolveError> {
                panic!("a refused policy is never run")
            },
        )
        .unwrap_err();
    assert_eq!(
        error,
        KrasisError::InvalidCoupling(
            "a nullspace projector is only admitted with minres, not gmres".to_owned()
        )
    );
}

#[test]
fn a_non_converged_solve_never_commits_and_state_stays_untouched() {
    let fixture = saddle(2);
    let mut execution = bound(&fixture);
    let before = execution.state().committed_vector().unwrap();
    let rhs = fixture.consistent_right_hand_side(5);
    let tight = unreachable_policy();
    let error = execution
        .solve(
            &scalars(&rhs),
            &tight,
            false,
            scalar(1.0),
            |solver: &Solver, projected: bool, right: &Vec<Scalar>, guess: Vec<Scalar>| {
                assert!(!projected);
                run(&fixture, solver, &floats(right), &guess)
            },
        )
        .unwrap_err();
    assert_eq!(
        error,
        KrasisError::SolveDidNotConverge {
            algorithm: "minres".to_owned(),
            iterations: 1,
        }
    );
    assert_eq!(execution.state().committed_vector().unwrap(), before);
    assert_eq!(execution.state().phase(), TransactionPhase::Committed);
}

#[test]
fn construction_refuses_a_dimension_mismatched_state() {
    let fixture = saddle(2);
    let small_layout = StateLayout::new(vec![StateBlock::new(BlockId::new("only"), 0..3)]).unwrap();
    let mut state = SimulationState::new(small_layout, 0);
    state
        .insert_field(FieldId::new("only"), scalars(&[0.0; 3]))
        .unwrap();
    let error =
        BlockLinearExecution::new(fixture.operator(), &fixture.shape(), state).unwrap_err();
    assert!(
        matches!(error, KrasisError::InvalidCoupling(_)),
        "{error:?}"
    );
}

#[test]
fn construction_refuses_a_block_count_mismatch() {
    let fixture = saddle(2);
    let dimension = fixture.dimension();
    let one_block_layout =
        StateLayout::new(vec![StateBlock::new(BlockId::new("only"), 0..dimension)]).unwrap();
    let mut state = SimulationState::new(one_block_layout, 0);
    state
        .insert_field(FieldId::new("only"), scalars(&vec![0.0; dimension]))
        .unwrap();
    let error =
        BlockLinearExecution::new(fixture.operator(), &fixture.shape(), state).unwrap_err();
    assert!(
        matches!(error, KrasisError::InvalidCoupling(_)),
        "{error:?}"
    );
}

#[test]
fn restore_refuses_a_checkpoint_from_a_different_operator_identity() {
    let mut execution_a = bound(&saddle(2));
    let execution_b = bound(&saddle(3));
    let checkpoint_b = execution_b.checkpoint().unwrap();
    let error = execution_a.restore(&checkpoint_b).unwrap_err();
    assert!(
        matches!(error, KrasisError::InvalidCoupling(_)),
        "{error:?}"
    );
}
