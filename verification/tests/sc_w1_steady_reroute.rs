//! Steady linear solves made directly and through a transaction.

use krasis::{
    block_state_layout, BlockLinearAlgorithm, BlockLinearExecution, BlockLinearSolver,
    BlockOperatorShape, BlockSpec, Constraint, FieldBlock, KrasisError, LinearSolve,
    LinearSolveReport, OperatorIdentity, ReducedSystem, Scalar, SimulationState, SolveError,
    TransactionPhase,
};

fn scalar(value: f64) -> Scalar {
    Scalar::from_bits(value.to_bits())
}

fn scalars(values: &[f64]) -> Vec<Scalar> {
    values.iter().map(|value| scalar(*value)).collect()
}

fn floats(values: &[Scalar]) -> Vec<f64> {
    values
        .iter()
        .map(|value| f64::from_bits(value.to_bits()))
        .collect()
}

/// A two-field system with a sign on its second equation, which makes it symmetric or not.
struct Steady {
    matrix: Vec<Vec<f64>>,
    right_hand_side: Vec<f64>,
    reduced: ReducedSystem,
}

const FIRST: usize = 4;
const SECOND: usize = 2;

fn steady(sign: f64) -> Steady {
    let n = FIRST + SECOND;
    let mut matrix = vec![vec![0.0; n]; n];
    for row in 0..FIRST {
        matrix[row][row] = 2.0 + row as f64;
        let coupling = 0.5 + 0.25 * row as f64;
        matrix[row][FIRST + row % SECOND] = coupling;
        matrix[FIRST + row % SECOND][row] = sign * coupling;
    }
    Steady {
        matrix,
        right_hand_side: (0..n).map(|row| 1.0 + 0.5 * row as f64).collect(),
        reduced: ReducedSystem {
            dimension: n,
            digest: format!("blake3:steady{sign}"),
            constraint_encoding: b"[]".to_vec(),
            fields: vec![
                FieldBlock {
                    variable: 0,
                    offset: 0,
                    extent: FIRST,
                },
                FieldBlock {
                    variable: 1,
                    offset: FIRST,
                    extent: SECOND,
                },
            ],
            vertices: Vec::new(),
            constraints: Vec::new(),
        },
    }
}

impl Steady {
    fn shape(&self) -> BlockOperatorShape {
        let n = self.right_hand_side.len();
        BlockOperatorShape {
            rows: n,
            columns: n,
            dimension: n,
            blocks: vec![
                BlockSpec {
                    name: "velocity".to_owned(),
                    length: FIRST,
                },
                BlockSpec {
                    name: "pressure".to_owned(),
                    length: SECOND,
                },
            ],
            properties: "{}".to_owned(),
            block_layout: "[4,2]".to_owned(),
        }
    }

    /// Eliminates the system; its trace is the largest value left behind each step.
    fn solve(&self, right: &[f64], guess: &[f64]) -> Result<LinearSolve<Scalar>, SolveError> {
        let n = guess.len();
        let mut rows = self.matrix.clone();
        let mut values: Vec<f64> = (0..n)
            .map(|row| {
                let action: f64 = rows[row].iter().zip(guess).map(|(a, b)| a * b).sum();
                right[row] - action
            })
            .collect();
        let largest = |values: &[f64]| values.iter().copied().map(f64::abs).fold(0.0, f64::max);
        let mut trace = vec![largest(&values)];
        for column in 0..n {
            for row in column + 1..n {
                let factor = rows[row][column] / rows[column][column];
                for entry in column..n {
                    let above = rows[column][entry];
                    rows[row][entry] -= factor * above;
                }
                values[row] -= factor * values[column];
            }
            trace.push(largest(&values));
        }
        for column in (0..n).rev() {
            for entry in column + 1..n {
                values[column] -= rows[column][entry] * values[entry];
            }
            values[column] /= rows[column][column];
        }
        let solution: Vec<f64> = guess.iter().zip(&values).map(|(g, v)| g + v).collect();
        Ok(LinearSolve {
            report: LinearSolveReport {
                solution: scalars(&solution),
                converged: true,
                trace: scalars(&trace),
            },
            restart_cycles: 2,
        })
    }

    fn execution(&self) -> BlockLinearExecution<ReducedSystem> {
        let (layout, binding) = block_state_layout(&self.reduced.fields).unwrap();
        assert_eq!(binding.blocks().len(), 2);
        BlockLinearExecution::new(
            self.reduced.clone(),
            &self.shape(),
            SimulationState::zeroed(layout, 2),
        )
        .unwrap()
    }
}

type Solver = BlockLinearSolver<&'static str, &'static str, &'static str>;

#[test]
fn minres_through_krasis_is_bit_identical_to_the_direct_methodus_solve() {
    let fixture = steady(1.0);
    let dimension = fixture.right_hand_side.len();
    let direct = fixture
        .solve(&fixture.right_hand_side, &vec![0.0; dimension])
        .unwrap();
    assert!(direct.report.converged);
    assert!(floats(&direct.report.solution)
        .iter()
        .any(|value| *value != 0.0));

    // The same call made inside a transaction over a zero committed state.
    let mut execution = fixture.execution();
    let solver: Solver = BlockLinearSolver::Minres("default");
    let rerouted = execution
        .solve(
            &scalars(&fixture.right_hand_side),
            &solver,
            true,
            scalar(0.0),
            |given: &Solver, projected: bool, right: &Vec<Scalar>, guess: Vec<Scalar>| {
                assert_eq!(given.algorithm(), solver.algorithm());
                assert_eq!(projected, true);
                fixture.solve(&floats(right), &floats(&guess))
            },
        )
        .unwrap();
    assert_eq!(rerouted.algorithm, BlockLinearAlgorithm::Minres);
    assert_eq!(rerouted.restart_cycles, None);
    assert_eq!(rerouted.report, direct.report);
    assert_eq!(
        execution.state().committed_vector().unwrap(),
        direct.report.solution
    );
    assert_eq!(execution.state().phase(), TransactionPhase::Committed);
    assert_eq!(execution.state().step(), 1);

    // The checkpoint binds to the reduced system's content identity.
    let checkpoint = execution.checkpoint().unwrap();
    assert!(fixture
        .reduced
        .content_identity()
        .starts_with("finitum-reduced-system:"));
    assert_eq!(checkpoint.operator_identity, execution.operator_identity());
}

#[test]
fn gmres_through_krasis_is_bit_identical_on_the_unsigned_system() {
    let fixture = steady(-1.0);
    let dimension = fixture.right_hand_side.len();
    let direct = fixture
        .solve(&fixture.right_hand_side, &vec![0.0; dimension])
        .unwrap();
    assert!(direct.report.converged);

    let mut execution = fixture.execution();
    let solver: Solver = BlockLinearSolver::Gmres("default");
    let rerouted = execution
        .solve(
            &scalars(&fixture.right_hand_side),
            &solver,
            false,
            scalar(0.0),
            |given: &Solver, projected: bool, right: &Vec<Scalar>, guess: Vec<Scalar>| {
                assert_eq!(given.algorithm(), solver.algorithm());
                assert_eq!(projected, false);
                fixture.solve(&floats(right), &floats(&guess))
            },
        )
        .unwrap();
    assert_eq!(rerouted.algorithm, BlockLinearAlgorithm::Gmres);
    assert_eq!(rerouted.restart_cycles, Some(direct.restart_cycles));
    assert_eq!(rerouted.report.solution, direct.report.solution);
    assert_eq!(direct.report.trace.len(), dimension + 1);
    assert_eq!(rerouted.report.trace, direct.report.trace);
    assert_eq!(
        execution.state().committed_vector().unwrap(),
        direct.report.solution
    );
}

#[test]
fn a_methodus_refusal_rolls_back_and_surfaces_typed() {
    let fixture = steady(-1.0);
    let mut execution = fixture.execution();
    let before = execution.state().committed_vector().unwrap();
    let solver: Solver = BlockLinearSolver::ConjugateGradient("require declared symmetry");
    let error = execution
        .solve(
            &scalars(&fixture.right_hand_side),
            &solver,
            false,
            scalar(0.0),
            |given: &Solver, _: bool, _: &Vec<Scalar>, _: Vec<Scalar>| {
                assert_eq!(given.algorithm(), BlockLinearAlgorithm::ConjugateGradient);
                Err::<LinearSolve<Scalar>, SolveError>(SolveError {
                    refusal: None,
                    text: "conjugate gradient requires declared symmetry".to_owned(),
                })
            },
        )
        .unwrap_err();
    assert!(matches!(error, KrasisError::Solve(_)), "{error:?}");
    assert_eq!(execution.state().committed_vector().unwrap(), before);
    assert_eq!(execution.state().phase(), TransactionPhase::Committed);
    assert_eq!(execution.state().step(), 0);
}

#[test]
fn reduced_system_identity_covers_the_constraint_set() {
    let unconstrained = steady(1.0).reduced;
    let mut pinned = unconstrained.clone();
    pinned.constraints = vec![Constraint {
        target: 0,
        dependencies: Vec::new(),
        offset: scalar(0.0),
    }];
    pinned.constraint_encoding = b"[{\"target\":0}]".to_vec();
    assert_eq!(unconstrained.fields, pinned.fields);
    assert_ne!(unconstrained.content_identity(), pinned.content_identity());
    assert_eq!(
        unconstrained.content_identity(),
        steady(1.0).reduced.content_identity()
    );
}
