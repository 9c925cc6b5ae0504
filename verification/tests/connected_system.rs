//! Reduced systems connected through matching traces.

use krasis::{
    BlockSpec, ConnectedSystemOperator, Constraint, ConstraintDependency, ConstraintSet,
    CoupledLeaf, CoupledSystemOperator, CouplingArgument, CouplingEdge, FieldBlock, KrasisError,
    NewtonConfig, NewtonReport, NumericError, ReducedSystem, RowKind, Scalar, SolveError,
    SystemCalls, TraceCalls, TransactionalOperator,
};

/// A block solver that takes any blocks but empty ones.
fn solver_accepts(blocks: &Vec<BlockSpec>) -> Result<(), String> {
    match blocks.iter().find(|block| block.length == 0) {
        Some(block) => Err(format!("block `{}` is empty", block.name)),
        None => Ok(()),
    }
}

fn scalar(value: f64) -> Scalar {
    Scalar::from_bits(value.to_bits())
}

fn scalars(values: &[f64]) -> Vec<Scalar> {
    values.iter().map(|value| scalar(*value)).collect()
}

fn float(value: Scalar) -> f64 {
    f64::from_bits(value.to_bits())
}

fn floats(values: &[Scalar]) -> Vec<f64> {
    values.iter().map(|value| float(*value)).collect()
}

fn render(value: Scalar) -> String {
    format!("{}", float(value))
}

fn reduced(digest: &str, variable: u32) -> ReducedSystem {
    ReducedSystem {
        dimension: 2,
        digest: digest.to_owned(),
        constraint_encoding: Vec::new(),
        fields: vec![FieldBlock {
            variable,
            offset: 0,
            extent: 2,
        }],
        vertices: vec![scalars(&[0.0]), scalars(&[1.0])],
        constraints: Vec::new(),
    }
}

fn leaf(name: &str, variable: u32, kinds: [RowKind; 2]) -> CoupledLeaf {
    CoupledLeaf::reduced_system(name, reduced(name, variable))
        .unwrap()
        .with_row_kinds(kinds.to_vec())
        .unwrap()
}

/// Two rods; the right one ends where the left one starts.
fn system(right: [RowKind; 2], edges: Vec<CouplingEdge>) -> CoupledSystemOperator {
    CoupledSystemOperator::new(
        vec![
            leaf("left", 0, [RowKind::Algebraic; 2]),
            leaf("right", 1, right),
        ],
        edges,
        &solver_accepts,
    )
    .unwrap()
}

/// The first unknown of the right rod equals the last one of the left rod.
fn interface(weight: f64) -> ConstraintSet {
    ConstraintSet {
        dof_count: 4,
        constraints: vec![Constraint {
            target: 2,
            dependencies: vec![ConstraintDependency {
                dof: 1,
                weight: scalar(weight),
            }],
            offset: scalar(0.0),
        }],
    }
}

fn connect(
    inner: CoupledSystemOperator,
    constraints: Result<ConstraintSet, String>,
) -> Result<ConnectedSystemOperator, KrasisError> {
    ConnectedSystemOperator::new(
        inner,
        constraints,
        "interface",
        "left".to_owned(),
        "right".to_owned(),
    )
}

fn connected() -> ConnectedSystemOperator {
    connect(
        system([RowKind::Differential, RowKind::Algebraic], vec![]),
        Ok(interface(1.0)),
    )
    .unwrap()
}

fn expand(values: &Vec<Scalar>) -> Result<Vec<Scalar>, String> {
    if values.len() != 4 {
        return Err(format!("expected 4 values, found {}", values.len()));
    }
    let mut full = values.clone();
    full[2] = full[1];
    Ok(full)
}

fn gather(values: &Vec<Scalar>) -> Result<Vec<Scalar>, String> {
    if values.len() != 4 {
        return Err(format!("expected 4 values, found {}", values.len()));
    }
    let mut reduced = values.clone();
    reduced[1] = scalar(float(values[1]) + float(values[2]));
    reduced[2] = scalar(0.0);
    Ok(reduced)
}

fn difference(left: Scalar, right: Scalar) -> Scalar {
    scalar(float(left) - float(right))
}

fn invalid(label: &str) -> String {
    format!("invalid operator: {label}")
}

fn sum(left: Scalar, right: Scalar) -> Scalar {
    scalar(float(left) + float(right))
}

fn no_edge(_: usize, _: &Vec<Scalar>) -> Result<Vec<Scalar>, SolveError> {
    unreachable!()
}

/// A rod: `rate + 2 x_i - x_j`.
fn rod(state: &[f64], rate: &[f64]) -> Vec<f64> {
    vec![
        rate[0] + 2.0 * state[0] - state[1],
        rate[1] + 2.0 * state[1] - state[0],
    ]
}

fn residual(
    operator: &ConnectedSystemOperator,
    state: &[f64],
    rate: &[f64],
    output_length: usize,
) -> Result<Vec<f64>, NumericError> {
    let calls = SystemCalls {
        leaf: |_: usize, _: Scalar, parts: &Vec<Vec<Scalar>>| {
            Ok::<Vec<Scalar>, SolveError>(scalars(&rod(&floats(&parts[0]), &floats(&parts[1]))))
        },
        action: no_edge,
        sum,
    };
    let traces = TraceCalls {
        expand,
        expand_homogeneous: expand,
        restrict_transpose: gather,
        difference,
        invalid,
    };
    operator
        .residual(
            scalar(0.0),
            &scalars(state),
            &scalars(rate),
            output_length,
            &calls,
            &traces,
        )
        .map(|values| floats(&values))
}

#[test]
fn connected_residual_gathers_traces_and_states_the_equality() {
    let operator = connected();
    // The given value 9 of the eliminated unknown is replaced by 2, and reported as 9 - 2.
    let values = residual(
        &operator,
        &[1.0, 2.0, 9.0, 4.0],
        &[0.5, 0.25, 0.0, 1.0],
        4,
    )
    .unwrap();
    // left: 0.5 + 2 - 2, 0.25 + 4 - 1; right at (2, 4), rate (0.25, 1): 0.25 + 0, 1 + 6.
    assert_eq!(values, vec![0.5, 3.25 + 0.25, 7.0, 7.0]);
}

#[test]
fn wrong_extents_are_refused_with_their_origin() {
    let operator = connected();
    let state = [1.0, 2.0, 9.0, 4.0];
    let error = residual(&operator, &state[..3], &[0.0; 4], 4).unwrap_err();
    let NumericError::Evaluation(refusal) = error else {
        panic!("{error:?}")
    };
    assert_eq!(refusal.code, "CONNECTION_ELIMINATION");
    assert_eq!(refusal.origin, "finitum matching trace constraints");
    assert_eq!(refusal.message, "expected 4 values, found 3");

    let error = residual(&operator, &state, &[0.0; 4], 3).unwrap_err();
    let NumericError::Evaluation(refusal) = error else {
        panic!("{error:?}")
    };
    assert_eq!(
        refusal.message,
        "invalid operator: connection residual extent mismatch"
    );
}

#[test]
fn connected_product_is_the_derivative_of_the_residual() {
    let operator = connected();
    let calls = SystemCalls {
        leaf: |_: usize, _: Scalar, parts: &Vec<Vec<Scalar>>| {
            Ok::<Vec<Scalar>, SolveError>(scalars(&rod(&floats(&parts[2]), &floats(&parts[3]))))
        },
        action: no_edge,
        sum,
    };
    let traces = TraceCalls {
        expand,
        expand_homogeneous: expand,
        restrict_transpose: gather,
        difference,
        invalid,
    };
    let state = [1.0, 2.0, 9.0, 4.0];
    let direction = [1.0, -2.0, 3.0, 0.5];
    let product = floats(
        &operator
            .steady_jacobian_vector_product(
                &scalars(&state),
                &scalars(&direction),
                4,
                &calls,
                &traces,
            )
            .unwrap(),
    );
    let moved: Vec<f64> = state.iter().zip(&direction).map(|(a, b)| a + b).collect();
    let ahead = residual(&operator, &moved, &[0.0; 4], 4).unwrap();
    let here = residual(&operator, &state, &[0.0; 4], 4).unwrap();
    let change: Vec<f64> = ahead.iter().zip(&here).map(|(a, b)| a - b).collect();
    assert_eq!(product, change);
}

#[test]
fn merged_rows_store_state_and_eliminated_rows_are_algebraic() {
    assert_eq!(
        connected().row_kinds().unwrap(),
        vec![
            RowKind::Algebraic,
            RowKind::Differential,
            RowKind::Algebraic,
            RowKind::Algebraic
        ]
    );
    let still = connect(
        system([RowKind::Algebraic; 2], vec![]),
        Ok(interface(1.0)),
    )
    .unwrap();
    assert_eq!(still.row_kinds().unwrap(), vec![RowKind::Algebraic; 4]);

    let unclassified = CoupledSystemOperator::new(
        vec![
            CoupledLeaf::reduced_system("left", reduced("left", 0)).unwrap(),
            CoupledLeaf::reduced_system("right", reduced("right", 1)).unwrap(),
        ],
        vec![],
        &solver_accepts,
    )
    .unwrap();
    assert_eq!(
        connect(unclassified, Ok(interface(1.0)))
            .unwrap()
            .row_kinds(),
        Err(KrasisError::InvalidCoupling(
            "connected leaf has no row classification".to_owned()
        ))
    );
}

#[test]
fn connections_must_be_between_the_leaves_of_the_system() {
    let plain = || system([RowKind::Algebraic; 2], vec![]);
    let differ = KrasisError::InvalidCoupling(
        "connection operators differ from coupled leaves".to_owned(),
    );
    assert_eq!(
        connect(plain(), Err("no matching vertices".to_owned())),
        Err(KrasisError::InvalidCoupling(
            "no matching vertices".to_owned()
        ))
    );
    assert_eq!(
        ConnectedSystemOperator::new(
            plain(),
            Ok(interface(1.0)),
            "interface",
            "right".to_owned(),
            "left".to_owned()
        ),
        Err(differ.clone())
    );
    let mut wide = interface(1.0);
    wide.dof_count = 5;
    assert_eq!(connect(plain(), Ok(wide)), Err(differ));
}

#[test]
fn connection_order_does_not_change_the_identity() {
    let build = |identities: &[&str]| {
        ConnectedSystemOperator::new_system(
            system([RowKind::Algebraic; 2], vec![]),
            Ok(interface(1.0)),
            &identities.iter().map(|text| (*text).to_owned()).collect(),
            &vec!["left".to_owned(), "right".to_owned()],
        )
        .unwrap()
    };
    let forward = build(&["a", "b", "c"]);
    assert_eq!(forward.identity(), build(&["c", "a", "b"]).identity());
    assert_ne!(forward.identity(), build(&["a", "b"]).identity());
    assert_eq!(
        forward.identity(),
        format!(
            "krasis-connected-system/2:{}:a:b:c",
            forward.inner().identity()
        )
    );
    assert_eq!(
        connected().identity(),
        format!(
            "krasis-connected-system/1:{}:interface",
            connected().inner().identity()
        )
    );
    assert_eq!(forward.dimension(), 4);
    assert_eq!(
        forward.state_layout_identity(),
        forward.layout().identity()
    );
}

/// The diagonal of a rod shifted by the rate.
fn rod_diagonal(
    _: usize,
    _: Scalar,
    parts: &Vec<Vec<Scalar>>,
    shift: Scalar,
) -> Result<Option<Vec<Scalar>>, SolveError> {
    Ok(Some(vec![scalar(2.0 + float(shift)); parts[0].len()]))
}

fn diagonal(operator: &ConnectedSystemOperator, shift: f64) -> Option<Vec<f64>> {
    let traces = TraceCalls {
        expand,
        expand_homogeneous: expand,
        restrict_transpose: gather,
        difference,
        invalid,
    };
    operator
        .jacobian_diagonal(
            scalar(0.0),
            &scalars(&[1.0, 2.0, 9.0, 4.0]),
            &scalars(&[0.0; 4]),
            scalar(shift),
            &rod_diagonal,
            &traces,
        )
        .unwrap()
        .map(|values| floats(&values))
}

#[test]
fn the_diagonal_is_given_only_where_it_is_exact() {
    assert_eq!(
        diagonal(&connected(), 0.5),
        Some(vec![2.5, 5.0, 1.0, 2.5])
    );
    // A weighted match, a coupling edge and a match inside one leaf each bring cross entries.
    let weighted = connect(system([RowKind::Algebraic; 2], vec![]), Ok(interface(0.5))).unwrap();
    assert_eq!(diagonal(&weighted, 0.5), None);
    let edge = CouplingEdge::new("left", "right", CouplingArgument::State, 2, 2, "x");
    let coupled = connect(
        system([RowKind::Algebraic; 2], vec![edge]),
        Ok(interface(1.0)),
    )
    .unwrap();
    assert_eq!(diagonal(&coupled, 0.5), None);
    let mut inside = interface(1.0);
    inside.constraints[0].dependencies[0].dof = 3;
    let folded = connect(system([RowKind::Algebraic; 2], vec![]), Ok(inside)).unwrap();
    assert_eq!(diagonal(&folded, 0.5), None);
}

#[test]
fn consistent_initialization_is_part_of_the_connected_identity() {
    let newton = NewtonConfig {
        absolute_tolerance: scalar(1.0e-10),
        relative_tolerance: scalar(1.0e-10),
        initial_damping: scalar(1.0),
        minimum_damping: scalar(1.0e-4),
        encoding: "{\"absolute_tolerance\":1e-10}".to_owned(),
    };
    let plain = connected();
    let recorded = connected()
        .with_consistent_initialization(newton.clone())
        .unwrap();
    assert!(recorded
        .identity()
        .starts_with(&format!("{}:consistent-init=blake3:", plain.identity())));
    assert_eq!(
        recorded.recorded_initialization().unwrap().mask,
        plain.row_kinds().unwrap()
    );

    // One differential row: a rate of -1 solves it and leaves every algebraic row at zero.
    recorded
        .make_initial_state_consistent(
            scalar(0.0),
            &scalars(&[0.0; 4]),
            |given: &NewtonConfig, _: Scalar, _: &Vec<Scalar>, rows: Vec<usize>, _: Vec<Scalar>| {
                assert_eq!(given, &newton);
                assert_eq!(rows, vec![1]);
                Ok::<NewtonReport, SolveError>(NewtonReport {
                    state: scalars(&[-1.0]),
                    converged: true,
                })
            },
            |_: Scalar, _: &Vec<Scalar>, rate: Vec<Scalar>| {
                let given = floats(&rate);
                Ok::<Vec<Scalar>, SolveError>(scalars(&[given[0], given[1] + 1.0, 0.0, 0.0]))
            },
            &render,
        )
        .unwrap();
}
