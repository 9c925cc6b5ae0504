//! Initial-condition projection, blocks linked to semantic ids, and consistent
//! initialization of one realization.

use krasis::{
    initial_state_from, BlockId, BlockSpec, Constraint, CoupledOperator, EvaluationRefusal, FieldId,
    FieldSource, InitialData, KrasisError, NewtonConfig, NewtonReport, NodalContext, NumericError,
    RealizationPlan, RowKind, Scalar, SemanticId, SolveError, StateBinding, StateBlock, StateLayout,
    TransactionalOperator,
};

/// A block solver that takes any blocks but empty ones.
fn solver_accepts(blocks: &Vec<BlockSpec>) -> Result<(), String> {
    match blocks.iter().find(|block| block.length == 0) {
        Some(block) => Err(format!("block `{}` is empty", block.name)),
        None => Ok(()),
    }
}

fn scalar(value: f64) -> Scalar {
    Scalar::from_bits(value.to_bits())
}

fn scalars(values: &[f64]) -> Vec<Scalar> {
    values.iter().map(|value| scalar(*value)).collect()
}

fn float(value: Scalar) -> f64 {
    f64::from_bits(value.to_bits())
}

fn floats(values: &[Scalar]) -> Vec<f64> {
    values.iter().map(|value| float(*value)).collect()
}

fn points(vertices: &[Vec<f64>]) -> Vec<Vec<Scalar>> {
    vertices.iter().map(|point| scalars(point)).collect()
}

fn render(value: Scalar) -> String {
    format!("{}", float(value))
}

/// A square of piecewise linear triangles: its vertices, mass matrix and stiffness matrix.
struct Square {
    vertices: Vec<Vec<f64>>,
    mass: Vec<Vec<f64>>,
    stiffness: Vec<Vec<f64>>,
}

fn square(subdivisions: usize) -> Square {
    let width = subdivisions + 1;
    let count = width * width;
    let vertices: Vec<Vec<f64>> = (0..count)
        .map(|index| {
            vec![
                (index % width) as f64 / subdivisions as f64,
                (index / width) as f64 / subdivisions as f64,
            ]
        })
        .collect();
    let mut mass = vec![vec![0.0; count]; count];
    let mut stiffness = vec![vec![0.0; count]; count];
    for row in 0..subdivisions {
        for column in 0..subdivisions {
            let lower_left = row * width + column;
            let lower_right = lower_left + 1;
            let upper_left = lower_left + width;
            let upper_right = upper_left + 1;
            for cell in [
                [lower_left, lower_right, upper_right],
                [lower_left, upper_right, upper_left],
            ] {
                let p: Vec<&Vec<f64>> = cell.iter().map(|vertex| &vertices[*vertex]).collect();
                let twice = (p[1][0] - p[0][0]) * (p[2][1] - p[0][1])
                    - (p[2][0] - p[0][0]) * (p[1][1] - p[0][1]);
                let area = twice / 2.0;
                let gradients: Vec<[f64; 2]> = (0..3)
                    .map(|i| {
                        let (a, b) = (p[(i + 1) % 3], p[(i + 2) % 3]);
                        [(a[1] - b[1]) / twice, (b[0] - a[0]) / twice]
                    })
                    .collect();
                for i in 0..3 {
                    for j in 0..3 {
                        let weight = if i == j { 2.0 } else { 1.0 };
                        mass[cell[i]][cell[j]] += area * weight / 12.0;
                        stiffness[cell[i]][cell[j]] += area
                            * (gradients[i][0] * gradients[j][0]
                                + gradients[i][1] * gradients[j][1]);
                    }
                }
            }
        }
    }
    Square {
        vertices,
        mass,
        stiffness,
    }
}

fn product(matrix: &[Vec<f64>], row: usize, vector: &[f64]) -> f64 {
    matrix[row].iter().zip(vector).map(|(a, b)| a * b).sum()
}

fn plan(name: &str, vertices: &[Vec<f64>], constraints: Vec<Constraint>) -> RealizationPlan {
    RealizationPlan {
        dimension: vertices.len(),
        digest: format!("blake3:{name}"),
        algorithm: "blake3".to_owned(),
        hex: name.to_owned(),
        vertices: points(vertices),
        quadrature: Vec::new(),
        constraints,
        stored_inputs: Vec::new(),
    }
}

fn linear_reaction_realization(
    subdivisions: usize,
) -> (RealizationPlan, StateLayout, Vec<Vec<f64>>) {
    let mesh = square(subdivisions);
    let realization = plan("linear-reaction", &mesh.vertices, Vec::new());
    let layout = StateLayout::new(vec![StateBlock::new(
        BlockId::new("u"),
        0..realization.dimension,
    )])
    .unwrap();
    (realization, layout, mesh.vertices)
}

// Linear diffusion with unit capacity and diffusivity and no source on a 3x3 grid: the
// interior unknown is differential, the eight boundary unknowns are pinned to zero.

const INTERIOR_ROW: usize = 4;
const BOUNDARY_ROWS: [usize; 8] = [0, 1, 2, 3, 5, 6, 7, 8];

fn linear_diffusion_realization() -> (RealizationPlan, StateLayout, Square) {
    let mesh = square(2);
    let constraints = BOUNDARY_ROWS
        .iter()
        .map(|target| Constraint {
            target: *target,
            dependencies: Vec::new(),
            offset: scalar(0.0),
        })
        .collect();
    let realization = plan("linear-diffusion", &mesh.vertices, constraints);
    let layout = StateLayout::new(vec![StateBlock::new(
        BlockId::new("u"),
        0..realization.dimension,
    )])
    .unwrap();
    (realization, layout, mesh)
}

fn diffusion_residual(mesh: &Square, state: &[f64], rate: &[f64]) -> Vec<f64> {
    let mut free_state = state.to_vec();
    let mut free_rate = rate.to_vec();
    for row in BOUNDARY_ROWS {
        free_state[row] = 0.0;
        free_rate[row] = 0.0;
    }
    (0..9)
        .map(|row| {
            if row == INTERIOR_ROW {
                product(&mesh.mass, row, &free_rate) + product(&mesh.stiffness, row, &free_state)
            } else {
                state[row]
            }
        })
        .collect()
}

/// A Newton solve for the rate of the given rows; the residual is linear in it and the
/// interior row is the only one.
fn rate_solve(
    mesh: &Square,
    state: &[f64],
    rows: &[usize],
    guess: &[f64],
) -> Result<NewtonReport, SolveError> {
    assert_eq!(rows, &[INTERIOR_ROW]);
    let mut rate = vec![0.0; 9];
    rate[INTERIOR_ROW] = guess[0];
    let residual = diffusion_residual(mesh, state, &rate);
    let slope = mesh.mass[INTERIOR_ROW][INTERIOR_ROW];
    Ok(NewtonReport {
        state: scalars(&[guess[0] - residual[INTERIOR_ROW] / slope]),
        converged: true,
    })
}

fn newton() -> NewtonConfig {
    NewtonConfig {
        absolute_tolerance: scalar(1.0e-10),
        relative_tolerance: scalar(1.0e-10),
        initial_damping: scalar(1.0),
        minimum_damping: scalar(1.0e-4),
        encoding: "{\"absolute_tolerance\":1e-10}".to_owned(),
    }
}

fn diffusion_mask() -> Vec<RowKind> {
    let mut mask = vec![RowKind::Algebraic; 9];
    mask[INTERIOR_ROW] = RowKind::Differential;
    mask
}

fn consistent_ic() -> Vec<f64> {
    let mut y0 = vec![0.0; 9];
    y0[INTERIOR_ROW] = 1.0;
    y0
}

fn consistent_rate(
    operator: &CoupledOperator,
    mesh: &Square,
    state: &[f64],
) -> Result<Vec<Scalar>, KrasisError> {
    operator.solve_consistent_state_rate(
        scalar(0.0),
        &scalars(state),
        |_: &NewtonConfig, _: Scalar, at: &Vec<Scalar>, rows: Vec<usize>, guess: Vec<Scalar>| {
            rate_solve(mesh, &floats(at), &rows, &floats(&guess))
        },
        |_: Scalar, at: &Vec<Scalar>, rate: Vec<Scalar>| {
            Ok::<Vec<Scalar>, SolveError>(scalars(&diffusion_residual(
                mesh,
                &floats(at),
                &floats(&rate),
            )))
        },
        &render,
    )
}

fn make_consistent(
    operator: &CoupledOperator,
    mesh: &Square,
    state: &Vec<Scalar>,
) -> Result<(), NumericError> {
    operator.make_initial_state_consistent(
        scalar(0.0),
        state,
        |_: &NewtonConfig, _: Scalar, at: &Vec<Scalar>, rows: Vec<usize>, guess: Vec<Scalar>| {
            rate_solve(mesh, &floats(at), &rows, &floats(&guess))
        },
        |_: Scalar, at: &Vec<Scalar>, rate: Vec<Scalar>| {
            Ok::<Vec<Scalar>, SolveError>(scalars(&diffusion_residual(
                mesh,
                &floats(at),
                &floats(&rate),
            )))
        },
        &render,
    )
}

#[test]
fn consistent_state_rate_matches_the_analytic_solution() {
    let (realization, layout, mesh) = linear_diffusion_realization();
    let operator = CoupledOperator::new(realization, &layout, &solver_accepts)
        .unwrap()
        .with_consistent_initialization(diffusion_mask(), newton())
        .unwrap();
    let y0 = consistent_ic();

    let state_rate = floats(&consistent_rate(&operator, &mesh, &y0).unwrap());

    // Every boundary (algebraic) row's rate is exactly zero.
    for &row in &BOUNDARY_ROWS {
        assert_eq!(state_rate[row], 0.0);
    }

    // The residual at the interior row is affine in the interior rate alone.
    let residual_at_zero = diffusion_residual(&mesh, &y0, &[0.0; 9]);
    let mut direction = vec![0.0; 9];
    direction[INTERIOR_ROW] = 1.0;
    let slope = diffusion_residual(&mesh, &[0.0; 9], &direction);
    let expected_interior_rate = -residual_at_zero[INTERIOR_ROW] / slope[INTERIOR_ROW];
    assert!((state_rate[INTERIOR_ROW] - expected_interior_rate).abs() < 1.0e-9);

    // The interior row's residual vanishes at the solved rate.
    let residual = diffusion_residual(&mesh, &y0, &state_rate);
    assert!(residual[INTERIOR_ROW].abs() < 1.0e-9);
}

#[test]
fn make_initial_state_consistent_solves_the_rate_and_leaves_state_untouched() {
    let (realization, layout, mesh) = linear_diffusion_realization();
    let operator = CoupledOperator::new(realization, &layout, &solver_accepts)
        .unwrap()
        .with_consistent_initialization(diffusion_mask(), newton())
        .unwrap();
    let state = scalars(&consistent_ic());
    let before = state.clone();
    make_consistent(&operator, &mesh, &state).unwrap();
    assert_eq!(state, before);
}

#[test]
fn make_initial_state_consistent_is_a_no_op_without_a_recorded_mask() {
    let (realization, layout, _) = linear_diffusion_realization();
    let operator = CoupledOperator::new(realization, &layout, &solver_accepts).unwrap();
    let state = scalars(&consistent_ic());
    let before = state.clone();
    operator
        .make_initial_state_consistent(
            scalar(0.0),
            &state,
            |_: &NewtonConfig,
             _: Scalar,
             _: &Vec<Scalar>,
             _: Vec<usize>,
             _: Vec<Scalar>|
             -> Result<NewtonReport, SolveError> {
                panic!("no rate is solved without a mask")
            },
            |_: Scalar, _: &Vec<Scalar>, _: Vec<Scalar>| -> Result<Vec<Scalar>, SolveError> {
                panic!("no residual is evaluated without a mask")
            },
            &render,
        )
        .unwrap();
    assert_eq!(state, before);
}

#[test]
fn consistent_initialization_refuses_an_inconsistent_algebraic_row() {
    let (realization, layout, mesh) = linear_diffusion_realization();
    let operator = CoupledOperator::new(realization, &layout, &solver_accepts)
        .unwrap()
        .with_consistent_initialization(diffusion_mask(), newton())
        .unwrap();

    // Boundary unknown 0 is pinned to `0`; `5.0` violates that.
    let mut y0 = consistent_ic();
    y0[0] = 5.0;

    let error = consistent_rate(&operator, &mesh, &y0).unwrap_err();
    assert!(
        matches!(error, KrasisError::InvalidCoupling(_)),
        "{error:?}"
    );

    // The operator's own entry point refuses the same way.
    let error = make_consistent(&operator, &mesh, &scalars(&y0)).unwrap_err();
    let NumericError::Operator { message } = error else {
        panic!("an operator failure is expected")
    };
    assert!(message.contains("algebraic"), "{message}");
}

#[test]
fn consistent_initialization_mask_length_is_validated_at_construction() {
    let (realization, layout, _) = linear_diffusion_realization();
    let operator = CoupledOperator::new(realization, &layout, &solver_accepts).unwrap();
    let error = operator
        .with_consistent_initialization(vec![RowKind::Differential; 3], newton())
        .unwrap_err();
    assert!(
        matches!(
            error,
            KrasisError::ConsistentInitializationMaskLength {
                actual: 3,
                expected: 9
            }
        ),
        "{error:?}"
    );
}

#[test]
fn state_binding_is_total_and_injective_and_resolves_both_directions() {
    let layout = StateLayout::new(vec![
        StateBlock::new(BlockId::new("a"), 0..2),
        StateBlock::new(BlockId::new("b"), 2..4),
    ])
    .unwrap();
    let binding = StateBinding::new(
        &layout,
        vec![
            (SemanticId::new(11), BlockId::new("a")),
            (SemanticId::new(22), BlockId::new("b")),
        ],
    )
    .unwrap();
    assert_eq!(
        binding.block_for(SemanticId::new(11)),
        Some(&BlockId::new("a"))
    );
    assert_eq!(
        binding.block_for(SemanticId::new(22)),
        Some(&BlockId::new("b"))
    );
    assert_eq!(
        binding.semantic_for(&BlockId::new("a")),
        Some(SemanticId::new(11))
    );
    assert_eq!(
        binding.semantic_for(&BlockId::new("b")),
        Some(SemanticId::new(22))
    );
    assert_eq!(binding.blocks().len(), 2);
}

#[test]
fn state_binding_refuses_unknown_incomplete_and_duplicate_bindings() {
    let layout = StateLayout::new(vec![
        StateBlock::new(BlockId::new("a"), 0..2),
        StateBlock::new(BlockId::new("b"), 2..4),
    ])
    .unwrap();

    let error = StateBinding::new(&layout, vec![(SemanticId::new(1), BlockId::new("missing"))])
        .unwrap_err();
    assert!(matches!(error, KrasisError::StateBindingUnknownBlock(_)));

    let error =
        StateBinding::new(&layout, vec![(SemanticId::new(1), BlockId::new("a"))]).unwrap_err();
    assert!(matches!(error, KrasisError::StateBindingIncomplete));

    let error = StateBinding::new(
        &layout,
        vec![
            (SemanticId::new(1), BlockId::new("a")),
            (SemanticId::new(2), BlockId::new("a")),
        ],
    )
    .unwrap_err();
    assert!(matches!(error, KrasisError::StateBindingDuplicateBlock(_)));

    let error = StateBinding::new(
        &layout,
        vec![
            (SemanticId::new(1), BlockId::new("a")),
            (SemanticId::new(1), BlockId::new("b")),
        ],
    )
    .unwrap_err();
    assert!(matches!(
        error,
        KrasisError::StateBindingDuplicateSemanticId(1)
    ));
}

#[test]
fn coupled_operator_with_bindings_changes_identity_additively() {
    let (realization, layout, _) = linear_reaction_realization(1);
    let unbound = CoupledOperator::new(realization.clone(), &layout, &solver_accepts).unwrap();
    assert!(unbound.identity().starts_with("krasis-coupled/1:"));
    assert!(unbound.state_binding().is_none());

    let binding =
        StateBinding::new(&layout, vec![(SemanticId::new(7), BlockId::new("u"))]).unwrap();
    let bound =
        CoupledOperator::new_with_bindings(realization, &layout, Some(binding), &solver_accepts)
            .unwrap();
    assert!(bound.identity().starts_with("krasis-coupled/2:"));
    assert_ne!(unbound.identity(), bound.identity());
    assert_eq!(
        bound.state_binding().unwrap().block_for(SemanticId::new(7)),
        Some(&BlockId::new("u"))
    );
}

#[test]
fn the_block_solver_decides_on_the_blocks() {
    let (realization, layout, _) = linear_reaction_realization(1);
    let refuses = |blocks: &Vec<BlockSpec>| {
        assert_eq!(blocks.len(), 1);
        Err::<(), String>(format!("no room for `{}`", blocks[0].name))
    };
    let error = CoupledOperator::new(realization.clone(), &layout, &refuses).unwrap_err();
    assert_eq!(
        error,
        KrasisError::InvalidCoupling("no room for `u`".to_owned())
    );
    // A width that differs is refused before the solver is asked.
    let wide = StateLayout::new(vec![StateBlock::new(BlockId::new("w"), 0..1)]).unwrap();
    let mismatch = CoupledOperator::new(realization, &wide, &refuses).unwrap_err();
    assert!(matches!(mismatch, KrasisError::InvalidCoupling(message)
        if message.starts_with("Finitum dimension ")));
}

#[test]
fn coupled_operator_refuses_a_binding_whose_blocks_do_not_match_the_layout() {
    let (realization, layout, _) = linear_reaction_realization(1);
    let other_layout = StateLayout::new(vec![
        StateBlock::new(BlockId::new("a"), 0..2),
        StateBlock::new(BlockId::new("b"), 2..4),
    ])
    .unwrap();
    let binding = StateBinding::new(
        &other_layout,
        vec![
            (SemanticId::new(1), BlockId::new("a")),
            (SemanticId::new(2), BlockId::new("b")),
        ],
    )
    .unwrap();
    let error =
        CoupledOperator::new_with_bindings(realization, &layout, Some(binding), &solver_accepts)
            .unwrap_err();
    assert!(matches!(error, KrasisError::StateBindingLayoutMismatch));
}

fn scalar_layout(vertex_count: usize) -> StateLayout {
    StateLayout::new(vec![StateBlock::new(BlockId::new("u"), 0..vertex_count)]).unwrap()
}

fn sample_vertices() -> Vec<Vec<f64>> {
    vec![
        vec![0.0, 0.0],
        vec![1.0, 0.0],
        vec![0.0, 1.0],
        vec![1.0, 1.0],
    ]
}

type Sample = fn(&str, &Vec<Scalar>, Scalar) -> Result<Vec<Scalar>, EvaluationRefusal>;

fn never(_: &str, _: &Vec<Scalar>, _: Scalar) -> Result<Vec<Scalar>, EvaluationRefusal> {
    panic!("nothing is sampled")
}

fn data(
    bindings: Vec<(BlockId, FieldSource)>,
    sample: Sample,
) -> InitialData<Sample, fn(Scalar) -> String> {
    InitialData {
        bindings,
        sample,
        render,
    }
}

#[test]
fn initial_state_from_projects_constant_and_sampled_sources() {
    let vertices = sample_vertices();
    let layout = scalar_layout(vertices.len());
    let coordinates = points(&vertices);
    let nodal = NodalContext::new(&coordinates).unwrap();

    let sampled = data(vec![(BlockId::new("u"), FieldSource::Fallible)], |_, point, _| {
        Ok(vec![scalar(float(point[0]) + 2.0 * float(point[1]))])
    });
    let state = initial_state_from(&layout, &nodal, 2, &sampled).unwrap();
    let expected: Vec<f64> = vertices.iter().map(|c| c[0] + 2.0 * c[1]).collect();
    assert_eq!(
        floats(state.committed(&FieldId::new("u")).unwrap()),
        expected
    );

    let constant = data(
        vec![(BlockId::new("u"), FieldSource::Constant(scalars(&[3.5])))],
        never,
    );
    let state = initial_state_from(&layout, &nodal, 2, &constant).unwrap();
    assert_eq!(
        floats(state.committed(&FieldId::new("u")).unwrap()),
        [3.5, 3.5, 3.5, 3.5]
    );

    let nodal_values = vec![1.0, 2.0, 3.0, 4.0];
    let given = data(
        vec![(BlockId::new("u"), FieldSource::Nodal(scalars(&nodal_values)))],
        never,
    );
    let state = initial_state_from(&layout, &nodal, 2, &given).unwrap();
    assert_eq!(
        floats(state.committed(&FieldId::new("u")).unwrap()),
        nodal_values
    );
}

#[test]
fn initial_state_from_projects_a_vector_valued_block() {
    let vertices = sample_vertices();
    let layout = StateLayout::new(vec![StateBlock::new(
        BlockId::new("velocity"),
        0..vertices.len() * 2,
    )])
    .unwrap();
    let coordinates = points(&vertices);
    let nodal = NodalContext::new(&coordinates).unwrap();
    let sampled = data(
        vec![(BlockId::new("velocity"), FieldSource::Fallible)],
        |_, point, _| Ok(vec![point[0], scalar(-float(point[1]))]),
    );
    let state = initial_state_from(&layout, &nodal, 0, &sampled).unwrap();
    let mut expected = Vec::new();
    for coordinates in &vertices {
        expected.push(coordinates[0]);
        expected.push(-coordinates[1]);
    }
    assert_eq!(
        floats(state.committed(&FieldId::new("velocity")).unwrap()),
        expected
    );
}

#[test]
fn initial_state_from_refuses_missing_extra_and_duplicate_blocks() {
    let vertices = sample_vertices();
    let layout = scalar_layout(vertices.len());
    let coordinates = points(&vertices);
    let nodal = NodalContext::new(&coordinates).unwrap();

    let error = initial_state_from(&layout, &nodal, 0, &data(Vec::new(), never)).unwrap_err();
    assert!(matches!(error, KrasisError::InitialBlockMissing(_)));

    let one = || FieldSource::Constant(scalars(&[1.0]));
    let extra = data(
        vec![(BlockId::new("u"), one()), (BlockId::new("extra"), one())],
        never,
    );
    let error = initial_state_from(&layout, &nodal, 0, &extra).unwrap_err();
    assert!(matches!(error, KrasisError::InitialBlockUnknown(_)));

    let twice = data(
        vec![
            (BlockId::new("u"), one()),
            (BlockId::new("u"), FieldSource::Constant(scalars(&[2.0]))),
        ],
        never,
    );
    let error = initial_state_from(&layout, &nodal, 0, &twice).unwrap_err();
    assert!(matches!(error, KrasisError::InitialBlockDuplicate(_)));
}

#[test]
fn initial_state_from_refuses_dimension_mismatch_and_non_finite_values() {
    let vertices = sample_vertices();
    let layout = StateLayout::new(vec![StateBlock::new(BlockId::new("u"), 0..5)]).unwrap();
    let coordinates = points(&vertices);
    let nodal = NodalContext::new(&coordinates).unwrap();
    let constant = data(
        vec![(BlockId::new("u"), FieldSource::Constant(scalars(&[1.0])))],
        never,
    );
    let error = initial_state_from(&layout, &nodal, 0, &constant).unwrap_err();
    assert!(matches!(
        error,
        KrasisError::InitialDimensionMismatch { .. }
    ));

    let layout = scalar_layout(vertices.len());
    let pair = data(
        vec![(BlockId::new("u"), FieldSource::Constant(scalars(&[1.0, 2.0])))],
        never,
    );
    let error = initial_state_from(&layout, &nodal, 0, &pair).unwrap_err();
    assert!(matches!(error, KrasisError::FieldLength { .. }));

    let nan = data(vec![(BlockId::new("u"), FieldSource::Fallible)], |_, _, _| {
        Ok(scalars(&[f64::NAN]))
    });
    let error = initial_state_from(&layout, &nodal, 0, &nan).unwrap_err();
    assert!(matches!(error, KrasisError::NonFiniteValue { .. }));
}

#[test]
fn nodal_context_refuses_empty_and_inconsistent_coordinates() {
    let empty: Vec<Vec<Scalar>> = Vec::new();
    let error = NodalContext::new(&empty).unwrap_err();
    assert!(matches!(error, KrasisError::EmptyNodalContext));

    let inconsistent = points(&[vec![0.0, 0.0], vec![1.0]]);
    let error = NodalContext::new(&inconsistent).unwrap_err();
    assert!(matches!(
        error,
        KrasisError::InconsistentNodalCoordinates { .. }
    ));
}
