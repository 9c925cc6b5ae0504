//! Sources projected onto the vertices of a mesh.

use krasis::{
    initial_state_from, BlockId, BlockSpec, CoupledLeaf, CoupledSystemOperator, EvaluationRefusal,
    FieldSource, InitialData, KrasisError, NodalContext, Scalar, SemanticId, SimulationState,
    StateBinding, StateBlock, StateLayout,
};

/// A block solver that takes any blocks but empty ones.
fn solver_accepts(blocks: &Vec<BlockSpec>) -> Result<(), String> {
    match blocks.iter().find(|block| block.length == 0) {
        Some(block) => Err(format!("block `{}` is empty", block.name)),
        None => Ok(()),
    }
}

fn scalar(value: f64) -> Scalar {
    Scalar::from_bits(value.to_bits())
}

fn scalars(values: &[f64]) -> Vec<Scalar> {
    values.iter().map(|value| scalar(*value)).collect()
}

fn float(value: Scalar) -> f64 {
    f64::from_bits(value.to_bits())
}

fn render(value: Scalar) -> String {
    format!("{}", float(value))
}

/// Two components per vertex in `v`, one in `p`, over two vertices.
fn layout() -> StateLayout {
    StateLayout::new(vec![
        StateBlock::new(BlockId::new("v"), 0..4),
        StateBlock::new(BlockId::new("p"), 4..6),
    ])
    .unwrap()
}

fn vertices() -> Vec<Vec<Scalar>> {
    vec![scalars(&[1.0, 2.0]), scalars(&[3.0, 4.0])]
}

fn project(sources: Vec<(&str, FieldSource)>) -> Result<SimulationState, KrasisError> {
    let vertices = vertices();
    let data = InitialData {
        bindings: sources
            .into_iter()
            .map(|(id, source)| (BlockId::new(id), source))
            .collect(),
        sample: |_: &str, point: &Vec<Scalar>, time: Scalar| {
            assert_eq!(float(time), 0.0);
            if float(point[0]) > 2.0 {
                return Err(EvaluationRefusal {
                    code: "OUT_OF_RANGE".to_owned(),
                    origin: "table".to_owned(),
                    message: "no entry".to_owned(),
                });
            }
            Ok(vec![scalar(float(point[0]) * float(point[1]))])
        },
        render,
    };
    initial_state_from(&layout(), &NodalContext::new(&vertices).unwrap(), 1, &data)
}

#[test]
fn projected_fields_hold_their_sources() {
    let state = project(vec![
        ("p", FieldSource::Nodal(scalars(&[5.0, 6.0]))),
        ("v", FieldSource::Constant(scalars(&[7.0, 8.0]))),
    ])
    .unwrap();
    assert_eq!(
        state.committed_vector().unwrap(),
        scalars(&[7.0, 8.0, 7.0, 8.0, 5.0, 6.0])
    );
    assert_eq!(state.step(), 0);
}

#[test]
fn sources_name_every_block_once_and_have_point_values() {
    let constant = || FieldSource::Constant(scalars(&[1.0, 1.0]));
    let single = || FieldSource::Constant(scalars(&[1.0]));
    assert_eq!(
        project(vec![("v", constant())]).unwrap_err(),
        KrasisError::InitialBlockMissing("p".to_owned())
    );
    assert_eq!(
        project(vec![("v", constant()), ("p", single()), ("q", single())]).unwrap_err(),
        KrasisError::InitialBlockUnknown("q".to_owned())
    );
    assert_eq!(
        project(vec![("v", constant()), ("p", single()), ("p", single())]).unwrap_err(),
        KrasisError::InitialBlockDuplicate("p".to_owned())
    );
    assert_eq!(
        project(vec![("v", constant()), ("p", FieldSource::NotPointwise)]).unwrap_err(),
        KrasisError::InitialSourceNotPointwise("p".to_owned())
    );
}

#[test]
fn a_refused_sample_keeps_its_code_and_names_its_block() {
    let error = project(vec![
        ("v", FieldSource::Constant(scalars(&[1.0, 1.0]))),
        ("p", FieldSource::Fallible),
    ])
    .unwrap_err();
    let KrasisError::EvaluationRefused { code, message, .. } = error else {
        panic!("{error:?}")
    };
    assert_eq!(code, "OUT_OF_RANGE");
    assert!(message.contains("no entry"), "{message}");
}

#[test]
fn nodal_contexts_are_finite_points_of_one_dimension() {
    assert_eq!(
        NodalContext::new(&vec![]).unwrap_err(),
        KrasisError::EmptyNodalContext
    );
    assert_eq!(
        NodalContext::new(&vec![scalars(&[1.0]), scalars(&[1.0, 2.0])]).unwrap_err(),
        KrasisError::InconsistentNodalCoordinates {
            index: 1,
            expected: 1,
            actual: 2
        }
    );
    assert_eq!(
        NodalContext::new(&vec![scalars(&[1.0]), scalars(&[f64::NAN])]).unwrap_err(),
        KrasisError::NonFiniteValue {
            label: "nodal coordinate 1".to_owned(),
            index: 0
        }
    );
}

#[test]
fn a_leaf_without_a_mesh_takes_no_initial_data() {
    let layout = StateLayout::new(vec![StateBlock::new(BlockId::new("x"), 0..1)]).unwrap();
    let binding =
        StateBinding::new(&layout, vec![(SemanticId::new(0), BlockId::new("x"))]).unwrap();
    let leaf = CoupledLeaf::new("x", 1, layout, binding, "lumped").unwrap();
    let system = CoupledSystemOperator::new(vec![leaf], vec![], &solver_accepts).unwrap();
    let data = InitialData {
        bindings: vec![(
            BlockId::new("x"),
            FieldSource::Constant(scalars(&[1.0])),
        )],
        sample: |_: &str, _: &Vec<Scalar>, _: Scalar| {
            Ok::<Vec<Scalar>, EvaluationRefusal>(Vec::new())
        },
        render,
    };
    assert_eq!(
        system.initial_state_from(1, &data).unwrap_err(),
        KrasisError::InvalidCoupling(
            "leaf `x` has no mesh to project initial data onto".to_owned()
        )
    );
}
