//! The stages of coupling graphs.

use krasis::{
    BlockId, BlockSpec, CoupledLeaf, CoupledSystemOperator, CouplingArgument, CouplingDependency,
    CouplingEdge, CouplingGraph, KrasisError, NumericError, RateSolvePolicy, RowKind, Scalar,
    SemanticId, SolveError, StateBinding, StateBlock, StateLayout, SystemCalls,
    TransactionalOperator,
};
use krasis::digest::digest_text;
use krasis::graph::strongly_connected_components;
use krasis::initialization::mask_json_text;

/// A block solver that takes any blocks but empty ones.
fn solver_accepts(blocks: &Vec<BlockSpec>) -> Result<(), String> {
    match blocks.iter().find(|block| block.length == 0) {
        Some(block) => Err(format!("block `{}` is empty", block.name)),
        None => Ok(()),
    }
}

fn scalar(value: f64) -> Scalar {
    Scalar::from_bits(value.to_bits())
}

fn scalars(values: &[f64]) -> Vec<Scalar> {
    values.iter().map(|value| scalar(*value)).collect()
}

fn float(value: Scalar) -> f64 {
    f64::from_bits(value.to_bits())
}

fn depends(row: usize, column: usize) -> CouplingDependency {
    CouplingDependency {
        row,
        column,
        argument: CouplingArgument::State,
    }
}

fn graph(count: usize, edges: &[(usize, usize)]) -> CouplingGraph {
    let nodes = (0..count).map(|index| format!("n{index}")).collect();
    let edges = edges
        .iter()
        .map(|(row, column)| depends(*row, *column))
        .collect();
    CouplingGraph::new(nodes, &edges)
}

#[test]
fn stages_come_dependencies_first() {
    // 0 reads 1, 1 reads 2.
    let chain = graph(3, &[(0, 1), (1, 2)]);
    assert_eq!(chain.stages(), &vec![vec![2], vec![1], vec![0]]);
    assert!(chain.is_acyclic());
}

#[test]
fn mutual_leaves_share_a_stage() {
    let ring = graph(4, &[(0, 1), (1, 0), (3, 0), (2, 3), (3, 2)]);
    assert_eq!(ring.stages(), &vec![vec![0, 1], vec![2, 3]]);
    assert!(!ring.is_acyclic());
}

#[test]
fn a_leaf_that_reads_itself_is_a_stage_of_its_own() {
    let own = graph(2, &[(0, 0)]);
    assert!(own.is_acyclic());
    assert_eq!(own.stages().len(), 2);
}

#[test]
fn repeated_dependencies_count_once_and_are_sorted() {
    let twice = CouplingGraph::new(
        vec!["a".to_owned(), "b".to_owned()],
        &vec![
            CouplingDependency {
                row: 1,
                column: 0,
                argument: CouplingArgument::Rate,
            },
            depends(1, 0),
            depends(0, 1),
            depends(1, 0),
        ],
    );
    assert_eq!(
        twice.dependencies(),
        &vec![
            depends(0, 1),
            depends(1, 0),
            CouplingDependency {
                row: 1,
                column: 0,
                argument: CouplingArgument::Rate
            }
        ]
    );
}

#[test]
fn every_node_stands_in_one_stage() {
    let wide = graph(7, &[(0, 3), (3, 5), (5, 0), (6, 2), (2, 0), (4, 6)]);
    let mut seen: Vec<usize> = wide.stages().iter().flatten().copied().collect();
    seen.sort_unstable();
    assert_eq!(seen, (0..7).collect::<Vec<usize>>());
    let stage_of = |node: usize| {
        wide.stages()
            .iter()
            .position(|stage| stage.contains(&node))
            .unwrap()
    };
    for dependency in wide.dependencies() {
        assert!(stage_of(dependency.column) <= stage_of(dependency.row));
    }
}

fn leaf(name: &str, semantic: u32, identity: &str) -> CoupledLeaf {
    let layout = StateLayout::new(vec![StateBlock::new(BlockId::new(name), 0..2)]).unwrap();
    let binding = StateBinding::new(
        &layout,
        vec![(SemanticId::new(semantic), BlockId::new(name))],
    )
    .unwrap();
    CoupledLeaf::new(name, 2, layout, binding, identity).unwrap()
}

fn edge(row: &str, column: &str, identity: &str) -> CouplingEdge {
    CouplingEdge::new(row, column, CouplingArgument::State, 2, 2, identity)
}

fn composed(edges: Vec<CouplingEdge>) -> CoupledSystemOperator {
    let leaves = vec![leaf("a", 0, "A\"\n\u{1}"), leaf("b", 1, "B")];
    CoupledSystemOperator::new(leaves, edges, &solver_accepts).unwrap()
}

#[test]
fn the_events_of_a_system_are_those_of_its_leaves() {
    let system = composed(vec![]);
    let counts = vec![1, 2];
    let events = |index: usize, time: Scalar, part: &Vec<Scalar>| {
        assert_eq!(time, scalar(0.5));
        let first = float(part[0]);
        if first < 0.0 {
            return Err(SolveError {
                refusal: None,
                text: format!("leaf {index} has no events at {first}"),
            });
        }
        Ok(match index {
            0 => scalars(&[first - 1.0]),
            _ => scalars(&[first, float(part[1])]),
        })
    };
    let at = scalar(0.5);
    let state = scalars(&[4.0, 5.0, 6.0, 7.0]);
    assert_eq!(
        system.event_values(at, &state, &counts, 3, &events),
        Ok(scalars(&[3.0, 6.0, 7.0]))
    );
    let down = scalars(&[4.0, 5.0, -6.0, 7.0]);
    assert_eq!(
        system.event_values(at, &down, &counts, 3, &events),
        Err(NumericError::Reported(SolveError {
            refusal: None,
            text: "leaf 1 has no events at -6".to_owned(),
        }))
    );
    assert_eq!(
        system.event_values(at, &state, &counts, 2, &events),
        Err(NumericError::DimensionMismatch {
            operation: "coupled system events".to_owned(),
            expected: 3,
            actual: 2,
        })
    );
    assert_eq!(
        system.event_values(at, &scalars(&[1.0]), &counts, 3, &events),
        Err(NumericError::DimensionMismatch {
            operation: "coupled system state".to_owned(),
            expected: 4,
            actual: 1,
        })
    );
}

#[test]
fn the_block_solver_decides_on_the_leaves() {
    let leaves = || vec![leaf("a", 0, "A"), leaf("b", 1, "B")];
    let seen = |blocks: &Vec<BlockSpec>| {
        let parts: Vec<(&str, usize)> = blocks
            .iter()
            .map(|block| (block.name.as_str(), block.length))
            .collect();
        Err::<(), String>(format!("{parts:?}"))
    };
    let error = CoupledSystemOperator::new(leaves(), vec![], &seen).unwrap_err();
    assert_eq!(
        error,
        KrasisError::InvalidCoupling("[(\"a\", 2), (\"b\", 2)]".to_owned())
    );
    // An edge that names no leaf is refused before the solver is asked.
    let stray = CoupledSystemOperator::new(leaves(), vec![edge("a", "c", "E")], &seen).unwrap_err();
    assert_ne!(stray, error);
    let any = |_: &Vec<BlockSpec>| Ok::<(), String>(());
    assert!(CoupledSystemOperator::new(leaves(), vec![], &any).is_ok());
}

#[test]
fn composed_layouts_concatenate_the_leaves() {
    let system = composed(vec![]);
    assert_eq!(system.layout().identity(), "1:a:0:2;1:b:2:4;");
    assert_eq!(system.leaf_range(0), Some(0..2));
    assert_eq!(system.leaf_range(1), Some(2..4));
    assert_eq!(system.leaf_range(2), None);
    assert_eq!(system.dimension(), 4);
}

/// The identity is the digest of a JSON text; a leaf identity with a quote, a line break and
/// a control character is escaped in it.
#[test]
fn composed_identity_is_the_digest_of_escaped_json() {
    let payload = "{\"schema\":\"krasis-coupled-system/1\",\"leaves\":[\
        {\"name\":\"a\",\"identity\":\"A\\\"\\n\\u0001\",\"layout\":\"1:a:0:2;\",\
        \"binding\":\"0:1:a;\",\"row_kinds\":null},\
        {\"name\":\"b\",\"identity\":\"B\",\"layout\":\"1:b:0:2;\",\
        \"binding\":\"1:1:b;\",\"row_kinds\":null}],\"edges\":[\
        {\"row\":1,\"column\":0,\"argument\":\"State\",\"rows\":2,\"columns\":2,\
        \"identity\":\"tab\\t\"}]}";
    let system = composed(vec![edge("b", "a", "tab\t")]);
    assert_eq!(system.identity(), digest_text(payload));
}

#[test]
fn edge_order_is_immaterial_to_the_identity() {
    let forward = composed(vec![edge("a", "b", "x"), edge("b", "a", "y")]);
    let backward = composed(vec![edge("b", "a", "y"), edge("a", "b", "x")]);
    let other = composed(vec![edge("a", "b", "x"), edge("b", "a", "z")]);
    assert_eq!(forward.identity(), backward.identity());
    assert_ne!(forward.identity(), other.identity());
}

#[test]
fn malformed_compositions_are_refused() {
    let refused = |leaves: Vec<CoupledLeaf>, edges: Vec<CouplingEdge>| {
        CoupledSystemOperator::new(leaves, edges, &solver_accepts).unwrap_err()
    };
    assert_eq!(refused(vec![], vec![]), KrasisError::EmptyLayout);
    assert!(matches!(
        refused(vec![leaf("a", 0, "A"), leaf("a", 1, "B")], vec![]),
        KrasisError::InvalidCoupling(_)
    ));
    assert_eq!(
        refused(vec![leaf("a", 0, "A"), leaf("b", 0, "B")], vec![]),
        KrasisError::StateBindingDuplicateSemanticId(0)
    );
    assert!(matches!(
        refused(vec![leaf("a", 0, "A")], vec![edge("a", "b", "x")]),
        KrasisError::InvalidCoupling(_)
    ));
    let narrow = CouplingEdge::new("a", "b", CouplingArgument::State, 2, 1, "x");
    assert!(matches!(
        refused(
            vec![leaf("a", 0, "A"), leaf("b", 1, "B")],
            vec![narrow]
        ),
        KrasisError::InvalidCoupling(_)
    ));
    assert_eq!(
        leaf("a", 0, "A")
            .with_row_kinds(vec![RowKind::Algebraic])
            .unwrap_err(),
        KrasisError::ConsistentInitializationMaskLength {
            actual: 1,
            expected: 2
        }
    );
}

#[test]
fn masks_are_written_as_json() {
    assert_eq!(mask_json_text(&vec![]), "[]");
    assert_eq!(
        mask_json_text(&vec![RowKind::Differential, RowKind::Algebraic]),
        "[\"Differential\",\"Algebraic\"]"
    );
    assert_ne!(RateSolvePolicy::Always, RateSolvePolicy::WhenAlgebraic);
}

/// `b` reads the state of `a`; `a` reads nothing, so its rows are its own residual.
#[test]
fn a_leaf_that_no_edge_feeds_evaluates_alone() {
    let system = composed(vec![edge("b", "a", "exchange")]);
    let calls = SystemCalls {
        leaf: |_: usize, _: Scalar, parts: &Vec<Vec<Scalar>>| {
            Ok::<Vec<Scalar>, SolveError>(
                parts[0]
                    .iter()
                    .map(|value| scalar(10.0 * float(*value)))
                    .collect(),
            )
        },
        action: |position: usize, source: &Vec<Scalar>| {
            assert_eq!(position, 0);
            assert_eq!(source, &scalars(&[1.0, 2.0]));
            Ok::<Vec<Scalar>, SolveError>(scalars(&[0.5, 0.25]))
        },
        sum: |left: Scalar, right: Scalar| scalar(float(left) + float(right)),
    };
    let values = system
        .residual(
            scalar(0.0),
            &scalars(&[1.0, 2.0, 3.0, 4.0]),
            &scalars(&[0.0; 4]),
            4,
            &calls,
        )
        .unwrap();
    assert_eq!(values, scalars(&[10.0, 20.0, 30.5, 40.25]));
}

#[test]
fn redundant_dependencies_change_no_stage() {
    let base = [(0, 3), (3, 5), (5, 0), (6, 2), (2, 0), (4, 6)];
    let count = 7;
    let listed = |edges: &[CouplingDependency]| {
        strongly_connected_components(count, &edges.to_vec())
    };
    let plain: Vec<CouplingDependency> = base
        .iter()
        .map(|(row, column)| depends(*row, *column))
        .collect();
    for extra in [
        depends(1, 1),
        depends(3, 3),
        depends(6, 2),
        CouplingDependency {
            row: 2,
            column: 0,
            argument: CouplingArgument::Rate,
        },
    ] {
        let mut more = plain.clone();
        more.push(extra);
        assert_eq!(listed(&more), listed(&plain));
    }
    let mut more = plain.clone();
    more.push(depends(0, 4));
    assert_ne!(listed(&more), listed(&plain));
}

#[test]
fn the_graph_holds_the_declared_edges_in_any_order() {
    let rate = |row: &str, column: &str| {
        CouplingEdge::new(row, column, CouplingArgument::Rate, 2, 2, "r")
    };
    let first = composed(vec![
        edge("b", "a", "y"),
        rate("a", "b"),
        edge("a", "b", "x"),
        edge("a", "b", "z"),
    ]);
    let second = composed(vec![
        edge("a", "b", "z"),
        edge("a", "b", "x"),
        edge("b", "a", "y"),
        rate("a", "b"),
    ]);
    assert_eq!(
        first.graph().dependencies(),
        &vec![
            depends(0, 1),
            CouplingDependency {
                row: 0,
                column: 1,
                argument: CouplingArgument::Rate
            },
            depends(1, 0),
        ]
    );
    assert_eq!(first.graph(), second.graph());
    assert_eq!(first.identity(), second.identity());
}
