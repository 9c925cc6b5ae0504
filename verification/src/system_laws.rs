//! What composing leaves promises of names, semantic ids and identities.
use crate::binding;
use crate::binding::Bound;
use crate::digest;
use crate::error::{ErrorModel, KrasisError};
use crate::graph;
use crate::graph::CouplingDependency;
use crate::graph_laws;
use crate::identity_model;
use crate::initialization;
use crate::initialization::{RateSolvePolicy, RowKind};
use crate::layout;
use crate::operator::TransactionalOperator;
use crate::system;
use crate::system::{CoupledLeaf, CoupledSystemOperator, CouplingEdge};
use crate::system_model;
use crate::system_model::{EdgeModel, LeafModel, ResolvedModel};
use crate::text;
use vstd::prelude::*;

verus! {

proof fn lemma_names_checked(leaves: Seq<LeafModel>, from: int, i: int)
    requires
        system_model::name_failure(leaves, from) is None,
        0 <= from <= i < leaves.len(),
    ensures
        !system_model::repeats_name(leaves, i),
    decreases i - from,
{
    if from < i {
        lemma_names_checked(leaves, from + 1, i);
    }
}

/// No two leaves of a composed system share a name.
pub proof fn law_composed_names_are_distinct(
    leaves: Seq<LeafModel>,
    edges: Seq<EdgeModel>,
    i: int,
    j: int,
)
    requires
        system_model::system_of(leaves, edges) is Ok,
        0 <= i < j < leaves.len(),
    ensures
        leaves[i].name != leaves[j].name,
{
    lemma_names_checked(leaves, 0, j);
    if leaves[i].name == leaves[j].name {
        assert(system_model::repeats_name(leaves, j));
    }
}

proof fn lemma_composed_pair(leaves: Seq<LeafModel>, count: int, i: int, k: int)
    requires
        0 <= i < count <= leaves.len(),
        0 <= k < leaves[i].blocks.len(),
    ensures
        system_model::composed_pairs(leaves, count).contains(
            system_model::leaf_pairs(leaves[i])[k],
        ),
    decreases count,
{
    let before = system_model::composed_pairs(leaves, count - 1);
    let added = system_model::leaf_pairs(leaves[count - 1]);
    let all = system_model::composed_pairs(leaves, count);
    let pair = system_model::leaf_pairs(leaves[i])[k];
    if i == count - 1 {
        assert(all[before.len() + k] == pair);
    } else {
        lemma_composed_pair(leaves, count - 1, i, k);
        let p = choose|p: int| 0 <= p < before.len() && before[p] == pair;
        assert(all[p] == pair);
    }
}

/// The binding of a composed system is one to one over its layout: no semantic id is used
/// twice across the leaves, and every block keeps the id that its leaf bound it to.
pub proof fn law_composed_binding_keeps_ids(
    leaves: Seq<LeafModel>,
    edges: Seq<EdgeModel>,
    i: int,
    k: int,
)
    requires
        system_model::leaves_valid(leaves),
        system_model::system_of(leaves, edges) is Ok,
        0 <= i < leaves.len(),
        0 <= k < leaves[i].blocks.len(),
    ensures
        ({
            let composed = system_model::system_of(leaves, edges)->Ok_0;
            let block = leaves[i].blocks[k].id;
            &&& binding::one_to_one(composed.pairs)
            &&& binding::covers(composed.pairs, composed.layout)
            &&& binding::semantic_of(composed.pairs, block) == binding::semantic_of(
                leaves[i].pairs,
                block,
            )
        }),
{
    let count = leaves.len() as int;
    let composed = system_model::system_of(leaves, edges)->Ok_0;
    let blocks = system_model::composed_blocks(leaves, count);
    let pairs = system_model::composed_pairs(leaves, count);
    layout::law_accepted_layout_tiles(blocks);
    binding::law_binding_is_total_and_injective(composed.layout, pairs);
    binding::lemma_binding_members(composed.layout, pairs);
    lemma_composed_pair(leaves, count, i, k);
    let leaf = leaves[i];
    assert(system_model::leaf_valid(leaf));
    let pair = system_model::leaf_pairs(leaf)[k];
    assert(pair == (Bound {
        semantic: binding::semantic_of(leaf.pairs, leaf.blocks[k].id)->Some_0,
        block: leaf.blocks[k].id,
    }));
    assert(composed.pairs.contains(pair));
    let p = choose|p: int| 0 <= p < composed.pairs.len() && composed.pairs[p] == pair;
    assert(composed.pairs[p].block == leaf.blocks[k].id);
    let q = choose|q: int|
        0 <= q < composed.pairs.len() && (#[trigger] composed.pairs[q]).block
            == leaf.blocks[k].id;
    assert(p == q) by {
        if p < q {
            assert(composed.pairs[p].block != composed.pairs[q].block);
        }
        if q < p {
            assert(composed.pairs[q].block != composed.pairs[p].block);
        }
    }
}

/// Coupling matrices with the same identity text have the same encoding: changing an entry
/// changes what the edge's digest is taken of.
pub proof fn law_matrix_payload_is_injective(left: Seq<char>, right: Seq<char>)
    requires
        system::matrix_payload(left) == system::matrix_payload(right),
    ensures
        left == right,
{
    let beginning = "{\"schema\":\"krasis-coupling-matrix/1\",\"matrix\":"@;
    assert(system::matrix_payload(left) =~= beginning + (left + "}"@));
    assert(system::matrix_payload(right) =~= beginning + (right + "}"@));
    digest::lemma_same_beginning(beginning, left + "}"@, right + "}"@);
    lemma_same_ending(left, right, "}"@);
}

proof fn lemma_same_ending(left: Seq<char>, right: Seq<char>, ending: Seq<char>)
    requires
        left + ending == right + ending,
    ensures
        left == right,
{
    let whole = left + ending;
    assert(whole.len() == left.len() + ending.len());
    assert(whole.len() == right.len() + ending.len());
    assert(left =~= whole.take(left.len() as int));
    assert(right =~= whole.take(left.len() as int));
}

/// The policy as the text of its schema shows it.
proof fn lemma_policy_read(
    left_mask: Seq<RowKind>,
    left_newton: Seq<char>,
    left: RateSolvePolicy,
    right_mask: Seq<RowKind>,
    right_newton: Seq<char>,
    right: RateSolvePolicy,
)
    requires
        initialization::initialization_payload(left_mask, left_newton, left)
            == initialization::initialization_payload(right_mask, right_newton, right),
    ensures
        left == right,
{
    reveal_strlit("{\"schema\":\"krasis-consistent-init/1\",\"mask\":");
    reveal_strlit("{\"schema\":\"krasis-consistent-init/2\",\"mask\":");
    let one = initialization::initialization_payload(left_mask, left_newton, left);
    let two = initialization::initialization_payload(right_mask, right_newton, right);
    assert(one[34] == (if left == RateSolvePolicy::Always { '1' } else { '2' }));
    assert(two[34] == (if right == RateSolvePolicy::Always { '1' } else { '2' }));
}

/// Initialization conventions with the same identity text agree in the row mask, the Newton
/// configuration and the policy.
pub proof fn law_initialization_payload_is_injective(
    left_mask: Seq<RowKind>,
    left_newton: Seq<char>,
    left: RateSolvePolicy,
    right_mask: Seq<RowKind>,
    right_newton: Seq<char>,
    right: RateSolvePolicy,
)
    requires
        initialization::initialization_payload(left_mask, left_newton, left)
            == initialization::initialization_payload(right_mask, right_newton, right),
    ensures
        left_mask == right_mask,
        left_newton == right_newton,
        left == right,
{
    lemma_policy_read(left_mask, left_newton, left, right_mask, right_newton, right);
    let beginning = match left {
        RateSolvePolicy::Always => "{\"schema\":\"krasis-consistent-init/1\",\"mask\":"@,
        RateSolvePolicy::WhenAlgebraic => "{\"schema\":\"krasis-consistent-init/2\",\"mask\":"@,
    };
    let ending = match left {
        RateSolvePolicy::Always => "}"@,
        RateSolvePolicy::WhenAlgebraic => ",\"policy\":\"when-algebraic\"}"@,
    };
    let newton = ",\"newton\":"@;
    let left_rest = newton + (left_newton + ending);
    let right_rest = newton + (right_newton + ending);
    let left_mask_text = initialization::mask_json(left_mask);
    let right_mask_text = initialization::mask_json(right_mask);
    assert(initialization::initialization_payload(left_mask, left_newton, left) =~= beginning + (
    left_mask_text + left_rest));
    assert(initialization::initialization_payload(right_mask, right_newton, right) =~= beginning
        + (right_mask_text + right_rest));
    digest::lemma_same_beginning(
        beginning,
        left_mask_text + left_rest,
        right_mask_text + right_rest,
    );
    identity_model::lemma_kinds_read(Some(left_mask), left_rest, Some(right_mask), right_rest);
    digest::lemma_same_beginning(newton, left_newton + ending, right_newton + ending);
    lemma_same_ending(left_newton, right_newton, ending);
}

/// Whether a declared edge couples the argument of leaf `x.column` into the residual of leaf
/// `x.row`.
pub open spec fn couples(
    leaves: Seq<LeafModel>,
    edge: EdgeModel,
    x: CouplingDependency,
) -> bool {
    &&& x.row < leaves.len()
    &&& x.column < leaves.len()
    &&& leaves[x.row as int].name == edge.row
    &&& leaves[x.column as int].name == edge.column
    &&& x.argument == edge.argument
}

proof fn lemma_edge_couples(
    leaves: Seq<LeafModel>,
    edges: Seq<EdgeModel>,
    k: int,
    x: CouplingDependency,
)
    requires
        system_model::system_of(leaves, edges) is Ok,
        leaves.len() <= usize::MAX,
        0 <= k < edges.len(),
        system_model::resolve(leaves, edges[k], k as nat) is Ok,
    ensures
        couples(leaves, edges[k], x) <==> x == system_model::dependency_of(
            system_model::resolve(leaves, edges[k], k as nat)->Ok_0,
        ),
{
    let edge = edges[k];
    let row = system_model::leaf_index(leaves, edge.row);
    let column = system_model::leaf_index(leaves, edge.column);
    system_model::lemma_leaf_index(leaves, edge.row);
    system_model::lemma_leaf_index(leaves, edge.column);
    if couples(leaves, edge, x) {
        if row < x.row {
            law_composed_names_are_distinct(leaves, edges, row, x.row as int);
        } else if x.row < row {
            law_composed_names_are_distinct(leaves, edges, x.row as int, row);
        }
        if column < x.column {
            law_composed_names_are_distinct(leaves, edges, column, x.column as int);
        } else if x.column < column {
            law_composed_names_are_distinct(leaves, edges, x.column as int, column);
        }
    }
}

/// The dependencies of a composed system are exactly those that its declared edges stand
/// for: strictly ascending by row, column and argument, so that none occurs twice, and none
/// of a leaf on itself.
pub proof fn law_graph_holds_the_declared_edges(
    leaves: Seq<CoupledLeaf>,
    edges: Seq<CouplingEdge>,
    composed: CoupledSystemOperator,
    x: CouplingDependency,
)
    requires
        system::system_made(leaves, edges, Ok::<CoupledSystemOperator, KrasisError>(composed)),
    ensures
        graph::canonical(composed.coupling().arcs()),
        composed.coupling().arcs().contains(x) <==> exists|k: int|
            0 <= k < edges.len() && couples(
                system::leaf_models(leaves),
                (#[trigger] edges[k])@,
                x,
            ),
        composed.coupling().arcs().contains(x) ==> x.row != x.column,
{
    let models = system::leaf_models(leaves);
    let declared = system::edge_models(edges);
    let count = declared.len() as int;
    let arcs = composed.coupling().arcs();
    let resolved = composed@.edges;
    composed.lemma_wf();
    composed.coupling().lemma_wf();
    if arcs.contains(x) {
        let e = choose|e: int|
            0 <= e < resolved.len() && x == system_model::dependency_of(#[trigger] resolved[e]);
        assert(system_model::edge_valid(models, resolved[e]));
        assert(resolved.contains(resolved[e]));
        system_model::lemma_resolved_members(models, declared, count, resolved[e]);
        let k = choose|k: int|
            0 <= k < count && system_model::resolve(models, #[trigger] declared[k], k as nat)
                == Ok::<ResolvedModel, ErrorModel>(resolved[e]);
        lemma_edge_couples(models, declared, k, x);
        assert(declared[k] == edges[k]@);
    }
    if exists|k: int| 0 <= k < edges.len() && couples(models, (#[trigger] edges[k])@, x) {
        let k = choose|k: int| 0 <= k < edges.len() && couples(models, (#[trigger] edges[k])@, x);
        assert(declared[k] == edges[k]@);
        let placeholder = resolved[0];
        system_model::lemma_resolved_members(models, declared, count, placeholder);
        assert(system_model::resolve(models, declared[k], k as nat) is Ok);
        let edge = system_model::resolve(models, declared[k], k as nat)->Ok_0;
        system_model::lemma_resolved_members(models, declared, count, edge);
        assert(resolved.contains(edge));
        let e = choose|e: int| 0 <= e < resolved.len() && resolved[e] == edge;
        assert(arcs.contains(system_model::dependency_of(resolved[e])));
        lemma_edge_couples(models, declared, k, x);
    }
}

proof fn lemma_same_dependencies(
    edges: Seq<ResolvedModel>,
    other: Seq<ResolvedModel>,
    x: CouplingDependency,
)
    requires
        identity_model::bare_edges(edges) == identity_model::bare_edges(other),
    ensures
        (exists|k: int| 0 <= k < edges.len() && x == system_model::dependency_of(#[trigger] edges[k]))
            ==> (exists|k: int|
            0 <= k < other.len() && x == system_model::dependency_of(#[trigger] other[k])),
{
    if exists|k: int| 0 <= k < edges.len() && x == system_model::dependency_of(#[trigger] edges[k]) {
        let k = choose|k: int|
            0 <= k < edges.len() && x == system_model::dependency_of(#[trigger] edges[k]);
        assert(identity_model::bare_edges(edges).len() == edges.len());
        assert(identity_model::bare_edges(other).len() == other.len());
        assert(identity_model::bare_edges(edges)[k] == identity_model::bare(edges[k]));
        assert(identity_model::bare_edges(other)[k] == identity_model::bare(other[k]));
        assert(x == system_model::dependency_of(other[k]));
    }
}

/// Declaring the edges of a composed system in another order composes again, where the block
/// solver accepts the leaves again, into a system of the same identity, layout and binding,
/// with the same graph: the same names, the same dependencies and the same stages.
pub proof fn law_edge_order_is_immaterial(
    leaves: Seq<CoupledLeaf>,
    edges: Seq<CouplingEdge>,
    composed: CoupledSystemOperator,
    reordered: Seq<CouplingEdge>,
    again: Result<CoupledSystemOperator, KrasisError>,
)
    requires
        system::edge_models(edges).to_multiset() == system::edge_models(reordered).to_multiset(),
        system::system_made(leaves, edges, Ok::<CoupledSystemOperator, KrasisError>(composed)),
        system::system_made(leaves, reordered, again),
    ensures
        again matches Ok(second) && {
            &&& second.identity_text() == composed.identity_text()
            &&& second@.layout == composed@.layout
            &&& second@.pairs == composed@.pairs
            &&& text::text_models(second.coupling().names()) == text::text_models(
                composed.coupling().names(),
            )
            &&& second.coupling().arcs() == composed.coupling().arcs()
            &&& second.coupling().schedule() == composed.coupling().schedule()
        },
{
    let models = system::leaf_models(leaves);
    identity_model::law_identity_ignores_edge_order(
        models,
        system::edge_models(edges),
        system::edge_models(reordered),
    );
    let second = again->Ok_0;
    composed.lemma_wf();
    second.lemma_wf();
    composed.coupling().lemma_wf();
    second.coupling().lemma_wf();
    assert(text::text_models(second.coupling().names()) =~= text::text_models(
        composed.coupling().names(),
    ));
    let arcs = composed.coupling().arcs();
    let other = second.coupling().arcs();
    assert forall|x: CouplingDependency| #[trigger] other.contains(x) <==> arcs.contains(x) by {
        lemma_same_dependencies(composed@.edges, second@.edges, x);
        lemma_same_dependencies(second@.edges, composed@.edges, x);
    }
    graph_laws::lemma_canonical_unique(other, arcs);
}

/// The leaves of a composed state follow each other: the first starts at zero, and each ends
/// where its dimension says and where the next one starts.
pub proof fn law_leaf_ranges_follow_each_other(leaves: Seq<LeafModel>, k: int)
    requires
        0 <= k < leaves.len(),
    ensures
        system_model::offset_of(leaves, 0) == 0,
        system_model::offset_of(leaves, k + 1) == system_model::offset_of(leaves, k)
            + leaves[k].dimension,
{
}

/// A composed system has the declared leaves, in order, and as many edges as were declared.
pub proof fn law_composed_parts_are_the_declared_ones(
    leaves: Seq<CoupledLeaf>,
    edges: Seq<CouplingEdge>,
    composed: CoupledSystemOperator,
)
    requires
        system::system_made(leaves, edges, Ok::<CoupledSystemOperator, KrasisError>(composed)),
    ensures
        composed.parts() == leaves,
        composed@.leaves.len() == leaves.len(),
        forall|i: int| 0 <= i < leaves.len() ==> (#[trigger] composed@.leaves[i]) == leaves[i]@,
        composed@.edges.len() == edges.len(),
{
    composed.lemma_wf();
    system_model::lemma_resolved_valid(
        system::leaf_models(leaves),
        system::edge_models(edges),
        edges.len() as int,
    );
}

/// An edge of a composed system is a declared one, that of its action: it leads into the leaf
/// that was named as its row, from the leaf that was named as its column, with the declared
/// argument, shape and identity.
pub proof fn law_composed_edge_is_declared(
    leaves: Seq<CoupledLeaf>,
    edges: Seq<CouplingEdge>,
    composed: CoupledSystemOperator,
    e: int,
)
    requires
        system::system_made(leaves, edges, Ok::<CoupledSystemOperator, KrasisError>(composed)),
        0 <= e < composed@.edges.len(),
    ensures
        composed@.edges[e].action < edges.len(),
        composed@.edges[e].row < leaves.len(),
        composed@.edges[e].column < leaves.len(),
        composed@.edges[e].row != composed@.edges[e].column,
        ({
            let edge = composed@.edges[e];
            let declared = edges[edge.action as int]@;
            &&& leaves[edge.row as int]@.name == declared.row
            &&& leaves[edge.column as int]@.name == declared.column
            &&& edge.argument == declared.argument
            &&& edge.identity == declared.identity
            &&& edge.rows == declared.rows
            &&& edge.columns == declared.columns
            &&& edge.rows == leaves[edge.row as int]@.dimension
            &&& edge.columns == leaves[edge.column as int]@.dimension
        }),
{
    let models = system::leaf_models(leaves);
    let declared = system::edge_models(edges);
    let count = declared.len() as int;
    let edge = composed@.edges[e];
    system_model::lemma_resolved_valid(models, declared, count);
    assert(system_model::edge_valid(models, composed@.edges[e]));
    assert(composed@.edges.contains(edge));
    system_model::lemma_resolved_members(models, declared, count, edge);
    let k = choose|k: int|
        0 <= k < count && system_model::resolve(models, #[trigger] declared[k], k as nat) == Ok::<
            ResolvedModel,
            ErrorModel,
        >(edge);
    assert(declared[k] == edges[k]@);
    assert(edge.action == k);
    system_model::lemma_leaf_index(models, declared[k].row);
    system_model::lemma_leaf_index(models, declared[k].column);
    assert(models[edge.row as int] == leaves[edge.row as int]@);
    assert(models[edge.column as int] == leaves[edge.column as int]@);
}

/// Every declared edge is an edge of the composed system, with its own place among the
/// declared ones for its action.
pub proof fn law_declared_edge_is_composed(
    leaves: Seq<CoupledLeaf>,
    edges: Seq<CouplingEdge>,
    composed: CoupledSystemOperator,
    k: int,
)
    requires
        system::system_made(leaves, edges, Ok::<CoupledSystemOperator, KrasisError>(composed)),
        0 <= k < edges.len(),
    ensures
        exists|e: int|
            0 <= e < composed@.edges.len() && (#[trigger] composed@.edges[e]).action == k,
{
    let models = system::leaf_models(leaves);
    let declared = system::edge_models(edges);
    let count = declared.len() as int;
    let resolved = composed@.edges;
    system_model::lemma_resolved_members(models, declared, count, resolved[0]);
    assert(system_model::resolve(models, declared[k], k as nat) is Ok);
    let edge = system_model::resolve(models, declared[k], k as nat)->Ok_0;
    system_model::lemma_resolved_members(models, declared, count, edge);
    assert(resolved.contains(edge));
    let e = choose|e: int| 0 <= e < resolved.len() && resolved[e] == edge;
    assert(composed@.edges[e].action == k);
}

} // verus!
