//! Composition of leaves and coupling edges as mathematical functions.
use crate::binding;
use crate::binding::Bound;
use crate::digest;
use crate::error::ErrorModel;
use crate::graph::{CouplingArgument, CouplingDependency};
use crate::initialization;
use crate::initialization::RowKind;
use crate::layout;
use crate::layout::BlockModel;
use crate::text;
use vstd::prelude::*;

verus! {

/// A leaf: its name, its operator's dimension and identity, its blocks with their
/// semantic ids, and its row kinds where they are known.
#[verifier::ext_equal]
pub struct LeafModel {
    pub name: Seq<char>,
    pub dimension: nat,
    pub blocks: Seq<BlockModel>,
    pub pairs: Seq<Bound>,
    pub kinds: Option<Seq<RowKind>>,
    pub identity: Seq<char>,
}

/// An edge as it is declared: by leaf names and the shape of its action.
#[verifier::ext_equal]
pub struct EdgeModel {
    pub row: Seq<char>,
    pub column: Seq<char>,
    pub argument: CouplingArgument,
    pub rows: nat,
    pub columns: nat,
    pub identity: Seq<char>,
}

/// An edge with its leaves resolved to positions. `action` is its position among the
/// declared edges.
#[verifier::ext_equal]
pub struct ResolvedModel {
    pub row: nat,
    pub column: nat,
    pub argument: CouplingArgument,
    pub rows: nat,
    pub columns: nat,
    pub identity: Seq<char>,
    pub action: nat,
}

#[verifier::ext_equal]
pub struct SystemModel {
    pub leaves: Seq<LeafModel>,
    pub edges: Seq<ResolvedModel>,
    pub layout: Seq<BlockModel>,
    pub pairs: Seq<Bound>,
}

/// Where leaf `count` starts: the sum of the dimensions before it.
pub open spec fn offset_of(leaves: Seq<LeafModel>, count: int) -> nat
    decreases count,
{
    if count <= 0 {
        0
    } else {
        offset_of(leaves, count - 1) + leaves[count - 1].dimension
    }
}

pub open spec fn shifted(blocks: Seq<BlockModel>, offset: nat) -> Seq<BlockModel> {
    blocks.map_values(
        |block: BlockModel|
            BlockModel { id: block.id, start: block.start + offset, end: block.end + offset },
    )
}

/// The blocks of the first `count` leaves, one leaf after the other.
pub open spec fn composed_blocks(leaves: Seq<LeafModel>, count: int) -> Seq<BlockModel>
    decreases count,
{
    if count <= 0 {
        Seq::empty()
    } else {
        composed_blocks(leaves, count - 1) + shifted(
            leaves[count - 1].blocks,
            offset_of(leaves, count - 1),
        )
    }
}

/// The blocks of a leaf with their semantic ids, in block order.
pub open spec fn leaf_pairs(leaf: LeafModel) -> Seq<Bound> {
    leaf.blocks.map_values(
        |block: BlockModel|
            Bound {
                semantic: binding::semantic_of(leaf.pairs, block.id)->Some_0,
                block: block.id,
            },
    )
}

pub open spec fn composed_pairs(leaves: Seq<LeafModel>, count: int) -> Seq<Bound>
    decreases count,
{
    if count <= 0 {
        Seq::empty()
    } else {
        composed_pairs(leaves, count - 1) + leaf_pairs(leaves[count - 1])
    }
}

/// Whether the leaf at position `i` repeats the name of an earlier one.
pub open spec fn repeats_name(leaves: Seq<LeafModel>, i: int) -> bool {
    exists|j: int| 0 <= j < i && (#[trigger] leaves[j]).name == leaves[i].name
}

/// The failure of the first leaf at or after `from` that repeats a name.
pub open spec fn name_failure(leaves: Seq<LeafModel>, from: int) -> Option<ErrorModel>
    decreases leaves.len() - from,
{
    if from >= leaves.len() {
        None
    } else if repeats_name(leaves, from) {
        Some(
            ErrorModel::InvalidCoupling(
                "leaf `"@ + leaves[from].name + "` is declared more than once"@,
            ),
        )
    } else {
        name_failure(leaves, from + 1)
    }
}

pub open spec fn has_leaf(leaves: Seq<LeafModel>, name: Seq<char>) -> bool {
    exists|i: int| 0 <= i < leaves.len() && (#[trigger] leaves[i]).name == name
}

/// The position of the first leaf of the given name.
#[verifier::opaque]
pub open spec fn leaf_index(leaves: Seq<LeafModel>, name: Seq<char>) -> int {
    choose|i: int|
        {
            &&& 0 <= i < leaves.len()
            &&& (#[trigger] leaves[i]).name == name
            &&& forall|j: int| 0 <= j < i ==> (#[trigger] leaves[j]).name != name
        }
}

pub open spec fn unknown_leaf(name: Seq<char>) -> ErrorModel {
    ErrorModel::InvalidCoupling("coupling edge names unknown leaf `"@ + name + "`"@)
}

/// An edge with its leaves resolved, or why it cannot be.
pub open spec fn resolve(leaves: Seq<LeafModel>, edge: EdgeModel, action: nat) -> Result<
    ResolvedModel,
    ErrorModel,
> {
    if !has_leaf(leaves, edge.row) {
        Err(unknown_leaf(edge.row))
    } else if !has_leaf(leaves, edge.column) {
        Err(unknown_leaf(edge.column))
    } else {
        let row = leaf_index(leaves, edge.row);
        let column = leaf_index(leaves, edge.column);
        if row == column {
            Err(
                ErrorModel::InvalidCoupling(
                    "coupling edge `"@ + edge.identity + "` couples leaf `"@ + edge.row
                        + "` to itself; within-plan coupling is realized by Finitum, not composed here"@,
                ),
            )
        } else if edge.rows != leaves[row].dimension || edge.columns != leaves[column].dimension {
            Err(
                ErrorModel::InvalidCoupling(
                    "coupling edge `"@ + edge.identity + "` from `"@ + edge.column + "` into `"@
                        + edge.row + "` is "@ + text::decimal(edge.rows) + "x"@ + text::decimal(
                        edge.columns,
                    ) + ", expected "@ + text::decimal(leaves[row].dimension) + "x"@
                        + text::decimal(leaves[column].dimension),
                ),
            )
        } else {
            Ok(
                ResolvedModel {
                    row: row as nat,
                    column: column as nat,
                    argument: edge.argument,
                    rows: edge.rows,
                    columns: edge.columns,
                    identity: edge.identity,
                    action,
                },
            )
        }
    }
}

/// The order of evaluation: by row, column, argument and identity.
pub open spec fn edge_after(left: ResolvedModel, right: ResolvedModel) -> bool {
    ||| left.row > right.row
    ||| left.row == right.row && left.column > right.column
    ||| left.row == right.row && left.column == right.column && left.argument.rank()
        > right.argument.rank()
    ||| left.row == right.row && left.column == right.column && left.argument == right.argument
        && text::precedes(right.identity, left.identity)
}

/// `sorted` with `edge` put behind every edge that does not come after it.
pub open spec fn place_edge(sorted: Seq<ResolvedModel>, edge: ResolvedModel) -> Seq<ResolvedModel>
    decreases sorted.len(),
{
    if sorted.len() == 0 || !edge_after(sorted.last(), edge) {
        sorted.push(edge)
    } else {
        place_edge(sorted.drop_last(), edge).push(sorted.last())
    }
}

/// The first `count` edges resolved and ordered, or the first failure.
pub open spec fn resolved(leaves: Seq<LeafModel>, edges: Seq<EdgeModel>, count: int) -> Result<
    Seq<ResolvedModel>,
    ErrorModel,
>
    decreases count,
{
    if count <= 0 {
        Ok(Seq::empty())
    } else {
        match resolved(leaves, edges, count - 1) {
            Err(failure) => Err(failure),
            Ok(done) => match resolve(leaves, edges[count - 1], (count - 1) as nat) {
                Err(failure) => Err(failure),
                Ok(edge) => Ok(place_edge(done, edge)),
            },
        }
    }
}

/// The composition of leaves and edges, or why they do not compose.
pub open spec fn system_of(leaves: Seq<LeafModel>, edges: Seq<EdgeModel>) -> Result<
    SystemModel,
    ErrorModel,
> {
    if leaves.len() == 0 {
        Err(ErrorModel::EmptyLayout)
    } else {
        match name_failure(leaves, 0) {
            Some(failure) => Err(failure),
            None => match layout::layout_of(composed_blocks(leaves, leaves.len() as int)) {
                Err(failure) => Err(failure),
                Ok(blocks) => match binding::binding_of(
                    blocks,
                    composed_pairs(leaves, leaves.len() as int),
                ) {
                    Err(failure) => Err(failure),
                    Ok(pairs) => match resolved(leaves, edges, edges.len() as int) {
                        Err(failure) => Err(failure),
                        Ok(ordered) => Ok(
                            SystemModel { leaves, edges: ordered, layout: blocks, pairs },
                        ),
                    },
                },
            },
        }
    }
}

/// The dependency that an edge stands for.
pub open spec fn dependency_of(edge: ResolvedModel) -> CouplingDependency {
    CouplingDependency {
        row: edge.row as usize,
        column: edge.column as usize,
        argument: edge.argument,
    }
}

/// The JSON object of a leaf's identity.
pub open spec fn leaf_json(leaf: LeafModel) -> Seq<char> {
    "{\"name\":"@ + digest::json_string(leaf.name) + ",\"identity\":"@ + digest::json_string(
        leaf.identity,
    ) + ",\"layout\":"@ + digest::json_string(layout::identity_of(leaf.blocks))
        + ",\"binding\":"@ + digest::json_string(binding::binding_identity(leaf.pairs))
        + ",\"row_kinds\":"@ + kinds_json(leaf.kinds) + "}"@
}

pub open spec fn kinds_json(kinds: Option<Seq<RowKind>>) -> Seq<char> {
    match kinds {
        Some(kinds) => initialization::mask_json(kinds),
        None => "null"@,
    }
}

pub open spec fn argument_json(argument: CouplingArgument) -> Seq<char> {
    match argument {
        CouplingArgument::State => "\"State\""@,
        CouplingArgument::Rate => "\"Rate\""@,
    }
}

/// The JSON object of an edge's identity.
pub open spec fn edge_json(edge: ResolvedModel) -> Seq<char> {
    "{\"row\":"@ + text::decimal(edge.row) + ",\"column\":"@ + text::decimal(edge.column)
        + ",\"argument\":"@ + argument_json(edge.argument) + ",\"rows\":"@ + text::decimal(
        edge.rows,
    ) + ",\"columns\":"@ + text::decimal(edge.columns) + ",\"identity\":"@ + digest::json_string(
        edge.identity,
    ) + "}"@
}

/// The text whose digest identifies a composed system.
pub open spec fn system_payload(
    leaves: Seq<LeafModel>,
    edges: Seq<ResolvedModel>,
) -> Seq<char> {
    "{\"schema\":\"krasis-coupled-system/1\",\"leaves\":["@ + digest::comma_joined(
        leaves.map_values(|leaf: LeafModel| leaf_json(leaf)),
    ) + "],\"edges\":["@ + digest::comma_joined(
        edges.map_values(|edge: ResolvedModel| edge_json(edge)),
    ) + "]}"@
}

/// The row kinds of the first `count` leaves, one leaf after the other.
pub open spec fn composed_kinds(leaves: Seq<LeafModel>, count: int) -> Seq<RowKind>
    decreases count,
{
    if count <= 0 {
        Seq::empty()
    } else {
        composed_kinds(leaves, count - 1) + leaves[count - 1].kinds->Some_0
    }
}

/// The first leaf without row kinds.
pub open spec fn first_unclassified(leaves: Seq<LeafModel>, i: int) -> bool {
    &&& 0 <= i < leaves.len()
    &&& leaves[i].kinds is None
    &&& forall|j: int| 0 <= j < i ==> (#[trigger] leaves[j]).kinds is Some
}

pub open spec fn classified(leaves: Seq<LeafModel>) -> bool {
    forall|i: int| 0 <= i < leaves.len() ==> (#[trigger] leaves[i]).kinds is Some
}

/// What a leaf keeps: a name that is not blank, blocks that tile its state, a binding
/// of exactly those blocks, and a row kind for each row where kinds are known.
pub open spec fn leaf_valid(leaf: LeafModel) -> bool {
    &&& !text::blank(leaf.name)
    &&& layout::tiles(leaf.blocks)
    &&& layout::width_of(leaf.blocks) == leaf.dimension
    &&& binding::one_to_one(leaf.pairs)
    &&& crate::operator::binds_exactly(leaf.pairs, leaf.blocks)
    &&& leaf.kinds matches Some(kinds) ==> kinds.len() == leaf.dimension
}

pub open spec fn leaves_valid(leaves: Seq<LeafModel>) -> bool {
    forall|i: int| 0 <= i < leaves.len() ==> leaf_valid(#[trigger] leaves[i])
}

pub proof fn lemma_offset_monotone(leaves: Seq<LeafModel>, i: int, j: int)
    requires
        0 <= i <= j <= leaves.len(),
    ensures
        offset_of(leaves, i) <= offset_of(leaves, j),
    decreases j - i,
{
    if i < j {
        lemma_offset_monotone(leaves, i, j - 1);
    }
}

/// A failure among the first edges is the failure of all.
pub proof fn lemma_resolved_failure(
    leaves: Seq<LeafModel>,
    edges: Seq<EdgeModel>,
    count: int,
    total: int,
)
    requires
        0 <= count <= total <= edges.len(),
        resolved(leaves, edges, count) is Err,
    ensures
        resolved(leaves, edges, total) == resolved(leaves, edges, count),
    decreases total - count,
{
    if count < total {
        lemma_resolved_failure(leaves, edges, count, total - 1);
    }
}

pub proof fn lemma_place_edge_at(sorted: Seq<ResolvedModel>, edge: ResolvedModel, position: int)
    requires
        0 <= position <= sorted.len(),
        forall|i: int| position <= i < sorted.len() ==> edge_after(#[trigger] sorted[i], edge),
        position == 0 || !edge_after(sorted[position - 1], edge),
    ensures
        place_edge(sorted, edge) == sorted.insert(position, edge),
    decreases sorted.len(),
{
    if position < sorted.len() {
        assert(edge_after(sorted.last(), edge));
        lemma_place_edge_at(sorted.drop_last(), edge, position);
        assert(sorted.drop_last().insert(position, edge).push(sorted.last()) =~= sorted.insert(
            position,
            edge,
        ));
    } else {
        assert(sorted.insert(position, edge) =~= sorted.push(edge));
    }
}

/// Blocks in the order of their starts need no reordering.
proof fn lemma_by_start_ordered(blocks: Seq<BlockModel>)
    requires
        forall|i: int, j: int|
            0 <= i < j < blocks.len() ==> (#[trigger] blocks[i]).start <= (
            #[trigger] blocks[j]).start,
    ensures
        layout::by_start(blocks) == blocks,
    decreases blocks.len(),
{
    if blocks.len() > 0 {
        let rest = blocks.drop_last();
        lemma_by_start_ordered(rest);
        if rest.len() > 0 {
            assert(rest.last() == blocks[blocks.len() - 2]);
            assert(blocks[blocks.len() - 2].start <= blocks[blocks.len() - 1].start);
        }
        assert(rest.push(blocks.last()) =~= blocks);
    }
}

proof fn lemma_composed_ordered(leaves: Seq<LeafModel>, count: int)
    requires
        leaves_valid(leaves),
        0 <= count <= leaves.len(),
    ensures
        forall|i: int|
            0 <= i < composed_blocks(leaves, count).len() ==> (#[trigger] composed_blocks(
                leaves,
                count,
            )[i]).start <= offset_of(leaves, count),
        forall|i: int, j: int|
            0 <= i < j < composed_blocks(leaves, count).len() ==> (#[trigger] composed_blocks(
                leaves,
                count,
            )[i]).start <= (#[trigger] composed_blocks(leaves, count)[j]).start,
    decreases count,
{
    if count > 0 {
        let last = count - 1;
        lemma_composed_ordered(leaves, last);
        let leaf = leaves[last];
        assert(leaf_valid(leaf));
        let before = composed_blocks(leaves, last);
        let moved = shifted(leaf.blocks, offset_of(leaves, last));
        let all = composed_blocks(leaves, count);
        assert forall|k: int| 0 <= k < moved.len() implies offset_of(leaves, last) <= (
        #[trigger] moved[k]).start <= offset_of(leaves, count) by {
            crate::state_model::lemma_block_bounds(leaf.blocks, k);
        }
        assert forall|j: int, k: int| 0 <= j < k < moved.len() implies (#[trigger] moved[j]).start
            <= (#[trigger] moved[k]).start by {
            crate::state_model::lemma_block_bounds(leaf.blocks, k);
            assert(leaf.blocks[j].start < leaf.blocks[j].end);
        }
        assert forall|i: int| 0 <= i < all.len() implies (#[trigger] all[i]).start <= offset_of(
            leaves,
            count,
        ) by {
            if i < before.len() {
                assert(all[i] == before[i]);
            } else {
                assert(all[i] == moved[i - before.len()]);
            }
        }
        assert forall|i: int, j: int| 0 <= i < j < all.len() implies (#[trigger] all[i]).start <= (
        #[trigger] all[j]).start by {
            if j < before.len() {
                assert(all[i] == before[i] && all[j] == before[j]);
            } else if i < before.len() {
                assert(all[i] == before[i] && all[j] == moved[j - before.len()]);
            } else {
                assert(all[i] == moved[i - before.len()] && all[j] == moved[j - before.len()]);
            }
        }
    }
}

/// The composed layout is every leaf's blocks, shifted by the dimensions before it, in
/// leaf order; its width is the sum of the dimensions.
pub proof fn law_composed_layout_concatenates(leaves: Seq<LeafModel>, edges: Seq<EdgeModel>)
    requires
        leaves_valid(leaves),
        system_of(leaves, edges) is Ok,
    ensures
        system_of(leaves, edges)->Ok_0.layout == composed_blocks(leaves, leaves.len() as int),
        layout::width_of(system_of(leaves, edges)->Ok_0.layout) == offset_of(
            leaves,
            leaves.len() as int,
        ),
{
    let count = leaves.len() as int;
    let all = composed_blocks(leaves, count);
    lemma_composed_ordered(leaves, count);
    lemma_by_start_ordered(all);
    let leaf = leaves[count - 1];
    assert(leaf_valid(leaf));
    let moved = shifted(leaf.blocks, offset_of(leaves, count - 1));
    assert(all.last() == moved.last());
    assert(moved.last() == moved[moved.len() - 1]);
}

proof fn lemma_placed_edge(sorted: Seq<ResolvedModel>, edge: ResolvedModel)
    ensures
        place_edge(sorted, edge).len() == sorted.len() + 1,
        forall|x: ResolvedModel| #[trigger]
            place_edge(sorted, edge).contains(x) <==> sorted.contains(x) || x == edge,
    decreases sorted.len(),
{
    let result = place_edge(sorted, edge);
    if sorted.len() == 0 || !edge_after(sorted.last(), edge) {
        assert forall|x: ResolvedModel| #[trigger] result.contains(x) <==> sorted.contains(x) || x
            == edge by {
            assert(result[sorted.len() as int] == edge);
            if sorted.contains(x) {
                let i = choose|i: int| 0 <= i < sorted.len() && sorted[i] == x;
                assert(result[i] == x);
            }
            if result.contains(x) && x != edge {
                let i = choose|i: int| 0 <= i < result.len() && result[i] == x;
                assert(sorted[i] == x);
            }
        }
    } else {
        let rest = sorted.drop_last();
        lemma_placed_edge(rest, edge);
        let placed = place_edge(rest, edge);
        assert forall|x: ResolvedModel| #[trigger] result.contains(x) <==> sorted.contains(x) || x
            == edge by {
            assert(result[placed.len() as int] == sorted.last());
            assert(sorted[sorted.len() - 1] == sorted.last());
            if placed.contains(x) {
                let i = choose|i: int| 0 <= i < placed.len() && placed[i] == x;
                assert(result[i] == x);
            }
            if rest.contains(x) {
                let i = choose|i: int| 0 <= i < rest.len() && rest[i] == x;
                assert(sorted[i] == x);
            }
            if sorted.contains(x) && x != sorted.last() {
                let i = choose|i: int| 0 <= i < sorted.len() && sorted[i] == x;
                assert(rest[i] == x);
            }
            if result.contains(x) && x != sorted.last() {
                let i = choose|i: int| 0 <= i < result.len() && result[i] == x;
                assert(placed[i] == x);
            }
        }
    }
}

/// Whether a resolved edge joins two different leaves by an action of their shape.
pub open spec fn edge_valid(leaves: Seq<LeafModel>, edge: ResolvedModel) -> bool {
    &&& edge.row < leaves.len()
    &&& edge.column < leaves.len()
    &&& edge.row != edge.column
    &&& edge.rows == leaves[edge.row as int].dimension
    &&& edge.columns == leaves[edge.column as int].dimension
}

pub open spec fn edges_valid(leaves: Seq<LeafModel>, edges: Seq<ResolvedModel>) -> bool {
    forall|i: int| 0 <= i < edges.len() ==> edge_valid(leaves, #[trigger] edges[i])
}

/// Every resolved edge joins two different leaves by an action of their shape.
pub proof fn lemma_resolved_valid(leaves: Seq<LeafModel>, edges: Seq<EdgeModel>, count: int)
    requires
        0 <= count <= edges.len(),
        resolved(leaves, edges, count) is Ok,
    ensures
        edges_valid(leaves, resolved(leaves, edges, count)->Ok_0),
        resolved(leaves, edges, count)->Ok_0.len() == count,
    decreases count,
{
    if count > 0 {
        lemma_resolved_valid(leaves, edges, count - 1);
        let done = resolved(leaves, edges, count - 1)->Ok_0;
        let edge = resolve(leaves, edges[count - 1], (count - 1) as nat)->Ok_0;
        lemma_leaf_index(leaves, edges[count - 1].row);
        lemma_leaf_index(leaves, edges[count - 1].column);
        lemma_placed_edge(done, edge);
        let all = place_edge(done, edge);
        assert forall|i: int| 0 <= i < all.len() implies edge_valid(leaves, #[trigger] all[i]) by {
            assert(all.contains(all[i]));
            if all[i] != edge {
                assert(done.contains(all[i]));
                let k = choose|k: int| 0 <= k < done.len() && done[k] == all[i];
                assert(edge_valid(leaves, done[k]));
            }
        }
    }
}

/// The resolved edges are those that the declared ones resolve to, each with its position.
pub proof fn lemma_resolved_members(
    leaves: Seq<LeafModel>,
    edges: Seq<EdgeModel>,
    count: int,
    x: ResolvedModel,
)
    requires
        0 <= count <= edges.len(),
        resolved(leaves, edges, count) is Ok,
    ensures
        resolved(leaves, edges, count)->Ok_0.contains(x) <==> exists|k: int|
            0 <= k < count && resolve(leaves, #[trigger] edges[k], k as nat) == Ok::<
                ResolvedModel,
                ErrorModel,
            >(x),
        forall|k: int|
            0 <= k < count ==> resolve(leaves, #[trigger] edges[k], k as nat) is Ok,
    decreases count,
{
    if count > 0 {
        lemma_resolved_members(leaves, edges, count - 1, x);
        let done = resolved(leaves, edges, count - 1)->Ok_0;
        let edge = resolve(leaves, edges[count - 1], (count - 1) as nat)->Ok_0;
        lemma_placed_edge(done, edge);
        assert(place_edge(done, edge).contains(x) <==> done.contains(x) || x == edge);
        if done.contains(x) {
            let k = choose|k: int|
                0 <= k < count - 1 && resolve(leaves, #[trigger] edges[k], k as nat) == Ok::<
                    ResolvedModel,
                    ErrorModel,
                >(x);
            assert(resolve(leaves, edges[k], k as nat) == Ok::<ResolvedModel, ErrorModel>(x));
        }
        if x == edge {
            assert(resolve(leaves, edges[count - 1], (count - 1) as nat) == Ok::<
                ResolvedModel,
                ErrorModel,
            >(x));
        }
    }
}

pub proof fn lemma_leaf_index(leaves: Seq<LeafModel>, name: Seq<char>)
    requires
        has_leaf(leaves, name),
    ensures
        0 <= leaf_index(leaves, name) < leaves.len(),
        leaves[leaf_index(leaves, name)].name == name,
{
    reveal(leaf_index);
    let some = choose|i: int| 0 <= i < leaves.len() && (#[trigger] leaves[i]).name == name;
    lemma_first_leaf(leaves, name, some);
}

proof fn lemma_first_leaf(leaves: Seq<LeafModel>, name: Seq<char>, i: int)
    requires
        0 <= i < leaves.len(),
        leaves[i].name == name,
    ensures
        exists|k: int|
            {
                &&& 0 <= k < leaves.len()
                &&& (#[trigger] leaves[k]).name == name
                &&& forall|j: int| 0 <= j < k ==> (#[trigger] leaves[j]).name != name
            },
    decreases i,
{
    if exists|j: int| 0 <= j < i && (#[trigger] leaves[j]).name == name {
        let j = choose|j: int| 0 <= j < i && (#[trigger] leaves[j]).name == name;
        lemma_first_leaf(leaves, name, j);
    }
}

} // verus!
