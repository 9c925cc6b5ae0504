//! What a projected state holds.
use crate::error::{ErrorModel, KrasisError};
use crate::initial;
use crate::initial::{FieldSource, InitialData};
use crate::layout;
use crate::layout::{BlockId, BlockModel};
use crate::numeric::EvaluationRefusal;
use crate::scalar::Scalar;
use crate::state::SimulationState;
use crate::state_model;
use crate::state_model::{SlotModel, StateModel, TransactionPhase};
use crate::system::{CoupledLeaf, CoupledSystemOperator, LeafSource};
use crate::system_initial;
use vstd::prelude::*;

verus! {

/// Whether a state holds values as the committed values of a field without trial or history.
pub open spec fn holds_field(state: StateModel, name: Seq<char>, values: Seq<Scalar>) -> bool {
    &&& state_model::has_slot(state.fields, name)
    &&& state_model::slot_of(state.fields, name) == (SlotModel {
        name,
        committed: values,
        trial: None,
        history: Seq::empty(),
    })
}

proof fn lemma_kept_slot(before: Seq<SlotModel>, after: Seq<SlotModel>, i: int)
    requires
        state_model::ordered(after),
        0 <= i < before.len(),
        after.contains(before[i]),
    ensures
        state_model::has_slot(after, before[i].name),
        state_model::slot_of(after, before[i].name) == before[i],
{
    let k = choose|k: int| 0 <= k < after.len() && after[k] == before[i];
    assert(after[k].name == before[i].name);
    state_model::lemma_slot_unique(after, k);
}

proof fn lemma_inserted_field(
    before: StateModel,
    name: Seq<char>,
    values: Seq<Scalar>,
    after: StateModel,
)
    requires
        before.consistent(),
        initial::inserts(before, name, values, after),
    ensures
        after.consistent(),
        holds_field(after, name, values),
        forall|other: Seq<char>, held: Seq<Scalar>|
            holds_field(before, other, held) ==> holds_field(after, other, held),
        after == (StateModel { fields: after.fields, ..before }),
{
    let slot = SlotModel { name, committed: values, trial: None, history: Seq::empty() };
    state_model::law_insert_keeps_consistency(before, name, values);
    state_model::lemma_consistent(before);
    state_model::lemma_consistent(after);
    state_model::lemma_place_slot_ordered(before.fields, slot);
    lemma_kept_slot(seq![slot], after.fields, 0);
    assert forall|other: Seq<char>, held: Seq<Scalar>| holds_field(
        before,
        other,
        held,
    ) implies holds_field(after, other, held) by {
        let i = state_model::slot_index(before.fields, other);
        assert(before.fields[i].name == other);
        assert(after.fields.contains(before.fields[i]));
        lemma_kept_slot(before.fields, after.fields, i);
    }
}

/// After a projection, every projected block's field holds exactly what its source gave,
/// and the state is otherwise the one that the projection started from.
pub proof fn law_projected_fields_hold_their_sources<S, T>(
    data: InitialData<S, T>,
    blocks: Seq<BlockModel>,
    points: Seq<Seq<Scalar>>,
    count: int,
    before: StateModel,
    after: StateModel,
    i: int,
) where
    S: Fn(&str, &Vec<Scalar>, Scalar) -> Result<Vec<Scalar>, EvaluationRefusal>,
    T: Fn(Scalar) -> String,

    requires
        before.consistent(),
        0 <= i < count <= blocks.len(),
        initial::blocks_projected(data, blocks, points, count, before, after),
    ensures
        after.consistent(),
        after == (StateModel { fields: after.fields, ..before }),
        exists|values: Vec<Scalar>|
            {
                &&& #[trigger] initial::block_projected(
                    data,
                    blocks[i],
                    points,
                    before.time,
                    Ok(values),
                )
                &&& holds_field(after, blocks[i].id, values@)
            },
    decreases count,
{
    let (between, values) = choose|between: StateModel, values: Vec<Scalar>|
        {
            &&& initial::blocks_projected(data, blocks, points, count - 1, before, between)
            &&& #[trigger] initial::block_projected(
                data,
                blocks[count - 1],
                points,
                before.time,
                Ok(values),
            )
            &&& #[trigger] initial::inserts(between, blocks[count - 1].id, values@, after)
        };
    if count > 1 {
        let j = if i < count - 1 {
            i
        } else {
            0
        };
        law_projected_fields_hold_their_sources(
            data,
            blocks,
            points,
            count - 1,
            before,
            between,
            j,
        );
    }
    lemma_inserted_field(between, blocks[count - 1].id, values@, after);
    if i < count - 1 {
        let held = choose|held: Vec<Scalar>|
            {
                &&& #[trigger] initial::block_projected(
                    data,
                    blocks[i],
                    points,
                    before.time,
                    Ok(held),
                )
                &&& holds_field(between, blocks[i].id, held@)
            };
        assert(initial::block_projected(data, blocks[i], points, before.time, Ok(held)));
        assert(holds_field(after, blocks[i].id, held@));
    }
}

/// Points are a nodal context exactly where there is one, all have as many coordinates as
/// the first, and every coordinate is finite.
pub proof fn law_nodal_points(points: Seq<Seq<Scalar>>)
    ensures
        initial::nodal_failure(points) is None <==> points.len() > 0 && forall|i: int|
            0 <= i < points.len() ==> (#[trigger] points[i]).len() == points[0].len() && (
            forall|c: int| 0 <= c < points[i].len() ==> (#[trigger] points[i][c]).finite()),
{
    if points.len() > 0 {
        lemma_points(points, 0);
    }
}

proof fn lemma_points(points: Seq<Seq<Scalar>>, from: int)
    requires
        0 <= from <= points.len(),
        points.len() > 0,
    ensures
        initial::first_point_failure(points, from) is None <==> forall|i: int|
            from <= i < points.len() ==> (#[trigger] points[i]).len() == points[0].len() && (
            forall|c: int| 0 <= c < points[i].len() ==> (#[trigger] points[i][c]).finite()),
    decreases points.len() - from,
{
    if from < points.len() {
        lemma_points(points, from + 1);
        assert(points[from] == points[from]);
    }
}

/// Whether a block is named by exactly one binding.
pub open spec fn bound_once(bindings: Seq<(BlockId, FieldSource)>, block: Seq<char>) -> bool {
    exists|i: int|
        {
            &&& 0 <= i < bindings.len()
            &&& (#[trigger] bindings[i]).0@ == block
            &&& forall|j: int|
                0 <= j < bindings.len() && (#[trigger] bindings[j]).0@ == block ==> j == i
        }
}

proof fn lemma_bindings(
    blocks: Seq<BlockModel>,
    bindings: Seq<(BlockId, FieldSource)>,
    from: int,
)
    requires
        0 <= from <= bindings.len(),
    ensures
        initial::binding_failure(blocks, bindings, from) is None <==> forall|i: int|
            from <= i < bindings.len() ==> layout::has_block(blocks, (#[trigger] bindings[i]).0@)
                && !initial::has_source(bindings, bindings[i].0@, i),
    decreases bindings.len() - from,
{
    if from < bindings.len() {
        lemma_bindings(blocks, bindings, from + 1);
        assert(bindings[from] == bindings[from]);
    }
}

proof fn lemma_blocks_have_sources(
    blocks: Seq<BlockModel>,
    bindings: Seq<(BlockId, FieldSource)>,
    from: int,
)
    requires
        0 <= from <= blocks.len(),
    ensures
        initial::missing_failure(blocks, bindings, from) is None <==> forall|k: int|
            from <= k < blocks.len() ==> initial::has_source(
                bindings,
                (#[trigger] blocks[k]).id,
                bindings.len() as int,
            ),
    decreases blocks.len() - from,
{
    if from < blocks.len() {
        lemma_blocks_have_sources(blocks, bindings, from + 1);
        assert(blocks[from] == blocks[from]);
    }
}

/// Sources are taken exactly where every block is named by one binding and no other, and no
/// binding names anything else.
pub proof fn law_sources_name_every_block_once(
    blocks: Seq<BlockModel>,
    bindings: Seq<(BlockId, FieldSource)>,
)
    ensures
        initial::sources_failure(blocks, bindings) is None <==> {
            &&& forall|k: int| 0 <= k < blocks.len() ==> bound_once(bindings, (#[trigger] blocks[k]).id)
            &&& forall|i: int|
                0 <= i < bindings.len() ==> exists|k: int|
                    0 <= k < blocks.len() && (#[trigger] blocks[k]).id == (
                    #[trigger] bindings[i]).0@
        },
{
    lemma_bindings(blocks, bindings, 0);
    lemma_blocks_have_sources(blocks, bindings, 0);
    let named = forall|k: int|
        0 <= k < blocks.len() ==> bound_once(bindings, (#[trigger] blocks[k]).id);
    let known = forall|i: int|
        0 <= i < bindings.len() ==> exists|k: int|
            0 <= k < blocks.len() && (#[trigger] blocks[k]).id == (#[trigger] bindings[i]).0@;
    if initial::sources_failure(blocks, bindings) is None {
        assert forall|k: int| 0 <= k < blocks.len() implies bound_once(
            bindings,
            (#[trigger] blocks[k]).id,
        ) by {
            let block = blocks[k].id;
            assert(initial::has_source(bindings, block, bindings.len() as int));
            let i = choose|i: int|
                0 <= i < bindings.len() && (#[trigger] bindings[i]).0@ == block;
            assert forall|j: int|
                0 <= j < bindings.len() && (#[trigger] bindings[j]).0@ == block implies j == i by {
                if j < i {
                    assert(initial::has_source(bindings, bindings[i].0@, i));
                } else if i < j {
                    assert(initial::has_source(bindings, bindings[j].0@, j));
                }
            }
        }
        assert forall|i: int| 0 <= i < bindings.len() implies exists|k: int|
            0 <= k < blocks.len() && (#[trigger] blocks[k]).id == (#[trigger] bindings[i]).0@ by {
            assert(layout::has_block(blocks, bindings[i].0@));
        }
    }
    if named && known {
        assert forall|i: int| 0 <= i < bindings.len() implies layout::has_block(
            blocks,
            (#[trigger] bindings[i]).0@,
        ) && !initial::has_source(bindings, bindings[i].0@, i) by {
            let block = bindings[i].0@;
            let k = choose|k: int|
                0 <= k < blocks.len() && (#[trigger] blocks[k]).id == bindings[i].0@;
            assert(bound_once(bindings, blocks[k].id));
            if initial::has_source(bindings, block, i) {
                let j = choose|j: int| 0 <= j < i && (#[trigger] bindings[j]).0@ == block;
                assert(bindings[j].0@ == blocks[k].id);
            }
        }
        assert forall|k: int| 0 <= k < blocks.len() implies initial::has_source(
            bindings,
            (#[trigger] blocks[k]).id,
            bindings.len() as int,
        ) by {
            assert(bound_once(bindings, blocks[k].id));
        }
    }
}

proof fn lemma_source_index(bindings: Seq<(BlockId, FieldSource)>, block: Seq<char>, from: int)
    requires
        0 <= from <= bindings.len(),
        exists|i: int| from <= i < bindings.len() && (#[trigger] bindings[i]).0@ == block,
    ensures
        from <= initial::source_index(bindings, block, from) < bindings.len(),
        bindings[initial::source_index(bindings, block, from)].0@ == block,
    decreases bindings.len() - from,
{
    if bindings[from].0@ != block {
        lemma_source_index(bindings, block, from + 1);
    }
}

proof fn lemma_repeated(values: Seq<Scalar>, count: int)
    requires
        0 <= count,
    ensures
        initial::repeated(values, count).len() == count * values.len(),
        forall|k: int|
            0 <= k < count ==> #[trigger] piece(
                initial::repeated(values, count),
                values.len(),
                k,
            ) == values,
    decreases count,
{
    let width = values.len() as int;
    if count > 0 {
        let shorter = initial::repeated(values, count - 1);
        let all = initial::repeated(values, count);
        lemma_repeated(values, count - 1);
        assert(all.len() == count * width) by (nonlinear_arith)
            requires
                all.len() == (count - 1) * width + width,
        ;
        assert forall|k: int| 0 <= k < count implies #[trigger] piece(all, values.len(), k)
            == values by {
            lemma_piece_bounds(k, count, width);
            if k < count - 1 {
                lemma_piece_bounds(k, count - 1, width);
                assert(piece(shorter, values.len(), k) == values);
                assert(piece(all, values.len(), k) =~= piece(shorter, values.len(), k));
            } else {
                assert(piece(all, values.len(), k) =~= values);
            }
        }
    } else {
        assert(0 * width == 0);
    }
}

proof fn lemma_piece_bounds(k: int, count: int, width: int)
    requires
        0 <= k < count,
        0 <= width,
    ensures
        0 <= k * width,
        (k + 1) * width == k * width + width,
        (k + 1) * width <= count * width,
{
    assert(0 <= k * width && (k + 1) * width == k * width + width && (k + 1) * width <= count
        * width) by (nonlinear_arith)
        requires
            0 <= k < count,
            0 <= width,
    ;
}

/// The values of a vertex: its components, the vertices behind one another.
pub open spec fn piece(values: Seq<Scalar>, components: nat, vertex: int) -> Seq<Scalar> {
    values.subrange(vertex * components, (vertex + 1) * components)
}

/// Whether a value was sampled for a block at a point and a time.
pub open spec fn sampled_at<S, T>(
    data: InitialData<S, T>,
    block: Seq<char>,
    at: Seq<Scalar>,
    time: Scalar,
    values: Seq<Scalar>,
) -> bool where
    S: Fn(&str, &Vec<Scalar>, Scalar) -> Result<Vec<Scalar>, EvaluationRefusal>,
    T: Fn(Scalar) -> String,
 {
    exists|name: &str, point: Vec<Scalar>, value: Vec<Scalar>|
        {
            &&& name@ == block
            &&& point@ == at
            &&& value@ == values
            &&& #[trigger] call_ensures(
                data.sample,
                (name, &point, time),
                Ok::<Vec<Scalar>, EvaluationRefusal>(value),
            )
        }
}

proof fn lemma_samples<S, T>(
    data: InitialData<S, T>,
    block: Seq<char>,
    points: Seq<Seq<Scalar>>,
    time: Scalar,
    components: nat,
    count: int,
    values: Seq<Scalar>,
) where
    S: Fn(&str, &Vec<Scalar>, Scalar) -> Result<Vec<Scalar>, EvaluationRefusal>,
    T: Fn(Scalar) -> String,

    requires
        0 <= count <= points.len(),
        initial::samples_give(data, block, points, time, components, count, values),
    ensures
        values.len() == count * components,
        forall|k: int|
            0 <= k < count ==> sampled_at(
                data,
                block,
                points[k],
                time,
                #[trigger] piece(values, components, k),
            ),
    decreases count,
{
    let width = components as int;
    if count > 0 {
        let last = choose|last: Vec<Scalar>|
            {
                &&& #[trigger] initial::sample_gives(data, block, points, time, count - 1, Ok(last))
                &&& last@.len() == components
                &&& components <= values.len()
                &&& values.skip(values.len() - components) == last@
                &&& initial::samples_give(
                    data,
                    block,
                    points,
                    time,
                    components,
                    count - 1,
                    values.take(values.len() - components),
                )
            };
        let shorter = values.take(values.len() - components);
        lemma_samples(data, block, points, time, components, count - 1, shorter);
        assert(values.len() == count * width) by (nonlinear_arith)
            requires
                values.len() == (count - 1) * width + width,
        ;
        assert forall|k: int| 0 <= k < count implies sampled_at(
            data,
            block,
            points[k],
            time,
            #[trigger] piece(values, components, k),
        ) by {
            lemma_piece_bounds(k, count, width);
            if k < count - 1 {
                lemma_piece_bounds(k, count - 1, width);
                assert(piece(values, components, k) =~= piece(shorter, components, k));
                assert(sampled_at(data, block, points[k], time, piece(shorter, components, k)));
            } else {
                assert(piece(values, components, k) =~= values.skip(
                    values.len() - components,
                ));
                let (name, point) = choose|name: &str, point: Vec<Scalar>|
                    {
                        &&& name@ == block
                        &&& point@ == points[k]
                        &&& #[trigger] call_ensures(
                            data.sample,
                            (name, &point, time),
                            Ok::<Vec<Scalar>, EvaluationRefusal>(last),
                        )
                    };
                assert(call_ensures(
                    data.sample,
                    (name, &point, time),
                    Ok::<Vec<Scalar>, EvaluationRefusal>(last),
                ));
            }
        }
    } else {
        assert(0 * width == 0);
    }
}

/// The values projected for a block fill it, with the same number of components at every
/// vertex. They come from the block's own source: a constant stands at every vertex, nodal
/// values stand as they were given, and a sampled source was asked for this block at each
/// vertex's point and the given time.
pub proof fn law_projected_values_come_from_the_source<S, T>(
    data: InitialData<S, T>,
    block: BlockModel,
    points: Seq<Seq<Scalar>>,
    time: Scalar,
    values: Vec<Scalar>,
    i: int,
) where
    S: Fn(&str, &Vec<Scalar>, Scalar) -> Result<Vec<Scalar>, EvaluationRefusal>,
    T: Fn(Scalar) -> String,

    requires
        initial::block_projected(data, block, points, time, Ok::<Vec<Scalar>, KrasisError>(values)),
        points.len() > 0,
        block.start <= block.end,
        0 <= i < data.bindings@.len(),
        data.bindings@[i].0@ == block.id,
        bound_once(data.bindings@, block.id),
    ensures
        values@.len() == block.end - block.start,
        ({
            let components = values@.len() / points.len();
            &&& values@.len() == points.len() * components
            &&& match data.bindings@[i].1 {
                FieldSource::Constant(given) => forall|k: int|
                    0 <= k < points.len() ==> #[trigger] piece(values@, components, k) == given@,
                FieldSource::Nodal(given) => values@ == given@,
                FieldSource::Fallible => forall|k: int|
                    0 <= k < points.len() ==> sampled_at(
                        data,
                        block.id,
                        points[k],
                        time,
                        #[trigger] piece(values@, components, k),
                    ),
                FieldSource::NotPointwise => false,
            }
        }),
{
    let bindings = data.bindings@;
    lemma_source_index(bindings, block.id, 0);
    let found = initial::source_index(bindings, block.id, 0);
    assert(found == i);
    let width = (block.end - block.start) as nat;
    let vertices = points.len();
    let components = width / vertices;
    vstd::arithmetic::div_mod::lemma_fundamental_div_mod(width as int, vertices as int);
    assert(width == vertices * components);
    assert(components * vertices == vertices * components) by (nonlinear_arith);
    match bindings[i].1 {
        FieldSource::Constant(given) => {
            lemma_repeated(given@, vertices as int);
        },
        FieldSource::Nodal(given) => {},
        FieldSource::Fallible => {
            lemma_samples(data, block.id, points, time, components, vertices as int, values@);
        },
        FieldSource::NotPointwise => {},
    }
}

proof fn lemma_fresh(blocks: Seq<BlockModel>, history_limit: nat)
    requires
        layout::tiles(blocks),
    ensures
        state_model::fresh(blocks, history_limit).consistent(),
{
    Scalar::lemma_nil();
    reveal(StateModel::consistent);
}

proof fn lemma_blocks_keep_fields<S, T>(
    data: InitialData<S, T>,
    blocks: Seq<BlockModel>,
    points: Seq<Seq<Scalar>>,
    count: int,
    before: StateModel,
    after: StateModel,
) where
    S: Fn(&str, &Vec<Scalar>, Scalar) -> Result<Vec<Scalar>, EvaluationRefusal>,
    T: Fn(Scalar) -> String,

    requires
        before.consistent(),
        0 <= count <= blocks.len(),
        initial::blocks_projected(data, blocks, points, count, before, after),
    ensures
        after.consistent(),
        after == (StateModel { fields: after.fields, ..before }),
        forall|name: Seq<char>, held: Seq<Scalar>|
            holds_field(before, name, held) ==> holds_field(after, name, held),
    decreases count,
{
    if count > 0 {
        let (between, values) = choose|between: StateModel, values: Vec<Scalar>|
            {
                &&& initial::blocks_projected(data, blocks, points, count - 1, before, between)
                &&& #[trigger] initial::block_projected(
                    data,
                    blocks[count - 1],
                    points,
                    before.time,
                    Ok(values),
                )
                &&& #[trigger] initial::inserts(between, blocks[count - 1].id, values@, after)
            };
        lemma_blocks_keep_fields(data, blocks, points, count - 1, before, between);
        lemma_inserted_field(between, blocks[count - 1].id, values@, after);
    }
}

/// A projected initial state is committed, at time zero and step zero, over the layout that
/// it was asked for. Its sources name every block once, and every block's field holds what
/// the block's source gives at time zero.
pub proof fn law_initial_state_holds_its_sources<S, T>(
    data: InitialData<S, T>,
    blocks: Seq<BlockModel>,
    points: Seq<Seq<Scalar>>,
    history_limit: nat,
    state: SimulationState,
    i: int,
) where
    S: Fn(&str, &Vec<Scalar>, Scalar) -> Result<Vec<Scalar>, EvaluationRefusal>,
    T: Fn(Scalar) -> String,

    requires
        layout::tiles(blocks),
        initial::initial_state_given(
            data,
            blocks,
            points,
            history_limit,
            Ok::<SimulationState, KrasisError>(state),
        ),
        0 <= i < blocks.len(),
    ensures
        state@.layout == blocks,
        state@.history_limit == history_limit,
        state@.phase == TransactionPhase::Committed,
        state@.time.bits() == 0,
        state@.step == 0,
        state@.constitutive.len() == 0,
        bound_once(data.bindings@, blocks[i].id),
        exists|values: Vec<Scalar>|
            {
                &&& #[trigger] initial::block_projected(
                    data,
                    blocks[i],
                    points,
                    Scalar::nil(),
                    Ok::<Vec<Scalar>, KrasisError>(values),
                )
                &&& holds_field(state@, blocks[i].id, values@)
            },
{
    let fresh = state_model::fresh(blocks, history_limit);
    Scalar::lemma_nil();
    lemma_fresh(blocks, history_limit);
    law_sources_name_every_block_once(blocks, data.bindings@);
    law_projected_fields_hold_their_sources(
        data,
        blocks,
        points,
        blocks.len() as int,
        fresh,
        state@,
        i,
    );
}

proof fn lemma_leaves_hold<S, T>(
    data: InitialData<S, T>,
    leaves: Seq<CoupledLeaf>,
    count: int,
    before: StateModel,
    after: StateModel,
    k: int,
    i: int,
) where
    S: Fn(&str, &Vec<Scalar>, Scalar) -> Result<Vec<Scalar>, EvaluationRefusal>,
    T: Fn(Scalar) -> String,

    requires
        before.consistent(),
        0 <= count <= leaves.len(),
        system_initial::leaves_projected(data, leaves, count, before, after),
    ensures
        after.consistent(),
        after == (StateModel { fields: after.fields, ..before }),
        0 <= k < count && 0 <= i < leaves[k]@.blocks.len() ==> {
            &&& !(leaves[k].built_over() is Opaque)
            &&& exists|values: Vec<Scalar>|
                {
                    &&& #[trigger] initial::block_projected(
                        data,
                        leaves[k]@.blocks[i],
                        mesh_of(leaves[k]),
                        before.time,
                        Ok::<Vec<Scalar>, KrasisError>(values),
                    )
                    &&& holds_field(after, leaves[k]@.blocks[i].id, values@)
                }
        },
    decreases count,
{
    if count > 0 {
        let leaf = leaves[count - 1];
        let between = choose|between: StateModel|
            {
                &&& system_initial::leaves_projected(data, leaves, count - 1, before, between)
                &&& #[trigger] system_initial::leaf_projected(data, leaf, between, after)
            };
        lemma_leaves_hold(data, leaves, count - 1, before, between, k, i);
        let blocks = leaf@.blocks;
        lemma_blocks_keep_fields(
            data,
            blocks,
            mesh_of(leaf),
            blocks.len() as int,
            between,
            after,
        );
        if k == count - 1 && 0 <= i < blocks.len() {
            law_projected_fields_hold_their_sources(
                data,
                blocks,
                mesh_of(leaf),
                blocks.len() as int,
                between,
                after,
                i,
            );
        } else if 0 <= k < count - 1 && 0 <= i < leaves[k]@.blocks.len() {
            let values = choose|values: Vec<Scalar>|
                {
                    &&& #[trigger] initial::block_projected(
                        data,
                        leaves[k]@.blocks[i],
                        mesh_of(leaves[k]),
                        before.time,
                        Ok::<Vec<Scalar>, KrasisError>(values),
                    )
                    &&& holds_field(between, leaves[k]@.blocks[i].id, values@)
                };
            assert(initial::block_projected(
                data,
                leaves[k]@.blocks[i],
                mesh_of(leaves[k]),
                before.time,
                Ok::<Vec<Scalar>, KrasisError>(values),
            ));
            assert(holds_field(after, leaves[k]@.blocks[i].id, values@));
        }
    }
}

/// The vertices of the mesh that a leaf was built over.
pub open spec fn mesh_of(leaf: CoupledLeaf) -> Seq<Seq<Scalar>> {
    let vertices = match leaf.built_over() {
        LeafSource::Plan(plan) => plan.vertices@,
        LeafSource::Reduced(reduced) => reduced.vertices@,
        LeafSource::Opaque => Seq::empty(),
    };
    vertices.map_values(|point: Vec<Scalar>| point@)
}

/// A composed system's projected initial state holds, for every block of every leaf, what
/// the block's source gives at time zero over that leaf's own mesh.
pub proof fn law_system_state_holds_its_sources<S, T>(
    data: InitialData<S, T>,
    operator: CoupledSystemOperator,
    history_limit: nat,
    state: SimulationState,
    k: int,
    i: int,
) where
    S: Fn(&str, &Vec<Scalar>, Scalar) -> Result<Vec<Scalar>, EvaluationRefusal>,
    T: Fn(Scalar) -> String,

    requires
        operator.wf(),
        system_initial::system_state_given(
            data,
            operator,
            history_limit,
            Ok::<SimulationState, KrasisError>(state),
        ),
        0 <= k < operator.parts().len(),
        0 <= i < operator.parts()[k]@.blocks.len(),
    ensures
        state@.layout == operator@.layout,
        state@.history_limit == history_limit,
        state@.phase == TransactionPhase::Committed,
        state@.time.bits() == 0,
        state@.step == 0,
        forall|b: int|
            0 <= b < operator@.layout.len() ==> bound_once(
                data.bindings@,
                (#[trigger] operator@.layout[b]).id,
            ),
        !(operator.parts()[k].built_over() is Opaque),
        exists|values: Vec<Scalar>|
            {
                &&& #[trigger] initial::block_projected(
                    data,
                    operator.parts()[k]@.blocks[i],
                    mesh_of(operator.parts()[k]),
                    Scalar::nil(),
                    Ok::<Vec<Scalar>, KrasisError>(values),
                )
                &&& holds_field(state@, operator.parts()[k]@.blocks[i].id, values@)
            },
{
    let leaves = operator.parts();
    let fresh = state_model::fresh(operator@.layout, history_limit);
    operator.lemma_wf();
    Scalar::lemma_nil();
    lemma_fresh(operator@.layout, history_limit);
    law_sources_name_every_block_once(operator@.layout, data.bindings@);
    lemma_leaves_hold(data, leaves, leaves.len() as int, fresh, state@, k, i);
}

/// Whether the data of a leaf's blocks over its own mesh give cause for an error at time
/// zero: the leaf has no mesh, its vertices are no nodal context, a block's source fails, or
/// its values are no field of the state.
pub open spec fn leaf_gives_cause<S, T>(
    data: InitialData<S, T>,
    leaf: CoupledLeaf,
    time: Scalar,
    error: ErrorModel,
) -> bool where
    S: Fn(&str, &Vec<Scalar>, Scalar) -> Result<Vec<Scalar>, EvaluationRefusal>,
    T: Fn(Scalar) -> String,
 {
    ||| leaf.built_over() is Opaque
    ||| initial::nodal_failure(mesh_of(leaf)) == Some(error)
    ||| exists|i: int, failure: KrasisError|
        {
            &&& 0 <= i < leaf@.blocks.len()
            &&& failure@ == error
            &&& #[trigger] initial::block_projected(
                data,
                leaf@.blocks[i],
                mesh_of(leaf),
                time,
                Err::<Vec<Scalar>, KrasisError>(failure),
            )
        }
    ||| exists|i: int, between: StateModel, values: Vec<Scalar>|
        {
            &&& 0 <= i < leaf@.blocks.len()
            &&& #[trigger] initial::block_projected(
                data,
                leaf@.blocks[i],
                mesh_of(leaf),
                time,
                Ok::<Vec<Scalar>, KrasisError>(values),
            )
            &&& #[trigger] between.insert_field(leaf@.blocks[i].id, values@) == Err::<
                StateModel,
                ErrorModel,
            >(error)
        }
}

/// Initial data that name every block once are refused only where some leaf gives cause.
pub proof fn law_refused_projection_has_a_cause<S, T>(
    data: InitialData<S, T>,
    operator: CoupledSystemOperator,
    history_limit: nat,
    error: KrasisError,
) where
    S: Fn(&str, &Vec<Scalar>, Scalar) -> Result<Vec<Scalar>, EvaluationRefusal>,
    T: Fn(Scalar) -> String,

    requires
        operator.wf(),
        system_initial::system_state_given(
            data,
            operator,
            history_limit,
            Err::<SimulationState, KrasisError>(error),
        ),
        initial::sources_failure(operator@.layout, data.bindings@) is None,
    ensures
        exists|k: int|
            0 <= k < operator.parts().len() && #[trigger] leaf_gives_cause(
                data,
                operator.parts()[k],
                Scalar::nil(),
                error@,
            ),
{
    let leaves = operator.parts();
    let fresh = state_model::fresh(operator@.layout, history_limit);
    operator.lemma_wf();
    lemma_fresh(operator@.layout, history_limit);
    let (k, between) = choose|k: int, between: StateModel|
        {
            &&& 0 <= k < leaves.len()
            &&& #[trigger] system_initial::leaves_projected(data, leaves, k, fresh, between)
            &&& #[trigger] system_initial::leaf_failed(data, leaves[k], between, error@)
        };
    lemma_leaves_hold(data, leaves, k, fresh, between, 0, 0);
    let leaf = leaves[k];
    let points = mesh_of(leaf);
    if !(leaf.built_over() is Opaque) && initial::nodal_failure(points) is None {
        let (i, middle, given) = choose|
            i: int,
            middle: StateModel,
            given: Result<Vec<Scalar>, KrasisError>,
        |
            {
                &&& 0 <= i < leaf@.blocks.len()
                &&& #[trigger] initial::blocks_projected(
                    data,
                    leaf@.blocks,
                    points,
                    i,
                    between,
                    middle,
                )
                &&& #[trigger] initial::block_projected(
                    data,
                    leaf@.blocks[i],
                    points,
                    between.time,
                    given,
                )
                &&& match given {
                    Ok(values) => middle.insert_field(leaf@.blocks[i].id, values@) == Err::<
                        StateModel,
                        ErrorModel,
                    >(error@),
                    Err(failure) => error@ == failure@,
                }
            };
        match given {
            Ok(values) => {
                assert(middle.insert_field(leaf@.blocks[i].id, values@) is Err);
            },
            Err(failure) => {},
        }
    }
    assert(leaf_gives_cause(data, leaves[k], Scalar::nil(), error@));
}

} // verus!
