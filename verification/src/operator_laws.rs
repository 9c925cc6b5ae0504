//! What a composed operator is made of.
use crate::binding;
use crate::binding::Bound;
use crate::error::KrasisError;
use crate::initialization::{RateSolvePolicy, RowKind};
use crate::layout;
use crate::layout::BlockModel;
use crate::numeric::NewtonConfig;
use crate::operator;
use crate::operator::{BlockSpec, CoupledOperator};
use crate::realization::RealizationPlan;
use vstd::prelude::*;

verus! {

/// Whether a pair names a block.
pub open spec fn paired(pairs: Seq<Bound>, name: Seq<char>) -> bool {
    exists|i: int| 0 <= i < pairs.len() && (#[trigger] pairs[i]).block == name
}

/// Whether a block has a name.
pub open spec fn listed(blocks: Seq<BlockModel>, name: Seq<char>) -> bool {
    exists|k: int| 0 <= k < blocks.len() && (#[trigger] blocks[k]).id == name
}

/// Whether every block is named by a pair.
#[verifier::opaque]
pub open spec fn names_every_block(pairs: Seq<Bound>, blocks: Seq<BlockModel>) -> bool {
    forall|k: int| 0 <= k < blocks.len() ==> paired(pairs, (#[trigger] blocks[k]).id)
}

/// Whether every pair names a block.
#[verifier::opaque]
pub open spec fn names_blocks_only(pairs: Seq<Bound>, blocks: Seq<BlockModel>) -> bool {
    forall|i: int| 0 <= i < pairs.len() ==> listed(blocks, (#[trigger] pairs[i]).block)
}

/// Whether pairs name every block and nothing else.
pub open spec fn names_the_blocks(pairs: Seq<Bound>, blocks: Seq<BlockModel>) -> bool {
    names_every_block(pairs, blocks) && names_blocks_only(pairs, blocks)
}

/// Whether solver blocks are the blocks of a layout, by name and length and in its order.
pub open spec fn blocks_of(specs: Seq<BlockSpec>, blocks: Seq<BlockModel>) -> bool {
    &&& specs.len() == blocks.len()
    &&& forall|k: int|
        0 <= k < specs.len() ==> (#[trigger] specs[k]).name@ == blocks[k].id && specs[k].length
            == blocks[k].end - blocks[k].start
}

proof fn lemma_every_block(pairs: Seq<Bound>, blocks: Seq<BlockModel>)
    ensures
        names_every_block(pairs, blocks) <==> forall|k: int|
            0 <= k < blocks.len() ==> binding::semantic_of(
                pairs,
                (#[trigger] blocks[k]).id,
            ) is Some,
{
    reveal(names_every_block);
    assert forall|k: int| 0 <= k < blocks.len() implies paired(pairs, (#[trigger] blocks[k]).id)
        == (binding::semantic_of(pairs, blocks[k].id) is Some) by {}
}

proof fn lemma_blocks_only(pairs: Seq<Bound>, blocks: Seq<BlockModel>)
    ensures
        names_blocks_only(pairs, blocks) <==> forall|i: int|
            0 <= i < pairs.len() ==> layout::has_block(blocks, (#[trigger] pairs[i]).block),
{
    reveal(names_blocks_only);
}

pub proof fn lemma_binds(pairs: Seq<Bound>, blocks: Seq<BlockModel>)
    ensures
        operator::binds_exactly(pairs, blocks) <==> names_the_blocks(pairs, blocks),
{
    lemma_every_block(pairs, blocks);
    lemma_blocks_only(pairs, blocks);
}

/// An operator is composed exactly where the realization has the width of the layout, a
/// binding names the layout's blocks and nothing else, and the block solver accepted those
/// blocks. It keeps the realization and the binding, and its solver blocks are the layout's.
pub proof fn law_operator_is_composed_where_its_parts_fit<
    B: Fn(&Vec<BlockSpec>) -> Result<(), String>,
>(
    realization: RealizationPlan,
    blocks: Seq<BlockModel>,
    pairs: Option<Seq<Bound>>,
    accept: B,
    result: Result<CoupledOperator, KrasisError>,
)
    requires
        operator::accepted(realization, blocks, pairs, accept, result),
    ensures
        realization.dimension != layout::width_of(blocks) ==> result is Err,
        pairs is Some && !names_the_blocks(pairs->Some_0, blocks) ==> result is Err,
        realization.dimension == layout::width_of(blocks) && (pairs is Some ==> names_the_blocks(
            pairs->Some_0,
            blocks,
        )) ==> exists|specs: Vec<BlockSpec>, verdict: Result<(), String>|
            {
                &&& #[trigger] call_ensures(accept, (&specs,), verdict)
                &&& blocks_of(specs@, blocks)
                &&& result is Ok <==> verdict is Ok
            },
        result matches Ok(made) ==> made.plan() == realization && made.pairs() == pairs
            && made.initialization() is None && blocks_of(made.solver_blocks(), blocks),
{
    if pairs is Some {
        lemma_binds(pairs->Some_0, blocks);
    }
    if operator::composition_failure(realization, blocks, pairs) is None {
        let (specs, verdict) = choose|specs: Vec<BlockSpec>, verdict: Result<(), String>|
            {
                &&& operator::partitions(specs@, blocks)
                &&& #[trigger] call_ensures(accept, (&specs,), verdict)
                &&& match verdict {
                    Err(message) => result is Err,
                    Ok(_) => operator::composed(realization, blocks, pairs, result)
                        && result->Ok_0.solver_blocks() == specs@,
                }
            };
        assert(call_ensures(accept, (&specs,), verdict));
    }
}

/// A mask and a configuration are recorded exactly where the mask has a kind for every row;
/// then the operator keeps them as they were given and is otherwise the same.
pub proof fn law_recorded_initialization_is_the_given_one(
    before: CoupledOperator,
    mask: Vec<RowKind>,
    newton: NewtonConfig,
    policy: RateSolvePolicy,
    result: Result<CoupledOperator, KrasisError>,
)
    requires
        operator::recorded(before, mask, newton, policy, result),
    ensures
        result is Ok <==> mask@.len() == before.plan().dimension,
        result matches Ok(after) ==> after.plan() == before.plan() && after.pairs()
            == before.pairs() && after.solver_blocks() == before.solver_blocks(),
        result matches Ok(after) ==> (after.initialization() matches Some(kept) && kept.mask@
            == mask@ && kept.newton == newton && kept.policy == policy),
{
}

} // verus!
