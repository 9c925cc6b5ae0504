//! Which blocks make a layout and which pairs make a binding, and what these then hold.
use crate::binding;
use crate::binding::Bound;
use crate::block_binding;
use crate::layout;
use crate::layout::BlockModel;
use crate::realization::FieldBlock;
use crate::text;
use vstd::prelude::*;

verus! {

/// Whether blocks lie one behind the other from zero on, none empty, each under a name of
/// its own that is not blank.
pub open spec fn laid_out(blocks: Seq<BlockModel>) -> bool {
    &&& blocks.len() > 0
    &&& blocks[0].start == 0
    &&& forall|i: int, j: int|
        0 <= i && j == i + 1 && j < blocks.len() ==> (#[trigger] blocks[j]).start == (
        #[trigger] blocks[i]).end
    &&& forall|i: int|
        0 <= i < blocks.len() ==> (#[trigger] blocks[i]).start < blocks[i].end && !text::blank(
            blocks[i].id,
        )
    &&& forall|i: int, j: int|
        0 <= i < j < blocks.len() ==> (#[trigger] blocks[i]).id != (#[trigger] blocks[j]).id
}

/// Tiling blocks are exactly those that are laid out.
pub proof fn law_tiles_are_laid_out(blocks: Seq<BlockModel>)
    ensures
        layout::tiles(blocks) <==> laid_out(blocks),
{
    if layout::tiles(blocks) {
        assert(layout::previous_end(blocks, 0) == blocks[0].start);
        assert forall|i: int, j: int| 0 <= i && j == i + 1 && j < blocks.len() implies (
        #[trigger] blocks[j]).start == (#[trigger] blocks[i]).end by {
            assert(layout::previous_end(blocks, j) == blocks[j].start);
        }
    }
    if laid_out(blocks) {
        assert forall|i: int| 0 <= i < blocks.len() implies blocks[i].start
            == #[trigger] layout::previous_end(blocks, i) by {
            if i > 0 {
                assert(blocks[i].start == blocks[i - 1].end);
            }
        }
    }
}

/// Whether blocks are in the order of their starts.
pub open spec fn in_order(blocks: Seq<BlockModel>) -> bool {
    forall|i: int, j: int|
        0 <= i < j < blocks.len() ==> (#[trigger] blocks[i]).start <= (#[trigger] blocks[j]).start
}

proof fn lemma_place(sorted: Seq<BlockModel>, block: BlockModel)
    requires
        in_order(sorted),
    ensures
        in_order(layout::place(sorted, block)),
        layout::place(sorted, block).to_multiset() == sorted.to_multiset().insert(block),
        layout::place(sorted, block).len() == sorted.len() + 1,
        forall|i: int|
            0 <= i < layout::place(sorted, block).len() ==> (#[trigger] layout::place(
                sorted,
                block,
            )[i]) == block || sorted.contains(layout::place(sorted, block)[i]),
    decreases sorted.len(),
{
    broadcast use vstd::seq_lib::group_to_multiset_ensures;

    let placed = layout::place(sorted, block);
    if sorted.len() == 0 || sorted.last().start <= block.start {
        assert forall|i: int| 0 <= i < placed.len() implies (#[trigger] placed[i]) == block
            || sorted.contains(placed[i]) by {
            if i < sorted.len() {
                assert(placed[i] == sorted[i]);
            }
        }
    } else {
        let shorter = sorted.drop_last();
        lemma_place(shorter, block);
        let inner = layout::place(shorter, block);
        assert(placed == inner.push(sorted.last()));
        assert(shorter.push(sorted.last()) =~= sorted);
        assert(sorted.to_multiset() =~= shorter.to_multiset().insert(sorted.last()));
        assert(placed.to_multiset() =~= sorted.to_multiset().insert(block));
        assert forall|i: int| 0 <= i < placed.len() implies (#[trigger] placed[i]) == block
            || sorted.contains(placed[i]) by {
            if i < inner.len() {
                assert(placed[i] == inner[i]);
                if inner[i] != block {
                    let k = choose|k: int| 0 <= k < shorter.len() && shorter[k] == inner[i];
                    assert(sorted[k] == inner[i]);
                }
            } else {
                assert(sorted[sorted.len() - 1] == placed[i]);
            }
        }
        assert forall|i: int, j: int| 0 <= i < j < placed.len() implies (
        #[trigger] placed[i]).start <= (#[trigger] placed[j]).start by {
            assert(placed[i] == inner[i]);
            if j < inner.len() {
                assert(placed[j] == inner[j]);
            } else if inner[i] != block {
                let k = choose|k: int| 0 <= k < shorter.len() && shorter[k] == inner[i];
                assert(sorted[k] == inner[i]);
            }
        }
    }
}

proof fn lemma_by_start(blocks: Seq<BlockModel>)
    ensures
        in_order(layout::by_start(blocks)),
        layout::by_start(blocks).to_multiset() == blocks.to_multiset(),
        layout::by_start(blocks).len() == blocks.len(),
    decreases blocks.len(),
{
    broadcast use vstd::seq_lib::group_to_multiset_ensures;

    if blocks.len() > 0 {
        lemma_by_start(blocks.drop_last());
        lemma_place(layout::by_start(blocks.drop_last()), blocks.last());
        assert(blocks.drop_last().push(blocks.last()) =~= blocks);
    }
}

proof fn lemma_first_failure(blocks: Seq<BlockModel>, from: int)
    requires
        0 <= from <= blocks.len(),
    ensures
        layout::first_failure(blocks, from) is None <==> forall|i: int|
            from <= i < blocks.len() ==> #[trigger] layout::block_failure(blocks, i) is None,
    decreases blocks.len() - from,
{
    if from < blocks.len() {
        lemma_first_failure(blocks, from + 1);
        if layout::block_failure(blocks, from) is Some {
            assert(!(layout::block_failure(blocks, from) is None));
        }
    }
}

proof fn lemma_same_order(sorted: Seq<BlockModel>, laid: Seq<BlockModel>)
    requires
        in_order(sorted),
        forall|i: int, j: int|
            0 <= i < j < laid.len() ==> (#[trigger] laid[i]).start < (#[trigger] laid[j]).start,
        sorted.to_multiset() == laid.to_multiset(),
    ensures
        sorted == laid,
    decreases laid.len(),
{
    broadcast use vstd::seq_lib::group_to_multiset_ensures;

    assert(sorted.len() == sorted.to_multiset().len());
    assert(laid.len() == laid.to_multiset().len());
    if laid.len() > 0 {
        let last = laid.last();
        let other = sorted.last();
        assert(laid.contains(last));
        assert(laid.to_multiset().count(last) > 0);
        assert(sorted.contains(last));
        assert(sorted.contains(other));
        assert(sorted.to_multiset().count(other) > 0);
        assert(laid.contains(other));
        let j = choose|j: int| 0 <= j < laid.len() && laid[j] == other;
        let i = choose|i: int| 0 <= i < sorted.len() && sorted[i] == last;
        assert(last.start <= other.start);
        if j < laid.len() - 1 {
            assert(laid[j].start < laid[laid.len() - 1].start);
        }
        assert(other == last);
        let a = sorted.drop_last();
        let b = laid.drop_last();
        assert(a.push(other) =~= sorted);
        assert(b.push(last) =~= laid);
        assert(a.to_multiset() =~= sorted.to_multiset().remove(other));
        assert(b.to_multiset() =~= laid.to_multiset().remove(last));
        lemma_same_order(a, b);
        assert(sorted =~= laid);
    } else {
        assert(sorted =~= laid);
    }
}

proof fn lemma_starts_increase(blocks: Seq<BlockModel>, i: int, j: int)
    requires
        laid_out(blocks),
        0 <= i < j < blocks.len(),
    ensures
        blocks[i].start < blocks[j].start,
    decreases j - i,
{
    assert(blocks[j].start == blocks[j - 1].end);
    assert(blocks[j - 1].start < blocks[j - 1].end);
    if i < j - 1 {
        lemma_starts_increase(blocks, i, j - 1);
    }
}

/// An accepted layout holds the given blocks, each as often as it was given, and is laid
/// out.
pub proof fn law_accepted_layout_holds_the_given_blocks(blocks: Seq<BlockModel>)
    requires
        layout::layout_of(blocks) is Ok,
    ensures
        layout::layout_of(blocks)->Ok_0.to_multiset() == blocks.to_multiset(),
        laid_out(layout::layout_of(blocks)->Ok_0),
{
    lemma_by_start(blocks);
    layout::law_accepted_layout_tiles(blocks);
    law_tiles_are_laid_out(layout::layout_of(blocks)->Ok_0);
}

/// Blocks that can be laid out are accepted in whatever order they are given, and as that
/// arrangement.
pub proof fn law_blocks_that_can_be_laid_out_are_accepted(
    blocks: Seq<BlockModel>,
    arranged: Seq<BlockModel>,
)
    requires
        laid_out(arranged),
        arranged.to_multiset() == blocks.to_multiset(),
    ensures
        layout::layout_of(blocks) is Ok,
        layout::layout_of(blocks)->Ok_0 == arranged,
{
    broadcast use vstd::seq_lib::group_to_multiset_ensures;

    lemma_by_start(blocks);
    let sorted = layout::by_start(blocks);
    assert forall|i: int, j: int| 0 <= i < j < arranged.len() implies (
    #[trigger] arranged[i]).start < (#[trigger] arranged[j]).start by {
        lemma_starts_increase(arranged, i, j);
    }
    lemma_same_order(sorted, arranged);
    assert(blocks.len() == blocks.to_multiset().len());
    assert(arranged.len() == arranged.to_multiset().len());
    law_tiles_are_laid_out(arranged);
    lemma_first_failure(arranged, 0);
    assert forall|i: int| 0 <= i < arranged.len() implies #[trigger] layout::block_failure(
        arranged,
        i,
    ) is None by {
        assert(arranged[i].start == layout::previous_end(arranged, i));
    }
}

proof fn lemma_first_pair_failure(blocks: Seq<BlockModel>, pairs: Seq<Bound>, from: int)
    requires
        0 <= from <= pairs.len(),
    ensures
        binding::first_pair_failure(blocks, pairs, from) is None <==> forall|i: int|
            from <= i < pairs.len() ==> #[trigger] binding::pair_failure(blocks, pairs, i) is None,
    decreases pairs.len() - from,
{
    if from < pairs.len() {
        lemma_first_pair_failure(blocks, pairs, from + 1);
        if binding::pair_failure(blocks, pairs, from) is Some {
            assert(!(binding::pair_failure(blocks, pairs, from) is None));
        }
    }
}

/// Pairs are a binding exactly where there is one for every block, each names a block, and
/// no two name the same block or the same semantic id.
pub proof fn law_pairs_that_bind_are_accepted(blocks: Seq<BlockModel>, pairs: Seq<Bound>)
    ensures
        binding::binding_of(blocks, pairs) is Ok <==> {
            &&& pairs.len() == blocks.len()
            &&& forall|i: int|
                0 <= i < pairs.len() ==> exists|k: int|
                    0 <= k < blocks.len() && (#[trigger] blocks[k]).id == (
                    #[trigger] pairs[i]).block
            &&& forall|i: int, j: int|
                0 <= i < j < pairs.len() ==> (#[trigger] pairs[i]).block != (
                #[trigger] pairs[j]).block && pairs[i].semantic != pairs[j].semantic
        },
{
    lemma_first_pair_failure(blocks, pairs, 0);
    let named = forall|i: int|
        0 <= i < pairs.len() ==> exists|k: int|
            0 <= k < blocks.len() && (#[trigger] blocks[k]).id == (#[trigger] pairs[i]).block;
    let distinct = forall|i: int, j: int|
        0 <= i < j < pairs.len() ==> (#[trigger] pairs[i]).block != (#[trigger] pairs[j]).block
            && pairs[i].semantic != pairs[j].semantic;
    if binding::first_pair_failure(blocks, pairs, 0) is None {
        assert forall|i: int| 0 <= i < pairs.len() implies exists|k: int|
            0 <= k < blocks.len() && (#[trigger] blocks[k]).id == (#[trigger] pairs[i]).block by {
            assert(binding::pair_failure(blocks, pairs, i) is None);
        }
        assert forall|i: int, j: int| 0 <= i < j < pairs.len() implies (#[trigger] pairs[i]).block
            != (#[trigger] pairs[j]).block && pairs[i].semantic != pairs[j].semantic by {
            assert(binding::pair_failure(blocks, pairs, j) is None);
        }
    }
    if named && distinct {
        assert forall|i: int| 0 <= i < pairs.len() implies #[trigger] binding::pair_failure(
            blocks,
            pairs,
            i,
        ) is None by {
            assert(layout::has_block(blocks, pairs[i].block));
        }
    }
}

/// The fields of a product space that are accepted give one block each, under the prefix,
/// the variable and where the field lies, and one pair each that binds the variable to it.
pub proof fn law_fields_are_laid_out_and_bound(prefix: Seq<char>, fields: Seq<FieldBlock>, i: int)
    requires
        block_binding::fields_laid_out(prefix, fields) is Ok,
        0 <= i < fields.len(),
    ensures
        ({
            let (blocks, pairs) = block_binding::fields_laid_out(prefix, fields)->Ok_0;
            let name = block_binding::field_name(prefix, fields[i].variable);
            &&& laid_out(blocks)
            &&& blocks.len() == fields.len()
            &&& pairs.len() == fields.len()
            &&& exists|k: int|
                {
                    &&& 0 <= k < blocks.len()
                    &&& (#[trigger] blocks[k]).id == name
                    &&& blocks[k].start == fields[i].offset
                    &&& blocks[k].end == fields[i].offset + fields[i].extent
                }
            &&& exists|k: int|
                {
                    &&& 0 <= k < pairs.len()
                    &&& (#[trigger] pairs[k]).semantic == fields[i].variable
                    &&& pairs[k].block == name
                }
        }),
        block_binding::field_name(prefix, fields[i].variable) == prefix + "field_"@ + text::decimal(
            fields[i].variable as nat,
        ),
{
    broadcast use vstd::seq_lib::group_to_multiset_ensures;

    let given = block_binding::field_blocks(prefix, fields);
    let named = block_binding::field_pairs(prefix, fields);
    law_accepted_layout_holds_the_given_blocks(given);
    let blocks = layout::layout_of(given)->Ok_0;
    assert(given.len() == given.to_multiset().len());
    assert(blocks.len() == blocks.to_multiset().len());
    assert(given.contains(given[i]));
    assert(given.to_multiset().count(given[i]) > 0);
    assert(blocks.contains(given[i]));
    let k = choose|k: int| 0 <= k < blocks.len() && blocks[k] == given[i];
    assert(blocks[k].start == fields[i].offset);
    law_tiles_are_laid_out(blocks);
    binding::lemma_binding_members(blocks, named);
    let pairs = binding::binding_of(blocks, named)->Ok_0;
    assert(named.contains(named[i]));
    assert(pairs.contains(named[i]));
    let j = choose|j: int| 0 <= j < pairs.len() && pairs[j] == named[i];
    assert(pairs[j].semantic == fields[i].variable);
    binding::law_binding_is_total_and_injective(blocks, named);
    let made = block_binding::fields_laid_out(prefix, fields)->Ok_0;
    let name = block_binding::field_name(prefix, fields[i].variable);
    assert(made.0 == blocks && made.1 == pairs);
    assert(given.len() == fields.len());
    assert(blocks.len() == fields.len());
    assert(pairs.len() == fields.len());
    assert(blocks[k].id == name && blocks[k].end == fields[i].offset + fields[i].extent);
    assert(pairs[j].block == name);
}

} // verus!
