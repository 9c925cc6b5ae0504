//! What leaves are made of, and what a system takes from them.
use crate::binding::StateBinding;
use crate::block_binding;
use crate::error::KrasisError;
use crate::initialization::{RateSolvePolicy, RowKind};
use crate::layout;
use crate::layout::StateLayout;
use crate::numeric::NewtonConfig;
use crate::operator::{BlockSpec, CoupledOperator, TransactionalOperator};
use crate::operator_laws;
use crate::realization::{FinitumRealization, ReducedSystem};
use crate::system;
use crate::system::{CoupledLeaf, CoupledSystemOperator, CouplingEdge, LeafSource};
use crate::system_model;
use crate::system_model::LeafModel;
use crate::text;
use vstd::prelude::*;

verus! {

/// A leaf is made exactly where its name is not blank, its operator has the width of its
/// layout, and its binding names the layout's blocks and nothing else; it is then what it
/// was given.
pub proof fn law_leaf_is_made_where_its_parts_fit(
    model: LeafModel,
    source: LeafSource,
    result: Result<CoupledLeaf, KrasisError>,
)
    requires
        system::leaf_made(model, source, result),
    ensures
        result is Ok <==> !text::blank(model.name) && model.dimension == layout::width_of(
            model.blocks,
        ) && operator_laws::names_the_blocks(model.pairs, model.blocks),
        result matches Ok(leaf) ==> leaf@ == model && leaf.built_over() == source,
{
    operator_laws::lemma_binds(model.pairs, model.blocks);
}

/// A leaf over a composed realization takes over the operator's size, binding, row kinds,
/// identity and plan; the layout it is given must be the operator's own.
pub proof fn law_realization_leaf_takes_over_its_operator(
    name: &str,
    operator: CoupledOperator,
    layout: StateLayout,
    leaf: CoupledLeaf,
)
    requires
        operator.wf(),
        layout.wf(),
        call_ensures(
            CoupledLeaf::realization,
            (name, operator, layout),
            Ok::<CoupledLeaf, KrasisError>(leaf),
        ),
    ensures
        leaf@.name == name@,
        leaf@.dimension == operator.size(),
        leaf@.blocks == layout@,
        operator.pairs() == Some(leaf@.pairs),
        operator.layout_text() == layout::identity_of(layout@),
        operator.initialization() matches Some(kept) ==> leaf@.kinds == Some(kept.mask@),
        operator.initialization() is None ==> leaf@.kinds is None,
        leaf@.identity == operator.identity_text(),
        leaf.built_over() == LeafSource::Plan(operator.plan()),
{
}

/// A leaf over a reduced system has one block and one pair for every field of the system,
/// under the leaf's name, and the system's size.
pub proof fn law_reduced_leaf_has_the_fields_of_its_system(
    name: &str,
    reduced: ReducedSystem,
    leaf: CoupledLeaf,
    i: int,
)
    requires
        forall|k: int|
            0 <= k < reduced.fields@.len() ==> (#[trigger] reduced.fields@[k]).offset
                + reduced.fields@[k].extent <= usize::MAX,
        call_ensures(
            CoupledLeaf::reduced_system,
            (name, reduced),
            Ok::<CoupledLeaf, KrasisError>(leaf),
        ),
        0 <= i < reduced.fields@.len(),
    ensures
        leaf@.name == name@,
        leaf@.dimension == reduced.dimension,
        leaf@.kinds is None,
        leaf.built_over() == LeafSource::Reduced(reduced),
        leaf@.blocks.len() == reduced.fields@.len(),
        leaf@.pairs.len() == reduced.fields@.len(),
        exists|k: int|
            {
                &&& 0 <= k < leaf@.blocks.len()
                &&& (#[trigger] leaf@.blocks[k]).id == name@ + "/"@ + "field_"@ + text::decimal(
                    reduced.fields@[i].variable as nat,
                )
                &&& leaf@.blocks[k].start == reduced.fields@[i].offset
                &&& leaf@.blocks[k].end == reduced.fields@[i].offset + reduced.fields@[i].extent
            },
        exists|k: int|
            {
                &&& 0 <= k < leaf@.pairs.len()
                &&& (#[trigger] leaf@.pairs[k]).semantic == reduced.fields@[i].variable
                &&& leaf@.pairs[k].block == name@ + "/"@ + "field_"@ + text::decimal(
                    reduced.fields@[i].variable as nat,
                )
            },
{
    crate::layout_laws::law_fields_are_laid_out_and_bound(name@ + "/"@, reduced.fields@, i);
    let made = block_binding::fields_laid_out(name@ + "/"@, reduced.fields@)->Ok_0;
    assert(leaf@.blocks == made.0 && leaf@.pairs == made.1);
}

/// Row kinds are recorded exactly where there is one for every row, and nothing else of the
/// leaf changes.
pub proof fn law_row_kinds_are_recorded(
    before: CoupledLeaf,
    kinds: Vec<RowKind>,
    result: Result<CoupledLeaf, KrasisError>,
)
    requires
        before.wf(),
        call_ensures(CoupledLeaf::with_row_kinds, (before, kinds), result),
    ensures
        result is Ok <==> kinds@.len() == before@.dimension,
        result matches Ok(leaf) ==> leaf@ == (LeafModel { kinds: Some(kinds@), ..before@ })
            && leaf.built_over() == before.built_over(),
{
}

/// A leaf takes another binding exactly where it names the leaf's blocks and nothing else,
/// and nothing else of the leaf changes.
pub proof fn law_binding_is_replaced(
    before: CoupledLeaf,
    binding: StateBinding,
    result: Result<CoupledLeaf, KrasisError>,
)
    requires
        before.wf(),
        binding.wf(),
        call_ensures(CoupledLeaf::with_binding, (before, binding), result),
    ensures
        result is Ok <==> operator_laws::names_the_blocks(binding@, before@.blocks),
        result matches Ok(leaf) ==> leaf@ == (LeafModel { pairs: binding@, ..before@ })
            && leaf.built_over() == before.built_over(),
{
    operator_laws::lemma_binds(binding@, before@.blocks);
}

/// A system is composed only where the block solver accepted its leaves, by name and
/// dimension and in their order, and it then has those leaves.
pub proof fn law_system_is_composed_where_its_leaves_are_accepted<
    B: Fn(&Vec<BlockSpec>) -> Result<(), String>,
>(
    leaves: Seq<CoupledLeaf>,
    edges: Seq<CouplingEdge>,
    accept: B,
    made: CoupledSystemOperator,
)
    requires
        system::system_accepted(
            leaves,
            edges,
            accept,
            Ok::<CoupledSystemOperator, KrasisError>(made),
        ),
    ensures
        made.parts() == leaves,
        made.initialization() is None,
        exists|specs: Vec<BlockSpec>, verdict: Result<(), String>|
            {
                &&& #[trigger] call_ensures(accept, (&specs,), verdict)
                &&& verdict is Ok
                &&& specs@.len() == leaves.len()
                &&& forall|k: int|
                    0 <= k < leaves.len() ==> (#[trigger] specs@[k]).name@ == leaves[k]@.name
                        && specs@[k].length == leaves[k]@.dimension
            },
{
    let models = system::leaf_models(leaves);
    let (specs, verdict) = choose|specs: Vec<BlockSpec>, verdict: Result<(), String>|
        {
            &&& system::leaf_partition(specs@, models)
            &&& #[trigger] call_ensures(accept, (&specs,), verdict)
            &&& match verdict {
                Err(message) => false,
                Ok(_) => system::system_made(
                    leaves,
                    edges,
                    Ok::<CoupledSystemOperator, KrasisError>(made),
                ),
            }
        };
    assert(call_ensures(accept, (&specs,), verdict));
    assert forall|k: int| 0 <= k < leaves.len() implies (#[trigger] specs@[k]).name@
        == leaves[k]@.name && specs@[k].length == leaves[k]@.dimension by {
        assert(models[k] == leaves[k]@);
    }
}

proof fn lemma_kinds(leaves: Seq<LeafModel>, count: int)
    requires
        0 <= count <= leaves.len(),
        system_model::leaves_valid(leaves),
        system_model::classified(leaves),
    ensures
        system_model::composed_kinds(leaves, count).len() == system_model::offset_of(
            leaves,
            count,
        ),
    decreases count,
{
    if count > 0 {
        lemma_kinds(leaves, count - 1);
        assert(system_model::leaf_valid(leaves[count - 1]));
        assert(leaves[count - 1].kinds is Some);
    }
}

/// The composed row kinds are those of the leaves: a row of a leaf has its kind where the
/// leaf's rows lie in the composed state.
pub proof fn law_composed_kinds_are_those_of_the_leaves(
    leaves: Seq<LeafModel>,
    count: int,
    k: int,
    row: int,
)
    requires
        0 <= k < count <= leaves.len(),
        system_model::leaves_valid(leaves),
        system_model::classified(leaves),
        0 <= row < leaves[k].dimension,
    ensures
        system_model::offset_of(leaves, k) + row < system_model::composed_kinds(
            leaves,
            count,
        ).len(),
        system_model::composed_kinds(leaves, count)[system_model::offset_of(leaves, k) + row]
            == leaves[k].kinds->Some_0[row],
    decreases count,
{
    lemma_kinds(leaves, count - 1);
    lemma_kinds(leaves, count);
    assert(system_model::leaf_valid(leaves[count - 1]));
    assert(leaves[count - 1].kinds is Some);
    if k < count - 1 {
        law_composed_kinds_are_those_of_the_leaves(leaves, count - 1, k, row);
    }
}

/// A system's row kinds are recorded exactly where every leaf has its own; the recorded mask
/// is composed of them, the configuration and the policy are those given, and the system is
/// otherwise the same.
pub proof fn law_system_records_the_kinds_of_its_leaves(
    before: CoupledSystemOperator,
    newton: NewtonConfig,
    policy: RateSolvePolicy,
    result: Result<CoupledSystemOperator, KrasisError>,
)
    requires
        before.wf(),
        system::system_recorded(before, newton, policy, result),
    ensures
        result is Ok <==> forall|k: int|
            0 <= k < before@.leaves.len() ==> (#[trigger] before@.leaves[k]).kinds is Some,
        result matches Ok(after) ==> after@ == before@ && after.parts() == before.parts()
            && after.coupling() == before.coupling(),
        result matches Ok(after) ==> (after.initialization() matches Some(kept) && kept.mask@.len()
            == before.size() && kept.newton == newton && kept.policy == policy),
        result matches Ok(after) ==> forall|k: int, row: int|
            0 <= k < before@.leaves.len() && 0 <= row < before@.leaves[k].dimension ==> (
            after.initialization()->Some_0).mask@[system_model::offset_of(before@.leaves, k) + row]
                == #[trigger] before@.leaves[k].kinds->Some_0[row],
{
    let leaves = before@.leaves;
    before.lemma_wf();
    if system_model::classified(leaves) {
        lemma_kinds(leaves, leaves.len() as int);
        let mask = system_model::composed_kinds(leaves, leaves.len() as int);
        assert forall|k: int, row: int|
            0 <= k < leaves.len() && 0 <= row < leaves[k].dimension implies mask[
        system_model::offset_of(leaves, k) + row] == #[trigger] leaves[k].kinds->Some_0[row] by {
            law_composed_kinds_are_those_of_the_leaves(leaves, leaves.len() as int, k, row);
        }
    } else {
        let i = choose|i: int| #[trigger] system_model::first_unclassified(leaves, i);
        assert(leaves[i].kinds is None);
    }
}

/// A leaf that is built over nothing adds no realization; any other adds its own, behind
/// those of the leaves before it.
pub proof fn law_leaf_adds_its_own_realization(leaves: Seq<CoupledLeaf>, k: int)
    requires
        0 <= k < leaves.len(),
    ensures
        system::leaf_sources(leaves, 0).len() == 0,
        match leaves[k].built_over() {
            LeafSource::Opaque => system::leaf_sources(leaves, k + 1) == system::leaf_sources(
                leaves,
                k,
            ),
            LeafSource::Plan(plan) => {
                &&& system::leaf_sources(leaves, k + 1).len() == system::leaf_sources(
                    leaves,
                    k,
                ).len() + 1
                &&& system::leaf_sources(leaves, k + 1).drop_last() == system::leaf_sources(
                    leaves,
                    k,
                )
                &&& system::leaf_sources(leaves, k + 1).last() matches FinitumRealization::Plan(
                    added,
                ) && *added == plan
            },
            LeafSource::Reduced(reduced) => {
                &&& system::leaf_sources(leaves, k + 1).len() == system::leaf_sources(
                    leaves,
                    k,
                ).len() + 1
                &&& system::leaf_sources(leaves, k + 1).drop_last() == system::leaf_sources(
                    leaves,
                    k,
                )
                &&& system::leaf_sources(leaves, k + 1).last() matches FinitumRealization::ReducedSystem(
                    added,
                ) && *added == reduced
            },
        },
{
    assert(system::leaf_sources(leaves, k + 1).drop_last() =~= system::leaf_sources(leaves, k)
        || leaves[k].built_over() is Opaque);
}

} // verus!
