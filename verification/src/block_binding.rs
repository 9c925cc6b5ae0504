//! State layouts of block-composed product spaces.
use crate::binding;
use crate::binding::{Bound, SemanticId, StateBinding};
use crate::error::{ErrorModel, KrasisError};
use crate::layout;
use crate::layout::{BlockId, BlockModel, StateBlock, StateLayout};
use crate::realization::FieldBlock;
use crate::text;
use crate::text::decimal_text;
use vstd::prelude::*;

verus! {

/// The block name of a variable's field.
pub open spec fn field_name(prefix: Seq<char>, variable: u32) -> Seq<char> {
    prefix + "field_"@ + text::decimal(variable as nat)
}

/// The state blocks of fields, in their order.
pub open spec fn field_blocks(prefix: Seq<char>, fields: Seq<FieldBlock>) -> Seq<BlockModel> {
    fields.map_values(
        |field: FieldBlock|
            BlockModel {
                id: field_name(prefix, field.variable),
                start: field.offset as nat,
                end: (field.offset + field.extent) as nat,
            },
    )
}

/// The state blocks of fields, each bound to its variable.
pub open spec fn field_pairs(prefix: Seq<char>, fields: Seq<FieldBlock>) -> Seq<Bound> {
    fields.map_values(
        |field: FieldBlock|
            Bound { semantic: field.variable, block: field_name(prefix, field.variable) },
    )
}

/// The layout and binding of fields, or why they have none.
pub open spec fn fields_laid_out(prefix: Seq<char>, fields: Seq<FieldBlock>) -> Result<
    (Seq<BlockModel>, Seq<Bound>),
    ErrorModel,
> {
    match layout::layout_of(field_blocks(prefix, fields)) {
        Err(failure) => Err(failure),
        Ok(blocks) => match binding::binding_of(blocks, field_pairs(prefix, fields)) {
            Err(failure) => Err(failure),
            Ok(pairs) => Ok((blocks, pairs)),
        },
    }
}

fn block_id(prefix: &str, variable: u32) -> (result: BlockId)
    ensures
        result@ == field_name(prefix@, variable),
{
    BlockId::new(
        prefix.to_owned().concat("field_").concat(
            decimal_text(variable as u64).as_str(),
        ).as_str(),
    )
}

/// One block per field, named `<prefix>field_<variable>` and bound to the variable.
pub(crate) fn lay_out_fields(prefix: &str, fields: &Vec<FieldBlock>) -> (result: Result<
    (StateLayout, StateBinding),
    KrasisError,
>)
    requires
        forall|i: int|
            0 <= i < fields@.len() ==> (#[trigger] fields@[i]).offset + fields@[i].extent
                <= usize::MAX,
    ensures
        match fields_laid_out(prefix@, fields@) {
            Ok((blocks, pairs)) => result matches Ok((layout, binding)) && {
                &&& layout.wf()
                &&& layout@ == blocks
                &&& binding.wf()
                &&& binding@ == pairs
            },
            Err(failure) => result matches Err(error) && error@ == failure,
        },
{
    let mut blocks: Vec<StateBlock> = Vec::new();
    let mut bindings: Vec<(SemanticId, BlockId)> = Vec::new();
    let mut index: usize = 0;
    while index < fields.len()
        invariant
            index <= fields.len(),
            forall|i: int|
                0 <= i < fields@.len() ==> (#[trigger] fields@[i]).offset + fields@[i].extent
                    <= usize::MAX,
            blocks@.len() == index,
            bindings@.len() == index,
            forall|i: int|
                0 <= i < index ==> (#[trigger] blocks@[i])@ == field_blocks(
                    prefix@,
                    fields@,
                )[i],
            forall|i: int|
                0 <= i < index ==> (#[trigger] bindings@[i]).0@ == fields@[i].variable
                    && bindings@[i].1@ == field_name(prefix@, fields@[i].variable),
        decreases fields.len() - index,
    {
        let field = fields[index];
        assert(fields@[index as int].offset + fields@[index as int].extent <= usize::MAX);
        blocks.push(
            StateBlock::new(
                block_id(prefix, field.variable),
                field.offset..field.offset + field.extent,
            ),
        );
        bindings.push((SemanticId::new(field.variable), block_id(prefix, field.variable)));
        index += 1;
    }
    assert(layout::block_models(blocks@) =~= field_blocks(prefix@, fields@));
    assert(binding::bound_models(bindings@) =~= field_pairs(prefix@, fields@));
    let layout = match StateLayout::new(blocks) {
        Ok(layout) => layout,
        Err(error) => {
            return Err(error);
        },
    };
    match StateBinding::new(&layout, bindings) {
        Ok(binding) => Ok((layout, binding)),
        Err(error) => Err(error),
    }
}

/// The state layout of a product space's fields and its binding to their system-level
/// variables: one block per field, named `field_<variable>`, in the fields' order.
pub fn block_state_layout(fields: &Vec<FieldBlock>) -> (result: Result<
    (StateLayout, StateBinding),
    KrasisError,
>)
    requires
        forall|i: int|
            0 <= i < fields@.len() ==> (#[trigger] fields@[i]).offset + fields@[i].extent
                <= usize::MAX,
    ensures
        match fields_laid_out(""@, fields@) {
            Ok((blocks, pairs)) => result matches Ok((layout, binding)) && {
                &&& layout.wf()
                &&& layout@ == blocks
                &&& binding.wf()
                &&& binding@ == pairs
            },
            Err(failure) => result matches Err(error) && error@ == failure,
        },
{
    lay_out_fields("", fields)
}

} // verus!
