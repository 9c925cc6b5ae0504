//! Operators that a transaction can enclose, and the composition of a single realization.
use crate::binding;
use crate::binding::{Bound, StateBinding};
use crate::digest;
use crate::error::{ErrorModel, KrasisError};
use crate::initialization;
use crate::initialization::{
    consistent_initialization_identity, ConsistentInitialization, RateSolvePolicy, RowKind,
};
use crate::layout;
use crate::layout::{BlockModel, StateLayout};
use crate::numeric::NewtonConfig;
use crate::realization::{FinitumRealization, RealizationPlan};
use crate::text;
use crate::text::size_text;
use vstd::prelude::*;

verus! {

/// A composed operator that an execution can enclose in a transaction: it carries a
/// content identity, which is part of every checkpoint, the identity of the layout of
/// its state vector, and the realizations it is built over, in state order.
pub trait TransactionalOperator {
    spec fn valid(&self) -> bool;

    spec fn identity_text(&self) -> Seq<char>;

    spec fn layout_text(&self) -> Seq<char>;

    spec fn size(&self) -> nat;

    spec fn sources(&self) -> Seq<FinitumRealization<'_>>;

    fn identity(&self) -> (result: &str)
        requires
            self.valid(),
        ensures
            result@ == self.identity_text(),
    ;

    fn state_layout_identity(&self) -> (result: &str)
        requires
            self.valid(),
        ensures
            result@ == self.layout_text(),
    ;

    fn dimension(&self) -> (result: usize)
        requires
            self.valid(),
        ensures
            result == self.size(),
    ;

    fn realizations(&self) -> (result: Vec<FinitumRealization<'_>>)
        requires
            self.valid(),
        ensures
            result@ == self.sources(),
    ;
}

impl<Op: TransactionalOperator> TransactionalOperator for &Op {
    open spec fn valid(&self) -> bool {
        (**self).valid()
    }

    open spec fn identity_text(&self) -> Seq<char> {
        (**self).identity_text()
    }

    open spec fn layout_text(&self) -> Seq<char> {
        (**self).layout_text()
    }

    open spec fn size(&self) -> nat {
        (**self).size()
    }

    open spec fn sources(&self) -> Seq<FinitumRealization<'_>> {
        (**self).sources()
    }

    fn identity(&self) -> (result: &str) {
        (**self).identity()
    }

    fn state_layout_identity(&self) -> (result: &str) {
        (**self).state_layout_identity()
    }

    fn dimension(&self) -> (result: usize) {
        (**self).dimension()
    }

    fn realizations(&self) -> (result: Vec<FinitumRealization<'_>>) {
        (**self).realizations()
    }
}

/// Whether a binding names exactly the blocks of a layout.
pub open spec fn binds_exactly(pairs: Seq<Bound>, blocks: Seq<BlockModel>) -> bool {
    &&& forall|i: int|
        0 <= i < blocks.len() ==> binding::semantic_of(pairs, (#[trigger] blocks[i]).id) is Some
    &&& forall|i: int|
        0 <= i < pairs.len() ==> layout::has_block(blocks, (#[trigger] pairs[i]).block)
}

/// Checks that a binding names exactly the blocks of a layout.
pub fn names_exactly(binding: &StateBinding, layout: &StateLayout) -> (result: bool)
    requires
        binding.wf(),
    ensures
        result == binds_exactly(binding@, layout@),
{
    let mut index: usize = 0;
    while index < layout.blocks().len()
        invariant
            index <= layout@.len(),
            binding.wf(),
            forall|i: int|
                0 <= i < index ==> binding::semantic_of(
                    binding@,
                    (#[trigger] layout@[i]).id,
                ) is Some,
        decreases layout@.len() - index,
    {
        let block = &layout.blocks()[index];
        assert(block@ == layout@[index as int]);
        if binding.semantic_for(block.id()).is_none() {
            return false;
        }
        index += 1;
    }
    let names = binding.blocks();
    let mut index: usize = 0;
    while index < names.len()
        invariant
            index <= names.len(),
            names@.len() == binding@.len(),
            forall|i: int|
                0 <= i < binding@.len() ==> (#[trigger] names@[i])@ == binding@[i].block,
            forall|i: int|
                0 <= i < index ==> layout::has_block(layout@, (#[trigger] binding@[i]).block),
        decreases names.len() - index,
    {
        assert(names@[index as int]@ == binding@[index as int].block);
        if layout.find(names[index].as_str()).is_none() {
            return false;
        }
        index += 1;
    }
    true
}

/// One block as a block solver sees it.
#[derive(Clone, Debug, PartialEq, Eq)]
pub struct BlockSpec {
    pub name: String,
    pub length: usize,
}

/// The identity text of a single composed realization.
pub open spec fn coupled_identity(
    digest: Seq<char>,
    blocks: Seq<BlockModel>,
    pairs: Option<Seq<Bound>>,
) -> Seq<char> {
    match pairs {
        Some(pairs) => "krasis-coupled/2:realization="@ + digest + ":state-layout="@
            + layout::identity_of(blocks) + ":state-binding="@ + binding::binding_identity(pairs),
        None => "krasis-coupled/1:realization="@ + digest + ":state-layout="@
            + layout::identity_of(blocks),
    }
}

pub open spec fn binding_model(binding: Option<StateBinding>) -> Option<Seq<Bound>> {
    match binding {
        Some(binding) => Some(binding@),
        None => None,
    }
}

/// Composition of one realization with its state layout.
#[derive(Clone, Debug, PartialEq, Eq)]
pub struct CoupledOperator {
    realization: RealizationPlan,
    state_layout_identity: String,
    blocks: Vec<BlockSpec>,
    state_binding: Option<StateBinding>,
    consistent_initialization: Option<ConsistentInitialization>,
    identity: String,
}

impl CoupledOperator {
    pub closed spec fn plan(&self) -> RealizationPlan {
        self.realization
    }

    pub closed spec fn initialization(&self) -> Option<ConsistentInitialization> {
        self.consistent_initialization
    }

    pub closed spec fn pairs(&self) -> Option<Seq<Bound>> {
        binding_model(self.state_binding)
    }

    pub closed spec fn solver_blocks(&self) -> Seq<BlockSpec> {
        self.blocks@
    }

    /// A recorded binding is well formed and a recorded mask has a kind for each row.
    pub closed spec fn wf(&self) -> bool {
        &&& self.state_binding matches Some(binding) ==> binding.wf()
        &&& self.consistent_initialization matches Some(config) ==> config.mask@.len()
            == self.realization.dimension
    }

    /// Composes a realization with a layout. `accept` is the block solver's verdict on the
    /// blocks of the layout.
    pub fn new<B>(realization: RealizationPlan, state_layout: &StateLayout, accept: &B) -> (result:
        Result<CoupledOperator, KrasisError>) where B: Fn(&Vec<BlockSpec>) -> Result<(), String>
        requires
            state_layout.wf(),
            forall|blocks: &Vec<BlockSpec>| call_requires(*accept, (blocks,)),
        ensures
            accepted(realization, state_layout@, None, *accept, result),
    {
        CoupledOperator::new_with_bindings(realization, state_layout, None, accept)
    }

    /// Records a binding in the operator identity; it must name exactly the blocks of
    /// the layout. `accept` is the block solver's verdict on the blocks of the layout.
    pub fn new_with_bindings<B>(
        realization: RealizationPlan,
        state_layout: &StateLayout,
        state_binding: Option<StateBinding>,
        accept: &B,
    ) -> (result: Result<CoupledOperator, KrasisError>) where
        B: Fn(&Vec<BlockSpec>) -> Result<(), String>,

        requires
            state_layout.wf(),
            state_binding matches Some(binding) ==> binding.wf(),
            forall|blocks: &Vec<BlockSpec>| call_requires(*accept, (blocks,)),
        ensures
            accepted(
                realization,
                state_layout@,
                binding_model(state_binding),
                *accept,
                result,
            ),
    {
        let operator = match CoupledOperator::compose(realization, state_layout, state_binding) {
            Ok(operator) => operator,
            Err(error) => {
                return Err(error);
            },
        };
        let verdict = accept(&operator.blocks);
        assert(call_ensures(*accept, (&operator.blocks,), verdict));
        match verdict {
            Ok(_) => Ok(operator),
            Err(message) => Err(KrasisError::InvalidCoupling(message)),
        }
    }

    fn compose(
        realization: RealizationPlan,
        state_layout: &StateLayout,
        state_binding: Option<StateBinding>,
    ) -> (result: Result<CoupledOperator, KrasisError>)
        requires
            state_layout.wf(),
            state_binding matches Some(binding) ==> binding.wf(),
        ensures
            composed(realization, state_layout@, binding_model(state_binding), result),
    {
        if realization.dimension != state_layout.width() {
            return Err(
                KrasisError::InvalidCoupling(
                    "Finitum dimension ".to_owned().concat(
                        size_text(realization.dimension).as_str(),
                    ).concat(" differs from Krasis state width ").concat(
                        size_text(state_layout.width()).as_str(),
                    ),
                ),
            );
        }
        let identity = match &state_binding {
            Some(binding) => {
                if !names_exactly(binding, state_layout) {
                    return Err(KrasisError::StateBindingLayoutMismatch);
                }
                "krasis-coupled/2:realization=".to_owned().concat(
                    realization.digest.as_str(),
                ).concat(":state-layout=").concat(state_layout.identity()).concat(
                    ":state-binding=",
                ).concat(binding.identity())
            },
            None => "krasis-coupled/1:realization=".to_owned().concat(
                realization.digest.as_str(),
            ).concat(":state-layout=").concat(state_layout.identity()),
        };
        let blocks = layout_blocks(state_layout);
        let state_layout_identity = state_layout.identity().to_owned();
        Ok(
            CoupledOperator {
                realization,
                state_layout_identity,
                blocks,
                state_binding,
                consistent_initialization: None,
                identity,
            },
        )
    }

    pub fn realization(&self) -> (result: &RealizationPlan)
        ensures
            *result == self.plan(),
    {
        &self.realization
    }

    pub fn state_binding(&self) -> (result: Option<&StateBinding>)
        requires
            self.wf(),
        ensures
            match result {
                Some(binding) => binding.wf() && self.pairs() == Some(binding@),
                None => self.pairs() is None,
            },
    {
        match &self.state_binding {
            Some(binding) => Some(binding),
            None => None,
        }
    }

    /// A recorded mask has a kind for each row.
    pub(crate) proof fn lemma_mask(&self)
        requires
            self.wf(),
        ensures
            self.initialization() matches Some(config) ==> config.mask@.len() == self.size(),
    {
    }

    pub(crate) fn into_realization(self) -> (result: RealizationPlan)
        ensures
            result == self.plan(),
    {
        self.realization
    }

    /// The block layout that a block solver partitions the state by.
    pub fn block_layout(&self) -> (result: &Vec<BlockSpec>)
        ensures
            result@ == self.solver_blocks(),
    {
        &self.blocks
    }

    /// The recorded row kinds, if any.
    pub fn row_kinds(&self) -> (result: Option<&Vec<RowKind>>)
        ensures
            match result {
                Some(mask) => self.initialization() matches Some(config) && config.mask == *mask,
                None => self.initialization() is None,
            },
    {
        match &self.consistent_initialization {
            Some(config) => Some(&config.mask),
            None => None,
        }
    }

    /// The recorded initialization convention, if any.
    pub fn recorded_initialization(&self) -> (result: Option<&ConsistentInitialization>)
        ensures
            match result {
                Some(config) => self.initialization() == Some(*config),
                None => self.initialization() is None,
            },
    {
        match &self.consistent_initialization {
            Some(config) => Some(config),
            None => None,
        }
    }

    /// Records row kinds and a Newton configuration for consistent initialization and
    /// folds both into the identity; the rate is always solved.
    pub fn with_consistent_initialization(
        self,
        mask: Vec<RowKind>,
        newton: NewtonConfig,
    ) -> (result: Result<CoupledOperator, KrasisError>)
        requires
            self.wf(),
        ensures
            recorded(self, mask, newton, RateSolvePolicy::Always, result),
    {
        self.record_consistent_initialization(mask, newton, RateSolvePolicy::Always)
    }

    /// As `with_consistent_initialization`, but the rate is solved only when a row is
    /// algebraic. The identity differs.
    pub fn with_consistent_initialization_when_algebraic(
        self,
        mask: Vec<RowKind>,
        newton: NewtonConfig,
    ) -> (result: Result<CoupledOperator, KrasisError>)
        requires
            self.wf(),
        ensures
            recorded(self, mask, newton, RateSolvePolicy::WhenAlgebraic, result),
    {
        self.record_consistent_initialization(mask, newton, RateSolvePolicy::WhenAlgebraic)
    }

    fn record_consistent_initialization(
        self,
        mask: Vec<RowKind>,
        newton: NewtonConfig,
        policy: RateSolvePolicy,
    ) -> (result: Result<CoupledOperator, KrasisError>)
        requires
            self.wf(),
        ensures
            recorded(self, mask, newton, policy, result),
    {
        if mask.len() != self.realization.dimension {
            return Err(
                KrasisError::ConsistentInitializationMaskLength {
                    actual: mask.len(),
                    expected: self.realization.dimension,
                },
            );
        }
        let identity = self.identity.as_str().to_owned().concat(":consistent-init=").concat(
            consistent_initialization_identity(&mask, &newton, policy).as_str(),
        );
        Ok(
            CoupledOperator {
                realization: self.realization,
                state_layout_identity: self.state_layout_identity,
                blocks: self.blocks,
                state_binding: self.state_binding,
                consistent_initialization: Some(
                    ConsistentInitialization { mask, newton, policy },
                ),
                identity,
            },
        )
    }
}

/// Whether the solver blocks are the blocks of a layout, by name and width.
pub open spec fn partitions(specs: Seq<BlockSpec>, blocks: Seq<BlockModel>) -> bool {
    &&& specs.len() == blocks.len()
    &&& forall|i: int|
        0 <= i < blocks.len() ==> (#[trigger] specs[i]).name@ == blocks[i].id && specs[i].length
            == blocks[i].end - blocks[i].start
}

/// The blocks of a layout as a block solver sees them.
pub fn layout_blocks(layout: &StateLayout) -> (result: Vec<BlockSpec>)
    requires
        layout.wf(),
    ensures
        partitions(result@, layout@),
{
    proof {
        layout.lemma_wf();
    }
    let mut result: Vec<BlockSpec> = Vec::new();
    let mut index: usize = 0;
    while index < layout.blocks().len()
        invariant
            index <= layout@.len(),
            layout::tiles(layout@),
            result@.len() == index,
            forall|i: int|
                0 <= i < index ==> (#[trigger] result@[i]).name@ == layout@[i].id
                    && result@[i].length == layout@[i].end - layout@[i].start,
        decreases layout@.len() - index,
    {
        let block = &layout.blocks()[index];
        assert(block@ == layout@[index as int]);
        result.push(
            BlockSpec {
                name: block.id().as_str().to_owned(),
                length: block.end() - block.start(),
            },
        );
        index += 1;
    }
    result
}

/// Why a realization cannot be composed with a layout and an optional binding.
pub open spec fn composition_failure(
    realization: RealizationPlan,
    blocks: Seq<BlockModel>,
    pairs: Option<Seq<Bound>>,
) -> Option<ErrorModel> {
    if realization.dimension != layout::width_of(blocks) {
        Some(
            ErrorModel::InvalidCoupling(
                "Finitum dimension "@ + text::decimal(realization.dimension as nat)
                    + " differs from Krasis state width "@ + text::decimal(
                    layout::width_of(blocks),
                ),
            ),
        )
    } else if pairs is Some && !binds_exactly(pairs->Some_0, blocks) {
        Some(ErrorModel::StateBindingLayoutMismatch)
    } else {
        None
    }
}

/// What composing a realization with a layout and an optional binding gives where the block
/// solver accepts the blocks.
pub open spec fn composed(
    realization: RealizationPlan,
    blocks: Seq<BlockModel>,
    pairs: Option<Seq<Bound>>,
    result: Result<CoupledOperator, KrasisError>,
) -> bool {
    match composition_failure(realization, blocks, pairs) {
        Some(failure) => result matches Err(error) && error@ == failure,
        None => result matches Ok(operator) && {
            &&& operator.wf()
            &&& operator.plan() == realization
            &&& operator.pairs() == pairs
            &&& operator.initialization() is None
            &&& operator.layout_text() == layout::identity_of(blocks)
            &&& operator.identity_text() == coupled_identity(realization.digest@, blocks, pairs)
            &&& partitions(operator.solver_blocks(), blocks)
        },
    }
}

/// What composing gives, whatever the block solver says of the blocks: its refusal, where
/// nothing else is wrong.
pub open spec fn accepted<B: Fn(&Vec<BlockSpec>) -> Result<(), String>>(
    realization: RealizationPlan,
    blocks: Seq<BlockModel>,
    pairs: Option<Seq<Bound>>,
    accept: B,
    result: Result<CoupledOperator, KrasisError>,
) -> bool {
    match composition_failure(realization, blocks, pairs) {
        Some(failure) => result matches Err(error) && error@ == failure,
        None => exists|specs: Vec<BlockSpec>, verdict: Result<(), String>|
            {
                &&& partitions(specs@, blocks)
                &&& #[trigger] call_ensures(accept, (&specs,), verdict)
                &&& match verdict {
                    Err(message) => result matches Err(error) && error@
                        == ErrorModel::InvalidCoupling(message@),
                    Ok(_) => composed(realization, blocks, pairs, result)
                        && result->Ok_0.solver_blocks() == specs@,
                }
            },
    }
}

/// What recording an initialization convention gives.
pub open spec fn recorded(
    before: CoupledOperator,
    mask: Vec<RowKind>,
    newton: NewtonConfig,
    policy: RateSolvePolicy,
    result: Result<CoupledOperator, KrasisError>,
) -> bool {
    if mask@.len() != before.plan().dimension {
        result matches Err(error) && error@ == (ErrorModel::ConsistentInitializationMaskLength {
            actual: mask@.len(),
            expected: before.plan().dimension as nat,
        })
    } else {
        result matches Ok(after) && {
            &&& after.wf()
            &&& after.plan() == before.plan()
            &&& after.pairs() == before.pairs()
            &&& after.solver_blocks() == before.solver_blocks()
            &&& after.layout_text() == before.layout_text()
            &&& after.initialization() == Some(ConsistentInitialization { mask, newton, policy })
            &&& after.identity_text() == before.identity_text() + ":consistent-init="@
                + digest::digest_of(
                initialization::initialization_payload(mask@, newton.encoding@, policy),
            )
        }
    }
}

impl TransactionalOperator for CoupledOperator {
    open spec fn valid(&self) -> bool {
        self.wf()
    }

    closed spec fn identity_text(&self) -> Seq<char> {
        self.identity@
    }

    closed spec fn layout_text(&self) -> Seq<char> {
        self.state_layout_identity@
    }

    open spec fn size(&self) -> nat {
        self.plan().dimension as nat
    }

    open spec fn sources(&self) -> Seq<FinitumRealization<'_>> {
        seq![FinitumRealization::Plan(&self.plan())]
    }

    fn identity(&self) -> (result: &str) {
        self.identity.as_str()
    }

    fn state_layout_identity(&self) -> (result: &str) {
        self.state_layout_identity.as_str()
    }

    fn dimension(&self) -> (result: usize) {
        self.realization.dimension
    }

    fn realizations(&self) -> (result: Vec<FinitumRealization<'_>>) {
        let mut result: Vec<FinitumRealization<'_>> = Vec::new();
        result.push(FinitumRealization::Plan(&self.realization));
        assert(result@ =~= self.sources());
        result
    }
}

} // verus!
