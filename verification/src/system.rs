//! Composition of realization groups across realization plans.
//!
//! Each leaf is one realization group over its own state layout; each coupling edge is
//! a linear action from one leaf's state or rate into another leaf's residual. Leaves
//! and edges are opaque here: what identifies them is given by the caller.
use crate::binding;
use crate::binding::{Bound, SemanticId, StateBinding};
use crate::block_binding;
use crate::block_binding::lay_out_fields;
use crate::digest;
use crate::digest::{append_part, digest_text, json_text};
use crate::error::{ErrorModel, KrasisError};
use crate::graph::{CouplingArgument, CouplingDependency, CouplingGraph};
use crate::initialization;
use crate::initialization::{
    consistent_initialization_identity, copy_kinds, mask_json_text, ConsistentInitialization,
    RateSolvePolicy, RowKind,
};
use crate::layout;
use crate::layout::{BlockId, BlockModel, StateBlock, StateLayout};
use crate::numeric::NewtonConfig;
use crate::operator;
use crate::operator::{names_exactly, CoupledOperator, TransactionalOperator};
use crate::realization::{FinitumRealization, OperatorIdentity, RealizationPlan, ReducedSystem};
use crate::system_model;
use crate::system_model::{EdgeModel, LeafModel, ResolvedModel, SystemModel};
use crate::text;
use crate::text::{is_blank, same_text, size_text, text_precedes};
use std::ops::Range;
use vstd::prelude::*;

verus! {

/// What a leaf is built over.
#[derive(Clone, Debug, PartialEq, Eq)]
pub enum LeafSource {
    /// An operator that no evidence binds to.
    Opaque,
    Plan(RealizationPlan),
    Reduced(ReducedSystem),
}

/// One realization group over its own state layout, every block bound to a
/// system-level semantic id.
#[derive(Clone, Debug, PartialEq, Eq)]
pub struct CoupledLeaf {
    name: String,
    dimension: usize,
    layout: StateLayout,
    binding: StateBinding,
    row_kinds: Option<Vec<RowKind>>,
    identity: String,
    source: LeafSource,
}

pub open spec fn kinds_model(kinds: Option<Vec<RowKind>>) -> Option<Seq<RowKind>> {
    match kinds {
        Some(kinds) => Some(kinds@),
        None => None,
    }
}

impl View for CoupledLeaf {
    type V = LeafModel;

    closed spec fn view(&self) -> LeafModel {
        LeafModel {
            name: self.name@,
            dimension: self.dimension as nat,
            blocks: self.layout@,
            pairs: self.binding@,
            kinds: kinds_model(self.row_kinds),
            identity: self.identity@,
        }
    }
}

/// Whether a reduced system that a leaf is built over has the leaf's dimension.
pub open spec fn source_fits(source: LeafSource, dimension: nat) -> bool {
    source matches LeafSource::Reduced(reduced) ==> reduced.dimension == dimension
}

/// Why a leaf cannot be made of its parts.
pub open spec fn leaf_failure(
    name: Seq<char>,
    dimension: nat,
    blocks: Seq<BlockModel>,
    pairs: Seq<Bound>,
) -> Option<ErrorModel> {
    if text::blank(name) {
        Some(ErrorModel::InvalidCoupling("a coupled leaf needs a non-empty name"@))
    } else if dimension != layout::width_of(blocks) {
        Some(
            ErrorModel::InvalidCoupling(
                "leaf `"@ + name + "` operator dimension "@ + text::decimal(dimension)
                    + " differs from its state width "@ + text::decimal(layout::width_of(blocks)),
            ),
        )
    } else if !operator::binds_exactly(pairs, blocks) {
        Some(ErrorModel::StateBindingLayoutMismatch)
    } else {
        None
    }
}

/// What making a leaf gives.
pub open spec fn leaf_made(
    model: LeafModel,
    source: LeafSource,
    result: Result<CoupledLeaf, KrasisError>,
) -> bool {
    match leaf_failure(model.name, model.dimension, model.blocks, model.pairs) {
        Some(failure) => result matches Err(error) && error@ == failure,
        None => result matches Ok(leaf) && leaf.wf() && leaf@ == model && leaf.built_over()
            == source,
    }
}

impl CoupledLeaf {
    pub closed spec fn built_over(&self) -> LeafSource {
        self.source
    }

    pub closed spec fn wf(&self) -> bool {
        &&& self.layout.wf()
        &&& self.binding.wf()
        &&& system_model::leaf_valid(self@)
        &&& source_fits(self.source, self@.dimension)
    }

    pub proof fn lemma_wf(&self)
        requires
            self.wf(),
        ensures
            system_model::leaf_valid(self@),
            self@.dimension <= usize::MAX,
            source_fits(self.built_over(), self@.dimension),
    {
    }

    pub proof fn lemma_tiles(&self)
        requires
            self.wf(),
        ensures
            layout::tiles(self@.blocks),
    {
        self.layout.lemma_wf();
    }

    /// A leaf over any operator of the given dimension and content identity.
    pub fn new(
        name: &str,
        dimension: usize,
        layout: StateLayout,
        binding: StateBinding,
        identity: &str,
    ) -> (result: Result<CoupledLeaf, KrasisError>)
        requires
            layout.wf(),
            binding.wf(),
        ensures
            leaf_made(
                LeafModel {
                    name: name@,
                    dimension: dimension as nat,
                    blocks: layout@,
                    pairs: binding@,
                    kinds: None,
                    identity: identity@,
                },
                LeafSource::Opaque,
                result,
            ),
    {
        CoupledLeaf::over(name, dimension, layout, binding, identity, LeafSource::Opaque)
    }

    fn over(
        name: &str,
        dimension: usize,
        layout: StateLayout,
        binding: StateBinding,
        identity: &str,
        source: LeafSource,
    ) -> (result: Result<CoupledLeaf, KrasisError>)
        requires
            layout.wf(),
            binding.wf(),
            source_fits(source, dimension as nat),
        ensures
            leaf_made(
                LeafModel {
                    name: name@,
                    dimension: dimension as nat,
                    blocks: layout@,
                    pairs: binding@,
                    kinds: None,
                    identity: identity@,
                },
                source,
                result,
            ),
    {
        if is_blank(name) {
            return Err(
                KrasisError::InvalidCoupling("a coupled leaf needs a non-empty name".to_owned()),
            );
        }
        if dimension != layout.width() {
            return Err(
                KrasisError::InvalidCoupling(
                    "leaf `".to_owned().concat(name).concat("` operator dimension ").concat(
                        size_text(dimension).as_str(),
                    ).concat(" differs from its state width ").concat(
                        size_text(layout.width()).as_str(),
                    ),
                ),
            );
        }
        if !names_exactly(&binding, &layout) {
            return Err(KrasisError::StateBindingLayoutMismatch);
        }
        proof {
            layout.lemma_wf();
            binding.lemma_wf();
        }
        Ok(
            CoupledLeaf {
                name: name.to_owned(),
                dimension,
                layout,
                binding,
                row_kinds: None,
                identity: identity.to_owned(),
                source,
            },
        )
    }

    /// A leaf over a composed realization, which must carry a binding over the same
    /// layout; its identity and row kinds are inherited.
    pub fn realization(name: &str, operator: CoupledOperator, layout: StateLayout) -> (result:
        Result<CoupledLeaf, KrasisError>)
        requires
            operator.wf(),
            layout.wf(),
        ensures
            if operator.pairs() is None {
                result matches Err(error) && error@ == ErrorModel::InvalidCoupling(
                    "leaf `"@ + name@ + "` needs a coupled operator built with a state binding"@,
                )
            } else if layout::identity_of(layout@) != operator.layout_text() {
                result matches Err(error) && error@ == ErrorModel::InvalidCoupling(
                    "leaf `"@ + name@
                        + "` state layout does not match its coupled operator's layout"@,
                )
            } else {
                leaf_made(
                    LeafModel {
                        name: name@,
                        dimension: operator.size(),
                        blocks: layout@,
                        pairs: operator.pairs()->Some_0,
                        kinds: match operator.initialization() {
                            Some(config) => Some(config.mask@),
                            None => None,
                        },
                        identity: operator.identity_text(),
                    },
                    LeafSource::Plan(operator.plan()),
                    result,
                )
            },
    {
        let binding = match operator.state_binding() {
            Some(binding) => binding.clone(),
            None => {
                return Err(
                    KrasisError::InvalidCoupling(
                        "leaf `".to_owned().concat(name).concat(
                            "` needs a coupled operator built with a state binding",
                        ),
                    ),
                );
            },
        };
        if !same_text(layout.identity(), operator.state_layout_identity()) {
            return Err(
                KrasisError::InvalidCoupling(
                    "leaf `".to_owned().concat(name).concat(
                        "` state layout does not match its coupled operator's layout",
                    ),
                ),
            );
        }
        let row_kinds = match operator.row_kinds() {
            Some(kinds) => Some(copy_kinds(kinds)),
            None => None,
        };
        let dimension: usize = operator.dimension();
        let identity = operator.identity().to_owned();
        proof {
            operator.lemma_mask();
        }
        let plan = operator.into_realization();
        match CoupledLeaf::over(
            name,
            dimension,
            layout,
            binding,
            identity.as_str(),
            LeafSource::Plan(plan),
        ) {
            Ok(leaf) => Ok(
                CoupledLeaf {
                    name: leaf.name,
                    dimension: leaf.dimension,
                    layout: leaf.layout,
                    binding: leaf.binding,
                    row_kinds,
                    identity: leaf.identity,
                    source: leaf.source,
                },
            ),
            Err(error) => Err(error),
        }
    }

    /// A leaf over a reduced system operator: its blocks are the system's fields, named
    /// `<leaf>/field_<variable>` and bound to their variables.
    pub fn reduced_system(name: &str, system: ReducedSystem) -> (result: Result<
        CoupledLeaf,
        KrasisError,
    >)
        requires
            forall|i: int|
                0 <= i < system.fields@.len() ==> (#[trigger] system.fields@[i]).offset
                    + system.fields@[i].extent <= usize::MAX,
        ensures
            match block_binding::fields_laid_out(name@ + "/"@, system.fields@) {
                Err(failure) => result matches Err(error) && error@ == failure,
                Ok((blocks, pairs)) => leaf_made(
                    LeafModel {
                        name: name@,
                        dimension: system.dimension as nat,
                        blocks,
                        pairs,
                        kinds: None,
                        identity: system.content_text(),
                    },
                    LeafSource::Reduced(system),
                    result,
                ),
            },
    {
        let prefix = name.to_owned().concat("/");
        match lay_out_fields(prefix.as_str(), &system.fields) {
            Err(error) => Err(error),
            Ok((layout, binding)) => {
                let identity = system.content_identity();
                let dimension: usize = system.dimension;
                CoupledLeaf::over(
                    name,
                    dimension,
                    layout,
                    binding,
                    identity.as_str(),
                    LeafSource::Reduced(system),
                )
            },
        }
    }

    /// Records the row kinds that this leaf contributes to a composed initialization.
    pub fn with_row_kinds(self, row_kinds: Vec<RowKind>) -> (result: Result<
        CoupledLeaf,
        KrasisError,
    >)
        requires
            self.wf(),
        ensures
            if row_kinds@.len() != self@.dimension {
                result matches Err(error) && error@
                    == (ErrorModel::ConsistentInitializationMaskLength {
                    actual: row_kinds@.len(),
                    expected: self@.dimension,
                })
            } else {
                result matches Ok(leaf) && leaf.wf() && leaf@ == (LeafModel {
                    kinds: Some(row_kinds@),
                    ..self@
                }) && leaf.built_over() == self.built_over()
            },
    {
        if row_kinds.len() != self.dimension {
            return Err(
                KrasisError::ConsistentInitializationMaskLength {
                    actual: row_kinds.len(),
                    expected: self.dimension,
                },
            );
        }
        Ok(
            CoupledLeaf {
                name: self.name,
                dimension: self.dimension,
                layout: self.layout,
                binding: self.binding,
                row_kinds: Some(row_kinds),
                identity: self.identity,
                source: self.source,
            },
        )
    }

    /// Binds the leaf's blocks to other semantic ids.
    pub fn with_binding(self, binding: StateBinding) -> (result: Result<CoupledLeaf, KrasisError>)
        requires
            self.wf(),
            binding.wf(),
        ensures
            if !operator::binds_exactly(binding@, self@.blocks) {
                result matches Err(error) && error@ == ErrorModel::StateBindingLayoutMismatch
            } else {
                result matches Ok(leaf) && leaf.wf() && leaf@ == (LeafModel {
                    pairs: binding@,
                    ..self@
                }) && leaf.built_over() == self.built_over()
            },
    {
        if !names_exactly(&binding, &self.layout) {
            return Err(KrasisError::StateBindingLayoutMismatch);
        }
        proof {
            binding.lemma_wf();
        }
        Ok(
            CoupledLeaf {
                name: self.name,
                dimension: self.dimension,
                layout: self.layout,
                binding,
                row_kinds: self.row_kinds,
                identity: self.identity,
                source: self.source,
            },
        )
    }

    pub fn name(&self) -> (result: &str)
        ensures
            result@ == self@.name,
    {
        self.name.as_str()
    }

    pub fn dimension(&self) -> (result: usize)
        ensures
            result == self@.dimension,
    {
        self.dimension
    }

    pub fn layout(&self) -> (result: &StateLayout)
        requires
            self.wf(),
        ensures
            result@ == self@.blocks,
            result.wf(),
    {
        &self.layout
    }

    pub fn binding(&self) -> (result: &StateBinding)
        requires
            self.wf(),
        ensures
            result@ == self@.pairs,
            result.wf(),
    {
        &self.binding
    }

    pub fn row_kinds(&self) -> (result: Option<&Vec<RowKind>>)
        ensures
            match result {
                Some(kinds) => self@.kinds == Some(kinds@),
                None => self@.kinds is None,
            },
    {
        match &self.row_kinds {
            Some(kinds) => Some(kinds),
            None => None,
        }
    }

    pub fn identity(&self) -> (result: &str)
        ensures
            result@ == self@.identity,
    {
        self.identity.as_str()
    }

    /// What the leaf is built over.
    pub fn source(&self) -> (result: &LeafSource)
        ensures
            *result == self.built_over(),
    {
        &self.source
    }
}

/// A linear contribution of one leaf's state or rate to another leaf's residual, by
/// the shape and the content identity of its action.
#[derive(Clone, Debug, PartialEq, Eq)]
pub struct CouplingEdge {
    row: String,
    column: String,
    argument: CouplingArgument,
    rows: usize,
    columns: usize,
    identity: String,
}

impl View for CouplingEdge {
    type V = EdgeModel;

    closed spec fn view(&self) -> EdgeModel {
        EdgeModel {
            row: self.row@,
            column: self.column@,
            argument: self.argument,
            rows: self.rows as nat,
            columns: self.columns as nat,
            identity: self.identity@,
        }
    }
}

/// The text whose digest identifies an explicit coupling matrix.
pub open spec fn matrix_payload(encoding: Seq<char>) -> Seq<char> {
    "{\"schema\":\"krasis-coupling-matrix/1\",\"matrix\":"@ + encoding + "}"@
}

impl CouplingEdge {
    pub fn new(
        row: &str,
        column: &str,
        argument: CouplingArgument,
        rows: usize,
        columns: usize,
        identity: &str,
    ) -> (result: CouplingEdge)
        ensures
            result@ == (EdgeModel {
                row: row@,
                column: column@,
                argument,
                rows: rows as nat,
                columns: columns as nat,
                identity: identity@,
            }),
    {
        CouplingEdge {
            row: row.to_owned(),
            column: column.to_owned(),
            argument,
            rows,
            columns,
            identity: identity.to_owned(),
        }
    }

    /// An explicit sparse coupling block. `encoding` is the JSON of the matrix; the edge
    /// is identified by its digest, so changing any entry changes the identity's text.
    pub fn matrix(
        row: &str,
        column: &str,
        argument: CouplingArgument,
        rows: usize,
        columns: usize,
        encoding: &str,
    ) -> (result: CouplingEdge)
        ensures
            result@ == (EdgeModel {
                row: row@,
                column: column@,
                argument,
                rows: rows as nat,
                columns: columns as nat,
                identity: digest::digest_of(matrix_payload(encoding@)),
            }),
    {
        let payload = "{\"schema\":\"krasis-coupling-matrix/1\",\"matrix\":".to_owned().concat(
            encoding,
        ).concat("}");
        CouplingEdge::new(
            row,
            column,
            argument,
            rows,
            columns,
            digest_text(payload.as_str()).as_str(),
        )
    }
}

/// An edge with its leaves resolved to positions; `action` is its position among the
/// declared edges.
#[derive(Clone, Debug, PartialEq, Eq)]
pub struct ResolvedEdge {
    pub row: usize,
    pub column: usize,
    pub argument: CouplingArgument,
    pub rows: usize,
    pub columns: usize,
    pub identity: String,
    pub action: usize,
}

impl View for ResolvedEdge {
    type V = ResolvedModel;

    open spec fn view(&self) -> ResolvedModel {
        ResolvedModel {
            row: self.row as nat,
            column: self.column as nat,
            argument: self.argument,
            rows: self.rows as nat,
            columns: self.columns as nat,
            identity: self.identity@,
            action: self.action as nat,
        }
    }
}

pub open spec fn leaf_models(leaves: Seq<CoupledLeaf>) -> Seq<LeafModel> {
    leaves.map_values(|leaf: CoupledLeaf| leaf@)
}

pub open spec fn edge_models(edges: Seq<CouplingEdge>) -> Seq<EdgeModel> {
    edges.map_values(|edge: CouplingEdge| edge@)
}

pub open spec fn resolved_models(edges: Seq<ResolvedEdge>) -> Seq<ResolvedModel> {
    edges.map_values(|edge: ResolvedEdge| edge@)
}

/// The position of the first leaf of the given name.
fn find_leaf(leaves: &Vec<CoupledLeaf>, name: &str) -> (result: Option<usize>)
    ensures
        match result {
            Some(index) => {
                &&& index < leaves@.len()
                &&& system_model::has_leaf(leaf_models(leaves@), name@)
                &&& index == system_model::leaf_index(leaf_models(leaves@), name@)
            },
            None => !system_model::has_leaf(leaf_models(leaves@), name@),
        },
{
    let ghost models = leaf_models(leaves@);
    let mut index: usize = 0;
    while index < leaves.len()
        invariant
            index <= leaves.len(),
            models == leaf_models(leaves@),
            forall|j: int| 0 <= j < index ==> (#[trigger] models[j]).name != name@,
        decreases leaves.len() - index,
    {
        assert(models[index as int] == leaves@[index as int]@);
        if same_text(leaves[index].name.as_str(), name) {
            proof {
                reveal(system_model::leaf_index);
                assert(models[index as int].name == name@);
            }
            return Some(index);
        }
        index += 1;
    }
    None
}

/// Checks that no leaf repeats the name of an earlier one.
fn check_names(leaves: &Vec<CoupledLeaf>) -> (result: Result<(), KrasisError>)
    ensures
        match system_model::name_failure(leaf_models(leaves@), 0) {
            Some(failure) => result matches Err(error) && error@ == failure,
            None => result is Ok,
        },
{
    let ghost models = leaf_models(leaves@);
    let mut index: usize = 0;
    while index < leaves.len()
        invariant
            index <= leaves.len(),
            models == leaf_models(leaves@),
            system_model::name_failure(models, 0) == system_model::name_failure(
                models,
                index as int,
            ),
        decreases leaves.len() - index,
    {
        assert(models[index as int] == leaves@[index as int]@);
        let mut other: usize = 0;
        while other < index
            invariant
                other <= index < leaves.len(),
                models == leaf_models(leaves@),
                models[index as int] == leaves@[index as int]@,
                system_model::name_failure(models, 0) == system_model::name_failure(
                    models,
                    index as int,
                ),
                forall|j: int|
                    0 <= j < other ==> (#[trigger] models[j]).name != models[index as int].name,
            decreases index - other,
        {
            assert(models[other as int] == leaves@[other as int]@);
            if same_text(leaves[other].name.as_str(), leaves[index].name.as_str()) {
                assert(system_model::repeats_name(models, index as int));
                return Err(
                    KrasisError::InvalidCoupling(
                        "leaf `".to_owned().concat(leaves[index].name.as_str()).concat(
                            "` is declared more than once",
                        ),
                    ),
                );
            }
            other += 1;
        }
        assert(!system_model::repeats_name(models, index as int));
        index += 1;
    }
    Ok(())
}

/// The offsets, blocks and bindings of leaves put one after the other.
fn concatenate(leaves: &Vec<CoupledLeaf>) -> (result: (
    Vec<usize>,
    Vec<StateBlock>,
    Vec<(SemanticId, BlockId)>,
))
    requires
        forall|i: int| 0 <= i < leaves@.len() ==> (#[trigger] leaves@[i]).wf(),
        system_model::offset_of(leaf_models(leaves@), leaves@.len() as int) <= usize::MAX,
    ensures
        result.0@.len() == leaves@.len(),
        forall|i: int|
            0 <= i < leaves@.len() ==> (#[trigger] result.0@[i]) == system_model::offset_of(
                leaf_models(leaves@),
                i,
            ),
        layout::block_models(result.1@) == system_model::composed_blocks(
            leaf_models(leaves@),
            leaves@.len() as int,
        ),
        binding::bound_models(result.2@) == system_model::composed_pairs(
            leaf_models(leaves@),
            leaves@.len() as int,
        ),
{
    let ghost models = leaf_models(leaves@);
    let mut offsets: Vec<usize> = Vec::new();
    let mut blocks: Vec<StateBlock> = Vec::new();
    let mut bindings: Vec<(SemanticId, BlockId)> = Vec::new();
    let mut offset: usize = 0;
    let mut index: usize = 0;
    assert(layout::block_models(blocks@) =~= Seq::<BlockModel>::empty());
    assert(binding::bound_models(bindings@) =~= Seq::<Bound>::empty());
    while index < leaves.len()
        invariant
            index <= leaves.len(),
            models == leaf_models(leaves@),
            forall|i: int| 0 <= i < leaves@.len() ==> (#[trigger] leaves@[i]).wf(),
            system_model::offset_of(models, leaves@.len() as int) <= usize::MAX,
            offset == system_model::offset_of(models, index as int),
            offsets@.len() == index,
            forall|i: int|
                0 <= i < index ==> (#[trigger] offsets@[i]) == system_model::offset_of(models, i),
            layout::block_models(blocks@) == system_model::composed_blocks(models, index as int),
            binding::bound_models(bindings@) == system_model::composed_pairs(models, index as int),
        decreases leaves.len() - index,
    {
        let leaf = &leaves[index];
        let ghost model = models[index as int];
        proof {
            assert(model == leaf@);
            leaf.lemma_wf();
            system_model::lemma_offset_monotone(models, index + 1, leaves@.len() as int);
        }
        offsets.push(offset);
        append_blocks(leaf, offset, &mut blocks, &mut bindings);
        offset += leaf.dimension;
        index += 1;
    }
    (offsets, blocks, bindings)
}

/// Appends the blocks of a leaf, shifted, and their bindings.
fn append_blocks(
    leaf: &CoupledLeaf,
    offset: usize,
    blocks: &mut Vec<StateBlock>,
    bindings: &mut Vec<(SemanticId, BlockId)>,
)
    requires
        leaf.wf(),
        offset + leaf@.dimension <= usize::MAX,
    ensures
        layout::block_models(final(blocks)@) == layout::block_models(old(blocks)@)
            + system_model::shifted(leaf@.blocks, offset as nat),
        binding::bound_models(final(bindings)@) == binding::bound_models(old(bindings)@)
            + system_model::leaf_pairs(leaf@),
{
    let ghost model = leaf@;
    let ghost blocks_before = layout::block_models(blocks@);
    let ghost bindings_before = binding::bound_models(bindings@);
    let ghost added = system_model::shifted(model.blocks, offset as nat);
    let ghost bound = system_model::leaf_pairs(model);
    assert(blocks_before =~= blocks_before + added.take(0));
    assert(bindings_before =~= bindings_before + bound.take(0));
    let mut index: usize = 0;
    while index < leaf.layout.blocks().len()
        invariant
            leaf.wf(),
            model == leaf@,
            index <= model.blocks.len(),
            offset + model.dimension <= usize::MAX,
            added == system_model::shifted(model.blocks, offset as nat),
            bound == system_model::leaf_pairs(model),
            layout::block_models(blocks@) == blocks_before + added.take(index as int),
            binding::bound_models(bindings@) == bindings_before + bound.take(index as int),
        decreases model.blocks.len() - index,
    {
        let block = &leaf.layout.blocks()[index];
        proof {
            assert(block@ == model.blocks[index as int]);
            leaf.lemma_wf();
            crate::state_model::lemma_block_bounds(model.blocks, index as int);
            assert(binding::semantic_of(model.pairs, model.blocks[index as int].id) is Some);
        }
        let ghost blocks_now = blocks@;
        let ghost bindings_now = bindings@;
        let moved = StateBlock::new(
            block.id().clone(),
            block.start() + offset..block.end() + offset,
        );
        match leaf.binding.semantic_for(block.id()) {
            Some(semantic) => {
                let pair = (semantic, block.id().clone());
                blocks.push(moved);
                bindings.push(pair);
                proof {
                    assert(layout::block_models(blocks@) =~= layout::block_models(
                        blocks_now,
                    ).push(moved@));
                    assert(moved@ == added[index as int]);
                    assert(added.take(index + 1) =~= added.take(index as int).push(moved@));
                    assert(layout::block_models(blocks@) =~= blocks_before + added.take(
                        index + 1,
                    ));
                    let model_pair = Bound { semantic: pair.0@, block: pair.1@ };
                    assert(binding::bound_models(bindings@) =~= binding::bound_models(
                        bindings_now,
                    ).push(model_pair));
                    assert(model_pair == bound[index as int]);
                    assert(bound.take(index + 1) =~= bound.take(index as int).push(model_pair));
                    assert(binding::bound_models(bindings@) =~= bindings_before + bound.take(
                        index + 1,
                    ));
                }
            },
            None => {},
        }
        index += 1;
    }
    proof {
        assert(added.take(index as int) =~= added);
        assert(bound.take(index as int) =~= bound);
    }
}

/// Resolves one edge.
fn resolve_edge(leaves: &Vec<CoupledLeaf>, edge: &CouplingEdge, action: usize) -> (result: Result<
    ResolvedEdge,
    KrasisError,
>)
    ensures
        match system_model::resolve(leaf_models(leaves@), edge@, action as nat) {
            Ok(model) => result matches Ok(resolved) && resolved@ == model,
            Err(failure) => result matches Err(error) && error@ == failure,
        },
{
    let ghost models = leaf_models(leaves@);
    let row: usize = match find_leaf(leaves, edge.row.as_str()) {
        Some(row) => row,
        None => {
            return Err(
                KrasisError::InvalidCoupling(
                    "coupling edge names unknown leaf `".to_owned().concat(
                        edge.row.as_str(),
                    ).concat("`"),
                ),
            );
        },
    };
    let column: usize = match find_leaf(leaves, edge.column.as_str()) {
        Some(column) => column,
        None => {
            return Err(
                KrasisError::InvalidCoupling(
                    "coupling edge names unknown leaf `".to_owned().concat(
                        edge.column.as_str(),
                    ).concat("`"),
                ),
            );
        },
    };
    if row == column {
        return Err(
            KrasisError::InvalidCoupling(
                "coupling edge `".to_owned().concat(edge.identity.as_str()).concat(
                    "` couples leaf `",
                ).concat(edge.row.as_str()).concat(
                    "` to itself; within-plan coupling is realized by Finitum, not composed here",
                ),
            ),
        );
    }
    assert(models[row as int] == leaves@[row as int]@);
    assert(models[column as int] == leaves@[column as int]@);
    let rows: usize = leaves[row].dimension;
    let columns: usize = leaves[column].dimension;
    if edge.rows != rows || edge.columns != columns {
        return Err(
            KrasisError::InvalidCoupling(
                "coupling edge `".to_owned().concat(edge.identity.as_str()).concat(
                    "` from `",
                ).concat(edge.column.as_str()).concat("` into `").concat(
                    edge.row.as_str(),
                ).concat("` is ").concat(size_text(edge.rows).as_str()).concat("x").concat(
                    size_text(edge.columns).as_str(),
                ).concat(", expected ").concat(size_text(rows).as_str()).concat("x").concat(
                    size_text(columns).as_str(),
                ),
            ),
        );
    }
    Ok(
        ResolvedEdge {
            row,
            column,
            argument: edge.argument,
            rows: edge.rows,
            columns: edge.columns,
            identity: edge.identity.clone(),
            action,
        },
    )
}

/// Whether `left` is evaluated after `right`.
fn comes_after(left: &ResolvedEdge, right: &ResolvedEdge) -> (result: bool)
    ensures
        result == system_model::edge_after(left@, right@),
{
    if left.row != right.row {
        return left.row > right.row;
    }
    if left.column != right.column {
        return left.column > right.column;
    }
    let left_key: u8 = left.argument.sort_key();
    let right_key: u8 = right.argument.sort_key();
    if left_key != right_key {
        return left_key > right_key;
    }
    assert(left.argument == right.argument);
    text_precedes(right.identity.as_str(), left.identity.as_str())
}

fn place_resolved(sorted: &mut Vec<ResolvedEdge>, edge: ResolvedEdge)
    ensures
        resolved_models(final(sorted)@) == system_model::place_edge(
            resolved_models(old(sorted)@),
            edge@,
        ),
{
    let ghost before = resolved_models(sorted@);
    let mut position: usize = sorted.len();
    while position > 0 && comes_after(&sorted[position - 1], &edge)
        invariant
            position <= sorted.len(),
            before == resolved_models(sorted@),
            forall|i: int|
                position <= i < before.len() ==> system_model::edge_after(
                    #[trigger] before[i],
                    edge@,
                ),
        decreases position,
    {
        assert(before[position - 1] == sorted@[position - 1]@);
        position -= 1;
    }
    proof {
        if position > 0 {
            assert(before[position - 1] == sorted@[position - 1]@);
        }
        system_model::lemma_place_edge_at(before, edge@, position as int);
    }
    sorted.insert(position, edge);
    assert(resolved_models(sorted@) =~= before.insert(position as int, edge@));
}

/// Resolves all edges and puts them in their order of evaluation.
fn resolve_edges(leaves: &Vec<CoupledLeaf>, edges: &Vec<CouplingEdge>) -> (result: Result<
    Vec<ResolvedEdge>,
    KrasisError,
>)
    ensures
        match system_model::resolved(
            leaf_models(leaves@),
            edge_models(edges@),
            edges@.len() as int,
        ) {
            Ok(models) => result matches Ok(resolved) && resolved_models(resolved@) == models,
            Err(failure) => result matches Err(error) && error@ == failure,
        },
{
    let ghost models = edge_models(edges@);
    let mut result: Vec<ResolvedEdge> = Vec::new();
    let mut index: usize = 0;
    assert(resolved_models(result@) =~= Seq::<ResolvedModel>::empty());
    while index < edges.len()
        invariant
            index <= edges.len(),
            models == edge_models(edges@),
            system_model::resolved(leaf_models(leaves@), models, index as int) == Ok::<
                Seq<ResolvedModel>,
                ErrorModel,
            >(resolved_models(result@)),
        decreases edges.len() - index,
    {
        assert(models[index as int] == edges@[index as int]@);
        match resolve_edge(leaves, &edges[index], index) {
            Ok(edge) => {
                place_resolved(&mut result, edge);
            },
            Err(error) => {
                proof {
                    system_model::lemma_resolved_failure(
                        leaf_models(leaves@),
                        models,
                        index + 1,
                        models.len() as int,
                    );
                }
                return Err(error);
            },
        }
        index += 1;
    }
    Ok(result)
}

fn leaf_json_text(leaf: &CoupledLeaf) -> (result: String)
    requires
        leaf.wf(),
    ensures
        result@ == system_model::leaf_json(leaf@),
{
    let kinds = match &leaf.row_kinds {
        Some(kinds) => mask_json_text(kinds),
        None => "null".to_owned(),
    };
    "{\"name\":".to_owned().concat(json_text(leaf.name.as_str()).as_str()).concat(
        ",\"identity\":",
    ).concat(json_text(leaf.identity.as_str()).as_str()).concat(",\"layout\":").concat(
        json_text(leaf.layout.identity()).as_str(),
    ).concat(",\"binding\":").concat(json_text(leaf.binding.identity()).as_str()).concat(
        ",\"row_kinds\":",
    ).concat(kinds.as_str()).concat("}")
}

fn edge_json_text(edge: &ResolvedEdge) -> (result: String)
    ensures
        result@ == system_model::edge_json(edge@),
{
    let argument = match edge.argument {
        CouplingArgument::State => "\"State\"",
        CouplingArgument::Rate => "\"Rate\"",
    };
    "{\"row\":".to_owned().concat(size_text(edge.row).as_str()).concat(",\"column\":").concat(
        size_text(edge.column).as_str(),
    ).concat(",\"argument\":").concat(argument).concat(",\"rows\":").concat(
        size_text(edge.rows).as_str(),
    ).concat(",\"columns\":").concat(size_text(edge.columns).as_str()).concat(
        ",\"identity\":",
    ).concat(json_text(edge.identity.as_str()).as_str()).concat("}")
}

/// The identity of a composed system.
fn coupled_system_identity(leaves: &Vec<CoupledLeaf>, edges: &Vec<ResolvedEdge>) -> (result:
    String)
    requires
        forall|i: int| 0 <= i < leaves@.len() ==> (#[trigger] leaves@[i]).wf(),
    ensures
        result@ == digest::digest_of(
            system_model::system_payload(leaf_models(leaves@), resolved_models(edges@)),
        ),
{
    let ghost leaf_parts = leaf_models(leaves@).map_values(
        |leaf: LeafModel| system_model::leaf_json(leaf),
    );
    let mut leaf_list: String = String::new();
    let mut index: usize = 0;
    assert(leaf_parts.take(0) =~= Seq::<Seq<char>>::empty());
    while index < leaves.len()
        invariant
            index <= leaves.len(),
            forall|i: int| 0 <= i < leaves@.len() ==> (#[trigger] leaves@[i]).wf(),
            leaf_parts == leaf_models(leaves@).map_values(
                |leaf: LeafModel| system_model::leaf_json(leaf),
            ),
            leaf_list@ == digest::comma_joined(leaf_parts.take(index as int)),
        decreases leaves.len() - index,
    {
        let part = leaf_json_text(&leaves[index]);
        assert(leaf_parts[index as int] == part@);
        assert(leaf_parts.take(index + 1) =~= leaf_parts.take(index as int).push(part@));
        leaf_list = append_part(
            leaf_list,
            index,
            part.as_str(),
            Ghost(leaf_parts.take(index as int)),
        );
        index += 1;
    }
    assert(leaf_parts.take(index as int) =~= leaf_parts);
    let ghost edge_parts = resolved_models(edges@).map_values(
        |edge: ResolvedModel| system_model::edge_json(edge),
    );
    let mut edge_list: String = String::new();
    let mut index: usize = 0;
    assert(edge_parts.take(0) =~= Seq::<Seq<char>>::empty());
    while index < edges.len()
        invariant
            index <= edges.len(),
            edge_parts == resolved_models(edges@).map_values(
                |edge: ResolvedModel| system_model::edge_json(edge),
            ),
            edge_list@ == digest::comma_joined(edge_parts.take(index as int)),
        decreases edges.len() - index,
    {
        let part = edge_json_text(&edges[index]);
        assert(edge_parts[index as int] == part@);
        assert(edge_parts.take(index + 1) =~= edge_parts.take(index as int).push(part@));
        edge_list = append_part(
            edge_list,
            index,
            part.as_str(),
            Ghost(edge_parts.take(index as int)),
        );
        index += 1;
    }
    assert(edge_parts.take(index as int) =~= edge_parts);
    let payload = "{\"schema\":\"krasis-coupled-system/1\",\"leaves\":[".to_owned().concat(
        leaf_list.as_str(),
    ).concat("],\"edges\":[").concat(edge_list.as_str()).concat("]}");
    digest_text(payload.as_str())
}

/// The realizations that the first `count` leaves are built over.
pub open spec fn leaf_sources<'a>(leaves: Seq<CoupledLeaf>, count: int) -> Seq<
    FinitumRealization<'a>,
>
    decreases count,
{
    if count <= 0 {
        Seq::empty()
    } else {
        let before = leaf_sources(leaves, count - 1);
        match leaves[count - 1].built_over() {
            LeafSource::Opaque => before,
            LeafSource::Plan(plan) => before.push(FinitumRealization::Plan(&plan)),
            LeafSource::Reduced(reduced) => before.push(
                FinitumRealization::ReducedSystem(&reduced),
            ),
        }
    }
}

/// The rows of the first `count` realizations, as far as they are reduced systems.
pub open spec fn reduced_width(sources: Seq<FinitumRealization<'_>>, count: int) -> nat
    decreases count,
{
    if count <= 0 {
        0
    } else {
        reduced_width(sources, count - 1) + match sources[count - 1] {
            FinitumRealization::ReducedSystem(reduced) => reduced.dimension as nat,
            FinitumRealization::Plan(_) => 0,
        }
    }
}

proof fn lemma_reduced_width_prefix<'a>(
    sources: Seq<FinitumRealization<'a>>,
    last: FinitumRealization<'a>,
    count: int,
)
    requires
        0 <= count <= sources.len(),
    ensures
        reduced_width(sources.push(last), count) == reduced_width(sources, count),
    decreases count,
{
    if count > 0 {
        lemma_reduced_width_prefix(sources, last, count - 1);
        assert(sources.push(last)[count - 1] == sources[count - 1]);
    }
}

pub proof fn lemma_reduced_width_monotone(
    sources: Seq<FinitumRealization<'_>>,
    i: int,
    j: int,
)
    requires
        0 <= i <= j,
    ensures
        reduced_width(sources, i) <= reduced_width(sources, j),
    decreases j - i,
{
    if i < j {
        lemma_reduced_width_monotone(sources, i, j - 1);
    }
}

/// The reduced systems that leaves are built over fit inside the composed state.
pub proof fn lemma_sources_fit(leaves: Seq<CoupledLeaf>, count: int)
    requires
        0 <= count <= leaves.len(),
        forall|i: int| 0 <= i < leaves.len() ==> (#[trigger] leaves[i]).wf(),
    ensures
        reduced_width(leaf_sources(leaves, count), leaf_sources(leaves, count).len() as int)
            <= system_model::offset_of(leaf_models(leaves), count),
    decreases count,
{
    if count > 0 {
        lemma_sources_fit(leaves, count - 1);
        let before = leaf_sources(leaves, count - 1);
        leaves[count - 1].lemma_wf();
        assert(leaf_models(leaves)[count - 1] == leaves[count - 1]@);
        match leaves[count - 1].built_over() {
            LeafSource::Opaque => {},
            LeafSource::Plan(plan) => {
                lemma_reduced_width_prefix(
                    before,
                    FinitumRealization::Plan(&plan),
                    before.len() as int,
                );
            },
            LeafSource::Reduced(reduced) => {
                lemma_reduced_width_prefix(
                    before,
                    FinitumRealization::ReducedSystem(&reduced),
                    before.len() as int,
                );
            },
        }
    }
}

/// Leaves composed over one concatenated state, with typed coupling edges between them.
#[derive(Clone, Debug, PartialEq, Eq)]
pub struct CoupledSystemOperator {
    leaves: Vec<CoupledLeaf>,
    offsets: Vec<usize>,
    edges: Vec<ResolvedEdge>,
    layout: StateLayout,
    binding: StateBinding,
    graph: CouplingGraph,
    consistent_initialization: Option<ConsistentInitialization>,
    identity: String,
}

impl View for CoupledSystemOperator {
    type V = SystemModel;

    closed spec fn view(&self) -> SystemModel {
        SystemModel {
            leaves: leaf_models(self.leaves@),
            edges: resolved_models(self.edges@),
            layout: self.layout@,
            pairs: self.binding@,
        }
    }
}

/// What composing leaves and edges gives where the block solver accepts the leaves.
pub open spec fn system_made(
    leaves: Seq<CoupledLeaf>,
    edges: Seq<CouplingEdge>,
    result: Result<CoupledSystemOperator, KrasisError>,
) -> bool {
    match system_model::system_of(leaf_models(leaves), edge_models(edges)) {
        Err(failure) => result matches Err(error) && error@ == failure,
        Ok(model) => result matches Ok(system) && {
            &&& system.wf()
            &&& system@ == model
            &&& system.parts() == leaves
            &&& system.initialization() is None
            &&& system.identity_text() == digest::digest_of(
                system_model::system_payload(model.leaves, model.edges),
            )
        },
    }
}

/// Whether the solver blocks are the leaves, by name and dimension.
pub open spec fn leaf_partition(specs: Seq<operator::BlockSpec>, leaves: Seq<LeafModel>) -> bool {
    &&& specs.len() == leaves.len()
    &&& forall|i: int|
        0 <= i < leaves.len() ==> (#[trigger] specs[i]).name@ == leaves[i].name
            && specs[i].length == leaves[i].dimension
}

/// What composing gives, whatever the block solver says of the leaves: its refusal, where
/// nothing else is wrong.
pub open spec fn system_accepted<B: Fn(&Vec<operator::BlockSpec>) -> Result<(), String>>(
    leaves: Seq<CoupledLeaf>,
    edges: Seq<CouplingEdge>,
    accept: B,
    result: Result<CoupledSystemOperator, KrasisError>,
) -> bool {
    match system_model::system_of(leaf_models(leaves), edge_models(edges)) {
        Err(failure) => result matches Err(error) && error@ == failure,
        Ok(_) => exists|specs: Vec<operator::BlockSpec>, verdict: Result<(), String>|
            {
                &&& leaf_partition(specs@, leaf_models(leaves))
                &&& #[trigger] call_ensures(accept, (&specs,), verdict)
                &&& match verdict {
                    Err(message) => result matches Err(error) && error@
                        == ErrorModel::InvalidCoupling(message@),
                    Ok(_) => system_made(leaves, edges, result),
                }
            },
    }
}

/// What recording the composed row kinds gives.
pub open spec fn system_recorded(
    before: CoupledSystemOperator,
    newton: NewtonConfig,
    policy: RateSolvePolicy,
    result: Result<CoupledSystemOperator, KrasisError>,
) -> bool {
    let leaves = before@.leaves;
    if !system_model::classified(leaves) {
        exists|i: int|
            {
                &&& #[trigger] system_model::first_unclassified(leaves, i)
                &&& result matches Err(error) && error@ == ErrorModel::InvalidCoupling(
                    "leaf `"@ + leaves[i].name
                        + "` carries no differential/algebraic row kinds"@,
                )
            }
    } else {
        let mask = system_model::composed_kinds(leaves, leaves.len() as int);
        result matches Ok(after) && {
            &&& after.wf()
            &&& after@ == before@
            &&& after.parts() == before.parts()
            &&& after.coupling() == before.coupling()
            &&& after.initialization() matches Some(config) && config.mask@ == mask
                && config.newton == newton && config.policy == policy
            &&& after.identity_text() == before.identity_text() + ":consistent-init="@
                + digest::digest_of(
                initialization::initialization_payload(mask, newton.encoding@, policy),
            )
        }
    }
}

impl CoupledSystemOperator {
    pub closed spec fn parts(&self) -> Seq<CoupledLeaf> {
        self.leaves@
    }

    pub closed spec fn coupling(&self) -> CouplingGraph {
        self.graph
    }

    pub closed spec fn initialization(&self) -> Option<ConsistentInitialization> {
        self.consistent_initialization
    }

    /// Well-formed leaves, a layout and a binding over their concatenation, edges
    /// between them in evaluation order, and the graph of those edges.
    pub closed spec fn wf(&self) -> bool {
        let leaves = leaf_models(self.leaves@);
        let edges = resolved_models(self.edges@);
        &&& self.leaves@.len() > 0
        &&& forall|i: int| 0 <= i < self.leaves@.len() ==> (#[trigger] self.leaves@[i]).wf()
        &&& self.layout.wf()
        &&& self.layout@ == system_model::composed_blocks(leaves, leaves.len() as int)
        &&& self.layout@.len() > 0
        &&& layout::width_of(self.layout@) == system_model::offset_of(leaves, leaves.len() as int)
        &&& self.binding.wf()
        &&& self.offsets@.len() == leaves.len()
        &&& forall|i: int|
            0 <= i < leaves.len() ==> (#[trigger] self.offsets@[i]) == system_model::offset_of(
                leaves,
                i,
            )
        &&& system_model::edges_valid(leaves, edges)
        &&& self.graph.wf()
        &&& graph_matches(self.graph, leaves, edges)
        &&& self.consistent_initialization matches Some(config) ==> config.mask@.len()
            == system_model::offset_of(leaves, leaves.len() as int)
    }

    pub proof fn lemma_wf(&self)
        requires
            self.wf(),
        ensures
            self@.leaves == leaf_models(self.parts()),
            0 < self@.leaves.len() <= usize::MAX,
            system_model::leaves_valid(self@.leaves),
            self@.layout == system_model::composed_blocks(
                self@.leaves,
                self@.leaves.len() as int,
            ),
            layout::tiles(self@.layout),
            layout::width_of(self@.layout) == system_model::offset_of(
                self@.leaves,
                self@.leaves.len() as int,
            ),
            layout::width_of(self@.layout) <= usize::MAX,
            binding::one_to_one(self@.pairs),
            system_model::edges_valid(self@.leaves, self@.edges),
            self.coupling().wf(),
            graph_matches(self.coupling(), self@.leaves, self@.edges),
            self.initialization() matches Some(config) ==> config.mask@.len() == self.size(),
            forall|e: int|
                0 <= e < self@.edges.len() ==> (#[trigger] self@.edges[e]).action <= usize::MAX,
    {
        self.layout.lemma_wf();
        self.binding.lemma_wf();
        assert(self.leaves.len() <= usize::MAX);
        assert forall|e: int| 0 <= e < self@.edges.len() implies (#[trigger] self@.edges[e]).action
            <= usize::MAX by {
            assert(self@.edges[e] == self.edges@[e]@);
        }
        assert forall|i: int| 0 <= i < self@.leaves.len() implies system_model::leaf_valid(
            #[trigger] self@.leaves[i],
        ) by {
            self.leaves@[i].lemma_wf();
        }
    }

    pub proof fn lemma_sources(&self)
        requires
            self.wf(),
        ensures
            reduced_width(self.sources(), self.sources().len() as int) <= self.size(),
    {
        lemma_sources_fit(self.leaves@, self.leaves@.len() as int);
    }

    /// Composes leaves in declaration order with edges resolved by leaf name.
    ///
    /// Refused are no leaves, a repeated leaf name, a block or semantic id shared by two
    /// leaves, and an edge that names an unknown leaf, names one leaf twice, or whose
    /// action does not have the shape of its leaves. `accept` is the block solver's verdict
    /// on the leaves as its blocks.
    pub fn new<B>(leaves: Vec<CoupledLeaf>, edges: Vec<CouplingEdge>, accept: &B) -> (result:
        Result<CoupledSystemOperator, KrasisError>) where
        B: Fn(&Vec<operator::BlockSpec>) -> Result<(), String>,

        requires
            forall|i: int| 0 <= i < leaves@.len() ==> (#[trigger] leaves@[i]).wf(),
            system_model::offset_of(leaf_models(leaves@), leaves@.len() as int) <= usize::MAX,
            forall|specs: &Vec<operator::BlockSpec>| call_requires(*accept, (specs,)),
        ensures
            system_accepted(leaves@, edges@, *accept, result),
    {
        let system = match CoupledSystemOperator::compose(leaves, edges) {
            Ok(system) => system,
            Err(error) => {
                return Err(error);
            },
        };
        let specs = system.block_layout();
        let verdict = accept(&specs);
        assert(call_ensures(*accept, (&specs,), verdict));
        proof {
            system.lemma_wf();
        }
        match verdict {
            Ok(_) => Ok(system),
            Err(message) => Err(KrasisError::InvalidCoupling(message)),
        }
    }

    fn compose(leaves: Vec<CoupledLeaf>, edges: Vec<CouplingEdge>) -> (result: Result<
        CoupledSystemOperator,
        KrasisError,
    >)
        requires
            forall|i: int| 0 <= i < leaves@.len() ==> (#[trigger] leaves@[i]).wf(),
            system_model::offset_of(leaf_models(leaves@), leaves@.len() as int) <= usize::MAX,
        ensures
            system_made(leaves@, edges@, result),
    {
        let ghost models = leaf_models(leaves@);
        if leaves.len() == 0 {
            return Err(KrasisError::EmptyLayout);
        }
        match check_names(&leaves) {
            Ok(_) => {},
            Err(error) => {
                return Err(error);
            },
        }
        let (offsets, blocks, bindings) = concatenate(&leaves);
        let layout = match StateLayout::new(blocks) {
            Ok(layout) => layout,
            Err(error) => {
                return Err(error);
            },
        };
        let binding = match StateBinding::new(&layout, bindings) {
            Ok(binding) => binding,
            Err(error) => {
                return Err(error);
            },
        };
        let resolved = match resolve_edges(&leaves, &edges) {
            Ok(resolved) => resolved,
            Err(error) => {
                return Err(error);
            },
        };
        proof {
            assert forall|i: int| 0 <= i < models.len() implies system_model::leaf_valid(
                #[trigger] models[i],
            ) by {
                leaves@[i].lemma_wf();
            }
            system_model::law_composed_layout_concatenates(models, edge_models(edges@));
            system_model::lemma_resolved_valid(
                models,
                edge_models(edges@),
                edges@.len() as int,
            );
            layout.lemma_wf();
        }
        let graph = coupling_graph(&leaves, &resolved);
        let identity = coupled_system_identity(&leaves, &resolved);
        Ok(
            CoupledSystemOperator {
                leaves,
                offsets,
                edges: resolved,
                layout,
                binding,
                graph,
                consistent_initialization: None,
                identity,
            },
        )
    }

    /// Records the composed row kinds and a Newton configuration for consistent
    /// initialization and folds both into the identity; the rate is always solved.
    pub fn with_consistent_initialization(self, newton: NewtonConfig) -> (result: Result<
        CoupledSystemOperator,
        KrasisError,
    >)
        requires
            self.wf(),
        ensures
            system_recorded(self, newton, RateSolvePolicy::Always, result),
    {
        self.record_consistent_initialization(newton, RateSolvePolicy::Always)
    }

    /// As `with_consistent_initialization`, but the rate is solved only when a row is
    /// algebraic. The identity differs.
    pub fn with_consistent_initialization_when_algebraic(self, newton: NewtonConfig) -> (result:
        Result<CoupledSystemOperator, KrasisError>)
        requires
            self.wf(),
        ensures
            system_recorded(self, newton, RateSolvePolicy::WhenAlgebraic, result),
    {
        self.record_consistent_initialization(newton, RateSolvePolicy::WhenAlgebraic)
    }

    fn record_consistent_initialization(self, newton: NewtonConfig, policy: RateSolvePolicy) -> (result:
        Result<CoupledSystemOperator, KrasisError>)
        requires
            self.wf(),
        ensures
            system_recorded(self, newton, policy, result),
    {
        let mask = match compose_kinds(&self.leaves) {
            Ok(mask) => mask,
            Err(index) => {
                let leaf = &self.leaves[index];
                assert(self@.leaves[index as int] == leaf@);
                assert(!system_model::classified(self@.leaves));
                return Err(
                    KrasisError::InvalidCoupling(
                        "leaf `".to_owned().concat(leaf.name.as_str()).concat(
                            "` carries no differential/algebraic row kinds",
                        ),
                    ),
                );
            },
        };
        let identity = self.identity.as_str().to_owned().concat(":consistent-init=").concat(
            consistent_initialization_identity(&mask, &newton, policy).as_str(),
        );
        Ok(
            CoupledSystemOperator {
                leaves: self.leaves,
                offsets: self.offsets,
                edges: self.edges,
                layout: self.layout,
                binding: self.binding,
                graph: self.graph,
                consistent_initialization: Some(
                    ConsistentInitialization { mask, newton, policy },
                ),
                identity,
            },
        )
    }

    pub fn leaves(&self) -> (result: &Vec<CoupledLeaf>)
        requires
            self.wf(),
        ensures
            result@ == self.parts(),
            forall|i: int| 0 <= i < result@.len() ==> (#[trigger] result@[i]).wf(),
    {
        &self.leaves
    }

    /// The edges in their order of evaluation.
    pub fn edges(&self) -> (result: &Vec<ResolvedEdge>)
        ensures
            resolved_models(result@) == self@.edges,
    {
        &self.edges
    }

    /// The composed state layout: every leaf's blocks, shifted, in leaf order.
    pub fn layout(&self) -> (result: &StateLayout)
        requires
            self.wf(),
        ensures
            result@ == self@.layout,
            result.wf(),
    {
        &self.layout
    }

    /// The composed binding from semantic ids to composed blocks.
    pub fn binding(&self) -> (result: &StateBinding)
        requires
            self.wf(),
        ensures
            result@ == self@.pairs,
            result.wf(),
    {
        &self.binding
    }

    /// The range of a leaf inside the composed state.
    pub fn leaf_range(&self, index: usize) -> (result: Option<Range<usize>>)
        requires
            self.wf(),
        ensures
            match result {
                Some(range) => {
                    &&& index < self@.leaves.len()
                    &&& range.start == system_model::offset_of(self@.leaves, index as int)
                    &&& range.end == system_model::offset_of(self@.leaves, index + 1)
                    &&& range.end - range.start == self@.leaves[index as int].dimension
                    &&& range.end <= layout::width_of(self@.layout)
                },
                None => index >= self@.leaves.len(),
            },
    {
        if index >= self.leaves.len() {
            return None;
        }
        proof {
            self.lemma_wf();
            assert(self@.leaves[index as int] == self.leaves@[index as int]@);
            system_model::lemma_offset_monotone(
                self@.leaves,
                index + 1,
                self@.leaves.len() as int,
            );
        }
        let start: usize = self.offsets[index];
        Some(start..start + self.leaves[index].dimension)
    }

    pub fn graph(&self) -> (result: &CouplingGraph)
        requires
            self.wf(),
        ensures
            *result == self.coupling(),
            result.wf(),
    {
        &self.graph
    }

    /// The recorded initialization convention, if any.
    pub fn recorded_initialization(&self) -> (result: Option<&ConsistentInitialization>)
        ensures
            match result {
                Some(config) => self.initialization() == Some(*config),
                None => self.initialization() is None,
            },
    {
        match &self.consistent_initialization {
            Some(config) => Some(config),
            None => None,
        }
    }

    /// One solver block per leaf.
    pub fn block_layout(&self) -> (result: Vec<operator::BlockSpec>)
        requires
            self.wf(),
        ensures
            leaf_partition(result@, self@.leaves),
    {
        let mut result: Vec<operator::BlockSpec> = Vec::new();
        let mut index: usize = 0;
        while index < self.leaves.len()
            invariant
                index <= self.leaves.len(),
                result@.len() == index,
                forall|i: int|
                    0 <= i < index ==> (#[trigger] result@[i]).name@ == self@.leaves[i].name
                        && result@[i].length == self@.leaves[i].dimension,
            decreases self.leaves.len() - index,
        {
            assert(self@.leaves[index as int] == self.leaves@[index as int]@);
            result.push(
                operator::BlockSpec {
                    name: self.leaves[index].name.clone(),
                    length: self.leaves[index].dimension,
                },
            );
            index += 1;
        }
        result
    }
}

/// Whether a graph has the leaves as its nodes and the edges as its dependencies.
pub open spec fn graph_matches(
    graph: CouplingGraph,
    leaves: Seq<LeafModel>,
    edges: Seq<ResolvedModel>,
) -> bool {
    &&& graph.names().len() == leaves.len()
    &&& forall|i: int| 0 <= i < leaves.len() ==> (#[trigger] graph.names()[i])@ == leaves[i].name
    &&& forall|k: int|
        0 <= k < edges.len() ==> graph.arcs().contains(
            system_model::dependency_of(#[trigger] edges[k]),
        )
    &&& forall|x: CouplingDependency| #[trigger]
        graph.arcs().contains(x) ==> exists|k: int|
            0 <= k < edges.len() && x == system_model::dependency_of(#[trigger] edges[k])
}

fn coupling_graph(leaves: &Vec<CoupledLeaf>, edges: &Vec<ResolvedEdge>) -> (result: CouplingGraph)
    requires
        system_model::edges_valid(leaf_models(leaves@), resolved_models(edges@)),
    ensures
        result.wf(),
        graph_matches(result, leaf_models(leaves@), resolved_models(edges@)),
{
    let ghost leaf_list = leaf_models(leaves@);
    let ghost edge_list = resolved_models(edges@);
    let mut names: Vec<String> = Vec::new();
    let mut index: usize = 0;
    while index < leaves.len()
        invariant
            index <= leaves.len(),
            leaf_list == leaf_models(leaves@),
            names@.len() == index,
            forall|i: int| 0 <= i < index ==> (#[trigger] names@[i])@ == leaf_list[i].name,
        decreases leaves.len() - index,
    {
        assert(leaf_list[index as int] == leaves@[index as int]@);
        names.push(leaves[index].name.clone());
        index += 1;
    }
    let mut dependencies: Vec<CouplingDependency> = Vec::new();
    let mut index: usize = 0;
    while index < edges.len()
        invariant
            index <= edges.len(),
            leaf_list == leaf_models(leaves@),
            edge_list == resolved_models(edges@),
            names@.len() == leaf_list.len(),
            system_model::edges_valid(leaf_list, edge_list),
            dependencies@.len() == index,
            forall|k: int|
                0 <= k < index ==> (#[trigger] dependencies@[k]) == system_model::dependency_of(
                    edge_list[k],
                ) && dependencies@[k].row < names@.len() && dependencies@[k].column < names@.len(),
        decreases edges.len() - index,
    {
        let edge = &edges[index];
        assert(edge_list[index as int] == edge@);
        assert(system_model::edge_valid(leaf_list, edge_list[index as int]));
        dependencies.push(
            CouplingDependency { row: edge.row, column: edge.column, argument: edge.argument },
        );
        index += 1;
    }
    let graph = CouplingGraph::new(names, &dependencies);
    proof {
        assert forall|k: int| 0 <= k < edge_list.len() implies graph.arcs().contains(
            system_model::dependency_of(#[trigger] edge_list[k]),
        ) by {
            assert(dependencies@[k] == system_model::dependency_of(edge_list[k]));
            assert(dependencies@.contains(dependencies@[k]));
        }
        assert forall|x: CouplingDependency| #[trigger] graph.arcs().contains(x) implies exists|
            k: int,
        |
            0 <= k < edge_list.len() && x == system_model::dependency_of(
                #[trigger] edge_list[k],
            ) by {
            assert(dependencies@.contains(x));
            let k = choose|k: int| 0 <= k < dependencies@.len() && dependencies@[k] == x;
            assert(dependencies@[k] == system_model::dependency_of(edge_list[k]));
        }
    }
    graph
}

/// The row kinds of all leaves, or the first leaf without them.
pub(crate) fn compose_kinds(leaves: &Vec<CoupledLeaf>) -> (result: Result<Vec<RowKind>, usize>)
    requires
        forall|i: int| 0 <= i < leaves@.len() ==> (#[trigger] leaves@[i]).wf(),
    ensures
        match result {
            Ok(mask) => {
                &&& system_model::classified(leaf_models(leaves@))
                &&& mask@ == system_model::composed_kinds(
                    leaf_models(leaves@),
                    leaves@.len() as int,
                )
                &&& mask@.len() == system_model::offset_of(
                    leaf_models(leaves@),
                    leaves@.len() as int,
                )
            },
            Err(index) => system_model::first_unclassified(leaf_models(leaves@), index as int),
        },
{
    let ghost models = leaf_models(leaves@);
    let mut mask: Vec<RowKind> = Vec::new();
    let mut index: usize = 0;
    while index < leaves.len()
        invariant
            index <= leaves.len(),
            models == leaf_models(leaves@),
            forall|i: int| 0 <= i < leaves@.len() ==> (#[trigger] leaves@[i]).wf(),
            forall|i: int| 0 <= i < index ==> (#[trigger] models[i]).kinds is Some,
            mask@ == system_model::composed_kinds(models, index as int),
            mask@.len() == system_model::offset_of(models, index as int),
        decreases leaves.len() - index,
    {
        proof {
            assert(models[index as int] == leaves@[index as int]@);
            leaves@[index as int].lemma_wf();
        }
        match &leaves[index].row_kinds {
            Some(kinds) => {
                append_kinds(&mut mask, kinds);
            },
            None => {
                return Err(index);
            },
        }
        index += 1;
    }
    Ok(mask)
}

pub(crate) fn append_kinds(target: &mut Vec<RowKind>, kinds: &Vec<RowKind>)
    ensures
        final(target)@ == old(target)@ + kinds@,
{
    let ghost before = target@;
    let mut index: usize = 0;
    while index < kinds.len()
        invariant
            index <= kinds.len(),
            target@ == before + kinds@.take(index as int),
        decreases kinds.len() - index,
    {
        target.push(kinds[index]);
        index += 1;
        assert(target@ =~= before + kinds@.take(index as int));
    }
    assert(kinds@.take(index as int) =~= kinds@);
}

impl TransactionalOperator for CoupledSystemOperator {
    open spec fn valid(&self) -> bool {
        self.wf()
    }

    closed spec fn identity_text(&self) -> Seq<char> {
        self.identity@
    }

    open spec fn layout_text(&self) -> Seq<char> {
        layout::identity_of(self@.layout)
    }

    open spec fn size(&self) -> nat {
        layout::width_of(self@.layout)
    }

    open spec fn sources(&self) -> Seq<FinitumRealization<'_>> {
        leaf_sources(self.parts(), self.parts().len() as int)
    }

    fn identity(&self) -> (result: &str) {
        self.identity.as_str()
    }

    fn state_layout_identity(&self) -> (result: &str) {
        self.layout.identity()
    }

    fn dimension(&self) -> (result: usize) {
        self.layout.width()
    }

    fn realizations(&self) -> (result: Vec<FinitumRealization<'_>>) {
        let mut result: Vec<FinitumRealization<'_>> = Vec::new();
        let mut index: usize = 0;
        while index < self.leaves.len()
            invariant
                index <= self.leaves.len(),
                result@ == leaf_sources(self.leaves@, index as int),
            decreases self.leaves.len() - index,
        {
            match &self.leaves[index].source {
                LeafSource::Opaque => {},
                LeafSource::Plan(plan) => {
                    result.push(FinitumRealization::Plan(plan));
                },
                LeafSource::Reduced(reduced) => {
                    result.push(FinitumRealization::ReducedSystem(reduced));
                },
            }
            index += 1;
        }
        result
    }
}

} // verus!
