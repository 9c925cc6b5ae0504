//! Binding of state blocks to opaque semantic identities.
//!
//! A semantic id is a dense number that a modelling layer gives to each variable
//! of a whole system, so that two instances of one model never share one.
use crate::error::{ErrorModel, KrasisError};
use crate::layout;
use crate::layout::{BlockId, BlockModel, StateLayout};
use crate::text;
use crate::text::{decimal_text, length_in_bytes, same_text, size_text};
use vstd::prelude::*;

verus! {

/// Opaque semantic identity of a state block.
#[derive(Clone, Copy, Debug, PartialEq, Eq, PartialOrd, Ord, Hash)]
pub struct SemanticId {
    id: u32,
}

impl View for SemanticId {
    type V = u32;

    closed spec fn view(&self) -> u32 {
        self.id
    }
}

impl SemanticId {
    pub fn new(id: u32) -> (result: SemanticId)
        ensures
            result@ == id,
    {
        SemanticId { id }
    }

    pub fn as_u32(self) -> (result: u32)
        ensures
            result == self@,
    {
        self.id
    }
}

/// A block with its semantic id, as a mathematical value.
#[verifier::ext_equal]
pub struct Bound {
    pub semantic: u32,
    pub block: Seq<char>,
}

pub open spec fn bound_models(pairs: Seq<(SemanticId, BlockId)>) -> Seq<Bound> {
    pairs.map_values(|pair: (SemanticId, BlockId)| Bound { semantic: pair.0@, block: pair.1@ })
}

/// `sorted` with `pair` put behind every pair of no larger semantic id.
pub open spec fn place_bound(sorted: Seq<Bound>, pair: Bound) -> Seq<Bound>
    decreases sorted.len(),
{
    if sorted.len() == 0 || sorted.last().semantic <= pair.semantic {
        sorted.push(pair)
    } else {
        place_bound(sorted.drop_last(), pair).push(sorted.last())
    }
}

/// The pairs in the order of their semantic ids.
pub open spec fn by_semantic(pairs: Seq<Bound>) -> Seq<Bound>
    decreases pairs.len(),
{
    if pairs.len() == 0 {
        pairs
    } else {
        place_bound(by_semantic(pairs.drop_last()), pairs.last())
    }
}

/// What is wrong with the pair at position `i`, given the pairs before it.
pub open spec fn pair_failure(blocks: Seq<BlockModel>, pairs: Seq<Bound>, i: int) -> Option<
    ErrorModel,
> {
    let pair = pairs[i];
    if !layout::has_block(blocks, pair.block) {
        Some(ErrorModel::StateBindingUnknownBlock(pair.block))
    } else if exists|j: int| 0 <= j < i && (#[trigger] pairs[j]).block == pair.block {
        Some(ErrorModel::StateBindingDuplicateBlock(pair.block))
    } else if exists|j: int| 0 <= j < i && (#[trigger] pairs[j]).semantic == pair.semantic {
        Some(ErrorModel::StateBindingDuplicateSemanticId(pair.semantic as nat))
    } else {
        None
    }
}

pub open spec fn first_pair_failure(
    blocks: Seq<BlockModel>,
    pairs: Seq<Bound>,
    from: int,
) -> Option<ErrorModel>
    decreases pairs.len() - from,
{
    if from >= pairs.len() {
        None
    } else if pair_failure(blocks, pairs, from) is Some {
        pair_failure(blocks, pairs, from)
    } else {
        first_pair_failure(blocks, pairs, from + 1)
    }
}

/// The binding that the pairs describe over the blocks, or why they describe none.
pub open spec fn binding_of(blocks: Seq<BlockModel>, pairs: Seq<Bound>) -> Result<
    Seq<Bound>,
    ErrorModel,
> {
    match first_pair_failure(blocks, pairs, 0) {
        Some(failure) => Err(failure),
        None => if pairs.len() != blocks.len() {
            Err(ErrorModel::StateBindingIncomplete)
        } else {
            Ok(by_semantic(pairs))
        },
    }
}

/// Pairs in strictly increasing semantic order that name no block twice.
pub open spec fn one_to_one(pairs: Seq<Bound>) -> bool {
    &&& forall|i: int, j: int|
        0 <= i < j < pairs.len() ==> (#[trigger] pairs[i]).semantic < (
        #[trigger] pairs[j]).semantic
    &&& forall|i: int, j: int|
        0 <= i < j < pairs.len() ==> (#[trigger] pairs[i]).block != (#[trigger] pairs[j]).block
}

/// Whether every block of the layout is bound, and nothing else is.
pub open spec fn covers(pairs: Seq<Bound>, blocks: Seq<BlockModel>) -> bool {
    &&& pairs.len() == blocks.len()
    &&& forall|i: int|
        0 <= i < pairs.len() ==> layout::has_block(blocks, (#[trigger] pairs[i]).block)
    &&& forall|i: int|
        0 <= i < blocks.len() ==> #[trigger] semantic_of(pairs, blocks[i].id) is Some
}

/// The block of a semantic id.
pub open spec fn block_of(pairs: Seq<Bound>, semantic: u32) -> Option<Seq<char>> {
    if exists|i: int| 0 <= i < pairs.len() && (#[trigger] pairs[i]).semantic == semantic {
        let i = choose|i: int| 0 <= i < pairs.len() && (#[trigger] pairs[i]).semantic == semantic;
        Some(pairs[i].block)
    } else {
        None
    }
}

/// The semantic id of a block.
pub open spec fn semantic_of(pairs: Seq<Bound>, block: Seq<char>) -> Option<u32> {
    if exists|i: int| 0 <= i < pairs.len() && (#[trigger] pairs[i]).block == block {
        let i = choose|i: int| 0 <= i < pairs.len() && (#[trigger] pairs[i]).block == block;
        Some(pairs[i].semantic)
    } else {
        None
    }
}

/// The identity text of one pair.
pub open spec fn pair_token(pair: Bound) -> Seq<char> {
    text::decimal(pair.semantic as nat) + ":"@ + text::decimal(text::byte_length(pair.block))
        + ":"@ + pair.block + ";"@
}

/// The identity text of a binding: its pair tokens in semantic order.
pub open spec fn binding_identity(pairs: Seq<Bound>) -> Seq<char> {
    text::joined(pairs.map_values(|pair: Bound| pair_token(pair)))
}

/// Total, injective binding from semantic ids to the blocks of a state layout.
#[derive(Debug, PartialEq, Eq)]
pub struct StateBinding {
    pairs: Vec<(SemanticId, BlockId)>,
    identity: String,
}

impl View for StateBinding {
    type V = Seq<Bound>;

    closed spec fn view(&self) -> Seq<Bound> {
        bound_models(self.pairs@)
    }
}

impl StateBinding {
    /// One semantic id for each bound block, in semantic order; the identity is theirs.
    pub closed spec fn wf(&self) -> bool {
        &&& one_to_one(self@)
        &&& self.identity@ == binding_identity(self@)
    }

    pub proof fn lemma_wf(&self)
        requires
            self.wf(),
        ensures
            one_to_one(self@),
            self@.len() <= usize::MAX,
    {
        assert(self@.len() == self.pairs.len());
    }

    /// Checks that the pairs name every block of the layout once, by distinct ids.
    pub fn new(layout: &StateLayout, bindings: Vec<(SemanticId, BlockId)>) -> (result: Result<
        StateBinding,
        KrasisError,
    >)
        ensures
            match binding_of(layout@, bound_models(bindings@)) {
                Ok(model) => result matches Ok(binding) && binding@ == model && binding.wf(),
                Err(failure) => result matches Err(error) && error@ == failure,
            },
    {
        let ghost given = bound_models(bindings@);
        let mut pairs: Vec<(SemanticId, BlockId)> = Vec::new();
        let mut index: usize = 0;
        assert(bound_models(pairs@) =~= by_semantic(given.take(0)));
        while index < bindings.len()
            invariant
                index <= bindings.len(),
                given == bound_models(bindings@),
                given.len() == bindings.len(),
                bound_models(pairs@) == by_semantic(given.take(index as int)),
                first_pair_failure(layout@, given, 0) == first_pair_failure(
                    layout@,
                    given,
                    index as int,
                ),
                forall|i: int|
                    0 <= i < index ==> #[trigger] pair_failure(layout@, given, i) is None,
            decreases bindings.len() - index,
        {
            let semantic = bindings[index].0;
            let block = &bindings[index].1;
            assert(given[index as int] == (Bound { semantic: semantic@, block: block@ }));
            if layout.find(block.as_str()).is_none() {
                return Err(KrasisError::StateBindingUnknownBlock(block.as_str().to_owned()));
            }
            if names_block(&bindings, index, block.as_str()) {
                return Err(KrasisError::StateBindingDuplicateBlock(block.as_str().to_owned()));
            }
            if names_semantic(&bindings, index, semantic) {
                return Err(KrasisError::StateBindingDuplicateSemanticId(semantic.as_u32()));
            }
            proof {
                let longer = given.take(index + 1);
                assert(longer.drop_last() =~= given.take(index as int));
                assert(longer.last() == given[index as int]);
            }
            place_pair(&mut pairs, semantic, block.clone());
            index += 1;
        }
        assert(given.take(index as int) =~= given);
        if bindings.len() != layout.blocks().len() {
            return Err(KrasisError::StateBindingIncomplete);
        }
        proof {
            lemma_checked_one_to_one(layout@, given);
        }
        let identity = bindings_identity(&pairs);
        Ok(StateBinding { pairs, identity })
    }

    /// The block of a semantic id.
    pub fn block_for(&self, semantic: SemanticId) -> (result: Option<&BlockId>)
        requires
            self.wf(),
        ensures
            match result {
                Some(block) => block_of(self@, semantic@) == Some(block@),
                None => block_of(self@, semantic@) is None,
            },
    {
        let mut index: usize = 0;
        while index < self.pairs.len()
            invariant
                index <= self.pairs.len(),
                one_to_one(self@),
                forall|i: int| 0 <= i < index ==> (#[trigger] self@[i]).semantic != semantic@,
            decreases self.pairs.len() - index,
        {
            assert(self@[index as int].semantic == self.pairs@[index as int].0@);
            assert(self@[index as int].block == self.pairs@[index as int].1@);
            if self.pairs[index].0.id == semantic.id {
                proof {
                    lemma_bound_at(self@, index as int);
                }
                return Some(&self.pairs[index].1);
            }
            index += 1;
        }
        None
    }

    /// The semantic id of a block.
    pub fn semantic_for(&self, block: &BlockId) -> (result: Option<SemanticId>)
        requires
            self.wf(),
        ensures
            match result {
                Some(semantic) => semantic_of(self@, block@) == Some(semantic@),
                None => semantic_of(self@, block@) is None,
            },
    {
        let mut index: usize = 0;
        while index < self.pairs.len()
            invariant
                index <= self.pairs.len(),
                one_to_one(self@),
                forall|i: int| 0 <= i < index ==> (#[trigger] self@[i]).block != block@,
            decreases self.pairs.len() - index,
        {
            assert(self@[index as int].semantic == self.pairs@[index as int].0@);
            assert(self@[index as int].block == self.pairs@[index as int].1@);
            if same_text(self.pairs[index].1.as_str(), block.as_str()) {
                proof {
                    lemma_bound_at(self@, index as int);
                }
                return Some(self.pairs[index].0);
            }
            index += 1;
        }
        None
    }

    /// Every block named by this binding, in semantic-id order.
    pub fn blocks(&self) -> (result: Vec<BlockId>)
        ensures
            result@.len() == self@.len(),
            forall|i: int| 0 <= i < self@.len() ==> (#[trigger] result@[i])@ == self@[i].block,
    {
        let mut result: Vec<BlockId> = Vec::new();
        let mut index: usize = 0;
        while index < self.pairs.len()
            invariant
                index <= self.pairs.len(),
                result@.len() == index,
                forall|i: int| 0 <= i < index ==> (#[trigger] result@[i])@ == self@[i].block,
            decreases self.pairs.len() - index,
        {
            assert(self@[index as int].block == self.pairs@[index as int].1@);
            result.push(self.pairs[index].1.clone());
            index += 1;
        }
        result
    }

    pub fn identity(&self) -> (result: &str)
        requires
            self.wf(),
        ensures
            result@ == binding_identity(self@),
    {
        self.identity.as_str()
    }
}

impl Clone for StateBinding {
    fn clone(&self) -> (result: StateBinding)
        ensures
            result@ == self@,
            self.wf() ==> result.wf(),
    {
        let mut pairs: Vec<(SemanticId, BlockId)> = Vec::new();
        let mut index: usize = 0;
        while index < self.pairs.len()
            invariant
                index <= self.pairs.len(),
                bound_models(pairs@) == self@.take(index as int),
            decreases self.pairs.len() - index,
        {
            let pair = (self.pairs[index].0, self.pairs[index].1.clone());
            proof {
                lemma_bound_push(pairs@, pair);
                assert(self@[index as int].block == self.pairs@[index as int].1@);
                assert(self@[index as int].semantic == self.pairs@[index as int].0@);
                assert(self@.take(index + 1) =~= self@.take(index as int).push(
                    Bound { semantic: pair.0@, block: pair.1@ },
                ));
            }
            pairs.push(pair);
            index += 1;
        }
        assert(self@.take(index as int) =~= self@);
        StateBinding { pairs, identity: self.identity.clone() }
    }
}

fn names_block(pairs: &Vec<(SemanticId, BlockId)>, count: usize, block: &str) -> (result: bool)
    requires
        count <= pairs.len(),
    ensures
        result == exists|j: int|
            0 <= j < count && (#[trigger] bound_models(pairs@)[j]).block == block@,
{
    let mut index: usize = 0;
    while index < count
        invariant
            index <= count <= pairs.len(),
            forall|j: int| 0 <= j < index ==> (#[trigger] bound_models(pairs@)[j]).block != block@,
        decreases count - index,
    {
        assert(bound_models(pairs@)[index as int].block == pairs@[index as int].1@);
        if same_text(pairs[index].1.as_str(), block) {
            return true;
        }
        index += 1;
    }
    false
}

fn names_semantic(
    pairs: &Vec<(SemanticId, BlockId)>,
    count: usize,
    semantic: SemanticId,
) -> (result: bool)
    requires
        count <= pairs.len(),
    ensures
        result == exists|j: int|
            0 <= j < count && (#[trigger] bound_models(pairs@)[j]).semantic == semantic@,
{
    let mut index: usize = 0;
    while index < count
        invariant
            index <= count <= pairs.len(),
            forall|j: int|
                0 <= j < index ==> (#[trigger] bound_models(pairs@)[j]).semantic != semantic@,
        decreases count - index,
    {
        assert(bound_models(pairs@)[index as int].semantic == pairs@[index as int].0@);
        if pairs[index].0.id == semantic.id {
            return true;
        }
        index += 1;
    }
    false
}

fn place_pair(sorted: &mut Vec<(SemanticId, BlockId)>, semantic: SemanticId, block: BlockId)
    ensures
        bound_models(final(sorted)@) == place_bound(
            bound_models(old(sorted)@),
            Bound { semantic: semantic@, block: block@ },
        ),
{
    let ghost before = bound_models(sorted@);
    let ghost pair = Bound { semantic: semantic@, block: block@ };
    let mut position: usize = sorted.len();
    while position > 0 && sorted[position - 1].0.id > semantic.id
        invariant
            position <= sorted.len(),
            before == bound_models(sorted@),
            pair.semantic == semantic@,
            forall|i: int|
                position <= i < before.len() ==> (#[trigger] before[i]).semantic > pair.semantic,
        decreases position,
    {
        assert(before[position - 1].semantic == sorted@[position - 1].0@);
        position -= 1;
    }
    proof {
        if position > 0 {
            assert(before[position - 1].semantic == sorted@[position - 1].0@);
        }
        lemma_place_bound_at(before, pair, position as int);
    }
    sorted.insert(position, (semantic, block));
    assert(bound_models(sorted@) =~= before.insert(position as int, pair));
}

fn bindings_identity(pairs: &Vec<(SemanticId, BlockId)>) -> (result: String)
    ensures
        result@ == binding_identity(bound_models(pairs@)),
{
    let ghost models = bound_models(pairs@);
    let ghost tokens = |pair: Bound| pair_token(pair);
    let mut identity: String = String::new();
    let mut index: usize = 0;
    assert(models.take(0).map_values(tokens) =~= Seq::<Seq<char>>::empty());
    while index < pairs.len()
        invariant
            index <= pairs.len(),
            models == bound_models(pairs@),
            tokens == (|pair: Bound| pair_token(pair)),
            identity@ == text::joined(models.take(index as int).map_values(tokens)),
        decreases pairs.len() - index,
    {
        let semantic = pairs[index].0;
        let block = &pairs[index].1;
        let token = decimal_text(semantic.as_u32() as u64).concat(":").concat(
            size_text(length_in_bytes(block.as_str())).as_str(),
        ).concat(":").concat(block.as_str()).concat(";");
        proof {
            assert(models[index as int] == (Bound { semantic: semantic@, block: block@ }));
            let longer = models.take(index + 1).map_values(tokens);
            assert(longer.drop_last() =~= models.take(index as int).map_values(tokens));
            assert(longer.last() == token@);
        }
        identity = identity.concat(token.as_str());
        index += 1;
    }
    assert(models.take(index as int) =~= models);
    identity
}

proof fn lemma_bound_push(pairs: Seq<(SemanticId, BlockId)>, pair: (SemanticId, BlockId))
    ensures
        bound_models(pairs.push(pair)) == bound_models(pairs).push(
            Bound { semantic: pair.0@, block: pair.1@ },
        ),
{
    assert(bound_models(pairs.push(pair)) =~= bound_models(pairs).push(
        Bound { semantic: pair.0@, block: pair.1@ },
    ));
}

proof fn lemma_place_bound_at(sorted: Seq<Bound>, pair: Bound, position: int)
    requires
        0 <= position <= sorted.len(),
        forall|i: int|
            position <= i < sorted.len() ==> (#[trigger] sorted[i]).semantic > pair.semantic,
        position == 0 || sorted[position - 1].semantic <= pair.semantic,
    ensures
        place_bound(sorted, pair) == sorted.insert(position, pair),
    decreases sorted.len(),
{
    if position < sorted.len() {
        assert(sorted.last().semantic > pair.semantic);
        lemma_place_bound_at(sorted.drop_last(), pair, position);
        assert(sorted.drop_last().insert(position, pair).push(sorted.last()) =~= sorted.insert(
            position,
            pair,
        ));
    } else {
        assert(sorted.insert(position, pair) =~= sorted.push(pair));
    }
}

/// In a one-to-one binding, each side of a pair determines the other.
proof fn lemma_bound_at(pairs: Seq<Bound>, i: int)
    requires
        one_to_one(pairs),
        0 <= i < pairs.len(),
    ensures
        block_of(pairs, pairs[i].semantic) == Some(pairs[i].block),
        semantic_of(pairs, pairs[i].block) == Some(pairs[i].semantic),
{
    let semantic = pairs[i].semantic;
    let block = pairs[i].block;
    let a = choose|j: int| 0 <= j < pairs.len() && (#[trigger] pairs[j]).semantic == semantic;
    let b = choose|j: int| 0 <= j < pairs.len() && (#[trigger] pairs[j]).block == block;
    assert(a == i);
    assert(b == i);
}

/// Inserting a pair with a new id and a new block keeps a binding one to one and
/// adds exactly that pair.
proof fn lemma_place_bound_keeps(sorted: Seq<Bound>, pair: Bound)
    requires
        one_to_one(sorted),
        forall|i: int| 0 <= i < sorted.len() ==> (#[trigger] sorted[i]).semantic != pair.semantic,
        forall|i: int| 0 <= i < sorted.len() ==> (#[trigger] sorted[i]).block != pair.block,
    ensures
        one_to_one(place_bound(sorted, pair)),
        place_bound(sorted, pair).len() == sorted.len() + 1,
        forall|x: Bound|
            place_bound(sorted, pair).contains(x) <==> sorted.contains(x) || x == pair,
    decreases sorted.len(),
{
    let result = place_bound(sorted, pair);
    if sorted.len() == 0 || sorted.last().semantic <= pair.semantic {
        assert forall|x: Bound| result.contains(x) <==> sorted.contains(x) || x == pair by {
            assert(result[sorted.len() as int] == pair);
            if sorted.contains(x) {
                let i = choose|i: int| 0 <= i < sorted.len() && sorted[i] == x;
                assert(result[i] == x);
            }
        }
    } else {
        let rest = sorted.drop_last();
        let last = sorted.last();
        lemma_place_bound_keeps(rest, pair);
        let placed = place_bound(rest, pair);
        assert forall|i: int| 0 <= i < placed.len() implies (#[trigger] placed[i]).semantic
            < last.semantic && placed[i].block != last.block by {
            assert(placed.contains(placed[i]));
            if rest.contains(placed[i]) {
                let k = choose|k: int| 0 <= k < rest.len() && rest[k] == placed[i];
                assert(sorted[k] == placed[i]);
            }
        }
        assert forall|x: Bound| result.contains(x) <==> sorted.contains(x) || x == pair by {
            assert(result[placed.len() as int] == last);
            if placed.contains(x) {
                let i = choose|i: int| 0 <= i < placed.len() && placed[i] == x;
                assert(result[i] == x);
            }
            if rest.contains(x) {
                let k = choose|k: int| 0 <= k < rest.len() && rest[k] == x;
                assert(sorted[k] == x);
            }
            if sorted.contains(x) && x != last {
                let k = choose|k: int| 0 <= k < sorted.len() && sorted[k] == x;
                assert(rest[k] == x);
            }
            if result.contains(x) && x != last {
                let k = choose|k: int| 0 <= k < result.len() && result[k] == x;
                assert(placed[k] == x);
            }
        }
    }
}

proof fn lemma_by_semantic_keeps(pairs: Seq<Bound>)
    requires
        forall|i: int, j: int|
            0 <= i < j < pairs.len() ==> (#[trigger] pairs[i]).semantic != (
            #[trigger] pairs[j]).semantic,
        forall|i: int, j: int|
            0 <= i < j < pairs.len() ==> (#[trigger] pairs[i]).block != (#[trigger] pairs[j]).block,
    ensures
        one_to_one(by_semantic(pairs)),
        by_semantic(pairs).len() == pairs.len(),
        forall|x: Bound| by_semantic(pairs).contains(x) <==> pairs.contains(x),
    decreases pairs.len(),
{
    if pairs.len() > 0 {
        let rest = pairs.drop_last();
        lemma_by_semantic_keeps(rest);
        let sorted = by_semantic(rest);
        assert forall|i: int| 0 <= i < sorted.len() implies (#[trigger] sorted[i]).semantic
            != pairs.last().semantic && sorted[i].block != pairs.last().block by {
            assert(sorted.contains(sorted[i]));
            assert(rest.contains(sorted[i]));
            let k = choose|k: int| 0 <= k < rest.len() && rest[k] == sorted[i];
            assert(pairs[k] == sorted[i]);
        }
        lemma_place_bound_keeps(sorted, pairs.last());
        assert forall|x: Bound| by_semantic(pairs).contains(x) <==> pairs.contains(x) by {
            assert(pairs[pairs.len() - 1] == pairs.last());
            if rest.contains(x) {
                let k = choose|k: int| 0 <= k < rest.len() && rest[k] == x;
                assert(pairs[k] == x);
            }
            if pairs.contains(x) && x != pairs.last() {
                let k = choose|k: int| 0 <= k < pairs.len() && pairs[k] == x;
                assert(rest[k] == x);
            }
        }
    }
}

proof fn lemma_checked_one_to_one(blocks: Seq<BlockModel>, pairs: Seq<Bound>)
    requires
        forall|i: int| 0 <= i < pairs.len() ==> #[trigger] pair_failure(blocks, pairs, i) is None,
    ensures
        one_to_one(by_semantic(pairs)),
        by_semantic(pairs).len() == pairs.len(),
        forall|x: Bound| by_semantic(pairs).contains(x) <==> pairs.contains(x),
{
    assert forall|i: int, j: int| 0 <= i < j < pairs.len() implies (#[trigger] pairs[i]).semantic
        != (#[trigger] pairs[j]).semantic && pairs[i].block != pairs[j].block by {
        assert(pair_failure(blocks, pairs, j) is None);
    }
    lemma_by_semantic_keeps(pairs);
}

proof fn lemma_pair_failure_free(blocks: Seq<BlockModel>, pairs: Seq<Bound>, from: int)
    requires
        0 <= from <= pairs.len(),
        first_pair_failure(blocks, pairs, from) is None,
    ensures
        forall|i: int| from <= i < pairs.len() ==> #[trigger] pair_failure(blocks, pairs, i) is None,
    decreases pairs.len() - from,
{
    if from < pairs.len() {
        lemma_pair_failure_free(blocks, pairs, from + 1);
    }
}

/// An accepted binding holds the pairs it was made of.
pub proof fn lemma_binding_members(blocks: Seq<BlockModel>, pairs: Seq<Bound>)
    requires
        binding_of(blocks, pairs) is Ok,
    ensures
        forall|x: Bound| #[trigger]
            binding_of(blocks, pairs)->Ok_0.contains(x) <==> pairs.contains(x),
{
    lemma_pair_failure_free(blocks, pairs, 0);
    lemma_checked_one_to_one(blocks, pairs);
}

/// An accepted binding is one to one and covers the layout: every block is bound
/// to exactly one semantic id and every bound block is one of the layout's.
pub proof fn law_binding_is_total_and_injective(blocks: Seq<BlockModel>, pairs: Seq<Bound>)
    requires
        layout::tiles(blocks),
        binding_of(blocks, pairs) is Ok,
    ensures
        one_to_one(binding_of(blocks, pairs)->Ok_0),
        covers(binding_of(blocks, pairs)->Ok_0, blocks),
{
    lemma_pair_failure_free(blocks, pairs, 0);
    lemma_checked_one_to_one(blocks, pairs);
    let bound = by_semantic(pairs);
    assert forall|i: int| 0 <= i < bound.len() implies layout::has_block(
        blocks,
        (#[trigger] bound[i]).block,
    ) by {
        assert(bound.contains(bound[i]));
        assert(pairs.contains(bound[i]));
        let k = choose|k: int| 0 <= k < pairs.len() && pairs[k] == bound[i];
        assert(pair_failure(blocks, pairs, k) is None);
    }
    let names = blocks.map_values(|block: BlockModel| block.id);
    let used = bound.map_values(|pair: Bound| pair.block);
    assert(names.no_duplicates()) by {
        assert forall|i: int, j: int| 0 <= i < j < names.len() implies names[i] != names[j] by {
            assert(blocks[i].id != blocks[j].id);
        }
    }
    assert(used.no_duplicates()) by {
        assert forall|i: int, j: int| 0 <= i < j < used.len() implies used[i] != used[j] by {
            assert(bound[i].block != bound[j].block);
        }
    }
    names.unique_seq_to_set();
    used.unique_seq_to_set();
    assert(used.to_set().subset_of(names.to_set())) by {
        assert forall|x: Seq<char>| used.to_set().contains(x) implies names.to_set().contains(
            x,
        ) by {
            let i = choose|i: int| 0 <= i < used.len() && used[i] == x;
            assert(layout::has_block(blocks, bound[i].block));
            let k = choose|k: int| 0 <= k < blocks.len() && (#[trigger] blocks[k]).id == x;
            assert(names[k] == x);
        }
    }
    vstd::set_lib::lemma_subset_equality(used.to_set(), names.to_set());
    assert forall|i: int| 0 <= i < blocks.len() implies #[trigger] semantic_of(
        bound,
        blocks[i].id,
    ) is Some by {
        assert(names[i] == blocks[i].id);
        assert(names.to_set().contains(names[i]));
        assert(used.to_set().contains(blocks[i].id));
        let k = choose|k: int| 0 <= k < used.len() && used[k] == blocks[i].id;
        assert(bound[k].block == blocks[i].id);
    }
}

/// The two directions of a binding undo each other.
pub proof fn law_binding_directions_agree(pairs: Seq<Bound>, semantic: u32, block: Seq<char>)
    requires
        one_to_one(pairs),
    ensures
        block_of(pairs, semantic) == Some(block) <==> semantic_of(pairs, block) == Some(semantic),
{
    if block_of(pairs, semantic) == Some(block) {
        let i = choose|i: int| 0 <= i < pairs.len() && (#[trigger] pairs[i]).semantic == semantic;
        lemma_bound_at(pairs, i);
    }
    if semantic_of(pairs, block) == Some(semantic) {
        let i = choose|i: int| 0 <= i < pairs.len() && (#[trigger] pairs[i]).block == block;
        lemma_bound_at(pairs, i);
    }
}

proof fn lemma_pair_token_read(
    left: Bound,
    left_rest: Seq<char>,
    right: Bound,
    right_rest: Seq<char>,
)
    requires
        pair_token(left) + left_rest == pair_token(right) + right_rest,
    ensures
        left == right,
        left_rest == right_rest,
{
    reveal_strlit(":");
    reveal_strlit(";");
    let colon = seq![':'];
    let semicolon = seq![';'];
    assert(":"@ =~= colon);
    assert(";"@ =~= semicolon);
    let left2 = semicolon + left_rest;
    let left1 = left.block + left2;
    let left0 = text::decimal(text::byte_length(left.block)) + colon + left1;
    let right2 = semicolon + right_rest;
    let right1 = right.block + right2;
    let right0 = text::decimal(text::byte_length(right.block)) + colon + right1;
    assert(pair_token(left) + left_rest =~= text::decimal(left.semantic as nat) + colon + left0);
    assert(pair_token(right) + right_rest =~= text::decimal(right.semantic as nat) + colon
        + right0);
    text::lemma_numeral_split(left.semantic as nat, left0, right.semantic as nat, right0, ':');
    text::lemma_numeral_split(
        text::byte_length(left.block),
        left1,
        text::byte_length(right.block),
        right1,
        ':',
    );
    text::lemma_byte_prefix(left.block, left2, right.block, right2);
    assert(left_rest =~= left2.skip(1));
    assert(right_rest =~= right2.skip(1));
}

/// Bindings with the same identity bind the same ids to the same blocks.
pub proof fn law_binding_identity_is_injective(left: Seq<Bound>, right: Seq<Bound>)
    requires
        binding_identity(left) == binding_identity(right),
    ensures
        left == right,
    decreases left.len(),
{
    let tokens = |pair: Bound| pair_token(pair);
    let left_tokens = left.map_values(tokens);
    let right_tokens = right.map_values(tokens);
    if left.len() > 0 {
        text::lemma_joined_first(left_tokens);
        text::lemma_decimal_digits(left[0].semantic as nat);
        assert(binding_identity(left).len() > 0);
    }
    if right.len() > 0 {
        text::lemma_joined_first(right_tokens);
        text::lemma_decimal_digits(right[0].semantic as nat);
        assert(binding_identity(right).len() > 0);
    }
    if left.len() > 0 && right.len() > 0 {
        assert(left_tokens.drop_first() =~= left.drop_first().map_values(tokens));
        assert(right_tokens.drop_first() =~= right.drop_first().map_values(tokens));
        lemma_pair_token_read(
            left[0],
            binding_identity(left.drop_first()),
            right[0],
            binding_identity(right.drop_first()),
        );
        law_binding_identity_is_injective(left.drop_first(), right.drop_first());
        assert(left =~= seq![left[0]] + left.drop_first());
        assert(right =~= seq![right[0]] + right.drop_first());
    } else {
        assert(left =~= right);
    }
}

} // verus!
