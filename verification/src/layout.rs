//! Named, contiguous blocks of one flat state vector.
use crate::error::{ErrorModel, KrasisError};
use crate::text;
use crate::text::{is_blank, length_in_bytes, same_text, size_text};
use std::ops::Range;
use vstd::prelude::*;

verus! {

/// The name of a state block.
#[derive(Debug, PartialEq, Eq, PartialOrd, Ord, Hash)]
pub struct BlockId {
    name: String,
}

impl View for BlockId {
    type V = Seq<char>;

    closed spec fn view(&self) -> Seq<char> {
        self.name@
    }
}

impl BlockId {
    pub fn new(id: &str) -> (result: BlockId)
        ensures
            result@ == id@,
    {
        BlockId { name: id.to_owned() }
    }

    pub fn as_str(&self) -> (result: &str)
        ensures
            result@ == self@,
    {
        self.name.as_str()
    }
}

impl Clone for BlockId {
    fn clone(&self) -> (result: BlockId)
        ensures
            result@ == self@,
    {
        BlockId { name: self.name.clone() }
    }
}

/// A named half-open range of the state vector.
#[derive(Debug, PartialEq, Eq)]
pub struct StateBlock {
    id: BlockId,
    start: usize,
    end: usize,
}

/// A block as a mathematical value: its name and its range `start..end`.
#[verifier::ext_equal]
pub struct BlockModel {
    pub id: Seq<char>,
    pub start: nat,
    pub end: nat,
}

impl View for StateBlock {
    type V = BlockModel;

    closed spec fn view(&self) -> BlockModel {
        BlockModel { id: self.id@, start: self.start as nat, end: self.end as nat }
    }
}

impl StateBlock {
    pub fn new(id: BlockId, range: Range<usize>) -> (result: StateBlock)
        ensures
            result@ == (BlockModel {
                id: id@,
                start: range.start as nat,
                end: range.end as nat,
            }),
    {
        StateBlock { id, start: range.start, end: range.end }
    }

    pub fn id(&self) -> (result: &BlockId)
        ensures
            result@ == self@.id,
    {
        &self.id
    }

    pub fn range(&self) -> (result: Range<usize>)
        ensures
            result.start == self@.start,
            result.end == self@.end,
    {
        self.start..self.end
    }

    pub(crate) fn start(&self) -> (result: usize)
        ensures
            result == self@.start,
    {
        self.start
    }

    pub(crate) fn end(&self) -> (result: usize)
        ensures
            result == self@.end,
    {
        self.end
    }
}

impl Clone for StateBlock {
    fn clone(&self) -> (result: StateBlock)
        ensures
            result@ == self@,
    {
        StateBlock { id: self.id.clone(), start: self.start, end: self.end }
    }
}

/// The blocks as mathematical values.
pub open spec fn block_models(blocks: Seq<StateBlock>) -> Seq<BlockModel> {
    blocks.map_values(|block: StateBlock| block@)
}

/// `sorted` with `block` put behind every block that starts no later.
pub open spec fn place(sorted: Seq<BlockModel>, block: BlockModel) -> Seq<BlockModel>
    decreases sorted.len(),
{
    if sorted.len() == 0 || sorted.last().start <= block.start {
        sorted.push(block)
    } else {
        place(sorted.drop_last(), block).push(sorted.last())
    }
}

/// The blocks in the order of their starts; blocks of one start keep their order.
pub open spec fn by_start(blocks: Seq<BlockModel>) -> Seq<BlockModel>
    decreases blocks.len(),
{
    if blocks.len() == 0 {
        blocks
    } else {
        place(by_start(blocks.drop_last()), blocks.last())
    }
}

/// Where the block before position `i` ends.
pub open spec fn previous_end(blocks: Seq<BlockModel>, i: int) -> nat {
    if i == 0 {
        0
    } else {
        blocks[i - 1].end
    }
}

/// What is wrong with the block at position `i`, given the blocks before it.
pub open spec fn block_failure(blocks: Seq<BlockModel>, i: int) -> Option<ErrorModel> {
    let block = blocks[i];
    if text::blank(block.id) {
        Some(ErrorModel::EmptyBlockId)
    } else if block.start >= block.end {
        Some(ErrorModel::EmptyBlock(block.id))
    } else if exists|j: int| 0 <= j < i && (#[trigger] blocks[j]).id == block.id {
        Some(ErrorModel::DuplicateBlock(block.id))
    } else if block.start < previous_end(blocks, i) {
        Some(
            ErrorModel::OverlappingBlock { block: block.id, start: block.start, end: block.end },
        )
    } else if block.start > previous_end(blocks, i) {
        Some(ErrorModel::BlockGap { expected: previous_end(blocks, i), actual: block.start })
    } else {
        None
    }
}

/// The first failure at or after position `from`.
pub open spec fn first_failure(blocks: Seq<BlockModel>, from: int) -> Option<ErrorModel>
    decreases blocks.len() - from,
{
    if from >= blocks.len() {
        None
    } else if block_failure(blocks, from) is Some {
        block_failure(blocks, from)
    } else {
        first_failure(blocks, from + 1)
    }
}

/// The layout that the blocks describe, or why they describe none.
pub open spec fn layout_of(blocks: Seq<BlockModel>) -> Result<Seq<BlockModel>, ErrorModel> {
    if blocks.len() == 0 {
        Err(ErrorModel::EmptyLayout)
    } else {
        match first_failure(by_start(blocks), 0) {
            Some(failure) => Err(failure),
            None => Ok(by_start(blocks)),
        }
    }
}

/// Blocks that tile `0..width` in order, each named once by a name that is not blank.
pub open spec fn tiles(blocks: Seq<BlockModel>) -> bool {
    &&& blocks.len() > 0
    &&& forall|i: int|
        0 <= i < blocks.len() ==> {
            &&& !text::blank((#[trigger] blocks[i]).id)
            &&& blocks[i].start < blocks[i].end
        }
    &&& forall|i: int|
        0 <= i < blocks.len() ==> blocks[i].start == #[trigger] previous_end(blocks, i)
    &&& forall|i: int, j: int|
        0 <= i < j < blocks.len() ==> (#[trigger] blocks[i]).id != (#[trigger] blocks[j]).id
}

/// The end of the last block.
pub open spec fn width_of(blocks: Seq<BlockModel>) -> nat {
    if blocks.len() == 0 {
        0
    } else {
        blocks.last().end
    }
}

/// Whether a block of the given name is there.
pub open spec fn has_block(blocks: Seq<BlockModel>, id: Seq<char>) -> bool {
    exists|i: int| 0 <= i < blocks.len() && (#[trigger] blocks[i]).id == id
}

/// The identity text of one block.
pub open spec fn block_token(block: BlockModel) -> Seq<char> {
    text::decimal(text::byte_length(block.id)) + ":"@ + block.id + ":"@ + text::decimal(block.start)
        + ":"@ + text::decimal(block.end) + ";"@
}

/// The identity text of a layout: its block tokens in order.
pub open spec fn identity_of(blocks: Seq<BlockModel>) -> Seq<char> {
    text::joined(blocks.map_values(|block: BlockModel| block_token(block)))
}

/// A state vector tiled by named blocks.
#[derive(Debug, PartialEq, Eq)]
pub struct StateLayout {
    blocks: Vec<StateBlock>,
    width: usize,
    identity: String,
}

impl View for StateLayout {
    type V = Seq<BlockModel>;

    closed spec fn view(&self) -> Seq<BlockModel> {
        block_models(self.blocks@)
    }
}

impl StateLayout {
    /// The blocks tile the state vector; width and identity are theirs.
    pub closed spec fn wf(&self) -> bool {
        &&& tiles(self@)
        &&& self.width == width_of(self@)
        &&& self.identity@ == identity_of(self@)
    }

    pub proof fn lemma_wf(&self)
        requires
            self.wf(),
        ensures
            tiles(self@),
            self@.len() <= usize::MAX,
            width_of(self@) <= usize::MAX,
    {
        assert(self@.len() == self.blocks.len());
    }

    /// Orders the blocks by their starts and checks that they tile the state vector.
    pub fn new(blocks: Vec<StateBlock>) -> (result: Result<StateLayout, KrasisError>)
        ensures
            match layout_of(block_models(blocks@)) {
                Ok(model) => result matches Ok(layout) && layout@ == model && layout.wf(),
                Err(failure) => result matches Err(error) && error@ == failure,
            },
    {
        if blocks.len() == 0 {
            return Err(KrasisError::EmptyLayout);
        }
        let ghost given = block_models(blocks@);
        let sorted = sort_blocks(blocks);
        let ghost models = block_models(sorted@);
        proof {
            lemma_by_start_length(given);
        }
        let mut index: usize = 0;
        let mut end: usize = 0;
        let mut identity: String = String::new();
        assert(identity@ =~= identity_of(models.take(0)));
        while index < sorted.len()
            invariant
                index <= sorted.len(),
                given == block_models(blocks@),
                given.len() > 0,
                models == by_start(given),
                models == block_models(sorted@),
                models.len() == sorted.len(),
                end == previous_end(models, index as int),
                identity@ == identity_of(models.take(index as int)),
                first_failure(models, 0) == first_failure(models, index as int),
                forall|i: int| 0 <= i < index ==> #[trigger] block_failure(models, i) is None,
            decreases sorted.len() - index,
        {
            let block = &sorted[index];
            assert(models[index as int] == block@);
            if is_blank(block.id.as_str()) {
                return Err(KrasisError::EmptyBlockId);
            }
            if block.start >= block.end {
                return Err(KrasisError::EmptyBlock(block.id.name.clone()));
            }
            if names_one_of(&sorted, index, &block.id) {
                return Err(KrasisError::DuplicateBlock(block.id.name.clone()));
            }
            if block.start < end {
                return Err(
                    KrasisError::OverlappingBlock {
                        block: block.id.name.clone(),
                        start: block.start,
                        end: block.end,
                    },
                );
            }
            if block.start > end {
                return Err(KrasisError::BlockGap { expected: end, actual: block.start });
            }
            end = block.end;
            let token = size_text(length_in_bytes(block.id.as_str())).concat(":").concat(
                block.id.as_str(),
            ).concat(":").concat(size_text(block.start).as_str()).concat(":").concat(
                size_text(block.end).as_str(),
            ).concat(";");
            proof {
                lemma_identity_grows(models, index as int);
            }
            identity = identity.concat(token.as_str());
            index += 1;
        }
        proof {
            lemma_checked_tiles(models);
            assert(models.take(models.len() as int) =~= models);
        }
        Ok(StateLayout { blocks: sorted, width: end, identity })
    }

    pub fn blocks(&self) -> (result: &Vec<StateBlock>)
        ensures
            block_models(result@) == self@,
    {
        &self.blocks
    }

    /// The block of the given name.
    pub fn block(&self, id: &BlockId) -> (result: Option<&StateBlock>)
        ensures
            match result {
                Some(block) => block@.id == id@ && self@.contains(block@),
                None => !has_block(self@, id@),
            },
    {
        match self.find(id.as_str()) {
            Some(index) => {
                assert(self@[index as int] == self.blocks@[index as int]@);
                Some(&self.blocks[index])
            },
            None => None,
        }
    }

    /// The position of the block of the given name.
    pub(crate) fn find(&self, id: &str) -> (result: Option<usize>)
        ensures
            match result {
                Some(index) => index < self@.len() && self@[index as int].id == id@,
                None => !has_block(self@, id@),
            },
    {
        let mut index: usize = 0;
        while index < self.blocks.len()
            invariant
                index <= self.blocks.len(),
                forall|i: int| 0 <= i < index ==> (#[trigger] self@[i]).id != id@,
            decreases self.blocks.len() - index,
        {
            assert(self@[index as int] == self.blocks@[index as int]@);
            if same_text(self.blocks[index].id.as_str(), id) {
                return Some(index);
            }
            index += 1;
        }
        None
    }

    pub fn width(&self) -> (result: usize)
        requires
            self.wf(),
        ensures
            result == width_of(self@),
    {
        self.width
    }

    pub fn identity(&self) -> (result: &str)
        requires
            self.wf(),
        ensures
            result@ == identity_of(self@),
    {
        self.identity.as_str()
    }
}

impl Clone for StateLayout {
    fn clone(&self) -> (result: StateLayout)
        ensures
            result@ == self@,
            self.wf() ==> result.wf(),
    {
        let mut blocks: Vec<StateBlock> = Vec::new();
        let mut index: usize = 0;
        while index < self.blocks.len()
            invariant
                index <= self.blocks.len(),
                block_models(blocks@) == self@.take(index as int),
            decreases self.blocks.len() - index,
        {
            assert(self@[index as int] == self.blocks@[index as int]@);
            let block = self.blocks[index].clone();
            proof {
                lemma_models_push(blocks@, block);
                assert(self@.take(index + 1) =~= self@.take(index as int).push(block@));
            }
            blocks.push(block);
            index += 1;
        }
        assert(self@.take(index as int) =~= self@);
        StateLayout { blocks, width: self.width, identity: self.identity.clone() }
    }
}

/// Whether one of the first `count` blocks has the name.
fn names_one_of(blocks: &Vec<StateBlock>, count: usize, id: &BlockId) -> (result: bool)
    requires
        count <= blocks.len(),
    ensures
        result == exists|j: int|
            0 <= j < count && (#[trigger] block_models(blocks@)[j]).id == id@,
{
    let mut index: usize = 0;
    while index < count
        invariant
            index <= count <= blocks.len(),
            forall|j: int| 0 <= j < index ==> (#[trigger] block_models(blocks@)[j]).id != id@,
        decreases count - index,
    {
        assert(block_models(blocks@)[index as int] == blocks@[index as int]@);
        if same_text(blocks[index].id.as_str(), id.as_str()) {
            return true;
        }
        index += 1;
    }
    false
}

fn place_block(sorted: &mut Vec<StateBlock>, block: StateBlock)
    ensures
        block_models(final(sorted)@) == place(block_models(old(sorted)@), block@),
{
    let ghost before = block_models(sorted@);
    let mut position: usize = sorted.len();
    while position > 0 && sorted[position - 1].start > block.start
        invariant
            position <= sorted.len(),
            before == block_models(sorted@),
            forall|i: int| position <= i < before.len() ==> (#[trigger] before[i]).start > block@.start,
        decreases position,
    {
        assert(before[position - 1] == sorted@[position - 1]@);
        position -= 1;
    }
    proof {
        if position > 0 {
            assert(before[position - 1] == sorted@[position - 1]@);
        }
        lemma_place_at(before, block@, position as int);
    }
    sorted.insert(position, block);
    assert(block_models(sorted@) =~= before.insert(position as int, block@));
}

fn sort_blocks(blocks: Vec<StateBlock>) -> (result: Vec<StateBlock>)
    ensures
        block_models(result@) == by_start(block_models(blocks@)),
{
    let mut rest = blocks;
    let mut sorted: Vec<StateBlock> = Vec::new();
    let ghost models = block_models(blocks@);
    let ghost mut done: int = 0;
    assert(block_models(sorted@) =~= by_start(models.take(0)));
    while rest.len() > 0
        invariant
            0 <= done,
            done + rest.len() == models.len(),
            block_models(rest@) == models.skip(done),
            block_models(sorted@) == by_start(models.take(done)),
        decreases rest.len(),
    {
        let ghost waiting = rest@;
        let block = rest.remove(0);
        proof {
            assert(block@ == block_models(waiting)[0]);
            assert(rest@ =~= waiting.skip(1));
            assert(block_models(waiting.skip(1)) =~= block_models(waiting).skip(1));
            assert(block@ == models.skip(done)[0]);
            assert(models.take(done + 1).drop_last() =~= models.take(done));
            assert(models.take(done + 1).last() == block@);
            assert(block_models(rest@) =~= models.skip(done + 1));
            done = done + 1;
        }
        place_block(&mut sorted, block);
    }
    assert(models.take(done) =~= models);
    sorted
}

proof fn lemma_models_push(blocks: Seq<StateBlock>, block: StateBlock)
    ensures
        block_models(blocks.push(block)) == block_models(blocks).push(block@),
{
    assert(block_models(blocks.push(block)) =~= block_models(blocks).push(block@));
}

proof fn lemma_place_at(sorted: Seq<BlockModel>, block: BlockModel, position: int)
    requires
        0 <= position <= sorted.len(),
        forall|i: int| position <= i < sorted.len() ==> (#[trigger] sorted[i]).start > block.start,
        position == 0 || sorted[position - 1].start <= block.start,
    ensures
        place(sorted, block) == sorted.insert(position, block),
    decreases sorted.len(),
{
    if position < sorted.len() {
        assert(sorted.last().start > block.start);
        lemma_place_at(sorted.drop_last(), block, position);
        assert(sorted.drop_last().insert(position, block).push(sorted.last()) =~= sorted.insert(
            position,
            block,
        ));
    } else {
        assert(sorted.insert(position, block) =~= sorted.push(block));
    }
}

proof fn lemma_by_start_length(blocks: Seq<BlockModel>)
    ensures
        by_start(blocks).len() == blocks.len(),
    decreases blocks.len(),
{
    if blocks.len() > 0 {
        lemma_by_start_length(blocks.drop_last());
        lemma_place_length(by_start(blocks.drop_last()), blocks.last());
    }
}

proof fn lemma_place_length(sorted: Seq<BlockModel>, block: BlockModel)
    ensures
        place(sorted, block).len() == sorted.len() + 1,
    decreases sorted.len(),
{
    if sorted.len() > 0 && sorted.last().start > block.start {
        lemma_place_length(sorted.drop_last(), block);
    }
}

proof fn lemma_identity_grows(blocks: Seq<BlockModel>, count: int)
    requires
        0 <= count < blocks.len(),
    ensures
        identity_of(blocks.take(count + 1)) == identity_of(blocks.take(count)) + block_token(
            blocks[count],
        ),
{
    let tokens = |block: BlockModel| block_token(block);
    let longer = blocks.take(count + 1).map_values(tokens);
    assert(longer.drop_last() =~= blocks.take(count).map_values(tokens));
    assert(longer.last() == block_token(blocks[count]));
}

proof fn lemma_checked_tiles(blocks: Seq<BlockModel>)
    requires
        blocks.len() > 0,
        forall|i: int| 0 <= i < blocks.len() ==> #[trigger] block_failure(blocks, i) is None,
    ensures
        tiles(blocks),
{
    assert forall|i: int| 0 <= i < blocks.len() implies {
        &&& !text::blank((#[trigger] blocks[i]).id)
        &&& blocks[i].start < blocks[i].end
    } by {
        assert(block_failure(blocks, i) is None);
    }
    assert forall|i: int| 0 <= i < blocks.len() implies blocks[i].start == #[trigger] previous_end(
        blocks,
        i,
    ) by {
        assert(block_failure(blocks, i) is None);
    }
    assert forall|i: int, j: int| 0 <= i < j < blocks.len() implies (#[trigger] blocks[i]).id != (
    #[trigger] blocks[j]).id by {
        assert(block_failure(blocks, j) is None);
    }
}

proof fn lemma_failure_free(blocks: Seq<BlockModel>, from: int)
    requires
        0 <= from <= blocks.len(),
        first_failure(blocks, from) is None,
    ensures
        forall|i: int| from <= i < blocks.len() ==> #[trigger] block_failure(blocks, i) is None,
    decreases blocks.len() - from,
{
    if from < blocks.len() {
        lemma_failure_free(blocks, from + 1);
    }
}

/// Accepted blocks tile the state vector, whatever order they were given in.
pub proof fn law_accepted_layout_tiles(blocks: Seq<BlockModel>)
    requires
        layout_of(blocks) is Ok,
    ensures
        tiles(layout_of(blocks)->Ok_0),
        layout_of(blocks)->Ok_0.len() == blocks.len(),
{
    let sorted = by_start(blocks);
    lemma_by_start_length(blocks);
    lemma_failure_free(sorted, 0);
    lemma_checked_tiles(sorted);
}

/// What stands behind the name of a block in its token, and behind the token.
spec fn token_end(block: BlockModel, rest: Seq<char>) -> Seq<char> {
    text::decimal(block.end) + seq![';'] + rest
}

spec fn token_middle(block: BlockModel, rest: Seq<char>) -> Seq<char> {
    text::decimal(block.start) + seq![':'] + token_end(block, rest)
}

proof fn lemma_token_shape(block: BlockModel, rest: Seq<char>)
    ensures
        block_token(block) + rest == text::decimal(text::byte_length(block.id)) + seq![':'] + (
        block.id + (seq![':'] + token_middle(block, rest))),
{
    reveal_strlit(":");
    reveal_strlit(";");
    let colon = seq![':'];
    assert(":"@ =~= colon);
    assert(";"@ =~= seq![';']);
    let head = text::decimal(text::byte_length(block.id)) + colon;
    let named = head + block.id;
    let begun = named + colon + text::decimal(block.start);
    let ended = begun + colon + text::decimal(block.end);
    assert(block_token(block) == ended + seq![';']);
    assert(ended + seq![';'] + rest =~= begun + colon + token_end(block, rest));
    assert(begun + colon + token_end(block, rest) =~= named + colon + token_middle(block, rest));
    assert(named + colon + token_middle(block, rest) =~= head + (block.id + (colon
        + token_middle(block, rest))));
}

proof fn lemma_token_read(
    left: BlockModel,
    left_rest: Seq<char>,
    right: BlockModel,
    right_rest: Seq<char>,
)
    requires
        block_token(left) + left_rest == block_token(right) + right_rest,
    ensures
        left == right,
        left_rest == right_rest,
{
    let colon = seq![':'];
    lemma_token_shape(left, left_rest);
    lemma_token_shape(right, right_rest);
    let left_middle = token_middle(left, left_rest);
    let right_middle = token_middle(right, right_rest);
    text::lemma_numeral_split(
        text::byte_length(left.id),
        left.id + (colon + left_middle),
        text::byte_length(right.id),
        right.id + (colon + right_middle),
        ':',
    );
    text::lemma_byte_prefix(left.id, colon + left_middle, right.id, colon + right_middle);
    assert(left_middle =~= (colon + left_middle).skip(1));
    assert(right_middle =~= (colon + right_middle).skip(1));
    text::lemma_numeral_split(
        left.start,
        token_end(left, left_rest),
        right.start,
        token_end(right, right_rest),
        ':',
    );
    text::lemma_numeral_split(left.end, left_rest, right.end, right_rest, ';');
}

/// Layouts with the same identity have the same blocks, in the same order.
pub proof fn law_layout_identity_is_injective(left: Seq<BlockModel>, right: Seq<BlockModel>)
    requires
        identity_of(left) == identity_of(right),
    ensures
        left == right,
    decreases left.len(),
{
    let tokens = |block: BlockModel| block_token(block);
    let left_tokens = left.map_values(tokens);
    let right_tokens = right.map_values(tokens);
    if left.len() > 0 {
        text::lemma_joined_first(left_tokens);
        text::lemma_decimal_digits(text::byte_length(left[0].id));
        assert(identity_of(left).len() > 0);
    }
    if right.len() > 0 {
        text::lemma_joined_first(right_tokens);
        text::lemma_decimal_digits(text::byte_length(right[0].id));
        assert(identity_of(right).len() > 0);
    }
    if left.len() > 0 && right.len() > 0 {
        assert(left_tokens.drop_first() =~= left.drop_first().map_values(tokens));
        assert(right_tokens.drop_first() =~= right.drop_first().map_values(tokens));
        lemma_token_read(
            left[0],
            identity_of(left.drop_first()),
            right[0],
            identity_of(right.drop_first()),
        );
        law_layout_identity_is_injective(left.drop_first(), right.drop_first());
        assert(left =~= seq![left[0]] + left.drop_first());
        assert(right =~= seq![right[0]] + right.drop_first());
    } else {
        assert(left =~= right);
    }
}

} // verus!
