//! The simulation state as a mathematical value, its transitions and their laws.
use crate::error::ErrorModel;
use crate::layout;
use crate::layout::BlockModel;
use crate::scalar;
use crate::scalar::Scalar;
use crate::text;
use vstd::prelude::*;

verus! {

/// Whether a trial is open.
#[derive(Clone, Copy, Debug, PartialEq, Eq, Structural)]
pub enum TransactionPhase {
    Committed,
    Trial,
}

/// A named slot: its committed values, its trial values while a trial is open,
/// and its earlier committed values, newest first.
#[verifier::ext_equal]
pub struct SlotModel {
    pub name: Seq<char>,
    pub committed: Seq<Scalar>,
    pub trial: Option<Seq<Scalar>>,
    pub history: Seq<Seq<Scalar>>,
}

#[verifier::ext_equal]
pub struct StateModel {
    pub layout: Seq<BlockModel>,
    pub phase: TransactionPhase,
    pub history_limit: nat,
    pub time: Scalar,
    pub step: u64,
    pub fields: Seq<SlotModel>,
    pub constitutive: Seq<SlotModel>,
}

/// An empty committed state at time zero.
pub open spec fn fresh(blocks: Seq<BlockModel>, history_limit: nat) -> StateModel {
    StateModel {
        layout: blocks,
        phase: TransactionPhase::Committed,
        history_limit,
        time: Scalar::nil(),
        step: 0,
        fields: Seq::empty(),
        constitutive: Seq::empty(),
    }
}

pub open spec fn has_slot(slots: Seq<SlotModel>, name: Seq<char>) -> bool {
    exists|i: int| 0 <= i < slots.len() && (#[trigger] slots[i]).name == name
}

pub open spec fn slot_index(slots: Seq<SlotModel>, name: Seq<char>) -> int {
    choose|i: int| 0 <= i < slots.len() && (#[trigger] slots[i]).name == name
}

/// The slot of the given name.
pub open spec fn slot_of(slots: Seq<SlotModel>, name: Seq<char>) -> SlotModel {
    slots[slot_index(slots, name)]
}

/// Slots in strictly increasing name order.
pub open spec fn ordered(slots: Seq<SlotModel>) -> bool {
    forall|i: int, j: int|
        0 <= i < j < slots.len() ==> text::precedes(
            (#[trigger] slots[i]).name,
            (#[trigger] slots[j]).name,
        )
}

/// `slots` with `slot` put before the first slot whose name it precedes.
pub open spec fn place_slot(slots: Seq<SlotModel>, slot: SlotModel) -> Seq<SlotModel>
    decreases slots.len(),
{
    if slots.len() == 0 || !text::precedes(slot.name, slots.last().name) {
        slots.push(slot)
    } else {
        place_slot(slots.drop_last(), slot).push(slots.last())
    }
}

/// The width of the block of the given name.
pub open spec fn block_width(blocks: Seq<BlockModel>, id: Seq<char>) -> Option<int> {
    if layout::has_block(blocks, id) {
        let i = choose|i: int| 0 <= i < blocks.len() && (#[trigger] blocks[i]).id == id;
        Some(blocks[i].end - blocks[i].start)
    } else {
        None
    }
}

/// Values of the slot's length, all finite.
pub open spec fn fits(slot: SlotModel, values: Seq<Scalar>) -> bool {
    values.len() == slot.committed.len() && scalar::all_finite(values)
}

/// What one slot keeps: every value finite and of one length, a trial exactly
/// while one is open, no more history than the limit.
pub open spec fn slot_consistent(slot: SlotModel, phase: TransactionPhase, limit: nat) -> bool {
    &&& scalar::all_finite(slot.committed)
    &&& match slot.trial {
        Some(values) => phase == TransactionPhase::Trial && fits(slot, values),
        None => phase == TransactionPhase::Committed,
    }
    &&& slot.history.len() <= limit
    &&& forall|i: int| 0 <= i < slot.history.len() ==> fits(slot, #[trigger] slot.history[i])
}

pub open spec fn slots_consistent(
    slots: Seq<SlotModel>,
    phase: TransactionPhase,
    limit: nat,
) -> bool {
    &&& ordered(slots)
    &&& forall|i: int| 0 <= i < slots.len() ==> slot_consistent(#[trigger] slots[i], phase, limit)
}

/// The label that failures give a field.
pub open spec fn field_label(name: Seq<char>) -> Seq<char> {
    "field `"@ + name + "`"@
}

/// The label that failures give a constitutive slot.
pub open spec fn constitutive_label(name: Seq<char>) -> Seq<char> {
    "constitutive slot `"@ + name + "`"@
}

/// What is wrong with values that should have the given length.
#[verifier::opaque]
pub open spec fn values_failure(
    name: Seq<char>,
    label: Seq<char>,
    values: Seq<Scalar>,
    expected: int,
) -> Option<ErrorModel> {
    if values.len() != expected {
        Some(
            ErrorModel::FieldLength {
                field: name,
                actual: values.len(),
                expected: expected as nat,
            },
        )
    } else if !scalar::all_finite(values) {
        Some(
            ErrorModel::NonFiniteValue {
                label,
                index: (choose|i: int| scalar::first_non_finite(values, i)) as nat,
            },
        )
    } else {
        None
    }
}

pub open spec fn opened(slot: SlotModel) -> SlotModel {
    SlotModel { trial: Some(slot.committed), ..slot }
}

pub open spec fn dropped(slot: SlotModel) -> SlotModel {
    SlotModel { trial: None, ..slot }
}

/// The newest `limit` of the committed values and the earlier ones.
pub open spec fn recent(
    committed: Seq<Scalar>,
    history: Seq<Seq<Scalar>>,
    limit: nat,
) -> Seq<Seq<Scalar>> {
    let longer = seq![committed] + history;
    if longer.len() <= limit {
        longer
    } else {
        longer.take(limit as int)
    }
}

pub open spec fn advanced(slot: SlotModel, limit: nat) -> SlotModel {
    SlotModel {
        name: slot.name,
        committed: slot.trial->Some_0,
        trial: None,
        history: recent(slot.committed, slot.history, limit),
    }
}

/// Whether every block has a field.
pub open spec fn filled(blocks: Seq<BlockModel>, fields: Seq<SlotModel>) -> bool {
    forall|i: int| 0 <= i < blocks.len() ==> has_slot(fields, (#[trigger] blocks[i]).id)
}

/// The first block without a field.
pub open spec fn first_missing(blocks: Seq<BlockModel>, fields: Seq<SlotModel>, i: int) -> bool {
    &&& 0 <= i < blocks.len()
    &&& !has_slot(fields, blocks[i].id)
    &&& forall|j: int| 0 <= j < i ==> has_slot(fields, (#[trigger] blocks[j]).id)
}

pub open spec fn missing_failure(blocks: Seq<BlockModel>, fields: Seq<SlotModel>) -> ErrorModel {
    ErrorModel::MissingField(blocks[choose|i: int| first_missing(blocks, fields, i)].id)
}

/// Whether `vector` holds, block by block, the committed values of the blocks' fields.
pub open spec fn flattens(
    vector: Seq<Scalar>,
    blocks: Seq<BlockModel>,
    fields: Seq<SlotModel>,
) -> bool {
    &&& vector.len() == layout::width_of(blocks)
    &&& forall|k: int|
        0 <= k < blocks.len() ==> vector.subrange(
            (#[trigger] blocks[k]).start as int,
            blocks[k].end as int,
        ) == slot_of(fields, blocks[k].id).committed
}

/// Whether `vector` holds, block by block, one history level of the blocks' fields.
pub open spec fn flattens_level(
    vector: Seq<Scalar>,
    blocks: Seq<BlockModel>,
    fields: Seq<SlotModel>,
    level: int,
) -> bool {
    &&& vector.len() == layout::width_of(blocks)
    &&& forall|k: int|
        0 <= k < blocks.len() ==> vector.subrange(
            (#[trigger] blocks[k]).start as int,
            blocks[k].end as int,
        ) == slot_of(fields, blocks[k].id).history[level]
}

/// Whether every block's field has the given history level.
pub open spec fn has_level(blocks: Seq<BlockModel>, fields: Seq<SlotModel>, level: int) -> bool {
    forall|k: int|
        0 <= k < blocks.len() ==> slot_of(fields, (#[trigger] blocks[k]).id).history.len() > level
}

/// The slot with its block's part of `vector` as its trial.
pub open spec fn scattered(
    slot: SlotModel,
    blocks: Seq<BlockModel>,
    vector: Seq<Scalar>,
) -> SlotModel {
    let i = choose|i: int| 0 <= i < blocks.len() && (#[trigger] blocks[i]).id == slot.name;
    SlotModel {
        trial: Some(vector.subrange(blocks[i].start as int, blocks[i].end as int)),
        ..slot
    }
}

impl StateModel {
    /// The invariant of a state.
    #[verifier::opaque]
    pub open spec fn consistent(self) -> bool {
        &&& layout::tiles(self.layout)
        &&& self.time.finite()
        &&& slots_consistent(self.fields, self.phase, self.history_limit)
        &&& slots_consistent(self.constitutive, self.phase, 0)
        &&& forall|i: int|
            0 <= i < self.fields.len() ==> block_width(
                self.layout,
                (#[trigger] self.fields[i]).name,
            ) == Some(self.fields[i].committed.len() as int)
    }

    pub open spec fn insert_field(self, name: Seq<char>, values: Seq<Scalar>) -> Result<
        StateModel,
        ErrorModel,
    > {
        let slot = SlotModel { name, committed: values, trial: None, history: Seq::empty() };
        if self.phase == TransactionPhase::Trial {
            Err(ErrorModel::StructureDuringTrial)
        } else if has_slot(self.fields, name) {
            Err(ErrorModel::DuplicateField(name))
        } else {
            match block_width(self.layout, name) {
                None => Err(ErrorModel::FieldOutsideLayout(name)),
                Some(width) => match values_failure(name, field_label(name), values, width) {
                    Some(failure) => Err(failure),
                    None => Ok(StateModel { fields: place_slot(self.fields, slot), ..self }),
                },
            }
        }
    }

    pub open spec fn insert_constitutive(self, name: Seq<char>, values: Seq<Scalar>) -> Result<
        StateModel,
        ErrorModel,
    > {
        let slot = SlotModel { name, committed: values, trial: None, history: Seq::empty() };
        if self.phase == TransactionPhase::Trial {
            Err(ErrorModel::StructureDuringTrial)
        } else if has_slot(self.constitutive, name) {
            Err(ErrorModel::DuplicateConstitutive(name))
        } else {
            match values_failure(name, constitutive_label(name), values, values.len() as int) {
                Some(failure) => Err(failure),
                None => Ok(
                    StateModel { constitutive: place_slot(self.constitutive, slot), ..self },
                ),
            }
        }
    }

    pub open spec fn begin_trial(self) -> Result<StateModel, ErrorModel> {
        if self.phase == TransactionPhase::Trial {
            Err(ErrorModel::TrialAlreadyActive)
        } else {
            Ok(
                StateModel {
                    phase: TransactionPhase::Trial,
                    fields: self.fields.map_values(|slot: SlotModel| opened(slot)),
                    constitutive: self.constitutive.map_values(|slot: SlotModel| opened(slot)),
                    ..self
                },
            )
        }
    }

    pub open spec fn set_trial(self, name: Seq<char>, values: Seq<Scalar>) -> Result<
        StateModel,
        ErrorModel,
    > {
        let slot = slot_of(self.fields, name);
        if self.phase != TransactionPhase::Trial {
            Err(ErrorModel::NoActiveTrial)
        } else if !has_slot(self.fields, name) {
            Err(ErrorModel::UnknownField(name))
        } else {
            match values_failure(name, field_label(name), values, slot.committed.len() as int) {
                Some(failure) => Err(failure),
                None => Ok(
                    StateModel {
                        fields: self.fields.update(
                            slot_index(self.fields, name),
                            SlotModel { trial: Some(values), ..slot },
                        ),
                        ..self
                    },
                ),
            }
        }
    }

    pub open spec fn set_constitutive_trial(self, name: Seq<char>, values: Seq<Scalar>) -> Result<
        StateModel,
        ErrorModel,
    > {
        let slot = slot_of(self.constitutive, name);
        if self.phase != TransactionPhase::Trial {
            Err(ErrorModel::NoActiveTrial)
        } else if !has_slot(self.constitutive, name) {
            Err(ErrorModel::UnknownConstitutive(name))
        } else {
            match values_failure(
                name,
                constitutive_label(name),
                values,
                slot.committed.len() as int,
            ) {
                Some(failure) => Err(failure),
                None => Ok(
                    StateModel {
                        constitutive: self.constitutive.update(
                            slot_index(self.constitutive, name),
                            SlotModel { trial: Some(values), ..slot },
                        ),
                        ..self
                    },
                ),
            }
        }
    }

    pub open spec fn set_trial_vector(self, values: Seq<Scalar>) -> Result<
        StateModel,
        ErrorModel,
    > {
        if self.phase != TransactionPhase::Trial {
            Err(ErrorModel::NoActiveTrial)
        } else {
            match values_failure(
                "state vector"@,
                "state vector"@,
                values,
                layout::width_of(self.layout) as int,
            ) {
                Some(failure) => Err(failure),
                None => if !filled(self.layout, self.fields) {
                    Err(missing_failure(self.layout, self.fields))
                } else {
                    Ok(
                        StateModel {
                            fields: self.fields.map_values(
                                |slot: SlotModel| scattered(slot, self.layout, values),
                            ),
                            ..self
                        },
                    )
                },
            }
        }
    }

    pub open spec fn commit(self, time: Scalar) -> Result<StateModel, ErrorModel> {
        if self.phase != TransactionPhase::Trial {
            Err(ErrorModel::NoActiveTrial)
        } else if !time.finite() || time.below(self.time) {
            Err(ErrorModel::InvalidCommitTime { time, current: self.time })
        } else if self.step == u64::MAX {
            Err(ErrorModel::StepOverflow)
        } else {
            Ok(
                StateModel {
                    phase: TransactionPhase::Committed,
                    time,
                    step: (self.step + 1) as u64,
                    fields: self.fields.map_values(
                        |slot: SlotModel| advanced(slot, self.history_limit),
                    ),
                    constitutive: self.constitutive.map_values(
                        |slot: SlotModel| advanced(slot, 0),
                    ),
                    ..self
                },
            )
        }
    }

    /// A whole transaction: a trial opened, set from a vector and committed.
    pub open spec fn commit_vector(self, values: Seq<Scalar>, time: Scalar) -> Result<
        StateModel,
        ErrorModel,
    > {
        match self.begin_trial() {
            Err(failure) => Err(failure),
            Ok(trial) => match trial.set_trial_vector(values) {
                Err(failure) => Err(failure),
                Ok(filled) => filled.commit(time),
            },
        }
    }

    pub open spec fn rollback(self) -> Result<StateModel, ErrorModel> {
        if self.phase != TransactionPhase::Trial {
            Err(ErrorModel::NoActiveTrial)
        } else {
            Ok(
                StateModel {
                    phase: TransactionPhase::Committed,
                    fields: self.fields.map_values(|slot: SlotModel| dropped(slot)),
                    constitutive: self.constitutive.map_values(|slot: SlotModel| dropped(slot)),
                    ..self
                },
            )
        }
    }
}

/// What consistency says of the whole state.
pub proof fn lemma_consistent(state: StateModel)
    requires
        state.consistent(),
    ensures
        layout::tiles(state.layout),
        state.time.finite(),
        ordered(state.fields),
        ordered(state.constitutive),
{
    reveal(StateModel::consistent);
}

/// What consistency says of one field.
pub proof fn lemma_consistent_field(state: StateModel, i: int)
    requires
        state.consistent(),
        0 <= i < state.fields.len(),
    ensures
        slot_consistent(state.fields[i], state.phase, state.history_limit),
        block_width(state.layout, state.fields[i].name) == Some(
            state.fields[i].committed.len() as int,
        ),
{
    reveal(StateModel::consistent);
}

/// What consistency says of one constitutive slot.
pub proof fn lemma_consistent_constitutive(state: StateModel, i: int)
    requires
        state.consistent(),
        0 <= i < state.constitutive.len(),
    ensures
        slot_consistent(state.constitutive[i], state.phase, 0),
{
    reveal(StateModel::consistent);
}

pub proof fn lemma_slot_unique(slots: Seq<SlotModel>, i: int)
    requires
        ordered(slots),
        0 <= i < slots.len(),
    ensures
        has_slot(slots, slots[i].name),
        slot_index(slots, slots[i].name) == i,
{
    let k = slot_index(slots, slots[i].name);
    assert(0 <= k < slots.len() && slots[k].name == slots[i].name);
    text::lemma_precedes_irreflexive(slots[i].name);
    assert(!(k < i) && !(i < k));
}

pub proof fn lemma_block_width(blocks: Seq<BlockModel>, i: int)
    requires
        layout::tiles(blocks),
        0 <= i < blocks.len(),
    ensures
        block_width(blocks, blocks[i].id) == Some(blocks[i].end - blocks[i].start),
{
    let k = choose|k: int| 0 <= k < blocks.len() && (#[trigger] blocks[k]).id == blocks[i].id;
    assert(k == i);
}

/// Tiling blocks end within the width and come in order.
pub proof fn lemma_block_bounds(blocks: Seq<BlockModel>, i: int)
    requires
        layout::tiles(blocks),
        0 <= i < blocks.len(),
    ensures
        blocks[i].start < blocks[i].end <= layout::width_of(blocks),
        forall|j: int| 0 <= j < i ==> (#[trigger] blocks[j]).end <= blocks[i].start,
{
    lemma_block_order(blocks, i);
    lemma_block_order(blocks, blocks.len() - 1);
}

proof fn lemma_block_order(blocks: Seq<BlockModel>, i: int)
    requires
        layout::tiles(blocks),
        0 <= i < blocks.len(),
    ensures
        forall|j: int| 0 <= j < i ==> (#[trigger] blocks[j]).end <= blocks[i].start,
    decreases i,
{
    if i > 0 {
        lemma_block_order(blocks, i - 1);
        assert(blocks[i].start == layout::previous_end(blocks, i));
    }
}

pub proof fn lemma_place_slot_at(slots: Seq<SlotModel>, slot: SlotModel, position: int)
    requires
        0 <= position <= slots.len(),
        forall|i: int|
            position <= i < slots.len() ==> text::precedes(slot.name, (#[trigger] slots[i]).name),
        position == 0 || !text::precedes(slot.name, slots[position - 1].name),
    ensures
        place_slot(slots, slot) == slots.insert(position, slot),
    decreases slots.len(),
{
    if position < slots.len() {
        assert(text::precedes(slot.name, slots.last().name));
        lemma_place_slot_at(slots.drop_last(), slot, position);
        assert(slots.drop_last().insert(position, slot).push(slots.last()) =~= slots.insert(
            position,
            slot,
        ));
    } else {
        assert(slots.insert(position, slot) =~= slots.push(slot));
    }
}

/// Placing a slot of a new name keeps the order and adds exactly that slot.
pub proof fn lemma_place_slot_ordered(slots: Seq<SlotModel>, slot: SlotModel)
    requires
        ordered(slots),
        !has_slot(slots, slot.name),
    ensures
        ordered(place_slot(slots, slot)),
        place_slot(slots, slot).len() == slots.len() + 1,
        forall|i: int|
            0 <= i < place_slot(slots, slot).len() ==> (#[trigger] place_slot(slots, slot)[i])
                == slot || slots.contains(place_slot(slots, slot)[i]),
        place_slot(slots, slot).contains(slot),
        forall|i: int|
            0 <= i < slots.len() ==> place_slot(slots, slot).contains(#[trigger] slots[i]),
    decreases slots.len(),
{
    let result = place_slot(slots, slot);
    if slots.len() == 0 {
        assert(result[0] == slot);
    } else if !text::precedes(slot.name, slots.last().name) {
        assert(slots.last().name != slot.name) by {
            assert(slots[slots.len() - 1].name == slots.last().name);
        }
        text::lemma_precedes_total(slot.name, slots.last().name);
        assert forall|i: int, j: int| 0 <= i < j < result.len() implies text::precedes(
            (#[trigger] result[i]).name,
            (#[trigger] result[j]).name,
        ) by {
            if j == slots.len() && i < slots.len() - 1 {
                assert(text::precedes(slots[i].name, slots[slots.len() - 1].name));
                text::lemma_precedes_transitive(slots[i].name, slots.last().name, slot.name);
            }
        }
        assert(result[slots.len() as int] == slot);
        assert forall|i: int| 0 <= i < slots.len() implies result.contains(#[trigger] slots[i]) by {
            assert(result[i] == slots[i]);
        }
    } else {
        let rest = slots.drop_last();
        let last = slots.last();
        assert(!has_slot(rest, slot.name)) by {
            if has_slot(rest, slot.name) {
                let k = slot_index(rest, slot.name);
                assert(slots[k].name == slot.name);
            }
        }
        lemma_place_slot_ordered(rest, slot);
        let placed = place_slot(rest, slot);
        assert forall|i: int| 0 <= i < placed.len() implies text::precedes(
            (#[trigger] placed[i]).name,
            last.name,
        ) by {
            if placed[i] != slot {
                let k = choose|k: int| 0 <= k < rest.len() && rest[k] == placed[i];
                assert(text::precedes(slots[k].name, slots[slots.len() - 1].name));
            }
        }
        assert forall|i: int, j: int| 0 <= i < j < result.len() implies text::precedes(
            (#[trigger] result[i]).name,
            (#[trigger] result[j]).name,
        ) by {
            if j < placed.len() {
                assert(result[i] == placed[i] && result[j] == placed[j]);
            } else {
                assert(result[i] == placed[i]);
            }
        }
        assert forall|i: int| 0 <= i < result.len() implies (#[trigger] result[i]) == slot
            || slots.contains(result[i]) by {
            if i < placed.len() {
                assert(result[i] == placed[i]);
                if placed[i] != slot {
                    let k = choose|k: int| 0 <= k < rest.len() && rest[k] == placed[i];
                    assert(slots[k] == placed[i]);
                }
            } else {
                assert(slots[slots.len() - 1] == result[i]);
            }
        }
        assert(result.contains(slot)) by {
            let k = choose|k: int| 0 <= k < placed.len() && placed[k] == slot;
            assert(result[k] == slot);
        }
        assert forall|i: int| 0 <= i < slots.len() implies result.contains(#[trigger] slots[i]) by {
            if i < rest.len() {
                assert(placed.contains(rest[i]));
                let k = choose|k: int| 0 <= k < placed.len() && placed[k] == rest[i];
                assert(result[k] == slots[i]);
            } else {
                assert(result[placed.len() as int] == slots[i]);
            }
        }
    }
}

/// Mapping that keeps names keeps the order.
proof fn lemma_same_names_ordered(slots: Seq<SlotModel>, others: Seq<SlotModel>)
    requires
        ordered(slots),
        others.len() == slots.len(),
        forall|i: int| 0 <= i < slots.len() ==> (#[trigger] others[i]).name == slots[i].name,
    ensures
        ordered(others),
{
    assert forall|i: int, j: int| 0 <= i < j < others.len() implies text::precedes(
        (#[trigger] others[i]).name,
        (#[trigger] others[j]).name,
    ) by {
        assert(text::precedes(slots[i].name, slots[j].name));
    }
}

proof fn lemma_advanced_consistent(slot: SlotModel, limit: nat)
    requires
        slot_consistent(slot, TransactionPhase::Trial, limit),
    ensures
        slot_consistent(advanced(slot, limit), TransactionPhase::Committed, limit),
        advanced(slot, limit).committed.len() == slot.committed.len(),
{
    let next = advanced(slot, limit);
    let longer = seq![slot.committed] + slot.history;
    assert forall|i: int| 0 <= i < next.history.len() implies fits(
        next,
        #[trigger] next.history[i],
    ) by {
        assert(next.history[i] == longer[i]);
        if i > 0 {
            assert(fits(slot, slot.history[i - 1]));
        }
    }
}

/// Every transition of a consistent state leads to a consistent state.
pub proof fn law_begin_keeps_consistency(state: StateModel)
    requires
        state.consistent(),
        state.begin_trial() is Ok,
    ensures
        state.begin_trial()->Ok_0.consistent(),
{
    reveal(StateModel::consistent);
    let next = state.begin_trial()->Ok_0;
    lemma_same_names_ordered(state.fields, next.fields);
    lemma_same_names_ordered(state.constitutive, next.constitutive);
    assert forall|i: int| 0 <= i < next.fields.len() implies slot_consistent(
        #[trigger] next.fields[i],
        next.phase,
        next.history_limit,
    ) by {
        assert(slot_consistent(state.fields[i], state.phase, state.history_limit));
        assert forall|k: int| 0 <= k < next.fields[i].history.len() implies fits(
            next.fields[i],
            #[trigger] next.fields[i].history[k],
        ) by {
            assert(fits(state.fields[i], state.fields[i].history[k]));
        }
    }
    assert forall|i: int| 0 <= i < next.constitutive.len() implies slot_consistent(
        #[trigger] next.constitutive[i],
        next.phase,
        0,
    ) by {
        assert(slot_consistent(state.constitutive[i], state.phase, 0));
    }
    assert forall|i: int| 0 <= i < next.fields.len() implies block_width(
        next.layout,
        (#[trigger] next.fields[i]).name,
    ) == Some(next.fields[i].committed.len() as int) by {
        assert(state.fields[i].name == next.fields[i].name);
    }
}

pub proof fn law_rollback_keeps_consistency(state: StateModel)
    requires
        state.consistent(),
        state.rollback() is Ok,
    ensures
        state.rollback()->Ok_0.consistent(),
{
    reveal(StateModel::consistent);
    let next = state.rollback()->Ok_0;
    lemma_same_names_ordered(state.fields, next.fields);
    lemma_same_names_ordered(state.constitutive, next.constitutive);
    assert forall|i: int| 0 <= i < next.fields.len() implies slot_consistent(
        #[trigger] next.fields[i],
        next.phase,
        next.history_limit,
    ) by {
        assert(slot_consistent(state.fields[i], state.phase, state.history_limit));
        assert forall|k: int| 0 <= k < next.fields[i].history.len() implies fits(
            next.fields[i],
            #[trigger] next.fields[i].history[k],
        ) by {
            assert(fits(state.fields[i], state.fields[i].history[k]));
        }
    }
    assert forall|i: int| 0 <= i < next.constitutive.len() implies slot_consistent(
        #[trigger] next.constitutive[i],
        next.phase,
        0,
    ) by {
        assert(slot_consistent(state.constitutive[i], state.phase, 0));
    }
    assert forall|i: int| 0 <= i < next.fields.len() implies block_width(
        next.layout,
        (#[trigger] next.fields[i]).name,
    ) == Some(next.fields[i].committed.len() as int) by {
        assert(state.fields[i].name == next.fields[i].name);
    }
}

pub proof fn law_commit_keeps_consistency(state: StateModel, time: Scalar)
    requires
        state.consistent(),
        state.commit(time) is Ok,
    ensures
        state.commit(time)->Ok_0.consistent(),
{
    reveal(StateModel::consistent);
    let next = state.commit(time)->Ok_0;
    assert forall|i: int| 0 <= i < next.fields.len() implies slot_consistent(
        #[trigger] next.fields[i],
        next.phase,
        next.history_limit,
    ) by {
        lemma_advanced_consistent(state.fields[i], state.history_limit);
    }
    assert forall|i: int| 0 <= i < next.constitutive.len() implies slot_consistent(
        #[trigger] next.constitutive[i],
        next.phase,
        0,
    ) by {
        lemma_advanced_consistent(state.constitutive[i], 0);
    }
    lemma_same_names_ordered(state.fields, next.fields);
    lemma_same_names_ordered(state.constitutive, next.constitutive);
    assert forall|i: int| 0 <= i < next.fields.len() implies block_width(
        next.layout,
        (#[trigger] next.fields[i]).name,
    ) == Some(next.fields[i].committed.len() as int) by {
        assert(state.fields[i].name == next.fields[i].name);
        lemma_advanced_consistent(state.fields[i], state.history_limit);
    }
}

pub proof fn law_set_trial_keeps_consistency(
    state: StateModel,
    name: Seq<char>,
    values: Seq<Scalar>,
)
    requires
        state.consistent(),
    ensures
        state.set_trial(name, values) matches Ok(next) ==> next.consistent(),
        state.set_constitutive_trial(name, values) matches Ok(next) ==> next.consistent(),
{
    reveal(values_failure);
    reveal(StateModel::consistent);
    if state.set_trial(name, values) is Ok {
        let next = state.set_trial(name, values)->Ok_0;
        lemma_same_names_ordered(state.fields, next.fields);
        assert forall|i: int| 0 <= i < next.fields.len() implies slot_consistent(
            #[trigger] next.fields[i],
            next.phase,
            next.history_limit,
        ) by {
            assert(slot_consistent(state.fields[i], state.phase, state.history_limit));
            assert forall|k: int| 0 <= k < next.fields[i].history.len() implies fits(
                next.fields[i],
                #[trigger] next.fields[i].history[k],
            ) by {
                assert(fits(state.fields[i], state.fields[i].history[k]));
            }
        }
        assert forall|i: int| 0 <= i < next.fields.len() implies block_width(
            next.layout,
            (#[trigger] next.fields[i]).name,
        ) == Some(next.fields[i].committed.len() as int) by {
            assert(state.fields[i].name == next.fields[i].name);
        }
    }
    if state.set_constitutive_trial(name, values) is Ok {
        let next = state.set_constitutive_trial(name, values)->Ok_0;
        lemma_same_names_ordered(state.constitutive, next.constitutive);
        assert forall|i: int| 0 <= i < next.constitutive.len() implies slot_consistent(
            #[trigger] next.constitutive[i],
            next.phase,
            0,
        ) by {
            assert(slot_consistent(state.constitutive[i], state.phase, 0));
        }
    }
}

pub proof fn law_insert_keeps_consistency(state: StateModel, name: Seq<char>, values: Seq<Scalar>)
    requires
        state.consistent(),
    ensures
        state.insert_field(name, values) matches Ok(next) ==> next.consistent(),
        state.insert_constitutive(name, values) matches Ok(next) ==> next.consistent(),
{
    reveal(values_failure);
    reveal(StateModel::consistent);
    let slot = SlotModel { name, committed: values, trial: None, history: Seq::empty() };
    if state.insert_field(name, values) is Ok {
        let next = state.insert_field(name, values)->Ok_0;
        lemma_place_slot_ordered(state.fields, slot);
        assert forall|i: int| 0 <= i < next.fields.len() implies {
            &&& slot_consistent(#[trigger] next.fields[i], next.phase, next.history_limit)
            &&& block_width(next.layout, next.fields[i].name) == Some(
                next.fields[i].committed.len() as int,
            )
        } by {
            if next.fields[i] != slot {
                let k = choose|k: int|
                    0 <= k < state.fields.len() && state.fields[k] == next.fields[i];
                assert(slot_consistent(state.fields[k], state.phase, state.history_limit));
            }
        }
    }
    if state.insert_constitutive(name, values) is Ok {
        let next = state.insert_constitutive(name, values)->Ok_0;
        lemma_place_slot_ordered(state.constitutive, slot);
        assert forall|i: int| 0 <= i < next.constitutive.len() implies slot_consistent(
            #[trigger] next.constitutive[i],
            next.phase,
            0,
        ) by {
            if next.constitutive[i] != slot {
                let k = choose|k: int|
                    0 <= k < state.constitutive.len() && state.constitutive[k]
                        == next.constitutive[i];
                assert(slot_consistent(state.constitutive[k], state.phase, 0));
            }
        }
    }
}

pub proof fn law_set_trial_vector_keeps_consistency(state: StateModel, values: Seq<Scalar>)
    requires
        state.consistent(),
        state.set_trial_vector(values) is Ok,
    ensures
        state.set_trial_vector(values)->Ok_0.consistent(),
{
    reveal(values_failure);
    reveal(StateModel::consistent);
    let next = state.set_trial_vector(values)->Ok_0;
    lemma_same_names_ordered(state.fields, next.fields);
    assert forall|i: int| 0 <= i < next.fields.len() implies {
        &&& slot_consistent(#[trigger] next.fields[i], next.phase, next.history_limit)
        &&& block_width(next.layout, next.fields[i].name) == Some(
            next.fields[i].committed.len() as int,
        )
    } by {
        let slot = state.fields[i];
        assert(slot_consistent(slot, state.phase, state.history_limit));
        assert(block_width(state.layout, slot.name) == Some(slot.committed.len() as int));
        let k = choose|k: int|
            0 <= k < state.layout.len() && (#[trigger] state.layout[k]).id == slot.name;
        assert(layout::has_block(state.layout, slot.name));
        assert(0 <= k < state.layout.len() && state.layout[k].id == slot.name);
        lemma_block_bounds(state.layout, k);
        assert forall|h: int| 0 <= h < next.fields[i].history.len() implies fits(
            next.fields[i],
            #[trigger] next.fields[i].history[h],
        ) by {
            assert(fits(slot, slot.history[h]));
        }
    }
}

/// A trial that is rolled back leaves the state exactly as it was, whatever
/// trial values were set in between.
pub proof fn law_rollback_undoes_trial(before: StateModel, during: StateModel)
    requires
        before.consistent(),
        before.phase == TransactionPhase::Committed,
        during.phase == TransactionPhase::Trial,
        same_but_trial(before, during),
    ensures
        during.rollback() == Ok::<StateModel, ErrorModel>(before),
{
    reveal(StateModel::consistent);
    let after = during.rollback()->Ok_0;
    assert forall|i: int| 0 <= i < before.fields.len() implies after.fields[i]
        == before.fields[i] by {
        assert(slot_consistent(before.fields[i], before.phase, before.history_limit));
        assert(dropped(before.fields[i]) == before.fields[i]);
    }
    assert forall|i: int| 0 <= i < before.constitutive.len() implies after.constitutive[i]
        == before.constitutive[i] by {
        assert(slot_consistent(before.constitutive[i], before.phase, 0));
        assert(dropped(before.constitutive[i]) == before.constitutive[i]);
    }
    assert(after.fields =~= before.fields);
    assert(after.constitutive =~= before.constitutive);
}

/// Whether two states agree in everything but the phase and the trial values.
pub open spec fn same_but_trial(left: StateModel, right: StateModel) -> bool {
    &&& left.layout == right.layout
    &&& left.history_limit == right.history_limit
    &&& left.time == right.time
    &&& left.step == right.step
    &&& left.fields.len() == right.fields.len()
    &&& left.constitutive.len() == right.constitutive.len()
    &&& forall|i: int|
        0 <= i < left.fields.len() ==> dropped(#[trigger] left.fields[i]) == dropped(
            right.fields[i],
        )
    &&& forall|i: int|
        0 <= i < left.constitutive.len() ==> dropped(#[trigger] left.constitutive[i]) == dropped(
            right.constitutive[i],
        )
}

/// Opening a trial and setting trial values touch nothing but the phase and the trials.
pub proof fn law_trial_touches_only_trials(
    state: StateModel,
    name: Seq<char>,
    values: Seq<Scalar>,
)
    requires
        state.consistent(),
    ensures
        state.begin_trial() matches Ok(next) ==> same_but_trial(state, next),
        state.set_trial(name, values) matches Ok(next) ==> same_but_trial(state, next),
        state.set_constitutive_trial(name, values) matches Ok(next) ==> same_but_trial(state, next),
        state.set_trial_vector(values) matches Ok(next) ==> same_but_trial(state, next),
{
    reveal(StateModel::consistent);
}

pub proof fn lemma_same_but_trial_through(a: StateModel, b: StateModel, c: StateModel)
    requires
        same_but_trial(a, b),
        same_but_trial(b, c),
    ensures
        same_but_trial(a, c),
{
    assert forall|i: int| 0 <= i < a.fields.len() implies dropped(
        #[trigger] a.fields[i],
    ) == dropped(c.fields[i]) by {
        assert(dropped(b.fields[i]) == dropped(c.fields[i]));
    }
    assert forall|i: int| 0 <= i < a.constitutive.len() implies dropped(
        #[trigger] a.constitutive[i],
    ) == dropped(c.constitutive[i]) by {
        assert(dropped(b.constitutive[i]) == dropped(
            c.constitutive[i],
        ));
    }
}

/// A commit moves every trial value to the committed values, keeps the former
/// ones as the newest history level, and bounds the history.
pub proof fn law_commit_effects(state: StateModel, time: Scalar, i: int)
    requires
        state.consistent(),
        state.commit(time) is Ok,
        0 <= i < state.fields.len(),
    ensures
        ({
            let next = state.commit(time)->Ok_0;
            &&& next.time == time
            &&& next.step == state.step + 1
            &&& next.fields.len() == state.fields.len()
            &&& Some(next.fields[i].committed) == state.fields[i].trial
            &&& next.fields[i].trial is None
            &&& next.fields[i].history.len() <= state.history_limit
            &&& state.history_limit > 0 ==> next.fields[i].history.len() > 0
                && next.fields[i].history[0] == state.fields[i].committed
            &&& forall|k: int|
                1 <= k < next.fields[i].history.len() ==> (#[trigger] next.fields[i].history[k])
                    == state.fields[i].history[k - 1]
        }),
{
    reveal(StateModel::consistent);
    assert(slot_consistent(state.fields[i], state.phase, state.history_limit));
}

} // verus!
