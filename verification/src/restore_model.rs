//! Checkpointing and restoring as mathematical functions, and their laws.
use crate::checkpoint;
use crate::checkpoint::{CheckpointModel, HistoryModel, NamedModel};
use crate::error::ErrorModel;
use crate::layout;
use crate::scalar::Scalar;
use crate::state_model;
use crate::state_model::{SlotModel, StateModel, TransactionPhase};
use crate::text;
use vstd::prelude::*;

verus! {

pub open spec fn saved_values(slots: Seq<SlotModel>) -> Seq<NamedModel> {
    slots.map_values(|slot: SlotModel| NamedModel { name: slot.name, values: slot.committed })
}

pub open spec fn saved_history(slots: Seq<SlotModel>) -> Seq<HistoryModel> {
    slots.map_values(|slot: SlotModel| HistoryModel { name: slot.name, levels: slot.history })
}

/// What is wrong with the first unsuitable history level at or after `from`.
pub open spec fn levels_failure(
    name: Seq<char>,
    levels: Seq<Seq<Scalar>>,
    expected: int,
    from: int,
) -> Option<ErrorModel>
    decreases levels.len() - from,
{
    if from >= levels.len() {
        None
    } else {
        match state_model::values_failure(
            name,
            state_model::field_label(name),
            levels[from],
            expected,
        ) {
            Some(failure) => Some(failure),
            None => levels_failure(name, levels, expected, from + 1),
        }
    }
}

/// The field with its checkpointed values and history.
pub open spec fn field_restored(slot: SlotModel, saved: CheckpointModel) -> Result<
    SlotModel,
    ErrorModel,
> {
    let label = state_model::field_label(slot.name);
    let expected = slot.committed.len() as int;
    if !checkpoint::has_entry(saved.fields, slot.name) {
        Err(ErrorModel::MalformedCheckpoint(label + " is missing"@))
    } else {
        let values = saved.fields[checkpoint::entry_index(saved.fields, slot.name)].values;
        match state_model::values_failure(slot.name, label, values, expected) {
            Some(failure) => Err(failure),
            None => if !checkpoint::has_history(saved.field_history, slot.name) {
                Err(ErrorModel::MalformedCheckpoint(label + " has no history entry"@))
            } else {
                let levels = saved.field_history[checkpoint::history_index(
                    saved.field_history,
                    slot.name,
                )].levels;
                if levels.len() > saved.history_limit {
                    Err(
                        ErrorModel::MalformedCheckpoint(
                            label + " has more history than the history limit"@,
                        ),
                    )
                } else {
                    match levels_failure(slot.name, levels, expected, 0) {
                        Some(failure) => Err(failure),
                        None => Ok(
                            SlotModel {
                                name: slot.name,
                                committed: values,
                                trial: None,
                                history: levels,
                            },
                        ),
                    }
                }
            },
        }
    }
}

/// The constitutive slot with its checkpointed values.
pub open spec fn constitutive_restored(slot: SlotModel, saved: CheckpointModel) -> Result<
    SlotModel,
    ErrorModel,
> {
    let label = state_model::constitutive_label(slot.name);
    if !checkpoint::has_entry(saved.constitutive, slot.name) {
        Err(ErrorModel::MalformedCheckpoint(label + " is missing"@))
    } else {
        let values = saved.constitutive[checkpoint::entry_index(
            saved.constitutive,
            slot.name,
        )].values;
        match state_model::values_failure(
            slot.name,
            label,
            values,
            slot.committed.len() as int,
        ) {
            Some(failure) => Err(failure),
            None => Ok(SlotModel { committed: values, trial: None, ..slot }),
        }
    }
}

/// All fields restored, or the first failure.
pub open spec fn fields_restored(slots: Seq<SlotModel>, saved: CheckpointModel) -> Result<
    Seq<SlotModel>,
    ErrorModel,
>
    decreases slots.len(),
{
    if slots.len() == 0 {
        Ok(slots)
    } else {
        match fields_restored(slots.drop_last(), saved) {
            Err(failure) => Err(failure),
            Ok(done) => match field_restored(slots.last(), saved) {
                Err(failure) => Err(failure),
                Ok(slot) => Ok(done.push(slot)),
            },
        }
    }
}

/// All constitutive slots restored, or the first failure.
pub open spec fn slots_restored(slots: Seq<SlotModel>, saved: CheckpointModel) -> Result<
    Seq<SlotModel>,
    ErrorModel,
>
    decreases slots.len(),
{
    if slots.len() == 0 {
        Ok(slots)
    } else {
        match slots_restored(slots.drop_last(), saved) {
            Err(failure) => Err(failure),
            Ok(done) => match constitutive_restored(slots.last(), saved) {
                Err(failure) => Err(failure),
                Ok(slot) => Ok(done.push(slot)),
            },
        }
    }
}

impl StateModel {
    /// The checkpoint of a committed state.
    pub open spec fn checkpoint(self) -> Result<CheckpointModel, ErrorModel> {
        if self.phase != TransactionPhase::Committed {
            Err(ErrorModel::TrialAlreadyActive)
        } else {
            Ok(
                CheckpointModel {
                    layout_identity: layout::identity_of(self.layout),
                    history_limit: self.history_limit,
                    time: self.time,
                    step: self.step,
                    fields: saved_values(self.fields),
                    field_history: saved_history(self.fields),
                    constitutive: saved_values(self.constitutive),
                },
            )
        }
    }

    /// The state that a checkpoint describes, over this state's structure: entries of other
    /// names are left aside.
    pub open spec fn restore(self, saved: CheckpointModel) -> Result<StateModel, ErrorModel> {
        if saved.layout_identity != layout::identity_of(self.layout) {
            Err(
                ErrorModel::LayoutMismatch {
                    actual: saved.layout_identity,
                    expected: layout::identity_of(self.layout),
                },
            )
        } else if saved.history_limit != self.history_limit {
            Err(ErrorModel::MalformedCheckpoint("the history limit differs"@))
        } else if !saved.time.finite() {
            Err(ErrorModel::NonFiniteValue { label: "checkpoint time"@, index: 0 })
        } else {
            match fields_restored(self.fields, saved) {
                Err(failure) => Err(failure),
                Ok(fields) => match slots_restored(self.constitutive, saved) {
                    Err(failure) => Err(failure),
                    Ok(constitutive) => Ok(
                        StateModel {
                            phase: TransactionPhase::Committed,
                            time: saved.time,
                            step: saved.step,
                            fields,
                            constitutive,
                            ..self
                        },
                    ),
                },
            }
        }
    }
}

/// A failure among the first slots is the failure of all.
pub proof fn lemma_fields_failure(slots: Seq<SlotModel>, saved: CheckpointModel, count: int)
    requires
        0 <= count <= slots.len(),
        fields_restored(slots.take(count), saved) is Err,
    ensures
        fields_restored(slots, saved) == fields_restored(slots.take(count), saved),
    decreases slots.len(),
{
    if count < slots.len() {
        assert(slots.drop_last().take(count) =~= slots.take(count));
        lemma_fields_failure(slots.drop_last(), saved, count);
    } else {
        assert(slots.take(count) =~= slots);
    }
}

/// A failure among the first slots is the failure of all.
pub proof fn lemma_slots_failure(slots: Seq<SlotModel>, saved: CheckpointModel, count: int)
    requires
        0 <= count <= slots.len(),
        slots_restored(slots.take(count), saved) is Err,
    ensures
        slots_restored(slots, saved) == slots_restored(slots.take(count), saved),
    decreases slots.len(),
{
    if count < slots.len() {
        assert(slots.drop_last().take(count) =~= slots.take(count));
        lemma_slots_failure(slots.drop_last(), saved, count);
    } else {
        assert(slots.take(count) =~= slots);
    }
}

proof fn lemma_levels_free(
    name: Seq<char>,
    levels: Seq<Seq<Scalar>>,
    expected: int,
    from: int,
)
    requires
        0 <= from <= levels.len(),
    ensures
        levels_failure(name, levels, expected, from) is None <==> (forall|i: int|
            from <= i < levels.len() ==> state_model::values_failure(
                name,
                state_model::field_label(name),
                #[trigger] levels[i],
                expected,
            ) is None),
    decreases levels.len() - from,
{
    if from < levels.len() {
        lemma_levels_free(name, levels, expected, from + 1);
    }
}

proof fn lemma_field_restored(slot: SlotModel, saved: CheckpointModel)
    requires
        field_restored(slot, saved) is Ok,
    ensures
        ({
            let next = field_restored(slot, saved)->Ok_0;
            &&& next.name == slot.name
            &&& next.committed.len() == slot.committed.len()
            &&& state_model::slot_consistent(
                next,
                TransactionPhase::Committed,
                saved.history_limit,
            )
        }),
{
    reveal(state_model::values_failure);
    let next = field_restored(slot, saved)->Ok_0;
    lemma_levels_free(slot.name, next.history, slot.committed.len() as int, 0);
    assert forall|i: int| 0 <= i < next.history.len() implies state_model::fits(
        next,
        #[trigger] next.history[i],
    ) by {
        assert(state_model::values_failure(
            slot.name,
            state_model::field_label(slot.name),
            next.history[i],
            slot.committed.len() as int,
        ) is None);
    }
}

pub proof fn lemma_fields_restored(slots: Seq<SlotModel>, saved: CheckpointModel)
    requires
        fields_restored(slots, saved) is Ok,
    ensures
        fields_restored(slots, saved)->Ok_0.len() == slots.len(),
        forall|i: int|
            0 <= i < slots.len() ==> field_restored(#[trigger] slots[i], saved) == Ok::<
                SlotModel,
                ErrorModel,
            >(fields_restored(slots, saved)->Ok_0[i]),
    decreases slots.len(),
{
    if slots.len() > 0 {
        lemma_fields_restored(slots.drop_last(), saved);
        let done = fields_restored(slots.drop_last(), saved)->Ok_0;
        assert forall|i: int| 0 <= i < slots.len() implies field_restored(#[trigger] slots[i], saved)
            == Ok::<SlotModel, ErrorModel>(fields_restored(slots, saved)->Ok_0[i]) by {
            if i < done.len() {
                assert(slots.drop_last()[i] == slots[i]);
            }
        }
    }
}

pub proof fn lemma_slots_restored(slots: Seq<SlotModel>, saved: CheckpointModel)
    requires
        slots_restored(slots, saved) is Ok,
    ensures
        slots_restored(slots, saved)->Ok_0.len() == slots.len(),
        forall|i: int|
            0 <= i < slots.len() ==> constitutive_restored(#[trigger] slots[i], saved) == Ok::<
                SlotModel,
                ErrorModel,
            >(slots_restored(slots, saved)->Ok_0[i]),
    decreases slots.len(),
{
    if slots.len() > 0 {
        lemma_slots_restored(slots.drop_last(), saved);
        let done = slots_restored(slots.drop_last(), saved)->Ok_0;
        assert forall|i: int| 0 <= i < slots.len() implies constitutive_restored(
            #[trigger] slots[i],
            saved,
        ) == Ok::<SlotModel, ErrorModel>(slots_restored(slots, saved)->Ok_0[i]) by {
            if i < done.len() {
                assert(slots.drop_last()[i] == slots[i]);
            }
        }
    }
}

/// Restoring leads to a consistent committed state, even from an open trial.
pub proof fn law_restore_keeps_consistency(state: StateModel, saved: CheckpointModel)
    requires
        state.consistent(),
        state.restore(saved) is Ok,
    ensures
        state.restore(saved)->Ok_0.consistent(),
        state.restore(saved)->Ok_0.phase == TransactionPhase::Committed,
{
    reveal(state_model::values_failure);
    reveal(StateModel::consistent);
    let next = state.restore(saved)->Ok_0;
    lemma_fields_restored(state.fields, saved);
    lemma_slots_restored(state.constitutive, saved);
    assert forall|i: int| 0 <= i < next.fields.len() implies {
        &&& state_model::slot_consistent(
            #[trigger] next.fields[i],
            next.phase,
            next.history_limit,
        )
        &&& next.fields[i].name == state.fields[i].name
        &&& next.fields[i].committed.len() == state.fields[i].committed.len()
    } by {
        assert(field_restored(state.fields[i], saved) is Ok);
        lemma_field_restored(state.fields[i], saved);
    }
    assert forall|i: int| 0 <= i < next.constitutive.len() implies {
        &&& state_model::slot_consistent(#[trigger] next.constitutive[i], next.phase, 0)
        &&& next.constitutive[i].name == state.constitutive[i].name
    } by {
        assert(constitutive_restored(state.constitutive[i], saved) is Ok);
        assert(state_model::slot_consistent(state.constitutive[i], state.phase, 0));
    }
    assert forall|i: int, j: int| 0 <= i < j < next.fields.len() implies text::precedes(
        (#[trigger] next.fields[i]).name,
        (#[trigger] next.fields[j]).name,
    ) by {
        assert(text::precedes(state.fields[i].name, state.fields[j].name));
    }
    assert forall|i: int, j: int| 0 <= i < j < next.constitutive.len() implies text::precedes(
        (#[trigger] next.constitutive[i]).name,
        (#[trigger] next.constitutive[j]).name,
    ) by {
        assert(text::precedes(state.constitutive[i].name, state.constitutive[j].name));
    }
    assert forall|i: int| 0 <= i < next.fields.len() implies state_model::block_width(
        next.layout,
        (#[trigger] next.fields[i]).name,
    ) == Some(next.fields[i].committed.len() as int) by {
        assert(state.fields[i].name == next.fields[i].name);
    }
}

/// Restoring keeps the fields and their names.
pub proof fn law_restore_keeps_names(state: StateModel, saved: CheckpointModel)
    requires
        state.restore(saved) is Ok,
    ensures
        state.restore(saved)->Ok_0.fields.len() == state.fields.len(),
        forall|i: int|
            0 <= i < state.fields.len() ==> (#[trigger] state.restore(saved)->Ok_0.fields[i]).name
                == state.fields[i].name,
{
    reveal(state_model::values_failure);
    let next = state.restore(saved)->Ok_0;
    lemma_fields_restored(state.fields, saved);
    assert forall|i: int| 0 <= i < state.fields.len() implies (#[trigger] next.fields[i]).name
        == state.fields[i].name by {
        assert(field_restored(state.fields[i], saved) is Ok);
    }
}

/// Slots of the same names and lengths, in the same order.
pub open spec fn same_shape(left: Seq<SlotModel>, right: Seq<SlotModel>) -> bool {
    &&& left.len() == right.len()
    &&& forall|i: int|
        0 <= i < left.len() ==> {
            &&& (#[trigger] left[i]).name == right[i].name
            &&& left[i].committed.len() == right[i].committed.len()
        }
}

/// States over one layout with the same history limit and slots of the same shape.
pub open spec fn same_structure(left: StateModel, right: StateModel) -> bool {
    &&& left.layout == right.layout
    &&& left.history_limit == right.history_limit
    &&& same_shape(left.fields, right.fields)
    &&& same_shape(left.constitutive, right.constitutive)
}

proof fn lemma_saved_entry(slots: Seq<SlotModel>, i: int)
    requires
        state_model::ordered(slots),
        0 <= i < slots.len(),
    ensures
        checkpoint::has_entry(saved_values(slots), slots[i].name),
        checkpoint::entry_index(saved_values(slots), slots[i].name) == i,
        checkpoint::has_history(saved_history(slots), slots[i].name),
        checkpoint::history_index(saved_history(slots), slots[i].name) == i,
{
    reveal(checkpoint::has_entry);
    reveal(checkpoint::entry_index);
    reveal(checkpoint::has_history);
    reveal(checkpoint::history_index);
    let entries = saved_values(slots);
    let histories = saved_history(slots);
    let name = slots[i].name;
    assert(entries[i].name == name);
    assert(histories[i].name == name);
    assert forall|k: int| 0 <= k < slots.len() && k != i implies slots[k].name != name by {
        text::lemma_precedes_irreflexive(name);
        if k < i {
            assert(text::precedes(slots[k].name, slots[i].name));
        } else {
            assert(text::precedes(slots[i].name, slots[k].name));
        }
    }
    assert forall|j: int| 0 <= j < i implies (#[trigger] entries[j]).name != name by {}
    assert forall|j: int| 0 <= j < i implies (#[trigger] histories[j]).name != name by {}
    let k = checkpoint::entry_index(entries, name);
    assert(0 <= k < entries.len() && entries[k].name == name);
    assert(slots[k].name == name);
    let h = checkpoint::history_index(histories, name);
    assert(0 <= h < histories.len() && histories[h].name == name);
    assert(slots[h].name == name);
}

proof fn lemma_field_round_trip(
    fields: Seq<SlotModel>,
    over: SlotModel,
    saved: CheckpointModel,
    i: int,
)
    requires
        state_model::ordered(fields),
        0 <= i < fields.len(),
        state_model::slot_consistent(
            fields[i],
            TransactionPhase::Committed,
            saved.history_limit,
        ),
        over.name == fields[i].name,
        over.committed.len() == fields[i].committed.len(),
        saved.fields == saved_values(fields),
        saved.field_history == saved_history(fields),
    ensures
        field_restored(over, saved) == Ok::<SlotModel, ErrorModel>(fields[i]),
{
    reveal(state_model::values_failure);
    let slot = fields[i];
    lemma_saved_entry(fields, i);
    assert(saved.fields[i].values == slot.committed);
    assert(saved.field_history[i].levels == slot.history);
    assert forall|k: int| 0 <= k < slot.history.len() implies state_model::values_failure(
        slot.name,
        state_model::field_label(slot.name),
        #[trigger] slot.history[k],
        slot.committed.len() as int,
    ) is None by {
        assert(state_model::fits(slot, slot.history[k]));
    }
    lemma_levels_free(slot.name, slot.history, slot.committed.len() as int, 0);
}

proof fn lemma_fields_round_trip(
    fields: Seq<SlotModel>,
    over: Seq<SlotModel>,
    saved: CheckpointModel,
    count: int,
)
    requires
        over.len() == fields.len(),
        forall|i: int|
            0 <= i < fields.len() ==> field_restored(#[trigger] over[i], saved) == Ok::<
                SlotModel,
                ErrorModel,
            >(fields[i]),
        0 <= count <= fields.len(),
    ensures
        fields_restored(over.take(count), saved) == Ok::<Seq<SlotModel>, ErrorModel>(
            fields.take(count),
        ),
    decreases count,
{
    if count == 0 {
        assert(over.take(0) =~= fields.take(0));
    } else {
        let last = count - 1;
        lemma_fields_round_trip(fields, over, saved, last);
        assert(over.take(count).drop_last() =~= over.take(last));
        assert(over.take(count).last() == over[last]);
        assert(fields.take(last).push(fields[last]) =~= fields.take(count));
    }
}

proof fn lemma_slot_round_trip(
    slots: Seq<SlotModel>,
    over: SlotModel,
    saved: CheckpointModel,
    i: int,
)
    requires
        state_model::ordered(slots),
        0 <= i < slots.len(),
        state_model::slot_consistent(slots[i], TransactionPhase::Committed, 0),
        over.name == slots[i].name,
        over.committed.len() == slots[i].committed.len(),
        over.history.len() == 0,
        saved.constitutive == saved_values(slots),
    ensures
        constitutive_restored(over, saved) == Ok::<SlotModel, ErrorModel>(slots[i]),
{
    reveal(state_model::values_failure);
    lemma_saved_entry(slots, i);
    assert(saved.constitutive[i].values == slots[i].committed);
    assert(over.history =~= slots[i].history);
}

proof fn lemma_slots_round_trip(
    slots: Seq<SlotModel>,
    over: Seq<SlotModel>,
    saved: CheckpointModel,
    count: int,
)
    requires
        over.len() == slots.len(),
        forall|i: int|
            0 <= i < slots.len() ==> constitutive_restored(#[trigger] over[i], saved) == Ok::<
                SlotModel,
                ErrorModel,
            >(slots[i]),
        0 <= count <= slots.len(),
    ensures
        slots_restored(over.take(count), saved) == Ok::<Seq<SlotModel>, ErrorModel>(
            slots.take(count),
        ),
    decreases count,
{
    if count == 0 {
        assert(over.take(0) =~= slots.take(0));
    } else {
        let last = count - 1;
        lemma_slots_round_trip(slots, over, saved, last);
        assert(over.take(count).drop_last() =~= over.take(last));
        assert(over.take(count).last() == over[last]);
        assert(slots.take(last).push(slots[last]) =~= slots.take(count));
    }
}

/// Restoring a checkpoint gives back exactly the checkpointed state, from any
/// state of the same structure, committed or in a trial.
pub proof fn law_restore_undoes_checkpoint(saved: StateModel, current: StateModel)
    requires
        saved.consistent(),
        current.consistent(),
        same_structure(saved, current),
        saved.phase == TransactionPhase::Committed,
    ensures
        saved.checkpoint() is Ok,
        current.restore(saved.checkpoint()->Ok_0) == Ok::<StateModel, ErrorModel>(saved),
{
    reveal(StateModel::consistent);
    let image = saved.checkpoint()->Ok_0;
    let fields = saved.fields;
    let slots = saved.constitutive;
    assert forall|i: int| 0 <= i < fields.len() implies field_restored(
        #[trigger] current.fields[i],
        image,
    ) == Ok::<SlotModel, ErrorModel>(fields[i]) by {
        assert(fields[i].name == current.fields[i].name);
        assert(state_model::slot_consistent(fields[i], saved.phase, saved.history_limit));
        lemma_field_round_trip(fields, current.fields[i], image, i);
    }
    lemma_fields_round_trip(fields, current.fields, image, fields.len() as int);
    assert(fields.take(fields.len() as int) =~= fields);
    assert(current.fields.take(fields.len() as int) =~= current.fields);
    assert forall|i: int| 0 <= i < slots.len() implies constitutive_restored(
        #[trigger] current.constitutive[i],
        image,
    ) == Ok::<SlotModel, ErrorModel>(slots[i]) by {
        assert(slots[i].name == current.constitutive[i].name);
        assert(state_model::slot_consistent(slots[i], saved.phase, 0));
        assert(state_model::slot_consistent(current.constitutive[i], current.phase, 0));
        lemma_slot_round_trip(slots, current.constitutive[i], image, i);
    }
    lemma_slots_round_trip(slots, current.constitutive, image, slots.len() as int);
    assert(slots.take(slots.len() as int) =~= slots);
    assert(current.constitutive.take(slots.len() as int) =~= current.constitutive);
}

} // verus!
