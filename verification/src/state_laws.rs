//! What the operations of a state do, each told by what it takes, changes and refuses.
use crate::checkpoint::CheckpointModel;
use crate::error::ErrorModel;
use crate::error::KrasisError;
use crate::layout;
use crate::layout::BlockModel;
use crate::scalar::Scalar;
use crate::state;
use crate::state_model;
use crate::state_model::{SlotModel, StateModel, TransactionPhase};
use vstd::prelude::*;

verus! {

/// Whether a slot holds the same committed values and the same history as another, under the
/// same name.
pub open spec fn same_past(left: SlotModel, right: SlotModel) -> bool {
    &&& left.name == right.name
    &&& left.committed == right.committed
    &&& left.history == right.history
}

/// Whether two states differ at most in their slots.
pub open spec fn same_frame(left: StateModel, right: StateModel) -> bool {
    &&& left.layout == right.layout
    &&& left.history_limit == right.history_limit
    &&& left.time == right.time
    &&& left.step == right.step
}

/// An operation that a state refuses leaves the state as it was, and one that it performs
/// leaves the state that the operation leads to.
pub proof fn law_refused_operation_changes_nothing(
    result: Result<(), KrasisError>,
    before: StateModel,
    after: StateModel,
    outcome: Result<StateModel, ErrorModel>,
)
    requires
        state::performed(result, before, after, outcome),
    ensures
        result is Err <==> outcome is Err,
        result matches Err(error) ==> after == before && error@ == outcome->Err_0,
        result is Ok ==> after == outcome->Ok_0,
{
}

/// A trial opens exactly on a committed state; every trial value starts as the committed one,
/// and nothing else changes.
pub proof fn law_begin_trial(state: StateModel)
    ensures
        state.begin_trial() is Ok <==> state.phase == TransactionPhase::Committed,
        state.begin_trial() matches Err(failure) ==> failure == ErrorModel::TrialAlreadyActive,
        state.begin_trial() matches Ok(next) ==> {
            &&& same_frame(state, next)
            &&& next.phase == TransactionPhase::Trial
            &&& next.fields.len() == state.fields.len()
            &&& next.constitutive.len() == state.constitutive.len()
            &&& forall|i: int|
                0 <= i < state.fields.len() ==> same_past(
                    state.fields[i],
                    #[trigger] next.fields[i],
                ) && next.fields[i].trial == Some(state.fields[i].committed)
            &&& forall|i: int|
                0 <= i < state.constitutive.len() ==> same_past(
                    state.constitutive[i],
                    #[trigger] next.constitutive[i],
                ) && next.constitutive[i].trial == Some(state.constitutive[i].committed)
        },
{
}

/// A rollback closes a trial: every trial value goes, and nothing else changes.
pub proof fn law_rollback(state: StateModel)
    ensures
        state.rollback() is Ok <==> state.phase == TransactionPhase::Trial,
        state.rollback() matches Err(failure) ==> failure == ErrorModel::NoActiveTrial,
        state.rollback() matches Ok(next) ==> {
            &&& same_frame(state, next)
            &&& next.phase == TransactionPhase::Committed
            &&& next.fields.len() == state.fields.len()
            &&& next.constitutive.len() == state.constitutive.len()
            &&& forall|i: int|
                0 <= i < state.fields.len() ==> same_past(
                    state.fields[i],
                    #[trigger] next.fields[i],
                ) && next.fields[i].trial is None
            &&& forall|i: int|
                0 <= i < state.constitutive.len() ==> same_past(
                    state.constitutive[i],
                    #[trigger] next.constitutive[i],
                ) && next.constitutive[i].trial is None
        },
{
}

/// Whether values can stand in a slot: as many as it holds, all finite.
pub open spec fn suits(slot: SlotModel, values: Seq<Scalar>) -> bool {
    &&& values.len() == slot.committed.len()
    &&& forall|i: int| 0 <= i < values.len() ==> (#[trigger] values[i]).finite()
}

/// Whether `next` holds the slots but for one trial: that of the slot of the given name.
pub open spec fn trial_set(
    slots: Seq<SlotModel>,
    next: Seq<SlotModel>,
    name: Seq<char>,
    values: Seq<Scalar>,
) -> bool {
    &&& next.len() == slots.len()
    &&& forall|i: int|
        #![trigger next[i]]
        0 <= i < slots.len() ==> {
            &&& same_past(slots[i], next[i])
            &&& slots[i].name == name ==> next[i].trial == Some(values)
            &&& slots[i].name != name ==> next[i].trial == slots[i].trial
        }
}

/// The trial of a field can be set exactly while a trial is open, to as many finite values as
/// the field holds; the field of that name takes them and nothing else changes.
pub proof fn law_set_trial(state: StateModel, name: Seq<char>, values: Seq<Scalar>)
    requires
        state.consistent(),
    ensures
        state.set_trial(name, values) is Ok <==> state.phase == TransactionPhase::Trial && exists|
            i: int,
        |
            0 <= i < state.fields.len() && (#[trigger] state.fields[i]).name == name && suits(
                state.fields[i],
                values,
            ),
        state.set_trial(name, values) matches Ok(next) ==> {
            &&& same_frame(state, next)
            &&& next.phase == state.phase
            &&& next.constitutive == state.constitutive
            &&& trial_set(state.fields, next.fields, name, values)
        },
{
    reveal(StateModel::consistent);
    reveal(state_model::values_failure);
    assert forall|i: int| 0 <= i < state.fields.len() && (
    #[trigger] state.fields[i]).name == name implies state_model::slot_index(
        state.fields,
        name,
    ) == i by {
        state_model::lemma_slot_unique(state.fields, i);
    }
    if state.set_trial(name, values) is Ok {
        let i = state_model::slot_index(state.fields, name);
        assert(state.fields[i].name == name);
        assert(suits(state.fields[i], values));
    }
}

/// The trial of a constitutive slot can be set exactly while a trial is open, to as many
/// finite values as the slot holds; the slot of that name takes them and nothing else
/// changes.
pub proof fn law_set_constitutive_trial(
    state: StateModel,
    name: Seq<char>,
    values: Seq<Scalar>,
)
    requires
        state.consistent(),
    ensures
        state.set_constitutive_trial(name, values) is Ok <==> state.phase
            == TransactionPhase::Trial && exists|i: int|
            0 <= i < state.constitutive.len() && (#[trigger] state.constitutive[i]).name == name
                && suits(state.constitutive[i], values),
        state.set_constitutive_trial(name, values) matches Ok(next) ==> {
            &&& same_frame(state, next)
            &&& next.phase == state.phase
            &&& next.fields == state.fields
            &&& trial_set(state.constitutive, next.constitutive, name, values)
        },
{
    reveal(StateModel::consistent);
    reveal(state_model::values_failure);
    assert forall|i: int| 0 <= i < state.constitutive.len() && (
    #[trigger] state.constitutive[i]).name == name implies state_model::slot_index(
        state.constitutive,
        name,
    ) == i by {
        state_model::lemma_slot_unique(state.constitutive, i);
    }
    if state.set_constitutive_trial(name, values) is Ok {
        let i = state_model::slot_index(state.constitutive, name);
        assert(state.constitutive[i].name == name);
        assert(suits(state.constitutive[i], values));
    }
}

/// A vector can be set as the trial of all fields exactly while a trial is open, where it has
/// the width of the layout and is finite and every block has its field; each block's field
/// takes the block's own part, and nothing else changes.
pub proof fn law_set_trial_vector(state: StateModel, values: Seq<Scalar>)
    requires
        state.consistent(),
    ensures
        state.set_trial_vector(values) is Ok <==> {
            &&& state.phase == TransactionPhase::Trial
            &&& values.len() == layout::width_of(state.layout)
            &&& forall|i: int| 0 <= i < values.len() ==> (#[trigger] values[i]).finite()
            &&& forall|k: int|
                0 <= k < state.layout.len() ==> state_model::has_slot(
                    state.fields,
                    (#[trigger] state.layout[k]).id,
                )
        },
        state.set_trial_vector(values) matches Ok(next) ==> {
            &&& same_frame(state, next)
            &&& next.phase == state.phase
            &&& next.constitutive == state.constitutive
            &&& next.fields.len() == state.fields.len()
            &&& forall|i: int, k: int|
                #![trigger next.fields[i], state.layout[k]]
                0 <= i < state.fields.len() && 0 <= k < state.layout.len()
                    && state.layout[k].id == state.fields[i].name ==> {
                    &&& same_past(state.fields[i], next.fields[i])
                    &&& next.fields[i].trial == Some(
                        values.subrange(
                            state.layout[k].start as int,
                            state.layout[k].end as int,
                        ),
                    )
                }
        },
{
    reveal(StateModel::consistent);
    reveal(state_model::values_failure);
    if state.set_trial_vector(values) is Ok {
        let next = state.set_trial_vector(values)->Ok_0;
        assert forall|i: int, k: int|
            #![trigger next.fields[i], state.layout[k]]
            0 <= i < state.fields.len() && 0 <= k < state.layout.len() && state.layout[k].id
                == state.fields[i].name implies {
            &&& same_past(state.fields[i], next.fields[i])
            &&& next.fields[i].trial == Some(
                values.subrange(state.layout[k].start as int, state.layout[k].end as int),
            )
        } by {
            let j = choose|j: int|
                0 <= j < state.layout.len() && (#[trigger] state.layout[j]).id
                    == state.fields[i].name;
            assert(state.layout[k].id == state.layout[j].id);
            lemma_block_unique(state.layout, j, k);
            assert(next.fields[i] == state_model::scattered(
                state.fields[i],
                state.layout,
                values,
            ));
        }
    }
}

proof fn lemma_block_unique(blocks: Seq<BlockModel>, i: int, j: int)
    requires
        layout::tiles(blocks),
        0 <= i < blocks.len(),
        0 <= j < blocks.len(),
        blocks[i].id == blocks[j].id,
    ensures
        i == j,
{
}

/// A commit is taken exactly while a trial is open, at a finite time that does not lie before
/// the state's own, as long as the step can be counted.
pub proof fn law_commit_is_taken(state: StateModel, time: Scalar)
    ensures
        state.commit(time) is Ok <==> {
            &&& state.phase == TransactionPhase::Trial
            &&& time.finite()
            &&& !time.below(state.time)
            &&& state.step < u64::MAX
        },
        state.commit(time) matches Err(failure) ==> {
            &&& state.phase == TransactionPhase::Committed ==> failure
                == ErrorModel::NoActiveTrial
            &&& state.phase == TransactionPhase::Trial && (!time.finite() || time.below(
                state.time,
            )) ==> failure == (ErrorModel::InvalidCommitTime { time, current: state.time })
            &&& state.phase == TransactionPhase::Trial && time.finite() && !time.below(
                state.time,
            ) ==> failure == ErrorModel::StepOverflow
        },
{
}

/// A commit makes every trial value the committed one and closes the trial. A field keeps its
/// former committed values in front of its history, which grows by one level up to the limit
/// and then loses its oldest; a constitutive slot keeps none.
pub proof fn law_commit(state: StateModel, time: Scalar)
    requires
        state.consistent(),
        state.commit(time) is Ok,
    ensures
        ({
            let next = state.commit(time)->Ok_0;
            &&& next.layout == state.layout
            &&& next.history_limit == state.history_limit
            &&& next.time == time
            &&& next.step == state.step + 1
            &&& next.phase == TransactionPhase::Committed
            &&& next.fields.len() == state.fields.len()
            &&& next.constitutive.len() == state.constitutive.len()
            &&& forall|i: int|
                #![trigger next.fields[i]]
                0 <= i < state.fields.len() ==> {
                    let longer = seq![state.fields[i].committed] + state.fields[i].history;
                    &&& next.fields[i].name == state.fields[i].name
                    &&& Some(next.fields[i].committed) == state.fields[i].trial
                    &&& next.fields[i].trial is None
                    &&& longer.len() <= state.history_limit ==> next.fields[i].history == longer
                    &&& longer.len() > state.history_limit ==> next.fields[i].history
                        == longer.subrange(0, state.history_limit as int)
                }
            &&& forall|i: int|
                #![trigger next.constitutive[i]]
                0 <= i < state.constitutive.len() ==> {
                    &&& next.constitutive[i].name == state.constitutive[i].name
                    &&& Some(next.constitutive[i].committed) == state.constitutive[i].trial
                    &&& next.constitutive[i].trial is None
                    &&& next.constitutive[i].history.len() == 0
                }
        }),
{
    reveal(StateModel::consistent);
    let next = state.commit(time)->Ok_0;
    assert forall|i: int| #![trigger next.fields[i]] 0 <= i < state.fields.len() implies Some(
        next.fields[i].committed,
    ) == state.fields[i].trial by {
        assert(state_model::slot_consistent(
            state.fields[i],
            state.phase,
            state.history_limit,
        ));
    }
    assert forall|i: int| #![trigger next.constitutive[i]] 0 <= i
        < state.constitutive.len() implies Some(next.constitutive[i].committed)
        == state.constitutive[i].trial && next.constitutive[i].history.len() == 0 by {
        assert(state_model::slot_consistent(state.constitutive[i], state.phase, 0));
    }
}

/// Whether `next` holds the slots and one more.
pub open spec fn slot_added(
    slots: Seq<SlotModel>,
    next: Seq<SlotModel>,
    slot: SlotModel,
) -> bool {
    &&& next.len() == slots.len() + 1
    &&& forall|x: SlotModel| #[trigger] next.contains(x) <==> slots.contains(x) || x == slot
}

proof fn lemma_placed(slots: Seq<SlotModel>, slot: SlotModel)
    ensures
        slot_added(slots, state_model::place_slot(slots, slot), slot),
    decreases slots.len(),
{
    let result = state_model::place_slot(slots, slot);
    if slots.len() == 0 || !crate::text::precedes(slot.name, slots.last().name) {
        assert forall|x: SlotModel| #[trigger] result.contains(x) <==> slots.contains(x) || x
            == slot by {
            assert(result[slots.len() as int] == slot);
            if slots.contains(x) {
                let i = choose|i: int| 0 <= i < slots.len() && slots[i] == x;
                assert(result[i] == x);
            }
            if result.contains(x) && x != slot {
                let i = choose|i: int| 0 <= i < result.len() && result[i] == x;
                assert(slots[i] == x);
            }
        }
    } else {
        let rest = slots.drop_last();
        lemma_placed(rest, slot);
        let placed = state_model::place_slot(rest, slot);
        assert forall|x: SlotModel| #[trigger] result.contains(x) <==> slots.contains(x) || x
            == slot by {
            assert(result[placed.len() as int] == slots.last());
            assert(slots[slots.len() - 1] == slots.last());
            if placed.contains(x) {
                let i = choose|i: int| 0 <= i < placed.len() && placed[i] == x;
                assert(result[i] == x);
            }
            if rest.contains(x) {
                let i = choose|i: int| 0 <= i < rest.len() && rest[i] == x;
                assert(slots[i] == x);
            }
            if slots.contains(x) && x != slots.last() {
                let i = choose|i: int| 0 <= i < slots.len() && slots[i] == x;
                assert(rest[i] == x);
            }
            if result.contains(x) && x != slots.last() {
                let i = choose|i: int| 0 <= i < result.len() && result[i] == x;
                assert(placed[i] == x);
            }
        }
    }
}

/// A field is taken exactly on a committed state that has none of its name, over a block of
/// its name, with as many finite values as the block is wide; the state then has it with those
/// values and without history, beside every other field as it was.
pub proof fn law_insert_field(state: StateModel, name: Seq<char>, values: Seq<Scalar>)
    requires
        state.consistent(),
    ensures
        state.insert_field(name, values) is Ok <==> {
            &&& state.phase == TransactionPhase::Committed
            &&& forall|i: int| 0 <= i < state.fields.len() ==> (#[trigger] state.fields[i]).name
                != name
            &&& exists|k: int|
                0 <= k < state.layout.len() && (#[trigger] state.layout[k]).id == name
                    && values.len() == state.layout[k].end - state.layout[k].start
            &&& forall|i: int| 0 <= i < values.len() ==> (#[trigger] values[i]).finite()
        },
        state.insert_field(name, values) matches Ok(next) ==> {
            &&& same_frame(state, next)
            &&& next.phase == state.phase
            &&& next.constitutive == state.constitutive
            &&& slot_added(
                state.fields,
                next.fields,
                SlotModel { name, committed: values, trial: None, history: Seq::empty() },
            )
        },
{
    reveal(StateModel::consistent);
    reveal(state_model::values_failure);
    let slot = SlotModel { name, committed: values, trial: None, history: Seq::empty() };
    lemma_placed(state.fields, slot);
    assert forall|k: int| 0 <= k < state.layout.len() && (
    #[trigger] state.layout[k]).id == name implies state_model::block_width(
        state.layout,
        name,
    ) == Some(state.layout[k].end - state.layout[k].start) by {
        state_model::lemma_block_width(state.layout, k);
    }
    if layout::has_block(state.layout, name) {
        let k = choose|k: int|
            0 <= k < state.layout.len() && (#[trigger] state.layout[k]).id == name;
        assert(state.layout[k].id == name);
    }
}

/// A constitutive slot is taken exactly on a committed state that has none of its name, with
/// finite values; the state then has it with those values, beside every other slot as it was.
pub proof fn law_insert_constitutive(state: StateModel, name: Seq<char>, values: Seq<Scalar>)
    ensures
        state.insert_constitutive(name, values) is Ok <==> {
            &&& state.phase == TransactionPhase::Committed
            &&& forall|i: int|
                0 <= i < state.constitutive.len() ==> (#[trigger] state.constitutive[i]).name
                    != name
            &&& forall|i: int| 0 <= i < values.len() ==> (#[trigger] values[i]).finite()
        },
        state.insert_constitutive(name, values) matches Ok(next) ==> {
            &&& same_frame(state, next)
            &&& next.phase == state.phase
            &&& next.fields == state.fields
            &&& slot_added(
                state.constitutive,
                next.constitutive,
                SlotModel { name, committed: values, trial: None, history: Seq::empty() },
            )
        },
{
    reveal(state_model::values_failure);
    let slot = SlotModel { name, committed: values, trial: None, history: Seq::empty() };
    lemma_placed(state.constitutive, slot);
}

/// A vector that was committed is what the state reads back, block by block, and the vector
/// committed before it is the newest level of history, where any history is kept.
pub proof fn law_committed_vector_is_read_back(
    state: StateModel,
    values: Seq<Scalar>,
    time: Scalar,
    k: int,
)
    requires
        state.consistent(),
        state.phase == TransactionPhase::Committed,
        state.commit_vector(values, time) is Ok,
        0 <= k < state.layout.len(),
    ensures
        ({
            let next = state.commit_vector(values, time)->Ok_0;
            let id = state.layout[k].id;
            &&& next.layout == state.layout
            &&& next.time == time
            &&& next.step == state.step + 1
            &&& next.phase == TransactionPhase::Committed
            &&& values.len() == layout::width_of(state.layout)
            &&& state_model::has_slot(next.fields, id)
            &&& state_model::slot_of(next.fields, id).committed == values.subrange(
                state.layout[k].start as int,
                state.layout[k].end as int,
            )
            &&& state.history_limit > 0 ==> state_model::slot_of(next.fields, id).history.len()
                > 0 && state_model::slot_of(next.fields, id).history[0] == state_model::slot_of(
                state.fields,
                id,
            ).committed
        }),
{
    reveal(StateModel::consistent);
    reveal(state_model::values_failure);
    let trial = state.begin_trial()->Ok_0;
    let filled = trial.set_trial_vector(values)->Ok_0;
    let next = filled.commit(time)->Ok_0;
    let id = state.layout[k].id;
    state_model::law_begin_keeps_consistency(state);
    law_begin_trial(state);
    law_set_trial_vector(trial, values);
    state_model::law_set_trial_vector_keeps_consistency(trial, values);
    law_commit(filled, time);
    state_model::law_commit_keeps_consistency(filled, time);
    assert(state_model::has_slot(trial.fields, trial.layout[k].id));
    let i = choose|i: int| 0 <= i < trial.fields.len() && (#[trigger] trial.fields[i]).name == id;
    assert(state.layout[k].id == trial.fields[i].name);
    assert(same_past(state.fields[i], trial.fields[i]));
    assert(same_past(trial.fields[i], filled.fields[i]));
    assert(next.fields[i].name == id);
    state_model::lemma_consistent(next);
    state_model::lemma_slot_unique(next.fields, i);
    state_model::lemma_slot_unique(state.fields, i);
}

/// A checkpoint is taken exactly of a committed state. It names the layout, the history
/// limit, the time and the step, and of every field its committed values and its history, of
/// every constitutive slot its committed values.
pub proof fn law_checkpoint_tells_the_committed_state(state: StateModel)
    ensures
        state.checkpoint() is Ok <==> state.phase == TransactionPhase::Committed,
        state.checkpoint() matches Ok(saved) ==> {
            &&& saved.layout_identity == layout::identity_of(state.layout)
            &&& saved.history_limit == state.history_limit
            &&& saved.time == state.time
            &&& saved.step == state.step
            &&& saved.fields.len() == state.fields.len()
            &&& saved.field_history.len() == state.fields.len()
            &&& saved.constitutive.len() == state.constitutive.len()
            &&& forall|i: int|
                #![trigger state.fields[i]]
                0 <= i < state.fields.len() ==> {
                    &&& saved.fields[i].name == state.fields[i].name
                    &&& saved.fields[i].values == state.fields[i].committed
                    &&& saved.field_history[i].name == state.fields[i].name
                    &&& saved.field_history[i].levels == state.fields[i].history
                }
            &&& forall|i: int|
                #![trigger state.constitutive[i]]
                0 <= i < state.constitutive.len() ==> {
                    &&& saved.constitutive[i].name == state.constitutive[i].name
                    &&& saved.constitutive[i].values == state.constitutive[i].committed
                }
        },
{
}

/// A checkpoint of another layout, of another history limit or of a time that is not finite
/// is refused; an accepted one leads to a committed state at its time and step, over the
/// structure that was there.
pub proof fn law_restore_takes_what_fits(state: StateModel, saved: CheckpointModel)
    requires
        state.restore(saved) is Ok,
    ensures
        saved.layout_identity == layout::identity_of(state.layout),
        saved.history_limit == state.history_limit,
        saved.time.finite(),
        ({
            let next = state.restore(saved)->Ok_0;
            &&& next.phase == TransactionPhase::Committed
            &&& next.layout == state.layout
            &&& next.history_limit == state.history_limit
            &&& next.time == saved.time
            &&& next.step == saved.step
        }),
{
}

} // verus!
