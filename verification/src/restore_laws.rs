//! What an accepted checkpoint leads to, whatever it came from.
use crate::checkpoint;
use crate::checkpoint::{CheckpointModel, HistoryModel, NamedModel};
use crate::error::ErrorModel;
use crate::layout;
use crate::restore_model;
use crate::state_model;
use crate::state_model::{SlotModel, StateModel, TransactionPhase};
use crate::text;
use vstd::prelude::*;

verus! {

/// Whether two lists hold the same entries, in whatever order.
pub open spec fn same_entries<A>(left: Seq<A>, right: Seq<A>) -> bool {
    &&& left.len() == right.len()
    &&& forall|x: A| #[trigger] left.contains(x) <==> right.contains(x)
}

/// Whether two checkpoints describe the same state: they agree but for the order in which
/// they list their entries.
pub open spec fn same_checkpoint(left: CheckpointModel, right: CheckpointModel) -> bool {
    &&& left.layout_identity == right.layout_identity
    &&& left.history_limit == right.history_limit
    &&& left.time == right.time
    &&& left.step == right.step
    &&& same_entries(left.fields, right.fields)
    &&& same_entries(left.field_history, right.field_history)
    &&& same_entries(left.constitutive, right.constitutive)
}

/// Whether every entry of one list is one of the other.
pub open spec fn taken_from<A>(left: Seq<A>, right: Seq<A>) -> bool {
    forall|i: int| 0 <= i < left.len() ==> right.contains(#[trigger] left[i])
}

/// Whether a checkpoint holds no entries beyond those of a state's fields and slots: as many
/// as there are of each.
pub open spec fn nothing_beyond(state: StateModel, saved: CheckpointModel) -> bool {
    &&& saved.fields.len() == state.fields.len()
    &&& saved.field_history.len() == state.fields.len()
    &&& saved.constitutive.len() == state.constitutive.len()
}

/// Names in strictly increasing order.
pub open spec fn names_ascend(names: Seq<Seq<char>>) -> bool {
    forall|i: int, j: int|
        0 <= i < j < names.len() ==> text::precedes(#[trigger] names[i], #[trigger] names[j])
}

pub open spec fn entry_names(entries: Seq<NamedModel>) -> Seq<Seq<char>> {
    entries.map_values(|entry: NamedModel| entry.name)
}

pub open spec fn history_names(entries: Seq<HistoryModel>) -> Seq<Seq<char>> {
    entries.map_values(|entry: HistoryModel| entry.name)
}

/// Whether a checkpoint lists its entries by name, as a state writes them.
pub open spec fn sorted(saved: CheckpointModel) -> bool {
    &&& names_ascend(entry_names(saved.fields))
    &&& names_ascend(history_names(saved.field_history))
    &&& names_ascend(entry_names(saved.constitutive))
}

proof fn lemma_entry_found(entries: Seq<NamedModel>, name: Seq<char>)
    requires
        checkpoint::has_entry(entries, name),
    ensures
        0 <= checkpoint::entry_index(entries, name) < entries.len(),
        entries[checkpoint::entry_index(entries, name)].name == name,
{
    reveal(checkpoint::has_entry);
    reveal(checkpoint::entry_index);
    let some = choose|i: int| 0 <= i < entries.len() && (#[trigger] entries[i]).name == name;
    lemma_first_entry(entries, name, some);
}

proof fn lemma_first_entry(entries: Seq<NamedModel>, name: Seq<char>, i: int)
    requires
        0 <= i < entries.len(),
        entries[i].name == name,
    ensures
        exists|k: int|
            {
                &&& 0 <= k < entries.len()
                &&& (#[trigger] entries[k]).name == name
                &&& forall|j: int| 0 <= j < k ==> (#[trigger] entries[j]).name != name
            },
    decreases i,
{
    if exists|j: int| 0 <= j < i && (#[trigger] entries[j]).name == name {
        let j = choose|j: int| 0 <= j < i && (#[trigger] entries[j]).name == name;
        lemma_first_entry(entries, name, j);
    }
}

proof fn lemma_history_found(entries: Seq<HistoryModel>, name: Seq<char>)
    requires
        checkpoint::has_history(entries, name),
    ensures
        0 <= checkpoint::history_index(entries, name) < entries.len(),
        entries[checkpoint::history_index(entries, name)].name == name,
{
    reveal(checkpoint::has_history);
    reveal(checkpoint::history_index);
    let some = choose|i: int| 0 <= i < entries.len() && (#[trigger] entries[i]).name == name;
    lemma_first_history(entries, name, some);
}

proof fn lemma_first_history(entries: Seq<HistoryModel>, name: Seq<char>, i: int)
    requires
        0 <= i < entries.len(),
        entries[i].name == name,
    ensures
        exists|k: int|
            {
                &&& 0 <= k < entries.len()
                &&& (#[trigger] entries[k]).name == name
                &&& forall|j: int| 0 <= j < k ==> (#[trigger] entries[j]).name != name
            },
    decreases i,
{
    if exists|j: int| 0 <= j < i && (#[trigger] entries[j]).name == name {
        let j = choose|j: int| 0 <= j < i && (#[trigger] entries[j]).name == name;
        lemma_first_history(entries, name, j);
    }
}

/// As many distinct entries, all taken from a list of that length, are all of the list.
proof fn lemma_all_taken<A>(taken: Seq<A>, list: Seq<A>)
    requires
        taken.no_duplicates(),
        taken.len() == list.len(),
        taken_from(taken, list),
    ensures
        same_entries(taken, list),
{
    taken.unique_seq_to_set();
    list.lemma_cardinality_of_set();
    assert(taken.to_set().subset_of(list.to_set())) by {
        assert forall|x: A| taken.to_set().contains(x) implies list.to_set().contains(x) by {
            let i = choose|i: int| 0 <= i < taken.len() && taken[i] == x;
            assert(list.contains(taken[i]));
        }
    }
    vstd::set_lib::lemma_len_subset(taken.to_set(), list.to_set());
    vstd::set_lib::lemma_subset_equality(taken.to_set(), list.to_set());
    assert forall|x: A| #[trigger] taken.contains(x) <==> list.contains(x) by {
        assert(taken.to_set().contains(x) == taken.contains(x));
        assert(list.to_set().contains(x) == list.contains(x));
    }
}

proof fn lemma_names_differ(slots: Seq<SlotModel>, i: int, j: int)
    requires
        state_model::ordered(slots),
        0 <= i < slots.len(),
        0 <= j < slots.len(),
        i != j,
    ensures
        slots[i].name != slots[j].name,
{
    text::lemma_precedes_irreflexive(slots[i].name);
    if i < j {
        assert(text::precedes(slots[i].name, slots[j].name));
    } else {
        assert(text::precedes(slots[j].name, slots[i].name));
    }
}

/// The fields of an accepted checkpoint are what the restored fields would be saved as.
proof fn lemma_fields_saved(state: StateModel, saved: CheckpointModel)
    requires
        state.consistent(),
        state.restore(saved) is Ok,
    ensures
        ({
            let next = state.restore(saved)->Ok_0;
            let values = restore_model::saved_values(next.fields);
            let histories = restore_model::saved_history(next.fields);
            &&& taken_from(values, saved.fields)
            &&& taken_from(histories, saved.field_history)
            &&& nothing_beyond(state, saved) ==> same_entries(values, saved.fields)
                && same_entries(histories, saved.field_history)
        }),
{
    reveal(StateModel::consistent);
    let next = state.restore(saved)->Ok_0;
    restore_model::lemma_fields_restored(state.fields, saved);
    restore_model::law_restore_keeps_consistency(state, saved);
    let values = restore_model::saved_values(next.fields);
    let histories = restore_model::saved_history(next.fields);
    assert forall|i: int| 0 <= i < next.fields.len() implies {
        &&& saved.fields.contains(#[trigger] values[i])
        &&& saved.field_history.contains(histories[i])
    } by {
        let slot = state.fields[i];
        assert(restore_model::field_restored(slot, saved) == Ok::<SlotModel, ErrorModel>(
            next.fields[i],
        ));
        lemma_entry_found(saved.fields, slot.name);
        lemma_history_found(saved.field_history, slot.name);
        let e = checkpoint::entry_index(saved.fields, slot.name);
        let h = checkpoint::history_index(saved.field_history, slot.name);
        assert(values[i] == saved.fields[e]);
        assert(histories[i] == saved.field_history[h]);
    }
    assert(values.no_duplicates()) by {
        assert forall|i: int, j: int| 0 <= i < j < values.len() implies values[i] != values[j] by {
            lemma_names_differ(next.fields, i, j);
            assert(values[i].name == next.fields[i].name);
            assert(values[j].name == next.fields[j].name);
        }
    }
    assert(histories.no_duplicates()) by {
        assert forall|i: int, j: int| 0 <= i < j < histories.len() implies histories[i]
            != histories[j] by {
            lemma_names_differ(next.fields, i, j);
            assert(histories[i].name == next.fields[i].name);
            assert(histories[j].name == next.fields[j].name);
        }
    }
    assert forall|i: int| 0 <= i < histories.len() implies saved.field_history.contains(
        #[trigger] histories[i],
    ) by {
        assert(saved.fields.contains(values[i]));
    }
    if nothing_beyond(state, saved) {
        lemma_all_taken(values, saved.fields);
        lemma_all_taken(histories, saved.field_history);
    }
}

proof fn lemma_slots_saved(state: StateModel, saved: CheckpointModel)
    requires
        state.consistent(),
        state.restore(saved) is Ok,
    ensures
        ({
            let values = restore_model::saved_values(state.restore(saved)->Ok_0.constitutive);
            &&& taken_from(values, saved.constitutive)
            &&& nothing_beyond(state, saved) ==> same_entries(values, saved.constitutive)
        }),
{
    reveal(StateModel::consistent);
    let next = state.restore(saved)->Ok_0;
    restore_model::lemma_slots_restored(state.constitutive, saved);
    restore_model::law_restore_keeps_consistency(state, saved);
    let values = restore_model::saved_values(next.constitutive);
    assert forall|i: int| 0 <= i < values.len() implies saved.constitutive.contains(
        #[trigger] values[i],
    ) by {
        let slot = state.constitutive[i];
        assert(restore_model::constitutive_restored(slot, saved) == Ok::<SlotModel, ErrorModel>(
            next.constitutive[i],
        ));
        lemma_entry_found(saved.constitutive, slot.name);
        let e = checkpoint::entry_index(saved.constitutive, slot.name);
        assert(values[i] == saved.constitutive[e]);
    }
    assert(values.no_duplicates()) by {
        assert forall|i: int, j: int| 0 <= i < j < values.len() implies values[i] != values[j] by {
            lemma_names_differ(next.constitutive, i, j);
            assert(values[i].name == next.constitutive[i].name);
            assert(values[j].name == next.constitutive[j].name);
        }
    }
    if nothing_beyond(state, saved) {
        lemma_all_taken(values, saved.constitutive);
    }
}

/// Lists of the same entries, both in the order of their names, are the same list.
proof fn lemma_sorted_unique<A>(left: Seq<A>, right: Seq<A>, name: spec_fn(A) -> Seq<char>)
    requires
        same_entries(left, right),
        names_ascend(left.map_values(name)),
        names_ascend(right.map_values(name)),
    ensures
        left == right,
    decreases left.len(),
{
    if left.len() > 0 {
        let last = left.len() - 1;
        let names = left.map_values(name);
        let others = right.map_values(name);
        assert(left.contains(left[last]));
        assert(right.contains(right[last]));
        assert(left.contains(right[last]));
        let i = choose|i: int| 0 <= i < right.len() && right[i] == left[last];
        let j = choose|j: int| 0 <= j < left.len() && left[j] == right[last];
        assert(left[last] == right[last]) by {
            if i < last && j < last {
                assert(text::precedes(names[j], names[last]));
                assert(text::precedes(others[i], others[last]));
                text::lemma_precedes_transitive(names[j], names[last], names[j]);
                text::lemma_precedes_irreflexive(names[j]);
            }
        }
        let shorter = left.drop_last();
        let other = right.drop_last();
        assert forall|x: A| #[trigger] shorter.contains(x) <==> other.contains(x) by {
            if shorter.contains(x) {
                let a = choose|a: int| 0 <= a < shorter.len() && shorter[a] == x;
                assert(text::precedes(names[a], names[last]));
                text::lemma_precedes_irreflexive(names[a]);
                assert(left.contains(left[a]));
                let b = choose|b: int| 0 <= b < right.len() && right[b] == x;
                assert(other[b] == x);
            }
            if other.contains(x) {
                let b = choose|b: int| 0 <= b < other.len() && other[b] == x;
                assert(text::precedes(others[b], others[last]));
                text::lemma_precedes_irreflexive(others[b]);
                assert(right.contains(right[b]));
                assert(left.contains(x));
                let a = choose|a: int| 0 <= a < left.len() && left[a] == x;
                assert(shorter[a] == x);
            }
        }
        assert(names_ascend(shorter.map_values(name))) by {
            let fewer = shorter.map_values(name);
            assert forall|a: int, b: int| 0 <= a < b < fewer.len() implies text::precedes(
                #[trigger] fewer[a],
                #[trigger] fewer[b],
            ) by {
                assert(text::precedes(names[a], names[b]));
            }
        }
        assert(names_ascend(other.map_values(name))) by {
            let fewer = other.map_values(name);
            assert forall|a: int, b: int| 0 <= a < b < fewer.len() implies text::precedes(
                #[trigger] fewer[a],
                #[trigger] fewer[b],
            ) by {
                assert(text::precedes(others[a], others[b]));
            }
        }
        lemma_sorted_unique(shorter, other, name);
        assert(left =~= shorter.push(left[last]));
        assert(right =~= other.push(right[last]));
    } else {
        assert(left =~= right);
    }
}

/// A state writes its checkpoint by name.
proof fn lemma_written_sorted(state: StateModel)
    requires
        state.consistent(),
        state.checkpoint() is Ok,
    ensures
        sorted(state.checkpoint()->Ok_0),
{
    reveal(StateModel::consistent);
    let saved = state.checkpoint()->Ok_0;
    let fields = entry_names(saved.fields);
    let histories = history_names(saved.field_history);
    let slots = entry_names(saved.constitutive);
    assert forall|i: int, j: int| 0 <= i < j < fields.len() implies text::precedes(
        #[trigger] fields[i],
        #[trigger] fields[j],
    ) by {
        assert(fields[i] == state.fields[i].name && fields[j] == state.fields[j].name);
    }
    assert forall|i: int, j: int| 0 <= i < j < histories.len() implies text::precedes(
        #[trigger] histories[i],
        #[trigger] histories[j],
    ) by {
        assert(histories[i] == state.fields[i].name && histories[j] == state.fields[j].name);
    }
    assert forall|i: int, j: int| 0 <= i < j < slots.len() implies text::precedes(
        #[trigger] slots[i],
        #[trigger] slots[j],
    ) by {
        assert(slots[i] == state.constitutive[i].name && slots[j] == state.constitutive[j].name);
    }
}

/// After any accepted restore the checkpoint of the state holds the given time, step and
/// history limit, and of each field and slot what was given of it. Where nothing was given
/// beyond those, it is the given checkpoint: one that lists its entries by name comes back
/// exactly; one that lists them in another order comes back in the order of their names.
pub proof fn law_accepted_checkpoint_comes_back(state: StateModel, saved: CheckpointModel)
    requires
        state.consistent(),
        state.restore(saved) is Ok,
    ensures
        state.restore(saved)->Ok_0.checkpoint() matches Ok(again) && {
            &&& again.layout_identity == saved.layout_identity
            &&& again.history_limit == saved.history_limit
            &&& again.time == saved.time
            &&& again.step == saved.step
            &&& taken_from(again.fields, saved.fields)
            &&& taken_from(again.field_history, saved.field_history)
            &&& taken_from(again.constitutive, saved.constitutive)
            &&& nothing_beyond(state, saved) ==> same_checkpoint(again, saved)
            &&& nothing_beyond(state, saved) && sorted(saved) ==> again == saved
        },
{
    let next = state.restore(saved)->Ok_0;
    let again = next.checkpoint()->Ok_0;
    lemma_fields_saved(state, saved);
    lemma_slots_saved(state, saved);
    restore_model::law_restore_keeps_consistency(state, saved);
    if nothing_beyond(state, saved) && sorted(saved) {
        lemma_written_sorted(next);
        let by_name = |entry: NamedModel| entry.name;
        let by_history = |entry: HistoryModel| entry.name;
        lemma_sorted_unique(again.fields, saved.fields, by_name);
        lemma_sorted_unique(again.field_history, saved.field_history, by_history);
        lemma_sorted_unique(again.constitutive, saved.constitutive, by_name);
    }
}

proof fn lemma_slots_told_apart(
    left: Seq<SlotModel>,
    right: Seq<SlotModel>,
)
    requires
        restore_model::saved_values(left) == restore_model::saved_values(right),
        restore_model::saved_history(left) == restore_model::saved_history(right),
        forall|i: int| 0 <= i < left.len() ==> (#[trigger] left[i]).trial is None,
        forall|i: int| 0 <= i < right.len() ==> (#[trigger] right[i]).trial is None,
    ensures
        left == right,
{
    let values = restore_model::saved_values(left);
    let others = restore_model::saved_values(right);
    assert(values.len() == left.len() && others.len() == right.len());
    assert forall|i: int| 0 <= i < left.len() implies left[i] == right[i] by {
        assert(values[i] == others[i]);
        assert(values[i].name == left[i].name && values[i].values == left[i].committed);
        assert(others[i].name == right[i].name && others[i].values == right[i].committed);
        assert(restore_model::saved_history(left)[i].levels == left[i].history);
        assert(restore_model::saved_history(right)[i].levels == right[i].history);
        assert(left[i].trial is None && right[i].trial is None);
    }
    assert(left =~= right);
}

/// Whether two states have as many fields and as many slots.
pub open spec fn same_counts(left: StateModel, right: StateModel) -> bool {
    &&& left.fields.len() == right.fields.len()
    &&& left.constitutive.len() == right.constitutive.len()
}

/// Whatever state accepts a checkpoint, it becomes the state that the checkpoint was taken
/// of, unless that state had fields or slots beyond its own.
pub proof fn law_accepted_restore_gives_the_saved_state(saved: StateModel, current: StateModel)
    requires
        saved.consistent(),
        current.consistent(),
        saved.checkpoint() is Ok,
        current.restore(saved.checkpoint()->Ok_0) is Ok,
        same_counts(saved, current),
    ensures
        current.restore(saved.checkpoint()->Ok_0) == Ok::<StateModel, ErrorModel>(saved),
{
    let image = saved.checkpoint()->Ok_0;
    let next = current.restore(image)->Ok_0;
    lemma_written_sorted(saved);
    law_accepted_checkpoint_comes_back(current, image);
    restore_model::law_restore_keeps_consistency(current, image);
    assert(next.checkpoint()->Ok_0 == image);
    layout::law_layout_identity_is_injective(next.layout, saved.layout);
    reveal(StateModel::consistent);
    assert forall|i: int| 0 <= i < next.fields.len() implies (#[trigger] next.fields[i]).trial is None by {
        assert(state_model::slot_consistent(next.fields[i], next.phase, next.history_limit));
    }
    assert forall|i: int| 0 <= i < saved.fields.len() implies (#[trigger] saved.fields[i]).trial is None by {
        assert(state_model::slot_consistent(saved.fields[i], saved.phase, saved.history_limit));
    }
    lemma_slots_told_apart(next.fields, saved.fields);
    let mine = next.constitutive;
    let theirs = saved.constitutive;
    assert(restore_model::saved_values(mine).len() == restore_model::saved_values(theirs).len());
    assert(restore_model::saved_history(mine) =~= restore_model::saved_history(theirs)) by {
        assert forall|i: int| 0 <= i < mine.len() implies restore_model::saved_history(mine)[i]
            == #[trigger] restore_model::saved_history(theirs)[i] by {
            assert(state_model::slot_consistent(mine[i], next.phase, 0));
            assert(state_model::slot_consistent(theirs[i], saved.phase, 0));
            assert(restore_model::saved_values(mine)[i].name
                == restore_model::saved_values(theirs)[i].name);
            assert(mine[i].history =~= theirs[i].history);
        }
    }
    assert forall|i: int| 0 <= i < mine.len() implies (#[trigger] mine[i]).trial is None by {
        assert(state_model::slot_consistent(mine[i], next.phase, 0));
    }
    assert forall|i: int| 0 <= i < theirs.len() implies (#[trigger] theirs[i]).trial is None by {
        assert(state_model::slot_consistent(theirs[i], saved.phase, 0));
    }
    lemma_slots_told_apart(mine, theirs);
    assert(next.phase == TransactionPhase::Committed && saved.phase
        == TransactionPhase::Committed);
}

} // verus!
