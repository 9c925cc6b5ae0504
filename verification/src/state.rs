//! Committed and trial values of a simulation, and the transaction over them.
use crate::checkpoint;
use crate::checkpoint::{
    copy_levels, find_entry, find_history, Checkpoint, NamedHistory, NamedScalars,
};
use crate::error::{ErrorModel, KrasisError};
use crate::layout;
use crate::layout::{BlockModel, StateLayout};
use crate::restore_model;
use crate::scalar;
use crate::scalar::{append_scalars, copy_range, copy_scalars, find_non_finite, zeros, Scalar};
use crate::state_model;
use crate::state_model::{SlotModel, StateModel, TransactionPhase};
use crate::text;
use crate::text::{same_text, text_precedes};
use vstd::prelude::*;

verus! {

/// The name of a field; a field fills the state block of its name.
#[derive(Debug, PartialEq, Eq, PartialOrd, Ord, Hash)]
pub struct FieldId {
    name: String,
}

impl View for FieldId {
    type V = Seq<char>;

    closed spec fn view(&self) -> Seq<char> {
        self.name@
    }
}

impl FieldId {
    pub fn new(id: &str) -> (result: FieldId)
        ensures
            result@ == id@,
    {
        FieldId { name: id.to_owned() }
    }

    pub fn as_str(&self) -> (result: &str)
        ensures
            result@ == self@,
    {
        self.name.as_str()
    }
}

impl Clone for FieldId {
    fn clone(&self) -> (result: FieldId)
        ensures
            result@ == self@,
    {
        FieldId { name: self.name.clone() }
    }
}

/// Values that change only by a commit, and their trial while one is open.
#[derive(Clone, Debug, PartialEq, Eq)]
pub struct ConstitutiveSlot {
    committed: Vec<Scalar>,
    trial: Option<Vec<Scalar>>,
}

pub open spec fn option_model(values: Option<Vec<Scalar>>) -> Option<Seq<Scalar>> {
    match values {
        Some(values) => Some(values@),
        None => None,
    }
}

impl ConstitutiveSlot {
    pub closed spec fn committed_values(&self) -> Seq<Scalar> {
        self.committed@
    }

    pub closed spec fn trial_values(&self) -> Option<Seq<Scalar>> {
        option_model(self.trial)
    }

    pub fn new(committed: Vec<Scalar>) -> (result: ConstitutiveSlot)
        ensures
            result.committed_values() == committed@,
            result.trial_values() is None,
    {
        ConstitutiveSlot { committed, trial: None }
    }

    pub fn committed(&self) -> (result: &Vec<Scalar>)
        ensures
            result@ == self.committed_values(),
    {
        &self.committed
    }

    pub fn trial(&self) -> (result: Option<&Vec<Scalar>>)
        ensures
            match result {
                Some(values) => self.trial_values() == Some(values@),
                None => self.trial_values() is None,
            },
    {
        match &self.trial {
            Some(values) => Some(values),
            None => None,
        }
    }
}

/// A named slot with its history, newest level first.
#[derive(Debug, PartialEq, Eq)]
struct Slot {
    name: String,
    values: ConstitutiveSlot,
    history: Vec<Vec<Scalar>>,
}

impl View for Slot {
    type V = SlotModel;

    closed spec fn view(&self) -> SlotModel {
        SlotModel {
            name: self.name@,
            committed: self.values.committed@,
            trial: option_model(self.values.trial),
            history: checkpoint::level_models(self.history@),
        }
    }
}

closed spec fn slot_models(slots: Seq<Slot>) -> Seq<SlotModel> {
    slots.map_values(|slot: Slot| slot@)
}

impl Slot {
    fn new(name: &str, values: Vec<Scalar>) -> (result: Slot)
        ensures
            result@ == (SlotModel {
                name: name@,
                committed: values@,
                trial: None,
                history: Seq::empty(),
            }),
    {
        let result = Slot {
            name: name.to_owned(),
            values: ConstitutiveSlot::new(values),
            history: Vec::new(),
        };
        assert(result@.history =~= Seq::empty());
        result
    }

    fn open(&mut self)
        ensures
            final(self)@ == state_model::opened(old(self)@),
    {
        self.values.trial = Some(copy_scalars(&self.values.committed));
    }

    fn drop_trial(&mut self)
        ensures
            final(self)@ == state_model::dropped(old(self)@),
    {
        self.values.trial = None;
    }

    fn set_trial(&mut self, values: Vec<Scalar>)
        ensures
            final(self)@ == (SlotModel { trial: Some(values@), ..old(self)@ }),
    {
        self.values.trial = Some(values);
    }

    fn advance(&mut self, limit: usize)
        requires
            old(self)@.trial is Some,
        ensures
            final(self)@ == state_model::advanced(old(self)@, limit as nat),
    {
        let ghost before = self@;
        let trial = self.values.trial.take();
        match trial {
            Some(next) => {
                let mut moved = next;
                std::mem::swap(&mut self.values.committed, &mut moved);
                self.history.insert(0, moved);
                assert(checkpoint::level_models(self.history@) =~= seq![before.committed]
                    + before.history);
                self.history.truncate(limit);
                assert(checkpoint::level_models(self.history@) =~= state_model::recent(
                    before.committed,
                    before.history,
                    limit as nat,
                ));
            },
            None => {},
        }
    }

    fn copy(&self) -> (result: Slot)
        ensures
            result@ == self@,
    {
        Slot {
            name: self.name.clone(),
            values: ConstitutiveSlot {
                committed: copy_scalars(&self.values.committed),
                trial: match &self.values.trial {
                    Some(values) => Some(copy_scalars(values)),
                    None => None,
                },
            },
            history: copy_levels(&self.history),
        }
    }
}

fn find_slot(slots: &Vec<Slot>, name: &str) -> (result: Option<usize>)
    ensures
        match result {
            Some(index) => {
                &&& index < slots.len()
                &&& slots@[index as int].name@ == name@
                &&& state_model::has_slot(slot_models(slots@), name@)
                &&& state_model::ordered(slot_models(slots@)) ==> index == state_model::slot_index(
                    slot_models(slots@),
                    name@,
                )
            },
            None => !state_model::has_slot(slot_models(slots@), name@),
        },
{
    let ghost models = slot_models(slots@);
    let mut index: usize = 0;
    while index < slots.len()
        invariant
            index <= slots.len(),
            models == slot_models(slots@),
            forall|i: int| 0 <= i < index ==> (#[trigger] models[i]).name != name@,
        decreases slots.len() - index,
    {
        assert(models[index as int] == slots@[index as int]@);
        if same_text(slots[index].name.as_str(), name) {
            proof {
                assert(models[index as int].name == name@);
                if state_model::ordered(models) {
                    state_model::lemma_slot_unique(models, index as int);
                }
            }
            return Some(index);
        }
        index += 1;
    }
    None
}

fn place_slot(slots: &mut Vec<Slot>, slot: Slot)
    requires
        state_model::ordered(slot_models(old(slots)@)),
    ensures
        slot_models(final(slots)@) == state_model::place_slot(slot_models(old(slots)@), slot@),
{
    let ghost before = slot_models(slots@);
    let mut position: usize = slots.len();
    while position > 0 && text_precedes(slot.name.as_str(), slots[position - 1].name.as_str())
        invariant
            position <= slots.len(),
            before == slot_models(slots@),
            forall|i: int|
                position <= i < before.len() ==> text::precedes(
                    slot@.name,
                    (#[trigger] before[i]).name,
                ),
        decreases position,
    {
        assert(before[position - 1] == slots@[position - 1]@);
        position -= 1;
    }
    proof {
        if position > 0 {
            assert(before[position - 1] == slots@[position - 1]@);
        }
        state_model::lemma_place_slot_at(before, slot@, position as int);
    }
    slots.insert(position, slot);
    assert(slot_models(slots@) =~= before.insert(position as int, slot@));
}

fn open_slots(slots: &mut Vec<Slot>)
    ensures
        slot_models(final(slots)@) == slot_models(old(slots)@).map_values(
            |slot: SlotModel| state_model::opened(slot),
        ),
{
    let ghost before = slot_models(slots@);
    let mut index: usize = 0;
    while index < slots.len()
        invariant
            index <= slots.len(),
            slots.len() == before.len(),
            forall|i: int|
                0 <= i < index ==> (#[trigger] slots@[i])@ == state_model::opened(before[i]),
            forall|i: int| index <= i < before.len() ==> (#[trigger] slots@[i])@ == before[i],
        decreases slots.len() - index,
    {
        let slot = &mut slots[index];
        slot.open();
        index += 1;
    }
    assert(slot_models(slots@) =~= before.map_values(
        |slot: SlotModel| state_model::opened(slot),
    ));
}

fn drop_trials(slots: &mut Vec<Slot>)
    ensures
        slot_models(final(slots)@) == slot_models(old(slots)@).map_values(
            |slot: SlotModel| state_model::dropped(slot),
        ),
{
    let ghost before = slot_models(slots@);
    let mut index: usize = 0;
    while index < slots.len()
        invariant
            index <= slots.len(),
            slots.len() == before.len(),
            forall|i: int|
                0 <= i < index ==> (#[trigger] slots@[i])@ == state_model::dropped(before[i]),
            forall|i: int| index <= i < before.len() ==> (#[trigger] slots@[i])@ == before[i],
        decreases slots.len() - index,
    {
        let slot = &mut slots[index];
        slot.drop_trial();
        index += 1;
    }
    assert(slot_models(slots@) =~= before.map_values(
        |slot: SlotModel| state_model::dropped(slot),
    ));
}

fn advance_slots(slots: &mut Vec<Slot>, limit: usize)
    requires
        forall|i: int|
            0 <= i < old(slots)@.len() ==> (#[trigger] old(slots)@[i])@.trial is Some,
    ensures
        slot_models(final(slots)@) == slot_models(old(slots)@).map_values(
            |slot: SlotModel| state_model::advanced(slot, limit as nat),
        ),
{
    let ghost before = slot_models(slots@);
    assert forall|i: int| 0 <= i < before.len() implies (#[trigger] before[i]).trial is Some by {
        assert(slots@[i]@.trial is Some);
    }
    let mut index: usize = 0;
    while index < slots.len()
        invariant
            index <= slots.len(),
            slots.len() == before.len(),
            forall|i: int| 0 <= i < before.len() ==> (#[trigger] before[i]).trial is Some,
            forall|i: int|
                0 <= i < index ==> (#[trigger] slots@[i])@ == state_model::advanced(
                    before[i],
                    limit as nat,
                ),
            forall|i: int| index <= i < before.len() ==> (#[trigger] slots@[i])@ == before[i],
        decreases slots.len() - index,
    {
        let slot = &mut slots[index];
        slot.advance(limit);
        index += 1;
    }
    assert(slot_models(slots@) =~= before.map_values(
        |slot: SlotModel| state_model::advanced(slot, limit as nat),
    ));
}

fn copy_slots(slots: &Vec<Slot>) -> (result: Vec<Slot>)
    ensures
        slot_models(result@) == slot_models(slots@),
{
    let mut result: Vec<Slot> = Vec::new();
    let mut index: usize = 0;
    while index < slots.len()
        invariant
            index <= slots.len(),
            result@.len() == index,
            forall|i: int| 0 <= i < index ==> (#[trigger] result@[i])@ == slots@[i]@,
        decreases slots.len() - index,
    {
        result.push(slots[index].copy());
        index += 1;
    }
    assert(slot_models(result@) =~= slot_models(slots@));
    result
}

/// The error of values that do not fit.
fn check_values(name: &str, label: String, values: &Vec<Scalar>, expected: usize) -> (result:
    Option<KrasisError>)
    ensures
        match state_model::values_failure(name@, label@, values@, expected as int) {
            Some(failure) => result matches Some(error) && error@ == failure,
            None => result is None,
        },
{
    proof {
        reveal(state_model::values_failure);
    }
    if values.len() != expected {
        return Some(
            KrasisError::FieldLength { field: name.to_owned(), actual: values.len(), expected },
        );
    }
    match find_non_finite(values) {
        Some(index) => {
            proof {
                let i = choose|i: int| scalar::first_non_finite(values@, i);
                assert(scalar::first_non_finite(values@, index as int));
                assert(scalar::first_non_finite(values@, i));
                if i < index {
                    assert(values@[i].finite());
                } else if index < i {
                    assert(values@[index as int].finite());
                }
                assert(!scalar::all_finite(values@)) by {
                    assert(!values@[index as int].finite());
                }
            }
            Some(KrasisError::NonFiniteValue { label, index })
        },
        None => None,
    }
}

fn field_label_text(name: &str) -> (result: String)
    ensures
        result@ == state_model::field_label(name@),
{
    "field `".to_owned().concat(name).concat("`")
}

fn constitutive_label_text(name: &str) -> (result: String)
    ensures
        result@ == state_model::constitutive_label(name@),
{
    "constitutive slot `".to_owned().concat(name).concat("`")
}

/// A committed slot of positive zeros without history.
pub open spec fn zero_slot(slot: SlotModel) -> bool {
    &&& slot.trial is None
    &&& slot.history.len() == 0
    &&& forall|i: int| 0 <= i < slot.committed.len() ==> (#[trigger] slot.committed[i]).bits() == 0
}

spec fn named_before(blocks: Seq<BlockModel>, count: int, name: Seq<char>) -> bool {
    exists|j: int| 0 <= j < count && (#[trigger] blocks[j]).id == name
}

/// Whether a call did what `expected` says: led to the next state, or failed and
/// left the state as it was.
pub open spec fn performed(
    result: Result<(), KrasisError>,
    before: StateModel,
    after: StateModel,
    expected: Result<StateModel, ErrorModel>,
) -> bool {
    match expected {
        Ok(next) => result is Ok && after == next,
        Err(failure) => result matches Err(error) && error@ == failure && after == before,
    }
}

/// The fields and constitutive slots of a simulation over one state layout.
#[derive(Debug, PartialEq, Eq)]
pub struct SimulationState {
    layout: StateLayout,
    phase: TransactionPhase,
    history_limit: usize,
    time: Scalar,
    step: u64,
    fields: Vec<Slot>,
    constitutive: Vec<Slot>,
}

impl View for SimulationState {
    type V = StateModel;

    closed spec fn view(&self) -> StateModel {
        StateModel {
            layout: self.layout@,
            phase: self.phase,
            history_limit: self.history_limit as nat,
            time: self.time,
            step: self.step,
            fields: slot_models(self.fields@),
            constitutive: slot_models(self.constitutive@),
        }
    }
}

impl SimulationState {
    /// The invariant of a state.
    pub closed spec fn wf(&self) -> bool {
        &&& self.layout.wf()
        &&& self@.consistent()
    }

    pub proof fn lemma_wf(&self)
        requires
            self.wf(),
        ensures
            self@.consistent(),
            self@.fields.len() <= usize::MAX,
            self@.history_limit <= usize::MAX,
            layout::width_of(self@.layout) <= usize::MAX,
    {
        self.layout.lemma_wf();
        assert(self@.fields.len() == self.fields.len());
    }

    /// An empty committed state at time zero.
    pub fn new(layout: StateLayout, history_limit: usize) -> (result: SimulationState)
        requires
            layout.wf(),
        ensures
            result.wf(),
            result@ == state_model::fresh(layout@, history_limit as nat),
            result@.time.bits() == 0,
    {
        proof {
            layout.lemma_wf();
        }
        let result = SimulationState {
            layout,
            phase: TransactionPhase::Committed,
            history_limit,
            time: Scalar::zero(),
            step: 0,
            fields: Vec::new(),
            constitutive: Vec::new(),
        };
        assert(result@.fields =~= Seq::<SlotModel>::empty());
        assert(result@.constitutive =~= Seq::<SlotModel>::empty());
        proof {
            reveal(StateModel::consistent);
        }
        result
    }

    pub fn layout(&self) -> (result: &StateLayout)
        requires
            self.wf(),
        ensures
            result@ == self@.layout,
            result.wf(),
    {
        &self.layout
    }

    pub fn phase(&self) -> (result: TransactionPhase)
        ensures
            result == self@.phase,
    {
        self.phase
    }

    pub fn time(&self) -> (result: Scalar)
        ensures
            result == self@.time,
    {
        self.time
    }

    pub fn step(&self) -> (result: u64)
        ensures
            result == self@.step,
    {
        self.step
    }

    /// Adds the field of a block.
    pub fn insert_field(&mut self, id: FieldId, values: Vec<Scalar>) -> (result: Result<
        (),
        KrasisError,
    >)
        requires
            old(self).wf(),
        ensures
            final(self).wf(),
            performed(result, old(self)@, final(self)@, old(self)@.insert_field(id@, values@)),
    {
        proof {
            state_model::lemma_consistent(self@);
        }
        if self.phase == TransactionPhase::Trial {
            return Err(KrasisError::StructureDuringTrial);
        }
        if find_slot(&self.fields, id.as_str()).is_some() {
            return Err(KrasisError::DuplicateField(id.name));
        }
        proof {
            self.layout.lemma_wf();
        }
        let width: usize = match self.layout.find(id.as_str()) {
            Some(index) => {
                let block = &self.layout.blocks()[index];
                proof {
                    assert(block@ == self.layout@[index as int]);
                    state_model::lemma_block_width(self.layout@, index as int);
                }
                block.end() - block.start()
            },
            None => {
                return Err(KrasisError::FieldOutsideLayout(id.name));
            },
        };
        match check_values(id.as_str(), field_label_text(id.as_str()), &values, width) {
            Some(error) => {
                return Err(error);
            },
            None => {},
        }
        proof {
            state_model::law_insert_keeps_consistency(self@, id@, values@);
        }
        let slot = Slot::new(id.as_str(), values);
        place_slot(&mut self.fields, slot);
        Ok(())
    }

    /// Adds a constitutive slot.
    pub fn insert_constitutive(&mut self, id: &str, values: Vec<Scalar>) -> (result: Result<
        (),
        KrasisError,
    >)
        requires
            old(self).wf(),
        ensures
            final(self).wf(),
            performed(
                result,
                old(self)@,
                final(self)@,
                old(self)@.insert_constitutive(id@, values@),
            ),
    {
        proof {
            state_model::lemma_consistent(self@);
        }
        if self.phase == TransactionPhase::Trial {
            return Err(KrasisError::StructureDuringTrial);
        }
        if find_slot(&self.constitutive, id).is_some() {
            return Err(KrasisError::DuplicateConstitutive(id.to_owned()));
        }
        match check_values(id, constitutive_label_text(id), &values, values.len()) {
            Some(error) => {
                return Err(error);
            },
            None => {},
        }
        proof {
            state_model::law_insert_keeps_consistency(self@, id@, values@);
        }
        let slot = Slot::new(id, values);
        place_slot(&mut self.constitutive, slot);
        Ok(())
    }

    /// The committed values of a field.
    pub fn committed(&self, id: &FieldId) -> (result: Result<&Vec<Scalar>, KrasisError>)
        requires
            self.wf(),
        ensures
            match result {
                Ok(values) => state_model::has_slot(self@.fields, id@) && values@
                    == state_model::slot_of(self@.fields, id@).committed,
                Err(error) => !state_model::has_slot(self@.fields, id@) && error@
                    == ErrorModel::UnknownField(id@),
            },
    {
        proof {
            state_model::lemma_consistent(self@);
        }
        match find_slot(&self.fields, id.as_str()) {
            Some(index) => {
                assert(self@.fields[index as int] == self.fields@[index as int]@);
                Ok(&self.fields[index].values.committed)
            },
            None => Err(KrasisError::UnknownField(id.name.clone())),
        }
    }

    /// The trial values of a field.
    pub fn trial(&self, id: &FieldId) -> (result: Result<&Vec<Scalar>, KrasisError>)
        requires
            self.wf(),
        ensures
            match result {
                Ok(values) => state_model::has_slot(self@.fields, id@) && state_model::slot_of(
                    self@.fields,
                    id@,
                ).trial == Some(values@),
                Err(error) => if state_model::has_slot(self@.fields, id@) {
                    self@.phase == TransactionPhase::Committed && error@
                        == ErrorModel::NoActiveTrial
                } else {
                    error@ == ErrorModel::UnknownField(id@)
                },
            },
    {
        proof {
            state_model::lemma_consistent(self@);
        }
        match find_slot(&self.fields, id.as_str()) {
            Some(index) => {
                proof {
                    let slot = self@.fields[index as int];
                    assert(slot == self.fields@[index as int]@);
                    state_model::lemma_consistent_field(self@, index as int);
                }
                match &self.fields[index].values.trial {
                    Some(values) => Ok(values),
                    None => Err(KrasisError::NoActiveTrial),
                }
            },
            None => Err(KrasisError::UnknownField(id.name.clone())),
        }
    }

    /// The earlier committed values of a field, newest first.
    pub fn history(&self, id: &FieldId) -> (result: Result<&Vec<Vec<Scalar>>, KrasisError>)
        requires
            self.wf(),
        ensures
            match result {
                Ok(levels) => state_model::has_slot(self@.fields, id@)
                    && checkpoint::level_models(levels@) == state_model::slot_of(
                    self@.fields,
                    id@,
                ).history,
                Err(error) => !state_model::has_slot(self@.fields, id@) && error@
                    == ErrorModel::UnknownField(id@),
            },
    {
        proof {
            state_model::lemma_consistent(self@);
        }
        match find_slot(&self.fields, id.as_str()) {
            Some(index) => {
                assert(self@.fields[index as int] == self.fields@[index as int]@);
                Ok(&self.fields[index].history)
            },
            None => Err(KrasisError::UnknownField(id.name.clone())),
        }
    }

    /// A constitutive slot.
    pub fn constitutive(&self, id: &str) -> (result: Result<&ConstitutiveSlot, KrasisError>)
        requires
            self.wf(),
        ensures
            match result {
                Ok(slot) => {
                    let model = state_model::slot_of(self@.constitutive, id@);
                    &&& state_model::has_slot(self@.constitutive, id@)
                    &&& slot.committed_values() == model.committed
                    &&& slot.trial_values() == model.trial
                },
                Err(error) => !state_model::has_slot(self@.constitutive, id@) && error@
                    == ErrorModel::UnknownConstitutive(id@),
            },
    {
        proof {
            state_model::lemma_consistent(self@);
        }
        match find_slot(&self.constitutive, id) {
            Some(index) => {
                assert(self@.constitutive[index as int] == self.constitutive@[index as int]@);
                Ok(&self.constitutive[index].values)
            },
            None => Err(KrasisError::UnknownConstitutive(id.to_owned())),
        }
    }

    /// Opens a trial that starts from the committed values.
    pub fn begin_trial(&mut self) -> (result: Result<(), KrasisError>)
        requires
            old(self).wf(),
        ensures
            final(self).wf(),
            performed(result, old(self)@, final(self)@, old(self)@.begin_trial()),
    {
        if self.phase == TransactionPhase::Trial {
            return Err(KrasisError::TrialAlreadyActive);
        }
        proof {
            state_model::law_begin_keeps_consistency(self@);
        }
        open_slots(&mut self.fields);
        open_slots(&mut self.constitutive);
        self.phase = TransactionPhase::Trial;
        Ok(())
    }

    /// Sets the trial values of a field.
    pub fn set_trial(&mut self, id: &FieldId, values: &Vec<Scalar>) -> (result: Result<
        (),
        KrasisError,
    >)
        requires
            old(self).wf(),
        ensures
            final(self).wf(),
            performed(result, old(self)@, final(self)@, old(self)@.set_trial(id@, values@)),
    {
        proof {
            state_model::lemma_consistent(self@);
        }
        if self.phase != TransactionPhase::Trial {
            return Err(KrasisError::NoActiveTrial);
        }
        let index: usize = match find_slot(&self.fields, id.as_str()) {
            Some(index) => index,
            None => {
                return Err(KrasisError::UnknownField(id.name.clone()));
            },
        };
        let ghost before = self@;
        assert(before.fields[index as int] == self.fields@[index as int]@);
        let expected: usize = self.fields[index].values.committed.len();
        match check_values(id.as_str(), field_label_text(id.as_str()), values, expected) {
            Some(error) => {
                return Err(error);
            },
            None => {},
        }
        proof {
            state_model::law_set_trial_keeps_consistency(self@, id@, values@);
        }
        let copy = copy_scalars(values);
        let slot = &mut self.fields[index];
        slot.set_trial(copy);
        assert(self@.fields =~= before.fields.update(
            index as int,
            SlotModel { trial: Some(values@), ..before.fields[index as int] },
        ));
        Ok(())
    }

    /// Sets the trial values of a constitutive slot.
    pub fn set_constitutive_trial(&mut self, id: &str, values: &Vec<Scalar>) -> (result: Result<
        (),
        KrasisError,
    >)
        requires
            old(self).wf(),
        ensures
            final(self).wf(),
            performed(
                result,
                old(self)@,
                final(self)@,
                old(self)@.set_constitutive_trial(id@, values@),
            ),
    {
        proof {
            state_model::lemma_consistent(self@);
        }
        if self.phase != TransactionPhase::Trial {
            return Err(KrasisError::NoActiveTrial);
        }
        let index: usize = match find_slot(&self.constitutive, id) {
            Some(index) => index,
            None => {
                return Err(KrasisError::UnknownConstitutive(id.to_owned()));
            },
        };
        let ghost before = self@;
        assert(before.constitutive[index as int] == self.constitutive@[index as int]@);
        let expected: usize = self.constitutive[index].values.committed.len();
        match check_values(id, constitutive_label_text(id), values, expected) {
            Some(error) => {
                return Err(error);
            },
            None => {},
        }
        proof {
            state_model::law_set_trial_keeps_consistency(self@, id@, values@);
        }
        let copy = copy_scalars(values);
        let slot = &mut self.constitutive[index];
        slot.set_trial(copy);
        assert(self@.constitutive =~= before.constitutive.update(
            index as int,
            SlotModel { trial: Some(values@), ..before.constitutive[index as int] },
        ));
        Ok(())
    }

    /// Makes the trial values the committed ones, at the given time.
    pub fn commit(&mut self, time: Scalar) -> (result: Result<(), KrasisError>)
        requires
            old(self).wf(),
        ensures
            final(self).wf(),
            performed(result, old(self)@, final(self)@, old(self)@.commit(time)),
    {
        if self.phase != TransactionPhase::Trial {
            return Err(KrasisError::NoActiveTrial);
        }
        if !time.is_finite() || time.is_below(&self.time) {
            return Err(KrasisError::InvalidCommitTime { time, current: self.time });
        }
        if self.step == u64::MAX {
            return Err(KrasisError::StepOverflow);
        }
        proof {
            state_model::law_commit_keeps_consistency(self@, time);
            assert forall|i: int| 0 <= i < self.fields@.len() implies (
            #[trigger] self.fields@[i])@.trial is Some by {
                assert(self@.fields[i] == self.fields@[i]@);
                state_model::lemma_consistent_field(self@, i);
            }
            assert forall|i: int| 0 <= i < self.constitutive@.len() implies (
            #[trigger] self.constitutive@[i])@.trial is Some by {
                assert(self@.constitutive[i] == self.constitutive@[i]@);
                state_model::lemma_consistent_constitutive(self@, i);
            }
        }
        advance_slots(&mut self.fields, self.history_limit);
        advance_slots(&mut self.constitutive, 0);
        self.time = time;
        self.step = self.step + 1;
        self.phase = TransactionPhase::Committed;
        Ok(())
    }

    /// Gives the trial up.
    pub fn rollback(&mut self) -> (result: Result<(), KrasisError>)
        requires
            old(self).wf(),
        ensures
            final(self).wf(),
            performed(result, old(self)@, final(self)@, old(self)@.rollback()),
    {
        if self.phase != TransactionPhase::Trial {
            return Err(KrasisError::NoActiveTrial);
        }
        proof {
            state_model::law_rollback_keeps_consistency(self@);
        }
        drop_trials(&mut self.fields);
        drop_trials(&mut self.constitutive);
        self.phase = TransactionPhase::Committed;
        Ok(())
    }
}

impl SimulationState {
    /// A committed state at time zero in which every block has a zero field.
    pub fn zeroed(layout: StateLayout, history_limit: usize) -> (result: SimulationState)
        requires
            layout.wf(),
        ensures
            result.wf(),
            result@.layout == layout@,
            result@.phase == TransactionPhase::Committed,
            result@.history_limit == history_limit,
            result@.time.bits() == 0,
            result@.step == 0,
            result@.fields.len() == layout@.len(),
            state_model::filled(layout@, result@.fields),
            forall|i: int|
                0 <= i < result@.fields.len() ==> zero_slot(#[trigger] result@.fields[i]),
            result@.constitutive.len() == 0,
    {
        let ghost blocks = layout@;
        proof {
            layout.lemma_wf();
        }
        let mut state = SimulationState::new(layout, history_limit);
        let ghost start = state@;
        let mut index: usize = 0;
        while index < state.layout.blocks().len()
            invariant
                index <= blocks.len(),
                layout::tiles(blocks),
                state.wf(),
                state@ == (StateModel { fields: state@.fields, ..start }),
                start.layout == blocks,
                start.phase == TransactionPhase::Committed,
                state@.fields.len() == index,
                forall|j: int|
                    0 <= j < index ==> state_model::has_slot(
                        state@.fields,
                        (#[trigger] blocks[j]).id,
                    ),
                forall|i: int|
                    0 <= i < state@.fields.len() ==> zero_slot(#[trigger] state@.fields[i])
                        && named_before(blocks, index as int, state@.fields[i].name),
            decreases blocks.len() - index,
        {
            let block = &state.layout.blocks()[index];
            assert(block@ == blocks[index as int]);
            let ghost before = state@;
            proof {
                state_model::lemma_consistent(before);
                state_model::lemma_block_width(blocks, index as int);
                state_model::lemma_block_bounds(blocks, index as int);
                assert(!state_model::has_slot(before.fields, blocks[index as int].id)) by {
                    if state_model::has_slot(before.fields, blocks[index as int].id) {
                        let i = state_model::slot_index(before.fields, blocks[index as int].id);
                        assert(named_before(blocks, index as int, before.fields[i].name));
                    }
                }
            }
            let id = FieldId::new(block.id().as_str());
            let values = zeros(block.end() - block.start());
            let ghost slot = SlotModel {
                name: id@,
                committed: values@,
                trial: None,
                history: Seq::empty(),
            };
            proof {
                reveal(state_model::values_failure);
                assert(scalar::all_finite(values@));
                assert(before.insert_field(id@, values@) is Ok);
                state_model::lemma_place_slot_ordered(before.fields, slot);
            }
            let _ = state.insert_field(id, values);
            proof {
                let after = state@.fields;
                assert(after == state_model::place_slot(before.fields, slot));
                assert forall|j: int| 0 <= j <= index implies state_model::has_slot(
                    after,
                    (#[trigger] blocks[j]).id,
                ) by {
                    if j < index {
                        let i = state_model::slot_index(before.fields, blocks[j].id);
                        assert(state_model::has_slot(before.fields, blocks[j].id));
                        assert(after.contains(before.fields[i]));
                    } else {
                        assert(after.contains(slot));
                    }
                }
                assert forall|i: int| 0 <= i < after.len() implies zero_slot(#[trigger] after[i])
                    && named_before(blocks, index + 1, after[i].name) by {
                    if after[i] == slot {
                        assert(blocks[index as int].id == slot.name);
                    } else {
                        let k = choose|k: int|
                            0 <= k < before.fields.len() && before.fields[k] == after[i];
                        assert(named_before(blocks, index as int, before.fields[k].name));
                    }
                }
            }
            index += 1;
        }
        state
    }

    /// The first block without a field.
    fn missing_block(&self) -> (result: Option<usize>)
        requires
            self.wf(),
        ensures
            match result {
                Some(index) => {
                    &&& state_model::first_missing(self@.layout, self@.fields, index as int)
                    &&& !state_model::filled(self@.layout, self@.fields)
                    &&& state_model::missing_failure(self@.layout, self@.fields)
                        == ErrorModel::MissingField(self@.layout[index as int].id)
                },
                None => state_model::filled(self@.layout, self@.fields),
            },
    {
        let ghost blocks = self@.layout;
        let ghost fields = self@.fields;
        let mut index: usize = 0;
        while index < self.layout.blocks().len()
            invariant
                index <= blocks.len(),
                blocks == self@.layout,
                fields == self@.fields,
                forall|j: int|
                    0 <= j < index ==> state_model::has_slot(fields, (#[trigger] blocks[j]).id),
            decreases blocks.len() - index,
        {
            let block = &self.layout.blocks()[index];
            assert(block@ == blocks[index as int]);
            if find_slot(&self.fields, block.id().as_str()).is_none() {
                proof {
                    assert(state_model::first_missing(blocks, fields, index as int));
                    let i = choose|i: int| state_model::first_missing(blocks, fields, i);
                    assert(state_model::first_missing(blocks, fields, i));
                    if i < index {
                        assert(state_model::has_slot(fields, blocks[i].id));
                    } else if index < i {
                        assert(state_model::has_slot(fields, blocks[index as int].id));
                    }
                }
                return Some(index);
            }
            index += 1;
        }
        None
    }

    /// The field of a block has the block's width.
    proof fn lemma_field_of_block(&self, k: int)
        requires
            self.wf(),
            0 <= k < self@.layout.len(),
            state_model::has_slot(self@.fields, self@.layout[k].id),
        ensures
            ({
                let blocks = self@.layout;
                let i = state_model::slot_index(self@.fields, blocks[k].id);
                &&& 0 <= i < self@.fields.len()
                &&& self@.fields[i].name == blocks[k].id
                &&& self@.fields[i].committed.len() == blocks[k].end - blocks[k].start
                &&& state_model::slot_consistent(
                    self@.fields[i],
                    self@.phase,
                    self@.history_limit,
                )
            }),
    {
        let blocks = self@.layout;
        let i = state_model::slot_index(self@.fields, blocks[k].id);
        assert(0 <= i < self@.fields.len() && self@.fields[i].name == blocks[k].id);
        state_model::lemma_consistent(self@);
        state_model::lemma_block_width(blocks, k);
        state_model::lemma_consistent_field(self@, i);
    }

    /// The committed values of all fields, block by block.
    pub fn committed_vector(&self) -> (result: Result<Vec<Scalar>, KrasisError>)
        requires
            self.wf(),
        ensures
            match result {
                Ok(vector) => {
                    &&& state_model::filled(self@.layout, self@.fields)
                    &&& state_model::flattens(vector@, self@.layout, self@.fields)
                    &&& scalar::all_finite(vector@)
                },
                Err(error) => {
                    &&& !state_model::filled(self@.layout, self@.fields)
                    &&& error@ == state_model::missing_failure(self@.layout, self@.fields)
                },
            },
    {
        proof {
            state_model::lemma_consistent(self@);
        }
        match self.missing_block() {
            Some(index) => {
                let block = &self.layout.blocks()[index];
                assert(block@ == self@.layout[index as int]);
                return Err(KrasisError::MissingField(block.id().as_str().to_owned()));
            },
            None => {},
        }
        let ghost blocks = self@.layout;
        let ghost fields = self@.fields;
        proof {
            self.layout.lemma_wf();
        }
        let mut vector: Vec<Scalar> = Vec::new();
        let mut index: usize = 0;
        while index < self.layout.blocks().len()
            invariant
                index <= blocks.len(),
                self.wf(),
                blocks == self@.layout,
                fields == self@.fields,
                layout::tiles(blocks),
                state_model::ordered(fields),
                state_model::filled(blocks, fields),
                vector@.len() == layout::previous_end(blocks, index as int),
                scalar::all_finite(vector@),
                forall|k: int|
                    0 <= k < index ==> (#[trigger] blocks[k]).end <= vector@.len()
                        && vector@.subrange(blocks[k].start as int, blocks[k].end as int)
                        == state_model::slot_of(fields, blocks[k].id).committed,
            decreases blocks.len() - index,
        {
            let block = &self.layout.blocks()[index];
            assert(block@ == blocks[index as int]);
            let ghost before = vector@;
            proof {
                assert(state_model::has_slot(fields, blocks[index as int].id));
                self.lemma_field_of_block(index as int);
                state_model::lemma_block_bounds(blocks, index as int);
            }
            match find_slot(&self.fields, block.id().as_str()) {
                Some(slot) => {
                    assert(fields[slot as int] == self.fields@[slot as int]@);
                    append_scalars(&mut vector, &self.fields[slot].values.committed);
                    proof {
                        let added = state_model::slot_of(fields, blocks[index as int].id).committed;
                        assert(vector@ == before + added);
                        assert forall|k: int| 0 <= k <= index implies (#[trigger] blocks[k]).end
                            <= vector@.len() && vector@.subrange(
                            blocks[k].start as int,
                            blocks[k].end as int,
                        ) == state_model::slot_of(fields, blocks[k].id).committed by {
                            if k < index {
                                assert(vector@.subrange(
                                    blocks[k].start as int,
                                    blocks[k].end as int,
                                ) =~= before.subrange(
                                    blocks[k].start as int,
                                    blocks[k].end as int,
                                ));
                            } else {
                                assert(vector@.subrange(
                                    blocks[k].start as int,
                                    blocks[k].end as int,
                                ) =~= added);
                            }
                        }
                        assert forall|i: int| 0 <= i < vector@.len() implies (
                        #[trigger] vector@[i]).finite() by {
                            if i < before.len() {
                                assert(before[i].finite());
                            } else {
                                assert(added[i - before.len()].finite());
                            }
                        }
                    }
                },
                None => {},
            }
            index += 1;
        }
        Ok(vector)
    }

    /// One history level of all fields, block by block, where every field has it.
    pub fn history_vector(&self, level: usize) -> (result: Result<
        Option<Vec<Scalar>>,
        KrasisError,
    >)
        requires
            self.wf(),
        ensures
            match result {
                Ok(Some(vector)) => {
                    &&& state_model::filled(self@.layout, self@.fields)
                    &&& state_model::has_level(self@.layout, self@.fields, level as int)
                    &&& state_model::flattens_level(
                        vector@,
                        self@.layout,
                        self@.fields,
                        level as int,
                    )
                },
                Ok(None) => {
                    &&& state_model::filled(self@.layout, self@.fields)
                    &&& !state_model::has_level(self@.layout, self@.fields, level as int)
                },
                Err(error) => {
                    &&& !state_model::filled(self@.layout, self@.fields)
                    &&& error@ == state_model::missing_failure(self@.layout, self@.fields)
                },
            },
    {
        proof {
            state_model::lemma_consistent(self@);
        }
        match self.missing_block() {
            Some(index) => {
                let block = &self.layout.blocks()[index];
                assert(block@ == self@.layout[index as int]);
                return Err(KrasisError::MissingField(block.id().as_str().to_owned()));
            },
            None => {},
        }
        let ghost blocks = self@.layout;
        let ghost fields = self@.fields;
        proof {
            self.layout.lemma_wf();
        }
        let mut vector: Vec<Scalar> = Vec::new();
        let mut index: usize = 0;
        while index < self.layout.blocks().len()
            invariant
                index <= blocks.len(),
                self.wf(),
                blocks == self@.layout,
                fields == self@.fields,
                layout::tiles(blocks),
                state_model::ordered(fields),
                state_model::filled(blocks, fields),
                vector@.len() == layout::previous_end(blocks, index as int),
                forall|k: int|
                    0 <= k < index ==> {
                        &&& (#[trigger] blocks[k]).end <= vector@.len()
                        &&& state_model::slot_of(fields, blocks[k].id).history.len() > level
                        &&& vector@.subrange(blocks[k].start as int, blocks[k].end as int)
                            == state_model::slot_of(fields, blocks[k].id).history[level as int]
                    },
            decreases blocks.len() - index,
        {
            let block = &self.layout.blocks()[index];
            assert(block@ == blocks[index as int]);
            let ghost before = vector@;
            let ghost model = state_model::slot_of(fields, blocks[index as int].id);
            proof {
                assert(state_model::has_slot(fields, blocks[index as int].id));
                self.lemma_field_of_block(index as int);
                state_model::lemma_block_bounds(blocks, index as int);
            }
            match find_slot(&self.fields, block.id().as_str()) {
                Some(slot) => {
                    assert(fields[slot as int] == self.fields@[slot as int]@);
                    if self.fields[slot].history.len() <= level {
                        assert(model.history.len() <= level);
                        return Ok(None);
                    }
                    assert(state_model::fits(model, model.history[level as int]));
                    append_scalars(&mut vector, &self.fields[slot].history[level]);
                    proof {
                        let added = model.history[level as int];
                        assert(vector@ == before + added);
                        assert forall|k: int| 0 <= k <= index implies {
                            &&& (#[trigger] blocks[k]).end <= vector@.len()
                            &&& state_model::slot_of(fields, blocks[k].id).history.len() > level
                            &&& vector@.subrange(blocks[k].start as int, blocks[k].end as int)
                                == state_model::slot_of(
                                fields,
                                blocks[k].id,
                            ).history[level as int]
                        } by {
                            if k < index {
                                assert(vector@.subrange(
                                    blocks[k].start as int,
                                    blocks[k].end as int,
                                ) =~= before.subrange(
                                    blocks[k].start as int,
                                    blocks[k].end as int,
                                ));
                            } else {
                                assert(vector@.subrange(
                                    blocks[k].start as int,
                                    blocks[k].end as int,
                                ) =~= added);
                            }
                        }
                    }
                },
                None => {},
            }
            index += 1;
        }
        Ok(Some(vector))
    }

    /// Sets the trial values of all fields from one vector, block by block.
    pub fn set_trial_vector(&mut self, values: &Vec<Scalar>) -> (result: Result<(), KrasisError>)
        requires
            old(self).wf(),
        ensures
            final(self).wf(),
            performed(result, old(self)@, final(self)@, old(self)@.set_trial_vector(values@)),
    {
        proof {
            state_model::lemma_consistent(self@);
        }
        if self.phase != TransactionPhase::Trial {
            return Err(KrasisError::NoActiveTrial);
        }
        match check_values("state vector", "state vector".to_owned(), values, self.layout.width()) {
            Some(error) => {
                return Err(error);
            },
            None => {},
        }
        match self.missing_block() {
            Some(index) => {
                let block = &self.layout.blocks()[index];
                assert(block@ == self@.layout[index as int]);
                return Err(KrasisError::MissingField(block.id().as_str().to_owned()));
            },
            None => {},
        }
        let ghost before = self@;
        let ghost blocks = self@.layout;
        proof {
            reveal(state_model::values_failure);
            state_model::law_set_trial_vector_keeps_consistency(self@, values@);
            self.layout.lemma_wf();
        }
        let mut index: usize = 0;
        while index < self.fields.len()
            invariant
                index <= self.fields.len(),
                self.fields.len() == before.fields.len(),
                self.layout.wf(),
                self.layout@ == blocks,
                before.layout == blocks,
                before.consistent(),
                layout::tiles(blocks),
                values@.len() == layout::width_of(blocks),
                self.phase == before.phase,
                self.history_limit == before.history_limit,
                self.time == before.time,
                self.step == before.step,
                slot_models(self.constitutive@) == before.constitutive,
                forall|i: int|
                    0 <= i < index ==> (#[trigger] self.fields@[i])@ == state_model::scattered(
                        before.fields[i],
                        blocks,
                        values@,
                    ),
                forall|i: int|
                    index <= i < before.fields.len() ==> (#[trigger] self.fields@[i])@
                        == before.fields[i],
            decreases self.fields.len() - index,
        {
            let ghost model = before.fields[index as int];
            assert(self.fields@[index as int]@ == model);
            proof {
                state_model::lemma_consistent_field(before, index as int);
            }
            match self.layout.find(self.fields[index].name.as_str()) {
                Some(position) => {
                    let block = &self.layout.blocks()[position];
                    let start: usize = block.start();
                    let end: usize = block.end();
                    proof {
                        assert(block@ == blocks[position as int]);
                        state_model::lemma_block_bounds(blocks, position as int);
                        let i = choose|i: int|
                            0 <= i < blocks.len() && (#[trigger] blocks[i]).id == model.name;
                        assert(0 <= i < blocks.len() && blocks[i].id == model.name);
                        assert(i == position);
                    }
                    let part = copy_range(values, start, end);
                    let slot = &mut self.fields[index];
                    slot.set_trial(part);
                },
                None => {},
            }
            index += 1;
        }
        assert(slot_models(self.fields@) =~= before.fields.map_values(
            |slot: SlotModel| state_model::scattered(slot, before.layout, values@),
        ));
        Ok(())
    }

    /// A whole transaction: opens a trial, sets it from a vector and commits it. A
    /// failure rolls the trial back.
    pub fn commit_vector(&mut self, values: &Vec<Scalar>, time: Scalar) -> (result: Result<
        (),
        KrasisError,
    >)
        requires
            old(self).wf(),
            old(self)@.phase == TransactionPhase::Committed,
        ensures
            final(self).wf(),
            match old(self)@.commit_vector(values@, time) {
                Ok(state) => result is Ok && final(self)@ == state,
                Err(failure) => result matches Err(error) && error@ == failure && final(self)@
                    == old(self)@,
            },
    {
        let ghost before = self@;
        proof {
            self.lemma_wf();
            state_model::law_trial_touches_only_trials(before, Seq::empty(), values@);
        }
        match self.begin_trial() {
            Ok(_) => {},
            Err(error) => {
                return Err(error);
            },
        }
        let ghost opened = self@;
        proof {
            self.lemma_wf();
            state_model::law_trial_touches_only_trials(opened, Seq::empty(), values@);
        }
        match self.set_trial_vector(values) {
            Ok(_) => {},
            Err(error) => {
                proof {
                    state_model::law_rollback_undoes_trial(before, opened);
                }
                let _ = self.rollback();
                return Err(error);
            },
        }
        let ghost filled = self@;
        proof {
            state_model::lemma_same_but_trial_through(before, opened, filled);
        }
        match self.commit(time) {
            Ok(_) => Ok(()),
            Err(error) => {
                proof {
                    state_model::law_rollback_undoes_trial(before, filled);
                }
                let _ = self.rollback();
                Err(error)
            },
        }
    }

    /// The checkpoint of a committed state.
    pub fn checkpoint(&self) -> (result: Result<Checkpoint, KrasisError>)
        requires
            self.wf(),
        ensures
            match self@.checkpoint() {
                Ok(saved) => result matches Ok(checkpoint) && checkpoint@ == saved,
                Err(failure) => result matches Err(error) && error@ == failure,
            },
    {
        if self.phase != TransactionPhase::Committed {
            return Err(KrasisError::TrialAlreadyActive);
        }
        Ok(
            Checkpoint {
                layout_identity: self.layout.identity().to_owned(),
                history_limit: self.history_limit,
                time: self.time,
                step: self.step,
                fields: save_values(&self.fields),
                field_history: save_history(&self.fields),
                constitutive: save_values(&self.constitutive),
            },
        )
    }

    /// Replaces the state by a checkpointed one of the same structure. Every part
    /// of the checkpoint is checked before anything changes.
    pub fn restore(&mut self, checkpoint: &Checkpoint) -> (result: Result<(), KrasisError>)
        requires
            old(self).wf(),
        ensures
            final(self).wf(),
            performed(result, old(self)@, final(self)@, old(self)@.restore(checkpoint@)),
    {
        if !same_text(checkpoint.layout_identity.as_str(), self.layout.identity()) {
            return Err(
                KrasisError::LayoutMismatch {
                    actual: checkpoint.layout_identity.clone(),
                    expected: self.layout.identity().to_owned(),
                },
            );
        }
        if checkpoint.history_limit != self.history_limit {
            return Err(
                KrasisError::MalformedCheckpoint("the history limit differs".to_owned()),
            );
        }
        if !checkpoint.time.is_finite() {
            return Err(
                KrasisError::NonFiniteValue { label: "checkpoint time".to_owned(), index: 0 },
            );
        }
        let fields = match restore_fields(&self.fields, checkpoint) {
            Ok(fields) => fields,
            Err(error) => {
                return Err(error);
            },
        };
        let constitutive = match restore_slots(&self.constitutive, checkpoint) {
            Ok(constitutive) => constitutive,
            Err(error) => {
                return Err(error);
            },
        };
        proof {
            restore_model::law_restore_keeps_consistency(self@, checkpoint@);
        }
        self.fields = fields;
        self.constitutive = constitutive;
        self.time = checkpoint.time;
        self.step = checkpoint.step;
        self.phase = TransactionPhase::Committed;
        Ok(())
    }
}

fn save_values(slots: &Vec<Slot>) -> (result: Vec<NamedScalars>)
    ensures
        checkpoint::named_models(result@) == restore_model::saved_values(slot_models(slots@)),
{
    let mut result: Vec<NamedScalars> = Vec::new();
    let mut index: usize = 0;
    while index < slots.len()
        invariant
            index <= slots.len(),
            result@.len() == index,
            forall|i: int|
                0 <= i < index ==> (#[trigger] result@[i])@.name == slots@[i]@.name
                    && result@[i]@.values == slots@[i]@.committed,
        decreases slots.len() - index,
    {
        let slot = &slots[index];
        result.push(
            NamedScalars {
                name: slot.name.clone(),
                values: copy_scalars(&slot.values.committed),
            },
        );
        index += 1;
    }
    assert(checkpoint::named_models(result@) =~= restore_model::saved_values(
        slot_models(slots@),
    ));
    result
}

fn save_history(slots: &Vec<Slot>) -> (result: Vec<NamedHistory>)
    ensures
        checkpoint::history_models(result@) == restore_model::saved_history(slot_models(slots@)),
{
    let mut result: Vec<NamedHistory> = Vec::new();
    let mut index: usize = 0;
    while index < slots.len()
        invariant
            index <= slots.len(),
            result@.len() == index,
            forall|i: int|
                0 <= i < index ==> (#[trigger] result@[i])@.name == slots@[i]@.name
                    && result@[i]@.levels == slots@[i]@.history,
        decreases slots.len() - index,
    {
        let slot = &slots[index];
        result.push(NamedHistory { name: slot.name.clone(), levels: copy_levels(&slot.history) });
        index += 1;
    }
    assert(checkpoint::history_models(result@) =~= restore_model::saved_history(
        slot_models(slots@),
    ));
    result
}

fn check_levels(name: &str, levels: &Vec<Vec<Scalar>>, expected: usize) -> (result: Option<
    KrasisError,
>)
    ensures
        match restore_model::levels_failure(
            name@,
            checkpoint::level_models(levels@),
            expected as int,
            0,
        ) {
            Some(failure) => result matches Some(error) && error@ == failure,
            None => result is None,
        },
{
    let ghost models = checkpoint::level_models(levels@);
    let mut index: usize = 0;
    while index < levels.len()
        invariant
            index <= levels.len(),
            models == checkpoint::level_models(levels@),
            restore_model::levels_failure(name@, models, expected as int, 0)
                == restore_model::levels_failure(name@, models, expected as int, index as int),
        decreases levels.len() - index,
    {
        assert(models[index as int] == levels@[index as int]@);
        match check_values(name, field_label_text(name), &levels[index], expected) {
            Some(error) => {
                return Some(error);
            },
            None => {},
        }
        index += 1;
    }
    None
}

fn restore_field(slot: &Slot, checkpoint: &Checkpoint) -> (result: Result<Slot, KrasisError>)
    ensures
        match restore_model::field_restored(slot@, checkpoint@) {
            Ok(model) => result matches Ok(next) && next@ == model,
            Err(failure) => result matches Err(error) && error@ == failure,
        },
{
    let name = slot.name.as_str();
    let expected: usize = slot.values.committed.len();
    let values = match find_entry(&checkpoint.fields, name) {
        Some(index) => {
            assert(checkpoint@.fields[index as int] == checkpoint.fields@[index as int]@);
            &checkpoint.fields[index].values
        },
        None => {
            return Err(
                KrasisError::MalformedCheckpoint(field_label_text(name).concat(" is missing")),
            );
        },
    };
    match check_values(name, field_label_text(name), values, expected) {
        Some(error) => {
            return Err(error);
        },
        None => {},
    }
    let levels = match find_history(&checkpoint.field_history, name) {
        Some(index) => {
            assert(checkpoint@.field_history[index as int]
                == checkpoint.field_history@[index as int]@);
            &checkpoint.field_history[index].levels
        },
        None => {
            return Err(
                KrasisError::MalformedCheckpoint(
                    field_label_text(name).concat(" has no history entry"),
                ),
            );
        },
    };
    if levels.len() > checkpoint.history_limit {
        return Err(
            KrasisError::MalformedCheckpoint(
                field_label_text(name).concat(" has more history than the history limit"),
            ),
        );
    }
    match check_levels(name, levels, expected) {
        Some(error) => {
            return Err(error);
        },
        None => {},
    }
    Ok(
        Slot {
            name: slot.name.clone(),
            values: ConstitutiveSlot::new(copy_scalars(values)),
            history: copy_levels(levels),
        },
    )
}

fn restore_slot(slot: &Slot, checkpoint: &Checkpoint) -> (result: Result<Slot, KrasisError>)
    ensures
        match restore_model::constitutive_restored(slot@, checkpoint@) {
            Ok(model) => result matches Ok(next) && next@ == model,
            Err(failure) => result matches Err(error) && error@ == failure,
        },
{
    let name = slot.name.as_str();
    let values = match find_entry(&checkpoint.constitutive, name) {
        Some(index) => {
            assert(checkpoint@.constitutive[index as int]
                == checkpoint.constitutive@[index as int]@);
            &checkpoint.constitutive[index].values
        },
        None => {
            return Err(
                KrasisError::MalformedCheckpoint(
                    constitutive_label_text(name).concat(" is missing"),
                ),
            );
        },
    };
    match check_values(
        name,
        constitutive_label_text(name),
        values,
        slot.values.committed.len(),
    ) {
        Some(error) => {
            return Err(error);
        },
        None => {},
    }
    Ok(
        Slot {
            name: slot.name.clone(),
            values: ConstitutiveSlot::new(copy_scalars(values)),
            history: copy_levels(&slot.history),
        },
    )
}

fn restore_fields(slots: &Vec<Slot>, checkpoint: &Checkpoint) -> (result: Result<
    Vec<Slot>,
    KrasisError,
>)
    ensures
        match restore_model::fields_restored(slot_models(slots@), checkpoint@) {
            Ok(models) => result matches Ok(next) && slot_models(next@) == models,
            Err(failure) => result matches Err(error) && error@ == failure,
        },
{
    let ghost models = slot_models(slots@);
    let mut result: Vec<Slot> = Vec::new();
    let mut index: usize = 0;
    assert(models.take(0) =~= slot_models(result@));
    while index < slots.len()
        invariant
            index <= slots.len(),
            models == slot_models(slots@),
            restore_model::fields_restored(models.take(index as int), checkpoint@) == Ok::<
                Seq<SlotModel>,
                ErrorModel,
            >(slot_models(result@)),
        decreases slots.len() - index,
    {
        proof {
            let longer = models.take(index + 1);
            assert(models[index as int] == slots@[index as int]@);
            assert(longer.drop_last() =~= models.take(index as int));
            assert(longer.last() == models[index as int]);
        }
        match restore_field(&slots[index], checkpoint) {
            Ok(slot) => {
                let ghost before = slot_models(result@);
                result.push(slot);
                assert(slot_models(result@) =~= before.push(slot@));
            },
            Err(error) => {
                proof {
                    restore_model::lemma_fields_failure(models, checkpoint@, index + 1);
                }
                return Err(error);
            },
        }
        index += 1;
    }
    assert(models.take(index as int) =~= models);
    Ok(result)
}

fn restore_slots(slots: &Vec<Slot>, checkpoint: &Checkpoint) -> (result: Result<
    Vec<Slot>,
    KrasisError,
>)
    ensures
        match restore_model::slots_restored(slot_models(slots@), checkpoint@) {
            Ok(models) => result matches Ok(next) && slot_models(next@) == models,
            Err(failure) => result matches Err(error) && error@ == failure,
        },
{
    let ghost models = slot_models(slots@);
    let mut result: Vec<Slot> = Vec::new();
    let mut index: usize = 0;
    assert(models.take(0) =~= slot_models(result@));
    while index < slots.len()
        invariant
            index <= slots.len(),
            models == slot_models(slots@),
            restore_model::slots_restored(models.take(index as int), checkpoint@) == Ok::<
                Seq<SlotModel>,
                ErrorModel,
            >(slot_models(result@)),
        decreases slots.len() - index,
    {
        proof {
            let longer = models.take(index + 1);
            assert(models[index as int] == slots@[index as int]@);
            assert(longer.drop_last() =~= models.take(index as int));
            assert(longer.last() == models[index as int]);
        }
        match restore_slot(&slots[index], checkpoint) {
            Ok(slot) => {
                let ghost before = slot_models(result@);
                result.push(slot);
                assert(slot_models(result@) =~= before.push(slot@));
            },
            Err(error) => {
                proof {
                    restore_model::lemma_slots_failure(models, checkpoint@, index + 1);
                }
                return Err(error);
            },
        }
        index += 1;
    }
    assert(models.take(index as int) =~= models);
    Ok(result)
}

impl Clone for SimulationState {
    fn clone(&self) -> (result: SimulationState)
        ensures
            result@ == self@,
            self.wf() ==> result.wf(),
    {
        SimulationState {
            layout: self.layout.clone(),
            phase: self.phase,
            history_limit: self.history_limit,
            time: self.time,
            step: self.step,
            fields: copy_slots(&self.fields),
            constitutive: copy_slots(&self.constitutive),
        }
    }
}

} // verus!
