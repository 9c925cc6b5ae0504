//! Checkpoints of a simulation state.
use crate::scalar::{copy_scalars, Scalar};
use crate::text::same_text;
use vstd::prelude::*;

verus! {

/// Scalars under a name.
#[derive(Clone, Debug, PartialEq, Eq)]
pub struct NamedScalars {
    pub name: String,
    pub values: Vec<Scalar>,
}

/// A history, newest level first, under a name.
#[derive(Clone, Debug, PartialEq, Eq)]
pub struct NamedHistory {
    pub name: String,
    pub levels: Vec<Vec<Scalar>>,
}

/// Untrusted wire representation of a state; restoring from it validates every
/// entry before live state changes. Each list names an entry at most once when
/// it describes a state.
#[derive(Debug, PartialEq, Eq)]
pub struct Checkpoint {
    pub layout_identity: String,
    pub history_limit: usize,
    pub time: Scalar,
    pub step: u64,
    pub fields: Vec<NamedScalars>,
    pub field_history: Vec<NamedHistory>,
    pub constitutive: Vec<NamedScalars>,
}

#[verifier::ext_equal]
pub struct NamedModel {
    pub name: Seq<char>,
    pub values: Seq<Scalar>,
}

#[verifier::ext_equal]
pub struct HistoryModel {
    pub name: Seq<char>,
    pub levels: Seq<Seq<Scalar>>,
}

/// A checkpoint as a mathematical value.
#[verifier::ext_equal]
pub struct CheckpointModel {
    pub layout_identity: Seq<char>,
    pub history_limit: nat,
    pub time: Scalar,
    pub step: u64,
    pub fields: Seq<NamedModel>,
    pub field_history: Seq<HistoryModel>,
    pub constitutive: Seq<NamedModel>,
}

impl View for NamedScalars {
    type V = NamedModel;

    open spec fn view(&self) -> NamedModel {
        NamedModel { name: self.name@, values: self.values@ }
    }
}

impl View for NamedHistory {
    type V = HistoryModel;

    open spec fn view(&self) -> HistoryModel {
        HistoryModel { name: self.name@, levels: level_models(self.levels@) }
    }
}

impl View for Checkpoint {
    type V = CheckpointModel;

    open spec fn view(&self) -> CheckpointModel {
        CheckpointModel {
            layout_identity: self.layout_identity@,
            history_limit: self.history_limit as nat,
            time: self.time,
            step: self.step,
            fields: named_models(self.fields@),
            field_history: history_models(self.field_history@),
            constitutive: named_models(self.constitutive@),
        }
    }
}

pub open spec fn level_models(levels: Seq<Vec<Scalar>>) -> Seq<Seq<Scalar>> {
    levels.map_values(|level: Vec<Scalar>| level@)
}

pub open spec fn named_models(entries: Seq<NamedScalars>) -> Seq<NamedModel> {
    entries.map_values(|entry: NamedScalars| entry@)
}

pub open spec fn history_models(entries: Seq<NamedHistory>) -> Seq<HistoryModel> {
    entries.map_values(|entry: NamedHistory| entry@)
}

/// Whether an entry of the given name is there.
#[verifier::opaque]
pub open spec fn has_entry(entries: Seq<NamedModel>, name: Seq<char>) -> bool {
    exists|i: int| 0 <= i < entries.len() && (#[trigger] entries[i]).name == name
}

/// The position of the first entry of the given name.
#[verifier::opaque]
pub open spec fn entry_index(entries: Seq<NamedModel>, name: Seq<char>) -> int {
    choose|i: int|
        {
            &&& 0 <= i < entries.len()
            &&& (#[trigger] entries[i]).name == name
            &&& forall|j: int| 0 <= j < i ==> (#[trigger] entries[j]).name != name
        }
}

#[verifier::opaque]
pub open spec fn has_history(entries: Seq<HistoryModel>, name: Seq<char>) -> bool {
    exists|i: int| 0 <= i < entries.len() && (#[trigger] entries[i]).name == name
}

#[verifier::opaque]
pub open spec fn history_index(entries: Seq<HistoryModel>, name: Seq<char>) -> int {
    choose|i: int|
        {
            &&& 0 <= i < entries.len()
            &&& (#[trigger] entries[i]).name == name
            &&& forall|j: int| 0 <= j < i ==> (#[trigger] entries[j]).name != name
        }
}

/// The position of the first entry of the given name.
pub fn find_entry(entries: &Vec<NamedScalars>, name: &str) -> (result: Option<usize>)
    ensures
        match result {
            Some(index) => {
                &&& index < entries@.len()
                &&& has_entry(named_models(entries@), name@)
                &&& index == entry_index(named_models(entries@), name@)
                &&& entries@[index as int].name@ == name@
            },
            None => !has_entry(named_models(entries@), name@),
        },
{
    proof {
        reveal(has_entry);
        reveal(entry_index);
    }
    let ghost models = named_models(entries@);
    let mut index: usize = 0;
    while index < entries.len()
        invariant
            index <= entries.len(),
            models == named_models(entries@),
            forall|j: int| 0 <= j < index ==> (#[trigger] models[j]).name != name@,
        decreases entries.len() - index,
    {
        proof {
            reveal(has_entry);
            reveal(entry_index);
        }
        assert(models[index as int] == entries@[index as int]@);
        if same_text(entries[index].name.as_str(), name) {
            assert(models[index as int].name == name@);
            return Some(index);
        }
        index += 1;
    }
    None
}

/// The position of the first history of the given name.
pub fn find_history(entries: &Vec<NamedHistory>, name: &str) -> (result: Option<usize>)
    ensures
        match result {
            Some(index) => {
                &&& index < entries@.len()
                &&& has_history(history_models(entries@), name@)
                &&& index == history_index(history_models(entries@), name@)
                &&& entries@[index as int].name@ == name@
            },
            None => !has_history(history_models(entries@), name@),
        },
{
    proof {
        reveal(has_history);
        reveal(history_index);
    }
    let ghost models = history_models(entries@);
    let mut index: usize = 0;
    while index < entries.len()
        invariant
            index <= entries.len(),
            models == history_models(entries@),
            forall|j: int| 0 <= j < index ==> (#[trigger] models[j]).name != name@,
        decreases entries.len() - index,
    {
        proof {
            reveal(has_history);
            reveal(history_index);
        }
        assert(models[index as int] == entries@[index as int]@);
        if same_text(entries[index].name.as_str(), name) {
            assert(models[index as int].name == name@);
            return Some(index);
        }
        index += 1;
    }
    None
}

/// A copy of a history.
pub fn copy_levels(levels: &Vec<Vec<Scalar>>) -> (result: Vec<Vec<Scalar>>)
    ensures
        level_models(result@) == level_models(levels@),
{
    let mut result: Vec<Vec<Scalar>> = Vec::new();
    let mut index: usize = 0;
    while index < levels.len()
        invariant
            index <= levels.len(),
            result@.len() == index,
            forall|i: int| 0 <= i < index ==> (#[trigger] result@[i])@ == levels@[i]@,
        decreases levels.len() - index,
    {
        result.push(copy_scalars(&levels[index]));
        index += 1;
    }
    assert(level_models(result@) =~= level_models(levels@));
    result
}

fn copy_entries(entries: &Vec<NamedScalars>) -> (result: Vec<NamedScalars>)
    ensures
        named_models(result@) == named_models(entries@),
{
    let mut result: Vec<NamedScalars> = Vec::new();
    let mut index: usize = 0;
    while index < entries.len()
        invariant
            index <= entries.len(),
            result@.len() == index,
            forall|i: int| 0 <= i < index ==> (#[trigger] result@[i])@ == entries@[i]@,
        decreases entries.len() - index,
    {
        let entry = &entries[index];
        result.push(
            NamedScalars { name: entry.name.clone(), values: copy_scalars(&entry.values) },
        );
        index += 1;
    }
    assert(named_models(result@) =~= named_models(entries@));
    result
}

fn copy_histories(entries: &Vec<NamedHistory>) -> (result: Vec<NamedHistory>)
    ensures
        history_models(result@) == history_models(entries@),
{
    let mut result: Vec<NamedHistory> = Vec::new();
    let mut index: usize = 0;
    while index < entries.len()
        invariant
            index <= entries.len(),
            result@.len() == index,
            forall|i: int| 0 <= i < index ==> (#[trigger] result@[i])@ == entries@[i]@,
        decreases entries.len() - index,
    {
        let entry = &entries[index];
        result.push(NamedHistory { name: entry.name.clone(), levels: copy_levels(&entry.levels) });
        index += 1;
    }
    assert(history_models(result@) =~= history_models(entries@));
    result
}

impl Clone for Checkpoint {
    fn clone(&self) -> (result: Checkpoint)
        ensures
            result@ == self@,
    {
        Checkpoint {
            layout_identity: self.layout_identity.clone(),
            history_limit: self.history_limit,
            time: self.time,
            step: self.step,
            fields: copy_entries(&self.fields),
            field_history: copy_histories(&self.field_history),
            constitutive: copy_entries(&self.constitutive),
        }
    }
}

} // verus!
