//! Transactions over a state with several fields and a constitutive slot.

use krasis::{
    BlockId, Checkpoint, FieldId, KrasisError, NamedHistory, NamedScalars, Scalar,
    SimulationState, StateBlock, StateLayout, TransactionPhase,
};

fn scalar(value: f64) -> Scalar {
    Scalar::from_bits(value.to_bits())
}

fn scalars(values: &[f64]) -> Vec<Scalar> {
    values.iter().map(|value| scalar(*value)).collect()
}

fn layout() -> StateLayout {
    StateLayout::new(vec![
        StateBlock::new(BlockId::new("u"), 0..2),
        StateBlock::new(BlockId::new("p"), 2..3),
    ])
    .unwrap()
}

fn u() -> FieldId {
    FieldId::new("u")
}

fn p() -> FieldId {
    FieldId::new("p")
}

fn state(history_limit: usize) -> SimulationState {
    let mut state = SimulationState::new(layout(), history_limit);
    state.insert_field(u(), scalars(&[1.0, 2.0])).unwrap();
    state.insert_field(p(), scalars(&[3.0])).unwrap();
    state
        .insert_constitutive("damage", scalars(&[0.5]))
        .unwrap();
    state
}

#[test]
fn fields_and_slots_are_inserted_once_and_only_where_they_belong() {
    let mut state = state(1);
    assert_eq!(
        state.insert_field(u(), scalars(&[1.0, 2.0])),
        Err(KrasisError::DuplicateField("u".to_owned()))
    );
    assert_eq!(
        state.insert_constitutive("damage", scalars(&[1.0])),
        Err(KrasisError::DuplicateConstitutive("damage".to_owned()))
    );
    assert_eq!(
        state.insert_field(FieldId::new("q"), scalars(&[1.0])),
        Err(KrasisError::FieldOutsideLayout("q".to_owned()))
    );
    let mut short = SimulationState::new(layout(), 1);
    assert_eq!(
        short.insert_field(u(), scalars(&[1.0])),
        Err(KrasisError::FieldLength {
            field: "u".to_owned(),
            actual: 1,
            expected: 2
        })
    );
    assert_eq!(
        short.insert_field(u(), scalars(&[1.0, f64::INFINITY])),
        Err(KrasisError::NonFiniteValue {
            label: "field `u`".to_owned(),
            index: 1
        })
    );
    assert_eq!(
        short.committed_vector(),
        Err(KrasisError::MissingField("u".to_owned()))
    );
}

#[test]
fn unknown_names_are_refused() {
    let state = state(1);
    let absent = FieldId::new("absent");
    assert_eq!(
        state.committed(&absent),
        Err(KrasisError::UnknownField("absent".to_owned()))
    );
    assert_eq!(
        state.history(&absent),
        Err(KrasisError::UnknownField("absent".to_owned()))
    );
    assert_eq!(
        state.constitutive("absent").unwrap_err(),
        KrasisError::UnknownConstitutive("absent".to_owned())
    );
}

#[test]
fn trials_open_and_close_once() {
    let mut state = state(1);
    assert_eq!(state.rollback(), Err(KrasisError::NoActiveTrial));
    assert_eq!(state.commit(scalar(1.0)), Err(KrasisError::NoActiveTrial));
    assert_eq!(
        state.set_trial(&u(), &scalars(&[0.0, 0.0])),
        Err(KrasisError::NoActiveTrial)
    );
    state.begin_trial().unwrap();
    assert_eq!(state.begin_trial(), Err(KrasisError::TrialAlreadyActive));
    assert_eq!(state.checkpoint(), Err(KrasisError::TrialAlreadyActive));
    assert_eq!(state.phase(), TransactionPhase::Trial);
}

#[test]
fn commit_time_is_finite_and_never_goes_back() {
    let mut state = state(1);
    state.begin_trial().unwrap();
    state.commit(scalar(2.0)).unwrap();
    state.begin_trial().unwrap();
    for time in [1.5, f64::INFINITY] {
        assert_eq!(
            state.commit(scalar(time)),
            Err(KrasisError::InvalidCommitTime {
                time: scalar(time),
                current: scalar(2.0)
            })
        );
    }
    assert!(matches!(
        state.commit(scalar(f64::NAN)),
        Err(KrasisError::InvalidCommitTime { .. })
    ));
    state.commit(scalar(2.0)).unwrap();
    assert_eq!(state.step(), 2);
}

#[test]
fn exhausted_step_counter_is_reported() {
    let mut state = state(0);
    let mut checkpoint = state.checkpoint().unwrap();
    checkpoint.step = u64::MAX;
    state.restore(&checkpoint).unwrap();
    state.begin_trial().unwrap();
    assert_eq!(state.commit(scalar(0.0)), Err(KrasisError::StepOverflow));
}

#[test]
fn commits_push_the_bounded_history_newest_first() {
    let mut state = state(2);
    for step in 1..=3 {
        state.begin_trial().unwrap();
        state
            .set_trial(&p(), &scalars(&[10.0 * step as f64]))
            .unwrap();
        state.commit(scalar(step as f64)).unwrap();
    }
    assert_eq!(
        state.history(&p()).unwrap(),
        &vec![scalars(&[20.0]), scalars(&[10.0])]
    );
    // A field that no trial touched keeps its committed value at every level.
    assert_eq!(
        state.history(&u()).unwrap(),
        &vec![scalars(&[1.0, 2.0]), scalars(&[1.0, 2.0])]
    );
    assert_eq!(
        state.history_vector(1).unwrap(),
        Some(scalars(&[1.0, 2.0, 10.0]))
    );
    assert_eq!(state.history_vector(2).unwrap(), None);
    assert_eq!(
        state.committed_vector().unwrap(),
        scalars(&[1.0, 2.0, 30.0])
    );
}

#[test]
fn trial_vector_touches_trials_alone_and_rollback_undoes_it() {
    let mut state = state(1);
    let before = format!("{state:?}");
    state.begin_trial().unwrap();
    state.set_trial_vector(&scalars(&[7.0, 8.0, 9.0])).unwrap();
    assert_eq!(state.trial(&u()).unwrap(), &scalars(&[7.0, 8.0]));
    assert_eq!(state.trial(&p()).unwrap(), &scalars(&[9.0]));
    assert_eq!(state.committed(&u()).unwrap(), &scalars(&[1.0, 2.0]));
    assert!(state.set_trial_vector(&scalars(&[7.0])).is_err());
    state.rollback().unwrap();
    assert_eq!(format!("{state:?}"), before);
}

#[test]
fn commit_vector_is_one_transaction() {
    let mut state = state(1);
    state
        .commit_vector(&scalars(&[7.0, 8.0, 9.0]), scalar(0.5))
        .unwrap();
    assert_eq!(state.committed_vector().unwrap(), scalars(&[7.0, 8.0, 9.0]));
    assert_eq!(state.phase(), TransactionPhase::Committed);
    let before = format!("{state:?}");
    assert!(state
        .commit_vector(&scalars(&[1.0, 2.0, f64::NAN]), scalar(1.0))
        .is_err());
    assert!(state
        .commit_vector(&scalars(&[1.0, 2.0, 3.0]), scalar(0.25))
        .is_err());
    assert_eq!(format!("{state:?}"), before);
}

#[test]
fn zeroed_states_fill_every_block() {
    let state = SimulationState::zeroed(layout(), 3);
    assert_eq!(state.committed_vector().unwrap(), scalars(&[0.0, 0.0, 0.0]));
    assert_eq!(state.time(), scalar(0.0));
    assert_eq!(state.step(), 0);
}

#[test]
fn restore_undoes_everything_since_the_checkpoint() {
    let mut state = state(2);
    state
        .commit_vector(&scalars(&[4.0, 5.0, 6.0]), scalar(1.0))
        .unwrap();
    let saved = format!("{state:?}");
    let checkpoint = state.checkpoint().unwrap();
    state
        .commit_vector(&scalars(&[7.0, 8.0, 9.0]), scalar(2.0))
        .unwrap();
    state.restore(&checkpoint).unwrap();
    assert_eq!(format!("{state:?}"), saved);
}

/// A checkpoint of `state(2)` with one thing changed.
fn damaged(change: impl Fn(&mut Checkpoint)) -> KrasisError {
    let mut state = state(2);
    let before = format!("{state:?}");
    let mut checkpoint = state.checkpoint().unwrap();
    change(&mut checkpoint);
    let error = state.restore(&checkpoint).unwrap_err();
    assert_eq!(format!("{state:?}"), before);
    error
}

fn malformed(text: &str) -> KrasisError {
    KrasisError::MalformedCheckpoint(text.to_owned())
}

#[test]
fn restore_names_what_is_wrong_and_changes_nothing() {
    assert!(matches!(
        damaged(|checkpoint| checkpoint.layout_identity.push('x')),
        KrasisError::LayoutMismatch { .. }
    ));
    assert_eq!(
        damaged(|checkpoint| checkpoint.history_limit = 3),
        malformed("the history limit differs")
    );
    assert_eq!(
        damaged(|checkpoint| checkpoint.time = scalar(f64::NAN)),
        KrasisError::NonFiniteValue {
            label: "checkpoint time".to_owned(),
            index: 0
        }
    );
    assert_eq!(
        damaged(|checkpoint| {
            checkpoint.fields.retain(|named| named.name != "p");
        }),
        malformed("field `p` is missing")
    );
    assert_eq!(
        damaged(|checkpoint| {
            checkpoint.field_history.retain(|named| named.name != "u");
        }),
        malformed("field `u` has no history entry")
    );
    assert_eq!(
        damaged(|checkpoint| {
            for named in &mut checkpoint.field_history {
                if named.name == "p" {
                    named.levels = vec![scalars(&[1.0]); 3];
                }
            }
        }),
        malformed("field `p` has more history than the history limit")
    );
    assert_eq!(
        damaged(|checkpoint| checkpoint.constitutive.clear()),
        malformed("constitutive slot `damage` is missing")
    );
}

#[test]
fn after_an_accepted_restore_the_checkpoint_is_the_given_one() {
    let mut source = state(2);
    source
        .commit_vector(&scalars(&[4.0, 5.0, 6.0]), scalar(1.0))
        .unwrap();
    let checkpoint = source.checkpoint().unwrap();
    let mut other = state(2);
    other.restore(&checkpoint).unwrap();
    assert_eq!(other.checkpoint().unwrap(), checkpoint);
    assert_eq!(format!("{other:?}"), format!("{source:?}"));

    // Entries in another order describe the same state and come back by name.
    let mut shuffled = checkpoint.clone();
    shuffled.fields.reverse();
    shuffled.field_history.reverse();
    let mut third = state(2);
    third.restore(&shuffled).unwrap();
    assert_eq!(third.checkpoint().unwrap(), checkpoint);
}

#[test]
fn entries_of_other_names_are_left_aside() {
    let mut source = state(2);
    source
        .commit_vector(&scalars(&[4.0, 5.0, 6.0]), scalar(1.0))
        .unwrap();
    let checkpoint = source.checkpoint().unwrap();
    let mut larger = checkpoint.clone();
    larger.fields.push(NamedScalars {
        name: "q".to_owned(),
        values: scalars(&[1.0]),
    });
    larger.field_history.push(NamedHistory {
        name: "q".to_owned(),
        levels: vec![],
    });
    larger.constitutive.push(NamedScalars {
        name: "extra".to_owned(),
        values: scalars(&[2.0]),
    });
    let mut other = state(2);
    other.restore(&larger).unwrap();
    assert_eq!(other.checkpoint().unwrap(), checkpoint);
    assert_eq!(format!("{other:?}"), format!("{source:?}"));
}
