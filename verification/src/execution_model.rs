//! Coupled execution as a mathematical value: synchronization of the committed state
//! with the integrator, the transaction around a step, and their laws.
use crate::checkpoint::CheckpointModel;
use crate::error::ErrorModel;
use crate::layout;
use crate::layout::BlockModel;
use crate::numeric;
use crate::numeric::{BdfModel, RefusalModel, SolveModel};
use crate::scalar;
use crate::scalar::Scalar;
use crate::state_model;
use crate::state_model::{SlotModel, StateModel, TransactionPhase};
use vstd::prelude::*;

verus! {

/// A refused attempt: the refusal, the committed time it started from and its step.
#[verifier::ext_equal]
pub struct RefusedModel {
    pub refusal: RefusalModel,
    pub time: Scalar,
    pub step: Scalar,
}

#[verifier::ext_equal]
pub struct ExecutionModel {
    pub state: StateModel,
    pub integrator: BdfModel,
    pub refusals: Seq<RefusedModel>,
}

#[verifier::ext_equal]
pub struct CoupledCheckpointModel {
    pub operator_identity: Seq<char>,
    pub state: CheckpointModel,
    pub integrator: BdfModel,
}

/// What an attempted step led to: a failure, a rejection, or the next integrator state.
#[verifier::ext_equal]
pub enum AttemptModel {
    Failed(SolveModel),
    Rejected,
    Accepted(BdfModel),
}

/// The committed values of a state whose blocks all have fields, block by block.
#[verifier::opaque]
pub open spec fn committed_vector(state: StateModel) -> Seq<Scalar> {
    choose|vector: Seq<Scalar>| state_model::flattens(vector, state.layout, state.fields)
}

/// The newest history level of a state whose fields all have one, block by block.
#[verifier::opaque]
pub open spec fn previous_vector(state: StateModel) -> Seq<Scalar> {
    choose|vector: Seq<Scalar>|
        state_model::flattens_level(vector, state.layout, state.fields, 0)
}

/// Whether the integrator stands where the committed state stands.
pub open spec fn aligned(state: StateModel, integrator: BdfModel, dimension: nat) -> bool {
    &&& state.phase == TransactionPhase::Committed
    &&& committed_vector(state).len() == dimension
    &&& numeric::same_values(integrator.values, committed_vector(state))
    &&& integrator.time.same_value(state.time)
    &&& integrator.accepted_steps == state.step
}

/// Whether the integrator's history is the committed history.
pub open spec fn histories_agree(state: StateModel, integrator: BdfModel, dimension: nat) -> bool {
    match (integrator.previous_values, integrator.previous_step) {
        (Some(values), Some(step)) => {
            &&& values.len() == dimension
            &&& scalar::all_finite(values)
            &&& step.finite()
            &&& step.strictly_positive()
            &&& state_model::has_level(state.layout, state.fields, 0)
            &&& numeric::same_values(previous_vector(state), values)
        },
        _ => false,
    }
}

/// Whether the integrator has no history and has made no step.
pub open spec fn fresh(integrator: BdfModel) -> bool {
    &&& integrator.previous_values is None
    &&& integrator.previous_step is None
    &&& integrator.accepted_steps == 0
}

/// Why a committed state and an integrator do not belong together.
pub open spec fn pair_failure(
    state: StateModel,
    integrator: BdfModel,
    dimension: nat,
) -> Option<ErrorModel> {
    if !state_model::filled(state.layout, state.fields) {
        Some(state_model::missing_failure(state.layout, state.fields))
    } else if !aligned(state, integrator, dimension) {
        Some(
            ErrorModel::InvalidCoupling(
                "Krasis committed state and Methodus BDF state are not synchronized"@,
            ),
        )
    } else if fresh(integrator) {
        if state_model::has_level(state.layout, state.fields, 0) {
            Some(
                ErrorModel::InvalidCoupling(
                    "initial BDF state unexpectedly has Krasis history"@,
                ),
            )
        } else {
            None
        }
    } else if histories_agree(state, integrator, dimension) {
        None
    } else {
        Some(
            ErrorModel::InvalidCoupling(
                "Krasis field history and Methodus BDF history are inconsistent"@,
            ),
        )
    }
}

/// The execution after an attempt and what the attempt returns: `None` for success.
pub open spec fn settle(
    before: ExecutionModel,
    dimension: nat,
    step: Scalar,
    attempt: AttemptModel,
) -> (ExecutionModel, Option<ErrorModel>) {
    match attempt {
        AttemptModel::Failed(error) => match error.refusal {
            Some(refusal) => (
                ExecutionModel {
                    refusals: before.refusals.push(
                        RefusedModel { refusal, time: before.state.time, step },
                    ),
                    ..before
                },
                Some(numeric::solve_failure(error)),
            ),
            None => (before, Some(numeric::solve_failure(error))),
        },
        AttemptModel::Rejected => (before, None),
        AttemptModel::Accepted(next) => match accepted_state(before.state, next) {
            Err(failure) => (before, Some(failure)),
            Ok(state) => (
                ExecutionModel { state, integrator: next, ..before },
                pair_failure(state, next, dimension),
            ),
        },
    }
}

/// The state after an accepted step: its values committed at its time.
pub open spec fn accepted_state(state: StateModel, next: BdfModel) -> Result<
    StateModel,
    ErrorModel,
> {
    state.commit_vector(next.values, next.time)
}

proof fn lemma_subranges_determine(left: Seq<Scalar>, right: Seq<Scalar>, blocks: Seq<BlockModel>)
    requires
        layout::tiles(blocks),
        left.len() == layout::width_of(blocks),
        right.len() == layout::width_of(blocks),
        forall|k: int|
            0 <= k < blocks.len() ==> left.subrange(
                (#[trigger] blocks[k]).start as int,
                blocks[k].end as int,
            ) == right.subrange(blocks[k].start as int, blocks[k].end as int),
    ensures
        left == right,
{
    assert forall|i: int| 0 <= i < left.len() implies left[i] == right[i] by {
        lemma_covering_block(blocks, i, blocks.len() - 1);
        let k = choose|k: int|
            0 <= k < blocks.len() && (#[trigger] blocks[k]).start <= i < blocks[k].end;
        state_model::lemma_block_bounds(blocks, k);
        let a = left.subrange(blocks[k].start as int, blocks[k].end as int);
        let b = right.subrange(blocks[k].start as int, blocks[k].end as int);
        assert(a == b);
        assert(a[i - blocks[k].start] == left[i]);
        assert(b[i - blocks[k].start] == right[i]);
    }
    assert(left =~= right);
}

/// Every position below the end of block `last` lies in one of the blocks up to it.
proof fn lemma_covering_block(blocks: Seq<BlockModel>, i: int, last: int)
    requires
        layout::tiles(blocks),
        0 <= last < blocks.len(),
        0 <= i < blocks[last].end,
    ensures
        exists|k: int| 0 <= k < blocks.len() && (#[trigger] blocks[k]).start <= i < blocks[k].end,
    decreases last,
{
    assert(blocks[last].start == layout::previous_end(blocks, last));
    if i < blocks[last].start {
        lemma_covering_block(blocks, i, last - 1);
    }
}

/// The committed vector is the one that holds the fields block by block.
pub proof fn lemma_committed_vector(state: StateModel, vector: Seq<Scalar>)
    requires
        state.consistent(),
        state_model::flattens(vector, state.layout, state.fields),
    ensures
        committed_vector(state) == vector,
{
    reveal(committed_vector);
    state_model::lemma_consistent(state);
    let chosen = committed_vector(state);
    assert(state_model::flattens(chosen, state.layout, state.fields));
    assert forall|k: int| 0 <= k < state.layout.len() implies chosen.subrange(
        (#[trigger] state.layout[k]).start as int,
        state.layout[k].end as int,
    ) == vector.subrange(state.layout[k].start as int, state.layout[k].end as int) by {}
    lemma_subranges_determine(chosen, vector, state.layout);
}

pub proof fn lemma_previous_vector(state: StateModel, vector: Seq<Scalar>)
    requires
        state.consistent(),
        state_model::flattens_level(vector, state.layout, state.fields, 0),
    ensures
        previous_vector(state) == vector,
{
    reveal(previous_vector);
    state_model::lemma_consistent(state);
    let chosen = previous_vector(state);
    assert(state_model::flattens_level(chosen, state.layout, state.fields, 0));
    assert forall|k: int| 0 <= k < state.layout.len() implies chosen.subrange(
        (#[trigger] state.layout[k]).start as int,
        state.layout[k].end as int,
    ) == vector.subrange(state.layout[k].start as int, state.layout[k].end as int) by {}
    lemma_subranges_determine(chosen, vector, state.layout);
}

/// What an accepted step does to one field: the trial opened, set from the block's
/// part of the values, and committed.
pub open spec fn stepped(
    slot: SlotModel,
    blocks: Seq<BlockModel>,
    values: Seq<Scalar>,
    limit: nat,
) -> SlotModel {
    state_model::advanced(
        state_model::scattered(state_model::opened(slot), blocks, values),
        limit,
    )
}

/// Whether an integrator state is the successor of another by a step.
pub open spec fn succeeds(before: BdfModel, next: BdfModel, dimension: nat) -> bool {
    &&& next.values.len() == dimension
    &&& scalar::all_finite(next.values)
    &&& next.time.finite()
    &&& !next.time.below(before.time)
    &&& next.accepted_steps == before.accepted_steps + 1
    &&& next.previous_values == Some(before.values)
    &&& next.previous_step matches Some(step) && step.finite() && step.strictly_positive()
}

proof fn lemma_accepted_state(state: StateModel, next: BdfModel)
    requires
        state.consistent(),
        state.phase == TransactionPhase::Committed,
        state_model::filled(state.layout, state.fields),
        next.values.len() == layout::width_of(state.layout),
        scalar::all_finite(next.values),
        next.time.finite(),
        !next.time.below(state.time),
        state.step < u64::MAX,
    ensures
        accepted_state(state, next) matches Ok(after) && {
            &&& after.consistent()
            &&& after.layout == state.layout
            &&& after.phase == TransactionPhase::Committed
            &&& after.history_limit == state.history_limit
            &&& after.time == next.time
            &&& after.step == state.step + 1
            &&& after.fields.len() == state.fields.len()
            &&& forall|i: int|
                0 <= i < state.fields.len() ==> (#[trigger] after.fields[i]) == stepped(
                    state.fields[i],
                    state.layout,
                    next.values,
                    state.history_limit,
                )
        },
{
    reveal(state_model::values_failure);
    let opened = state.begin_trial()->Ok_0;
    state_model::law_begin_keeps_consistency(state);
    assert forall|i: int| 0 <= i < state.layout.len() implies state_model::has_slot(
        opened.fields,
        (#[trigger] state.layout[i]).id,
    ) by {
        let k = state_model::slot_index(state.fields, state.layout[i].id);
        assert(state_model::has_slot(state.fields, state.layout[i].id));
        assert(opened.fields[k].name == state.layout[i].id);
    }
    assert(opened.set_trial_vector(next.values) is Ok);
    let filled = opened.set_trial_vector(next.values)->Ok_0;
    state_model::law_set_trial_vector_keeps_consistency(opened, next.values);
    assert(filled.commit(next.time) is Ok);
    state_model::law_commit_keeps_consistency(filled, next.time);
}

proof fn lemma_stepped_field(state: StateModel, after: StateModel, values: Seq<Scalar>, k: int)
    requires
        state.consistent(),
        after.consistent(),
        after.layout == state.layout,
        state_model::filled(state.layout, state.fields),
        after.fields.len() == state.fields.len(),
        forall|i: int|
            0 <= i < state.fields.len() ==> (#[trigger] after.fields[i]) == stepped(
                state.fields[i],
                state.layout,
                values,
                state.history_limit,
            ),
        0 <= k < state.layout.len(),
        state.history_limit > 0,
    ensures
        state_model::has_slot(after.fields, state.layout[k].id),
        ({
            let slot = state_model::slot_of(after.fields, state.layout[k].id);
            &&& slot.committed == values.subrange(
                state.layout[k].start as int,
                state.layout[k].end as int,
            )
            &&& slot.history.len() > 0
            &&& slot.history[0] == state_model::slot_of(
                state.fields,
                state.layout[k].id,
            ).committed
        }),
{
    let id = state.layout[k].id;
    state_model::lemma_consistent(state);
    state_model::lemma_consistent(after);
    assert(state_model::has_slot(state.fields, id));
    let i = state_model::slot_index(state.fields, id);
    assert(0 <= i < state.fields.len() && state.fields[i].name == id);
    assert(after.fields[i].name == id);
    state_model::lemma_slot_unique(after.fields, i);
    let b = choose|b: int| 0 <= b < state.layout.len() && (#[trigger] state.layout[b]).id == id;
    assert(0 <= b < state.layout.len() && state.layout[b].id == id);
    assert(b == k);
}

proof fn lemma_same_value_finite(left: Scalar, right: Scalar)
    requires
        left.same_value(right),
        right.finite(),
    ensures
        left.finite(),
        right.same_value(left),
{
}

/// An execution that keeps history stays synchronized: from a synchronized state, a
/// step to a proper successor is accepted and leaves the state and the integrator
/// synchronized again.
pub proof fn law_accepted_step_stays_synchronized(
    before: ExecutionModel,
    dimension: nat,
    step: Scalar,
    next: BdfModel,
)
    requires
        before.state.consistent(),
        before.state.history_limit > 0,
        pair_failure(before.state, before.integrator, dimension) is None,
        succeeds(before.integrator, next, dimension),
    ensures
        ({
            let (after, failure) = settle(before, dimension, step, AttemptModel::Accepted(next));
            &&& failure is None
            &&& after.integrator == next
            &&& pair_failure(after.state, after.integrator, dimension) is None
        }),
{
    let state = before.state;
    state_model::lemma_consistent(state);
    let old_vector = committed_vector(state);
    assert(state_model::flattens(old_vector, state.layout, state.fields)) by {
        lemma_vector_exists(state);
        reveal(committed_vector);
    }
    assert(!next.time.below(state.time));
    lemma_accepted_state(state, next);
    let after = accepted_state(state, next)->Ok_0;
    assert forall|k: int| 0 <= k < state.layout.len() implies state_model::has_slot(
        after.fields,
        (#[trigger] after.layout[k]).id,
    ) && next.values.subrange(after.layout[k].start as int, after.layout[k].end as int)
        == state_model::slot_of(after.fields, after.layout[k].id).committed
        && state_model::slot_of(after.fields, after.layout[k].id).history.len() > 0
        && old_vector.subrange(after.layout[k].start as int, after.layout[k].end as int)
        == state_model::slot_of(after.fields, after.layout[k].id).history[0] by {
        lemma_stepped_field(state, after, next.values, k);
    }
    assert(state_model::flattens(next.values, after.layout, after.fields));
    lemma_committed_vector(after, next.values);
    assert(state_model::flattens_level(old_vector, after.layout, after.fields, 0));
    lemma_previous_vector(after, old_vector);
    let values = before.integrator.values;
    assert forall|i: int| 0 <= i < values.len() implies (#[trigger] values[i]).finite()
        && old_vector[i].same_value(values[i]) by {
        lemma_vector_finite(state, old_vector, i);
        lemma_same_value_finite(values[i], old_vector[i]);
    }
    assert(numeric::same_values(old_vector, values));
    assert(aligned(after, next, dimension));
    assert(histories_agree(after, next, dimension));
}

/// A state whose blocks all have fields has a committed vector.
proof fn lemma_vector_exists(state: StateModel)
    requires
        state.consistent(),
        state_model::filled(state.layout, state.fields),
    ensures
        exists|vector: Seq<Scalar>|
            state_model::flattens(vector, state.layout, state.fields),
{
    state_model::lemma_consistent(state);
    let vector = prefix_vector(state, state.layout.len() as int);
    lemma_prefix_vector(state, state.layout.len() as int);
    assert(state_model::flattens(vector, state.layout, state.fields));
}

spec fn prefix_vector(state: StateModel, count: int) -> Seq<Scalar>
    decreases count,
{
    if count <= 0 {
        Seq::empty()
    } else {
        prefix_vector(state, count - 1) + state_model::slot_of(
            state.fields,
            state.layout[count - 1].id,
        ).committed
    }
}

proof fn lemma_prefix_vector(state: StateModel, count: int)
    requires
        state.consistent(),
        layout::tiles(state.layout),
        state_model::filled(state.layout, state.fields),
        0 <= count <= state.layout.len(),
    ensures
        prefix_vector(state, count).len() == layout::previous_end(state.layout, count),
        forall|k: int|
            0 <= k < count ==> prefix_vector(state, count).subrange(
                (#[trigger] state.layout[k]).start as int,
                state.layout[k].end as int,
            ) == state_model::slot_of(state.fields, state.layout[k].id).committed,
    decreases count,
{
    if count > 0 {
        let last = count - 1;
        lemma_prefix_vector(state, last);
        let id = state.layout[last].id;
        assert(state_model::has_slot(state.fields, id));
        let i = state_model::slot_index(state.fields, id);
        assert(0 <= i < state.fields.len() && state.fields[i].name == id);
        state_model::lemma_consistent_field(state, i);
        state_model::lemma_block_width(state.layout, last);
        assert(state.layout[last].start == layout::previous_end(state.layout, last));
        let shorter = prefix_vector(state, last);
        let longer = prefix_vector(state, count);
        assert forall|k: int| 0 <= k < count implies longer.subrange(
            (#[trigger] state.layout[k]).start as int,
            state.layout[k].end as int,
        ) == state_model::slot_of(state.fields, state.layout[k].id).committed by {
            if k < last {
                state_model::lemma_block_bounds(state.layout, last);
                state_model::lemma_block_bounds(state.layout, k);
                assert(longer.subrange(
                    state.layout[k].start as int,
                    state.layout[k].end as int,
                ) =~= shorter.subrange(
                    state.layout[k].start as int,
                    state.layout[k].end as int,
                ));
            } else {
                assert(longer.subrange(
                    state.layout[k].start as int,
                    state.layout[k].end as int,
                ) =~= state_model::slot_of(state.fields, id).committed);
            }
        }
    }
}

proof fn lemma_vector_finite(state: StateModel, vector: Seq<Scalar>, i: int)
    requires
        state.consistent(),
        state_model::filled(state.layout, state.fields),
        state_model::flattens(vector, state.layout, state.fields),
        0 <= i < vector.len(),
    ensures
        vector[i].finite(),
{
    state_model::lemma_consistent(state);
    let blocks = state.layout;
    lemma_covering_block(blocks, i, blocks.len() - 1);
    let k = choose|k: int|
        0 <= k < blocks.len() && (#[trigger] blocks[k]).start <= i < blocks[k].end;
    state_model::lemma_block_bounds(blocks, k);
    let slot = state_model::slot_index(state.fields, blocks[k].id);
    assert(state_model::has_slot(state.fields, blocks[k].id));
    state_model::lemma_consistent_field(state, slot);
    let part = vector.subrange(blocks[k].start as int, blocks[k].end as int);
    assert(part == state.fields[slot].committed);
    assert(part[i - blocks[k].start] == vector[i]);
}

/// An accepted step leaves the vector that was committed before it as the newest level
/// of the history, where one is kept.
pub proof fn law_accepted_step_keeps_previous(state: StateModel, next: BdfModel)
    requires
        state.consistent(),
        state_model::filled(state.layout, state.fields),
        state.history_limit > 0,
        accepted_state(state, next) is Ok,
    ensures
        ({
            let after = accepted_state(state, next)->Ok_0;
            &&& state_model::has_level(after.layout, after.fields, 0)
            &&& previous_vector(after) == committed_vector(state)
        }),
{
    let after = accepted_state(state, next)->Ok_0;
    let opened = state.begin_trial()->Ok_0;
    let filled = opened.set_trial_vector(next.values)->Ok_0;
    state_model::law_begin_keeps_consistency(state);
    state_model::law_set_trial_vector_keeps_consistency(opened, next.values);
    state_model::law_commit_keeps_consistency(filled, next.time);
    state_model::lemma_consistent(state);
    assert forall|i: int| 0 <= i < state.fields.len() implies (#[trigger] after.fields[i])
        == stepped(state.fields[i], state.layout, next.values, state.history_limit) by {
        assert(opened.fields[i] == state_model::opened(state.fields[i]));
        assert(filled.fields[i] == state_model::scattered(
            opened.fields[i],
            state.layout,
            next.values,
        ));
    }
    let old_vector = committed_vector(state);
    assert(state_model::flattens(old_vector, state.layout, state.fields)) by {
        lemma_vector_exists(state);
        reveal(committed_vector);
    }
    assert forall|k: int| 0 <= k < state.layout.len() implies state_model::slot_of(
        after.fields,
        (#[trigger] after.layout[k]).id,
    ).history.len() > 0 && old_vector.subrange(
        after.layout[k].start as int,
        after.layout[k].end as int,
    ) == state_model::slot_of(after.fields, after.layout[k].id).history[0] by {
        lemma_stepped_field(state, after, next.values, k);
    }
    assert(state_model::flattens_level(old_vector, after.layout, after.fields, 0));
    lemma_previous_vector(after, old_vector);
}

/// An accepted step commits exactly its values, at its time.
pub proof fn law_accepted_step_holds_its_values(state: StateModel, next: BdfModel)
    requires
        state.consistent(),
        state_model::filled(state.layout, state.fields),
        accepted_state(state, next) is Ok,
    ensures
        committed_vector(accepted_state(state, next)->Ok_0) == next.values,
        accepted_state(state, next)->Ok_0.time == next.time,
{
    reveal(state_model::values_failure);
    let after = accepted_state(state, next)->Ok_0;
    let opened = state.begin_trial()->Ok_0;
    let filled = opened.set_trial_vector(next.values)->Ok_0;
    state_model::law_begin_keeps_consistency(state);
    state_model::law_set_trial_vector_keeps_consistency(opened, next.values);
    state_model::law_commit_keeps_consistency(filled, next.time);
    state_model::lemma_consistent(state);
    state_model::lemma_consistent(after);
    assert forall|k: int| 0 <= k < state.layout.len() implies next.values.subrange(
        (#[trigger] after.layout[k]).start as int,
        after.layout[k].end as int,
    ) == state_model::slot_of(after.fields, after.layout[k].id).committed by {
        let id = state.layout[k].id;
        assert(state_model::has_slot(state.fields, id));
        let i = state_model::slot_index(state.fields, id);
        assert(0 <= i < state.fields.len() && state.fields[i].name == id);
        assert(opened.fields[i] == state_model::opened(state.fields[i]));
        assert(filled.fields[i] == state_model::scattered(
            opened.fields[i],
            state.layout,
            next.values,
        ));
        assert(after.fields[i].name == id);
        state_model::lemma_slot_unique(after.fields, i);
        let b = choose|b: int|
            0 <= b < state.layout.len() && (#[trigger] state.layout[b]).id == id;
        assert(0 <= b < state.layout.len() && state.layout[b].id == id);
        assert(b == k);
    }
    assert(state_model::flattens(next.values, after.layout, after.fields));
    lemma_committed_vector(after, next.values);
}

/// A rejected step and a failed one leave the committed state, its history and the
/// integrator exactly as they were.
pub proof fn law_unaccepted_attempt_changes_nothing(
    before: ExecutionModel,
    dimension: nat,
    step: Scalar,
    attempt: AttemptModel,
)
    requires
        attempt !is Accepted,
    ensures
        ({
            let (after, failure) = settle(before, dimension, step, attempt);
            &&& after.state == before.state
            &&& after.integrator == before.integrator
            &&& failure is None <==> attempt is Rejected
        }),
{
}

/// A typed evaluation refusal is returned as itself, is never a rejection, and is
/// logged with the time and step of its attempt.
pub proof fn law_refusal_is_reported_and_logged(
    before: ExecutionModel,
    dimension: nat,
    step: Scalar,
    error: SolveModel,
)
    requires
        error.refusal is Some,
    ensures
        ({
            let refusal = error.refusal->Some_0;
            let (after, failure) = settle(before, dimension, step, AttemptModel::Failed(error));
            &&& failure == Some(
                ErrorModel::EvaluationRefused {
                    code: refusal.code,
                    origin: refusal.origin,
                    message: refusal.message,
                },
            )
            &&& after.refusals == before.refusals.push(
                RefusedModel { refusal, time: before.state.time, step },
            )
        }),
{
}

} // verus!
