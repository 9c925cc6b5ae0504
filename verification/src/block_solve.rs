//! Transactional execution of linear solves over one committed block state.
//!
//! A converged solve becomes the new committed state. A solve that fails or does not
//! converge is never committed.
use crate::checkpoint::Checkpoint;
use crate::checkpoint::CheckpointModel;
use crate::digest;
use crate::digest::{digest_text, json_text};
use crate::error::{ErrorModel, KrasisError};
use crate::execution_model;
use crate::layout::{BlockModel, StateLayout};
use crate::layout;
use crate::numeric;
use crate::numeric::{krasis_solve_error, SolveError};
use crate::operator::BlockSpec;
use crate::realization::OperatorIdentity;
use crate::scalar::Scalar;
use crate::state::SimulationState;
use crate::state_model;
use crate::state_model::{StateModel, TransactionPhase};
use crate::text;
use crate::text::{same_text, size_text};
use vstd::prelude::*;

verus! {

/// A linear algorithm.
#[derive(Clone, Copy, Debug, PartialEq, Eq, Structural)]
pub enum BlockLinearAlgorithm {
    ConjugateGradient,
    Minres,
    Gmres,
}

impl BlockLinearAlgorithm {
    pub open spec fn label_text(self) -> Seq<char> {
        match self {
            BlockLinearAlgorithm::ConjugateGradient => "conjugate_gradient"@,
            BlockLinearAlgorithm::Minres => "minres"@,
            BlockLinearAlgorithm::Gmres => "gmres"@,
        }
    }

    /// A stable lower-case label.
    pub fn label(self) -> (result: &'static str)
        ensures
            result@ == self.label_text(),
    {
        match self {
            BlockLinearAlgorithm::ConjugateGradient => "conjugate_gradient",
            BlockLinearAlgorithm::Minres => "minres",
            BlockLinearAlgorithm::Gmres => "gmres",
        }
    }
}

/// The linear algorithm that a solve runs, with its configuration. Selection is the
/// caller's policy.
#[derive(Clone, Debug, PartialEq, Eq)]
pub enum BlockLinearSolver<C, M, G> {
    ConjugateGradient(C),
    Minres(M),
    Gmres(G),
}

impl<C, M, G> BlockLinearSolver<C, M, G> {
    pub open spec fn kind(self) -> BlockLinearAlgorithm {
        match self {
            BlockLinearSolver::ConjugateGradient(_) => BlockLinearAlgorithm::ConjugateGradient,
            BlockLinearSolver::Minres(_) => BlockLinearAlgorithm::Minres,
            BlockLinearSolver::Gmres(_) => BlockLinearAlgorithm::Gmres,
        }
    }

    pub fn algorithm(&self) -> (result: BlockLinearAlgorithm)
        ensures
            result == self.kind(),
    {
        match self {
            BlockLinearSolver::ConjugateGradient(_) => BlockLinearAlgorithm::ConjugateGradient,
            BlockLinearSolver::Minres(_) => BlockLinearAlgorithm::Minres,
            BlockLinearSolver::Gmres(_) => BlockLinearAlgorithm::Gmres,
        }
    }
}

/// What a linear algorithm reported: its last iterate, whether it converged and its trace,
/// one entry per iteration behind the entry of the start.
#[derive(Clone, Debug, PartialEq, Eq)]
pub struct LinearSolveReport<T> {
    pub solution: Vec<Scalar>,
    pub converged: bool,
    pub trace: Vec<T>,
}

/// A finished linear solve. `restart_cycles` counts for GMRES alone.
#[derive(Clone, Debug, PartialEq, Eq)]
pub struct LinearSolve<T> {
    pub report: LinearSolveReport<T>,
    pub restart_cycles: usize,
}

/// A converged, committed solve: the report as the algorithm returned it, and the restart
/// cycles that GMRES reports and the other algorithms do not.
#[derive(Clone, Debug, PartialEq, Eq)]
pub struct BlockLinearReport<T> {
    pub algorithm: BlockLinearAlgorithm,
    pub report: LinearSolveReport<T>,
    pub restart_cycles: Option<usize>,
}

/// Restart data bound to the exact block operator they were produced against.
#[derive(Clone, Debug, PartialEq, Eq)]
pub struct BlockLinearCheckpoint {
    pub operator_identity: String,
    pub state: Checkpoint,
}

/// What a block operator declares: its shape, its blocks, and its properties and block
/// layout as the numerical layer serialises them.
#[derive(Clone, Debug, PartialEq, Eq)]
pub struct BlockOperatorShape {
    pub rows: usize,
    pub columns: usize,
    pub dimension: usize,
    pub blocks: Vec<BlockSpec>,
    pub properties: String,
    pub block_layout: String,
}

/// The text whose digest identifies a block operator: its content and what it declares.
pub open spec fn block_operator_payload(content: Seq<char>, shape: BlockOperatorShape) -> Seq<
    char,
> {
    "{\"schema\":\"krasis-block-linear/2\",\"content\":"@ + digest::json_string(content)
        + ",\"rows\":"@ + text::decimal(shape.rows as nat) + ",\"columns\":"@ + text::decimal(
        shape.columns as nat,
    ) + ",\"properties\":"@ + shape.properties@ + ",\"block_layout\":"@ + shape.block_layout@
        + "}"@
}

fn operator_identity_text(content: &str, shape: &BlockOperatorShape) -> (result: String)
    ensures
        result@ == digest::digest_of(block_operator_payload(content@, *shape)),
{
    let payload = "{\"schema\":\"krasis-block-linear/2\",\"content\":".to_owned().concat(
        json_text(content).as_str(),
    ).concat(",\"rows\":").concat(size_text(shape.rows).as_str()).concat(
        ",\"columns\":",
    ).concat(size_text(shape.columns).as_str()).concat(",\"properties\":").concat(
        shape.properties.as_str(),
    ).concat(",\"block_layout\":").concat(shape.block_layout.as_str()).concat("}");
    digest_text(payload.as_str())
}

/// Whether an operator block and a state block differ in length.
pub open spec fn lengths_differ(shape: BlockOperatorShape, blocks: Seq<BlockModel>, i: int) -> bool {
    shape.blocks@[i].length != blocks[i].end - blocks[i].start
}

pub open spec fn first_length_difference(
    shape: BlockOperatorShape,
    blocks: Seq<BlockModel>,
    i: int,
) -> bool {
    &&& 0 <= i < blocks.len()
    &&& lengths_differ(shape, blocks, i)
    &&& forall|j: int| 0 <= j < i ==> !#[trigger] lengths_differ(shape, blocks, j)
}

pub open spec fn length_failure(shape: BlockOperatorShape, blocks: Seq<BlockModel>, i: int) -> ErrorModel {
    ErrorModel::InvalidCoupling(
        "block operator block `"@ + shape.blocks@[i].name@ + "` has length "@ + text::decimal(
            shape.blocks@[i].length as nat,
        ) + ", Krasis block `"@ + blocks[i].id + "` has length "@ + text::decimal(
            (blocks[i].end - blocks[i].start) as nat,
        ),
    )
}

/// Whether `failure` is why a block operator and a state do not fit together.
pub open spec fn binding_refused(
    shape: BlockOperatorShape,
    state: StateModel,
    failure: ErrorModel,
) -> bool {
    let width = layout::width_of(state.layout);
    if state.phase != TransactionPhase::Committed {
        failure == ErrorModel::InvalidCoupling(
            "block linear execution must start from committed state"@,
        )
    } else if !state_model::filled(state.layout, state.fields) {
        failure == state_model::missing_failure(state.layout, state.fields)
    } else if shape.rows != width || shape.columns != width {
        failure == ErrorModel::InvalidCoupling(
            "block operator is "@ + text::decimal(shape.rows as nat) + "x"@ + text::decimal(
                shape.columns as nat,
            ) + ", Krasis state width is "@ + text::decimal(width),
        )
    } else if shape.dimension != width {
        failure == ErrorModel::InvalidCoupling(
            "block operator layout has dimension "@ + text::decimal(shape.dimension as nat)
                + ", Krasis state width is "@ + text::decimal(width),
        )
    } else if shape.blocks@.len() != state.layout.len() {
        failure == ErrorModel::InvalidCoupling(
            "block operator declares "@ + text::decimal(shape.blocks@.len())
                + " blocks, Krasis state layout declares "@ + text::decimal(state.layout.len()),
        )
    } else {
        exists|i: int|
            #[trigger] first_length_difference(shape, state.layout, i) && failure
                == length_failure(shape, state.layout, i)
    }
}

/// Whether a block operator and a committed state fit together.
pub open spec fn fits(shape: BlockOperatorShape, state: StateModel) -> bool {
    &&& state.phase == TransactionPhase::Committed
    &&& state_model::filled(state.layout, state.fields)
    &&& shape.rows == layout::width_of(state.layout)
    &&& shape.columns == layout::width_of(state.layout)
    &&& shape.dimension == layout::width_of(state.layout)
    &&& shape.blocks@.len() == state.layout.len()
    &&& forall|i: int|
        0 <= i < state.layout.len() ==> !#[trigger] lengths_differ(shape, state.layout, i)
}

/// Execution state driving linear solves over one committed block state.
#[derive(Clone, Debug)]
pub struct BlockLinearExecution<Op: OperatorIdentity> {
    operator: Op,
    operator_identity: String,
    state: SimulationState,
}

/// What binding an operator to a state gives.
pub open spec fn block_execution_made<Op: OperatorIdentity>(
    operator: Op,
    shape: BlockOperatorShape,
    state: StateModel,
    result: Result<BlockLinearExecution<Op>, KrasisError>,
) -> bool {
    match result {
        Ok(execution) => {
            &&& fits(shape, state)
            &&& execution.wf()
            &&& execution@ == state
            &&& execution.op() == operator
            &&& execution.identity_text() == digest::digest_of(
                block_operator_payload(operator.content_text(), shape),
            )
        },
        Err(error) => !fits(shape, state) && binding_refused(shape, state, error@),
    }
}

impl<Op: OperatorIdentity> View for BlockLinearExecution<Op> {
    type V = StateModel;

    closed spec fn view(&self) -> StateModel {
        self.state@
    }
}

/// Why a solve may not run: only MINRES takes a nullspace projector.
pub open spec fn projector_failure(
    algorithm: BlockLinearAlgorithm,
    projected: bool,
) -> Option<ErrorModel> {
    if projected && algorithm != BlockLinearAlgorithm::Minres {
        Some(
            ErrorModel::InvalidCoupling(
                "a nullspace projector is only admitted with minres, not "@
                    + algorithm.label_text(),
            ),
        )
    } else {
        None
    }
}

/// The state after a solve, or why it was not committed.
pub open spec fn solved<T>(
    state: StateModel,
    algorithm: BlockLinearAlgorithm,
    outcome: Result<LinearSolve<T>, SolveError>,
    time: Scalar,
) -> Result<StateModel, ErrorModel> {
    match outcome {
        Err(error) => Err(numeric::solve_failure(error@)),
        Ok(solve) => if !solve.report.converged {
            Err(
                ErrorModel::SolveDidNotConverge {
                    algorithm: algorithm.label_text(),
                    iterations: if solve.report.trace@.len() == 0 {
                        0
                    } else {
                        (solve.report.trace@.len() - 1) as nat
                    },
                },
            )
        } else {
            state.commit_vector(solve.report.solution@, time)
        },
    }
}

/// What settling a solve gives.
pub open spec fn solve_settled<T>(
    before: StateModel,
    algorithm: BlockLinearAlgorithm,
    outcome: Result<LinearSolve<T>, SolveError>,
    time: Scalar,
    result: Result<BlockLinearReport<T>, KrasisError>,
    after: StateModel,
) -> bool {
    match solved(before, algorithm, outcome, time) {
        Err(failure) => result matches Err(error) && error@ == failure && after == before,
        Ok(state) => {
            &&& after == state
            &&& result == Ok::<BlockLinearReport<T>, KrasisError>(
                BlockLinearReport {
                    algorithm,
                    report: outcome->Ok_0.report,
                    restart_cycles: if algorithm == BlockLinearAlgorithm::Gmres {
                        Some(outcome->Ok_0.restart_cycles)
                    } else {
                        None
                    },
                },
            )
        },
    }
}

impl<Op: OperatorIdentity> BlockLinearExecution<Op> {
    pub closed spec fn op(&self) -> Op {
        self.operator
    }

    pub closed spec fn identity_text(&self) -> Seq<char> {
        self.operator_identity@
    }

    /// A well-formed complete state outside a trial.
    pub closed spec fn wf(&self) -> bool {
        &&& self.state.wf()
        &&& self.state@.phase == TransactionPhase::Committed
        &&& state_model::filled(self.state@.layout, self.state@.fields)
    }

    pub proof fn lemma_wf(&self)
        requires
            self.wf(),
        ensures
            self@.consistent(),
            self@.phase == TransactionPhase::Committed,
            state_model::filled(self@.layout, self@.fields),
    {
        self.state.lemma_wf();
    }

    /// Binds an operator to a state, refusing a mismatch of dimension or of any block's
    /// length, and a state that is not complete and committed.
    pub fn new(operator: Op, shape: &BlockOperatorShape, state: SimulationState) -> (result: Result<
        BlockLinearExecution<Op>,
        KrasisError,
    >)
        requires
            state.wf(),
        ensures
            block_execution_made(operator, *shape, state@, result),
    {
        if state.phase() != TransactionPhase::Committed {
            return Err(
                KrasisError::InvalidCoupling(
                    "block linear execution must start from committed state".to_owned(),
                ),
            );
        }
        proof {
            state.lemma_wf();
        }
        let width: usize = match state.committed_vector() {
            Ok(vector) => vector.len(),
            Err(error) => {
                return Err(error);
            },
        };
        if shape.rows != width || shape.columns != width {
            return Err(
                KrasisError::InvalidCoupling(
                    "block operator is ".to_owned().concat(
                        size_text(shape.rows).as_str(),
                    ).concat("x").concat(size_text(shape.columns).as_str()).concat(
                        ", Krasis state width is ",
                    ).concat(size_text(width).as_str()),
                ),
            );
        }
        if shape.dimension != width {
            return Err(
                KrasisError::InvalidCoupling(
                    "block operator layout has dimension ".to_owned().concat(
                        size_text(shape.dimension).as_str(),
                    ).concat(", Krasis state width is ").concat(size_text(width).as_str()),
                ),
            );
        }
        let count: usize = state.layout().blocks().len();
        if shape.blocks.len() != count {
            return Err(
                KrasisError::InvalidCoupling(
                    "block operator declares ".to_owned().concat(
                        size_text(shape.blocks.len()).as_str(),
                    ).concat(" blocks, Krasis state layout declares ").concat(
                        size_text(count).as_str(),
                    ),
                ),
            );
        }
        match check_lengths(shape, state.layout()) {
            Ok(_) => {},
            Err(error) => {
                return Err(error);
            },
        }
        let content = operator.content_identity();
        let operator_identity = operator_identity_text(content.as_str(), shape);
        Ok(BlockLinearExecution { operator, operator_identity, state })
    }

    pub fn operator_identity(&self) -> (result: &str)
        ensures
            result@ == self.identity_text(),
    {
        self.operator_identity.as_str()
    }

    pub fn state(&self) -> (result: &SimulationState)
        requires
            self.wf(),
        ensures
            result@ == self@,
            result.wf(),
    {
        &self.state
    }

    /// Settles a solve: a converged one is committed at the given time, any other leaves
    /// the committed state untouched.
    pub fn settle_solve<T>(
        &mut self,
        algorithm: BlockLinearAlgorithm,
        outcome: Result<LinearSolve<T>, SolveError>,
        commit_time: Scalar,
    ) -> (result: Result<BlockLinearReport<T>, KrasisError>)
        requires
            old(self).wf(),
        ensures
            final(self).wf(),
            final(self).op() == old(self).op(),
            final(self).identity_text() == old(self).identity_text(),
            solve_settled(
                old(self)@,
                algorithm,
                outcome,
                commit_time,
                result,
                final(self)@,
            ),
    {
        let solve = match outcome {
            Ok(solve) => solve,
            Err(error) => {
                return Err(krasis_solve_error(error));
            },
        };
        if !solve.report.converged {
            let iterations: usize = if solve.report.trace.len() == 0 {
                0
            } else {
                solve.report.trace.len() - 1
            };
            return Err(
                KrasisError::SolveDidNotConverge {
                    algorithm: algorithm.label().to_owned(),
                    iterations,
                },
            );
        }
        let ghost before = self.state@;
        proof {
            self.state.lemma_wf();
        }
        match self.state.commit_vector(&solve.report.solution, commit_time) {
            Ok(_) => {},
            Err(error) => {
                return Err(error);
            },
        }
        proof {
            lemma_commit_keeps_filled(before, solve.report.solution@, commit_time);
        }
        let restart_cycles = if algorithm == BlockLinearAlgorithm::Gmres {
            Some(solve.restart_cycles)
        } else {
            None
        };
        Ok(BlockLinearReport { algorithm, report: solve.report, restart_cycles })
    }

    /// Attempts one linear solve from the committed state as the initial guess; `run` runs
    /// the given solver, with a nullspace projector where `projected` says so, on the right
    /// hand side from that guess. A converged solve commits at `commit_time`. A nullspace
    /// projector is admitted only with MINRES.
    pub fn solve<C, M, G, T, F>(
        &mut self,
        right_hand_side: &Vec<Scalar>,
        solver: &BlockLinearSolver<C, M, G>,
        projected: bool,
        commit_time: Scalar,
        run: F,
    ) -> (result: Result<BlockLinearReport<T>, KrasisError>) where
        F: FnOnce(&BlockLinearSolver<C, M, G>, bool, &Vec<Scalar>, Vec<Scalar>) -> Result<
            LinearSolve<T>,
            SolveError,
        >,

        requires
            old(self).wf(),
            forall|guess: Vec<Scalar>|
                call_requires(run, (solver, projected, right_hand_side, guess)),
        ensures
            final(self).wf(),
            final(self).op() == old(self).op(),
            final(self).identity_text() == old(self).identity_text(),
            match projector_failure(solver.kind(), projected) {
                Some(failure) => result matches Err(error) && error@ == failure && final(self)@
                    == old(self)@,
                None => exists|guess: Vec<Scalar>, outcome: Result<LinearSolve<T>, SolveError>|
                    {
                        &&& guess@ == execution_model::committed_vector(old(self)@)
                        &&& #[trigger] call_ensures(
                            run,
                            (solver, projected, right_hand_side, guess),
                            outcome,
                        )
                        &&& solve_settled(
                            old(self)@,
                            solver.kind(),
                            outcome,
                            commit_time,
                            result,
                            final(self)@,
                        )
                    },
            },
    {
        let algorithm = solver.algorithm();
        if projected && algorithm != BlockLinearAlgorithm::Minres {
            return Err(
                KrasisError::InvalidCoupling(
                    "a nullspace projector is only admitted with minres, not ".to_owned().concat(
                        algorithm.label(),
                    ),
                ),
            );
        }
        proof {
            self.state.lemma_wf();
        }
        let guess = match self.state.committed_vector() {
            Ok(guess) => guess,
            Err(error) => {
                return Err(error);
            },
        };
        proof {
            execution_model::lemma_committed_vector(self.state@, guess@);
        }
        let ghost given = guess;
        let outcome = run(solver, projected, right_hand_side, guess);
        assert(call_ensures(run, (solver, projected, right_hand_side, given), outcome));
        self.settle_solve(algorithm, outcome, commit_time)
    }

    pub fn checkpoint(&self) -> (result: Result<BlockLinearCheckpoint, KrasisError>)
        requires
            self.wf(),
        ensures
            match self@.checkpoint() {
                Ok(saved) => result matches Ok(checkpoint) && checkpoint.state@ == saved
                    && checkpoint.operator_identity@ == self.identity_text(),
                Err(failure) => result matches Err(error) && error@ == failure,
            },
    {
        match self.state.checkpoint() {
            Ok(state) => Ok(
                BlockLinearCheckpoint {
                    operator_identity: self.operator_identity.clone(),
                    state,
                },
            ),
            Err(error) => Err(error),
        }
    }

    /// Restores a checkpoint of this exact operator. A refused checkpoint changes nothing.
    pub fn restore(&mut self, checkpoint: &BlockLinearCheckpoint) -> (result: Result<
        (),
        KrasisError,
    >)
        requires
            old(self).wf(),
        ensures
            final(self).wf(),
            final(self).op() == old(self).op(),
            final(self).identity_text() == old(self).identity_text(),
            match block_restored(
                old(self)@,
                old(self).identity_text(),
                checkpoint.operator_identity@,
                checkpoint.state@,
            ) {
                Ok(state) => result is Ok && final(self)@ == state,
                Err(failure) => result matches Err(error) && error@ == failure && final(self)@
                    == old(self)@,
            },
    {
        if !same_text(checkpoint.operator_identity.as_str(), self.operator_identity.as_str()) {
            return Err(
                KrasisError::InvalidCoupling(
                    "checkpoint operator identity `".to_owned().concat(
                        checkpoint.operator_identity.as_str(),
                    ).concat("` does not match `").concat(
                        self.operator_identity.as_str(),
                    ).concat("`"),
                ),
            );
        }
        let ghost before = self.state@;
        let mut candidate = self.state.clone();
        match candidate.restore(&checkpoint.state) {
            Ok(_) => {},
            Err(error) => {
                return Err(error);
            },
        }
        proof {
            lemma_restore_keeps_filled(before, checkpoint.state@);
        }
        self.state = candidate;
        Ok(())
    }
}

/// The state that restart data describe, or why they are refused.
pub open spec fn block_restored(
    state: StateModel,
    identity: Seq<char>,
    saved_identity: Seq<char>,
    saved: CheckpointModel,
) -> Result<StateModel, ErrorModel> {
    if saved_identity != identity {
        Err(
            ErrorModel::InvalidCoupling(
                "checkpoint operator identity `"@ + saved_identity + "` does not match `"@
                    + identity + "`"@,
            ),
        )
    } else {
        state.restore(saved)
    }
}

/// Checks that the operator's blocks have the lengths of the state's blocks.
fn check_lengths(shape: &BlockOperatorShape, layout: &StateLayout) -> (result: Result<
    (),
    KrasisError,
>)
    requires
        layout.wf(),
        shape.blocks@.len() == layout@.len(),
    ensures
        match result {
            Ok(_) => forall|i: int|
                0 <= i < layout@.len() ==> !#[trigger] lengths_differ(*shape, layout@, i),
            Err(error) => exists|i: int|
                #[trigger] first_length_difference(*shape, layout@, i) && error@
                    == length_failure(*shape, layout@, i),
        },
{
    let mut index: usize = 0;
    while index < layout.blocks().len()
        invariant
            index <= layout@.len(),
            layout.wf(),
            shape.blocks@.len() == layout@.len(),
            forall|i: int| 0 <= i < index ==> !#[trigger] lengths_differ(*shape, layout@, i),
        decreases layout@.len() - index,
    {
        let block = &layout.blocks()[index];
        proof {
            layout.lemma_wf();
            state_model::lemma_block_bounds(layout@, index as int);
        }
        assert(block@ == layout@[index as int]);
        let length: usize = block.end() - block.start();
        if shape.blocks[index].length != length {
            let error = KrasisError::InvalidCoupling(
                "block operator block `".to_owned().concat(
                    shape.blocks[index].name.as_str(),
                ).concat("` has length ").concat(
                    size_text(shape.blocks[index].length).as_str(),
                ).concat(", Krasis block `").concat(block.id().as_str()).concat(
                    "` has length ",
                ).concat(size_text(length).as_str()),
            );
            proof {
                assert(lengths_differ(*shape, layout@, index as int));
                assert(first_length_difference(*shape, layout@, index as int));
                assert(error@ == length_failure(*shape, layout@, index as int));
            }
            return Err(error);
        }
        index += 1;
    }
    Ok(())
}

proof fn lemma_commit_keeps_filled(state: StateModel, values: Seq<Scalar>, time: Scalar)
    requires
        state.consistent(),
        state_model::filled(state.layout, state.fields),
        state.commit_vector(values, time) is Ok,
    ensures
        ({
            let after = state.commit_vector(values, time)->Ok_0;
            &&& after.layout == state.layout
            &&& after.phase == TransactionPhase::Committed
            &&& state_model::filled(after.layout, after.fields)
        }),
{
    let after = state.commit_vector(values, time)->Ok_0;
    let opened = state.begin_trial()->Ok_0;
    let filled = opened.set_trial_vector(values)->Ok_0;
    assert forall|i: int| 0 <= i < after.layout.len() implies state_model::has_slot(
        after.fields,
        (#[trigger] after.layout[i]).id,
    ) by {
        let id = state.layout[i].id;
        assert(state_model::has_slot(state.fields, id));
        let k = state_model::slot_index(state.fields, id);
        assert(0 <= k < state.fields.len() && state.fields[k].name == id);
        assert(opened.fields[k].name == id);
        assert(filled.fields[k].name == id);
        assert(after.fields[k].name == id);
    }
}

proof fn lemma_restore_keeps_filled(state: StateModel, saved: CheckpointModel)
    requires
        state_model::filled(state.layout, state.fields),
        state.restore(saved) is Ok,
    ensures
        ({
            let after = state.restore(saved)->Ok_0;
            &&& after.layout == state.layout
            &&& after.phase == TransactionPhase::Committed
            &&& state_model::filled(after.layout, after.fields)
        }),
{
    let after = state.restore(saved)->Ok_0;
    crate::restore_model::law_restore_keeps_names(state, saved);
    assert forall|i: int| 0 <= i < after.layout.len() implies state_model::has_slot(
        after.fields,
        (#[trigger] after.layout[i]).id,
    ) by {
        let id = state.layout[i].id;
        assert(state_model::has_slot(state.fields, id));
        let k = state_model::slot_index(state.fields, id);
        assert(0 <= k < state.fields.len() && state.fields[k].name == id);
        assert(after.fields[k].name == id);
    }
}

/// A solve that fails or does not converge never moves the committed state.
pub proof fn law_unconverged_solve_commits_nothing<T>(
    before: StateModel,
    algorithm: BlockLinearAlgorithm,
    outcome: Result<LinearSolve<T>, SolveError>,
    time: Scalar,
    result: Result<BlockLinearReport<T>, KrasisError>,
    after: StateModel,
)
    requires
        solve_settled(before, algorithm, outcome, time, result, after),
        outcome is Err || !outcome->Ok_0.report.converged,
    ensures
        after == before,
        result is Err,
{
}

/// A committed solve holds exactly the reported solution, at the given time.
pub proof fn law_committed_solve_is_the_solution<T>(
    before: StateModel,
    algorithm: BlockLinearAlgorithm,
    outcome: Result<LinearSolve<T>, SolveError>,
    time: Scalar,
    result: Result<BlockLinearReport<T>, KrasisError>,
    after: StateModel,
)
    requires
        before.consistent(),
        state_model::filled(before.layout, before.fields),
        solve_settled(before, algorithm, outcome, time, result, after),
        result is Ok,
    ensures
        outcome is Ok,
        execution_model::committed_vector(after) == outcome->Ok_0.report.solution@,
        after.time == time,
        before.history_limit > 0 ==> execution_model::previous_vector(after)
            == execution_model::committed_vector(before),
{
    let next = crate::numeric::BdfModel {
        time,
        values: outcome->Ok_0.report.solution@,
        previous_values: None,
        previous_step: None,
        accepted_steps: 0,
    };
    execution_model::law_accepted_step_holds_its_values(before, next);
    if before.history_limit > 0 {
        execution_model::law_accepted_step_keeps_previous(before, next);
    }
}

/// Restoring a checkpoint of an execution gives its state back exactly, from any state of
/// the same structure.
pub proof fn law_block_restore_undoes_checkpoint(
    saved: StateModel,
    current: StateModel,
    identity: Seq<char>,
)
    requires
        saved.consistent(),
        current.consistent(),
        crate::restore_model::same_structure(saved, current),
        saved.phase == TransactionPhase::Committed,
    ensures
        saved.checkpoint() is Ok,
        block_restored(current, identity, identity, saved.checkpoint()->Ok_0) == Ok::<
            StateModel,
            ErrorModel,
        >(saved),
{
    crate::restore_model::law_restore_undoes_checkpoint(saved, current);
}

/// Whatever execution of one operator accepts a checkpoint, its state becomes the one that
/// the checkpoint was taken of, and its checkpoint the given one, unless that one's state had
/// fields or slots beyond its own.
pub proof fn law_accepted_block_restore_gives_the_saved_state(
    saved: StateModel,
    current: StateModel,
    identity: Seq<char>,
)
    requires
        saved.consistent(),
        current.consistent(),
        saved.checkpoint() is Ok,
        block_restored(current, identity, identity, saved.checkpoint()->Ok_0) is Ok,
        crate::restore_laws::same_counts(saved, current),
    ensures
        block_restored(current, identity, identity, saved.checkpoint()->Ok_0) == Ok::<
            StateModel,
            ErrorModel,
        >(saved),
{
    crate::restore_laws::law_accepted_restore_gives_the_saved_state(saved, current);
}

/// What the payload holds behind its content.
spec fn shape_tail(shape: BlockOperatorShape) -> Seq<char> {
    "\"rows\":"@ + (text::decimal(shape.rows as nat) + seq![','] + ("\"columns\":"@ + (
    text::decimal(shape.columns as nat) + seq![','] + ("\"properties\":"@ + shape.properties@
        + ",\"block_layout\":"@ + shape.block_layout@ + "}"@))))
}

proof fn lemma_payload_parts(content: Seq<char>, shape: BlockOperatorShape)
    ensures
        block_operator_payload(content, shape)
            == "{\"schema\":\"krasis-block-linear/2\",\"content\":"@ + (digest::json_string(content)
            + (seq![','] + shape_tail(shape))),
{
    reveal_strlit(",\"rows\":");
    reveal_strlit("\"rows\":");
    reveal_strlit(",\"columns\":");
    reveal_strlit("\"columns\":");
    reveal_strlit(",\"properties\":");
    reveal_strlit("\"properties\":");
    assert(",\"rows\":"@ =~= seq![','] + "\"rows\":"@);
    assert(",\"columns\":"@ =~= seq![','] + "\"columns\":"@);
    assert(",\"properties\":"@ =~= seq![','] + "\"properties\":"@);
    assert(block_operator_payload(content, shape)
        =~= "{\"schema\":\"krasis-block-linear/2\",\"content\":"@ + (digest::json_string(content)
        + (seq![','] + shape_tail(shape))));
}

/// The text behind a block operator's identity covers its content and its shape, not the
/// shape alone.
pub proof fn law_block_identity_covers_content(
    content: Seq<char>,
    shape: BlockOperatorShape,
    other_content: Seq<char>,
    other: BlockOperatorShape,
)
    requires
        block_operator_payload(content, shape) == block_operator_payload(other_content, other),
    ensures
        content == other_content,
        shape.rows == other.rows,
        shape.columns == other.columns,
{
    lemma_payload_parts(content, shape);
    lemma_payload_parts(other_content, other);
    digest::lemma_same_beginning(
        "{\"schema\":\"krasis-block-linear/2\",\"content\":"@,
        digest::json_string(content) + (seq![','] + shape_tail(shape)),
        digest::json_string(other_content) + (seq![','] + shape_tail(other)),
    );
    digest::lemma_json_string_read(
        content,
        seq![','] + shape_tail(shape),
        other_content,
        seq![','] + shape_tail(other),
    );
    digest::lemma_same_beginning(seq![','], shape_tail(shape), shape_tail(other));
    let mine = "\"properties\":"@ + shape.properties@ + ",\"block_layout\":"@ + shape.block_layout@
        + "}"@;
    let theirs = "\"properties\":"@ + other.properties@ + ",\"block_layout\":"@
        + other.block_layout@ + "}"@;
    let my_columns = text::decimal(shape.columns as nat) + seq![','] + mine;
    let their_columns = text::decimal(other.columns as nat) + seq![','] + theirs;
    digest::lemma_same_beginning(
        "\"rows\":"@,
        text::decimal(shape.rows as nat) + seq![','] + ("\"columns\":"@ + my_columns),
        text::decimal(other.rows as nat) + seq![','] + ("\"columns\":"@ + their_columns),
    );
    text::lemma_numeral_split(
        shape.rows as nat,
        "\"columns\":"@ + my_columns,
        other.rows as nat,
        "\"columns\":"@ + their_columns,
        ',',
    );
    digest::lemma_same_beginning("\"columns\":"@, my_columns, their_columns);
    text::lemma_numeral_split(
        shape.columns as nat,
        mine,
        other.columns as nat,
        theirs,
        ',',
    );
}

} // verus!
