//! What binding a block operator and settling a solve give.
use crate::block_solve;
use crate::block_solve::{
    BlockLinearAlgorithm, BlockLinearExecution, BlockLinearReport, BlockLinearSolver,
    BlockOperatorShape, LinearSolve,
};
use crate::error::{ErrorModel, KrasisError};
use crate::layout;
use crate::numeric::SolveError;
use crate::realization::OperatorIdentity;
use crate::scalar::Scalar;
use crate::state_model;
use crate::state_model::{StateModel, TransactionPhase};
use vstd::prelude::*;

verus! {

/// Whether a block operator has a square shape of the state's size, and the state's blocks
/// one by one.
pub open spec fn shaped_like(shape: BlockOperatorShape, state: StateModel) -> bool {
    let width = layout::width_of(state.layout);
    &&& shape.rows == width && shape.columns == width && shape.dimension == width
    &&& shape.blocks@.len() == state.layout.len()
    &&& forall|i: int|
        0 <= i < shape.blocks@.len() ==> (#[trigger] shape.blocks@[i]).length
            == state.layout[i].end - state.layout[i].start
}

/// An operator is bound exactly to a committed state that has every field and its shape.
/// The execution starts from that very state.
pub proof fn law_operator_is_bound_where_it_fits<Op: OperatorIdentity>(
    operator: Op,
    shape: BlockOperatorShape,
    state: StateModel,
    result: Result<BlockLinearExecution<Op>, KrasisError>,
)
    requires
        block_solve::block_execution_made(operator, shape, state, result),
    ensures
        result is Ok <==> state.phase == TransactionPhase::Committed && shaped_like(shape, state)
            && forall|i: int|
            0 <= i < state.layout.len() ==> state_model::has_slot(
                state.fields,
                (#[trigger] state.layout[i]).id,
            ),
        result matches Ok(execution) ==> execution@ == state && execution.op() == operator,
{
    if shaped_like(shape, state) {
        assert forall|i: int| 0 <= i < state.layout.len() implies !(
        #[trigger] block_solve::lengths_differ(shape, state.layout, i)) by {
            assert(shape.blocks@[i].length == state.layout[i].end - state.layout[i].start);
        }
    }
    if block_solve::fits(shape, state) {
        assert forall|i: int| 0 <= i < shape.blocks@.len() implies (
        #[trigger] shape.blocks@[i]).length == state.layout[i].end - state.layout[i].start by {
            assert(!block_solve::lengths_differ(shape, state.layout, i));
        }
    }
}

/// A nullspace projector is refused with every algorithm but MINRES, and nothing else is
/// refused.
pub proof fn law_projector_goes_with_minres<C, M, G>(
    solver: BlockLinearSolver<C, M, G>,
    projected: bool,
)
    ensures
        block_solve::projector_failure(solver.kind(), projected) is None <==> !projected
            || solver is Minres,
{
}

/// A settled solve reports success only where the algorithm converged, and then exactly what
/// the algorithm reported, under its name; restart cycles are told of GMRES alone.
pub proof fn law_settled_solve_tells_its_report<T>(
    before: StateModel,
    algorithm: BlockLinearAlgorithm,
    outcome: Result<LinearSolve<T>, SolveError>,
    time: Scalar,
    report: BlockLinearReport<T>,
    after: StateModel,
)
    requires
        block_solve::solve_settled(
            before,
            algorithm,
            outcome,
            time,
            Ok::<BlockLinearReport<T>, KrasisError>(report),
            after,
        ),
    ensures
        outcome matches Ok(solve) && solve.report.converged && report.report == solve.report,
        report.algorithm == algorithm,
        report.restart_cycles is Some <==> algorithm is Gmres,
        algorithm is Gmres ==> report.restart_cycles == Some(outcome->Ok_0.restart_cycles),
{
}

/// A solve that did not converge is refused under its algorithm's name, with one iteration
/// for every entry of its trace behind the first, and changes nothing; so does one that
/// failed. A converged one is refused only where its solution is no state to commit.
pub proof fn law_refused_solve<T>(
    before: StateModel,
    algorithm: BlockLinearAlgorithm,
    outcome: Result<LinearSolve<T>, SolveError>,
    time: Scalar,
    failure: KrasisError,
    after: StateModel,
)
    requires
        block_solve::solve_settled(
            before,
            algorithm,
            outcome,
            time,
            Err::<BlockLinearReport<T>, KrasisError>(failure),
            after,
        ),
    ensures
        after == before,
        outcome matches Ok(solve) && !solve.report.converged && solve.report.trace@.len() > 0
            ==> (failure@ matches ErrorModel::SolveDidNotConverge { algorithm: name, iterations }
            && name == algorithm.label_text() && iterations + 1
            == outcome->Ok_0.report.trace@.len()),
        outcome matches Ok(solve) && solve.report.converged ==> (before.commit_vector(
            outcome->Ok_0.report.solution@,
            time,
        ) is Err),
{
}

} // verus!
