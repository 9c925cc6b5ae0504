//! What a strategy report tells: which runs it stands for, which states its agreements
//! compare and when it passes.
use crate::derivative::ComparisonTolerance;
use crate::evidence;
use crate::evidence::BindingModel;
use crate::numeric::{NewtonConfig, SolveError};
use crate::operator::BlockSpec;
use crate::refusal::{RefusalText, VerificationRefusal};
use crate::scalar::Scalar;
use crate::strategy;
use crate::strategy::{
    BlockStrategy, ComparisonReport, Solving, StrategyAgreement, StrategyContext, StrategyOutcome,
    StrategyRun, StrategyWorkReport, WorkBudgetReport, WorkCount,
};
use vstd::prelude::*;

verus! {

/// Whether a run of a strategy led to an outcome. The outcome is what the solve reported: its
/// state where it gave one, converged or not, its message where it failed. The work held
/// against the limits is the residuals and products that the run counted, and the iterations
/// behind the start.
pub open spec fn outcome_of_run<W, B: Fn(WorkCount, &W) -> WorkBudgetReport>(
    run: StrategyRun,
    limits: W,
    budget: B,
    outcome: StrategyOutcome,
) -> bool {
    &&& !run.counted@.overflowed
    &&& outcome is Refused <==> run.solved is Err
    &&& outcome is Converged <==> run.solved is Ok && run.solved->Ok_0.converged
    &&& outcome is NotConverged <==> run.solved is Ok && !run.solved->Ok_0.converged
    &&& outcome is Refused ==> outcome->message == run.solved->Err_0
    &&& outcome is Converged ==> outcome->Converged_state == run.solved->Ok_0.state
    &&& outcome is NotConverged ==> outcome->NotConverged_state == run.solved->Ok_0.state
    &&& exists|count: WorkCount, work: WorkBudgetReport|
        {
            &&& count.operator_evaluations as int == run.counted@.residuals
                + run.counted@.products
            &&& count.linear_iterations == 0
            &&& count.accepted_steps == 0
            &&& count.rejected_steps == 0
            &&& run.solved is Err ==> count.nonlinear_iterations == 0
            &&& run.solved is Ok && run.solved->Ok_0.trace_length > 0
                ==> count.nonlinear_iterations as int == run.solved->Ok_0.trace_length - 1
            &&& #[trigger] call_ensures(budget, (count, &limits), work)
            &&& outcome is Converged ==> outcome->Converged_work == work
            &&& outcome is NotConverged ==> outcome->NotConverged_work == work
            &&& outcome is Refused ==> outcome->Refused_work == work
        }
}

/// Whether a strategy, run from the initial state under the configuration, led to an outcome.
pub open spec fn ran_to<X, W, F, B>(
    evaluation: X,
    initial_state: Vec<Scalar>,
    strategy: BlockStrategy,
    config: NewtonConfig,
    limits: W,
    solve: F,
    budget: B,
    outcome: StrategyOutcome,
) -> bool where
    F: Fn(&X, &Vec<Scalar>, BlockStrategy, &NewtonConfig) -> StrategyRun,
    B: Fn(WorkCount, &W) -> WorkBudgetReport,
 {
    exists|run: StrategyRun|
        {
            &&& #[trigger] call_ensures(
                solve,
                (&evaluation, &initial_state, strategy, &config),
                run,
            )
            &&& outcome_of_run(run, limits, budget, outcome)
        }
}

proof fn lemma_ran<X, W, F, B>(
    at: Solving<'_, X, W>,
    strategy: BlockStrategy,
    solve: F,
    budget: B,
    outcome: StrategyOutcome,
) where
    F: Fn(&X, &Vec<Scalar>, BlockStrategy, &NewtonConfig) -> StrategyRun,
    B: Fn(WorkCount, &W) -> WorkBudgetReport,

    requires
        strategy::strategy_ran(at, strategy, solve, budget, Ok(outcome)),
    ensures
        ran_to(
            *at.evaluation,
            *at.initial_state,
            strategy,
            *at.config,
            *at.limits,
            solve,
            budget,
            outcome,
        ),
{
    let run = choose|run: StrategyRun|
        {
            &&& #[trigger] call_ensures(
                solve,
                (at.evaluation, at.initial_state, strategy, at.config),
                run,
            )
            &&& strategy::run_settled(run, *at.limits, budget, Ok(outcome))
        };
    let work = choose|work: WorkBudgetReport|
        {
            &&& #[trigger] call_ensures(budget, (strategy::work_of(run), at.limits), work)
            &&& outcome == strategy::outcome_of(run, work)
        };
    let count = strategy::work_of(run);
    assert(call_ensures(budget, (count, at.limits), work));
    assert(outcome_of_run(run, *at.limits, budget, outcome));
}

/// Whether an agreement compares the states to which two outcomes converged: the comparison
/// is what comparing the left state with the right state under the tolerance gave.
pub open spec fn compares<G>(
    agreement: StrategyAgreement,
    left: (BlockStrategy, StrategyOutcome),
    right: (BlockStrategy, StrategyOutcome),
    tolerance: ComparisonTolerance,
    agree: G,
) -> bool where
    G: Fn(&Vec<Scalar>, &Vec<Scalar>, ComparisonTolerance) -> Result<ComparisonReport, SolveError>,
 {
    &&& left.1 is Converged
    &&& right.1 is Converged
    &&& agreement.left == left.0
    &&& agreement.right == right.0
    &&& call_ensures(
        agree,
        (&left.1->Converged_state, &right.1->Converged_state, tolerance),
        Ok::<ComparisonReport, SolveError>(agreement.comparison),
    )
}

/// Whether agreements are those of the pairs (first and second, first and third, second and
/// third) of which both converged, in this order.
pub open spec fn compares_pairs<G>(
    outcomes: Seq<(BlockStrategy, StrategyOutcome)>,
    agreements: Seq<StrategyAgreement>,
    tolerance: ComparisonTolerance,
    agree: G,
) -> bool where
    G: Fn(&Vec<Scalar>, &Vec<Scalar>, ComparisonTolerance) -> Result<ComparisonReport, SolveError>,
 {
    let first = outcomes[0].1 is Converged;
    let second = outcomes[1].1 is Converged;
    let third = outcomes[2].1 is Converged;
    &&& first && second && third ==> {
        &&& agreements.len() == 3
        &&& compares(agreements[0], outcomes[0], outcomes[1], tolerance, agree)
        &&& compares(agreements[1], outcomes[0], outcomes[2], tolerance, agree)
        &&& compares(agreements[2], outcomes[1], outcomes[2], tolerance, agree)
    }
    &&& first && second && !third ==> agreements.len() == 1 && compares(
        agreements[0],
        outcomes[0],
        outcomes[1],
        tolerance,
        agree,
    )
    &&& first && !second && third ==> agreements.len() == 1 && compares(
        agreements[0],
        outcomes[0],
        outcomes[2],
        tolerance,
        agree,
    )
    &&& !first && second && third ==> agreements.len() == 1 && compares(
        agreements[0],
        outcomes[1],
        outcomes[2],
        tolerance,
        agree,
    )
    &&& !(first && second) && !(first && third) && !(second && third) ==> agreements.len() == 0
}

proof fn lemma_pair<G>(
    outcomes: Seq<(BlockStrategy, StrategyOutcome)>,
    tolerance: ComparisonTolerance,
    agree: G,
    left: int,
    right: int,
    before: Seq<StrategyAgreement>,
    after: Seq<StrategyAgreement>,
) where
    G: Fn(&Vec<Scalar>, &Vec<Scalar>, ComparisonTolerance) -> Result<ComparisonReport, SolveError>,

    requires
        strategy::pair_compared(
            outcomes,
            tolerance,
            agree,
            left,
            right,
            before,
            Ok::<Seq<StrategyAgreement>, RefusalText>(after),
        ),
    ensures
        !(outcomes[left].1 is Converged && outcomes[right].1 is Converged) ==> after == before,
        outcomes[left].1 is Converged && outcomes[right].1 is Converged ==> {
            &&& after.len() == before.len() + 1
            &&& after.drop_last() == before
            &&& compares(after.last(), outcomes[left], outcomes[right], tolerance, agree)
        },
{
    if outcomes[left].1 is Converged && outcomes[right].1 is Converged {
        assert(after.drop_last() =~= before);
    }
}

/// The parts that a strategy report is made of.
proof fn lemma_report<X, W, C, L, F, B, G, S>(
    blocks: Vec<BlockSpec>,
    operator_identity: Seq<char>,
    initial_state: Vec<Scalar>,
    config: NewtonConfig,
    tolerance: ComparisonTolerance,
    tolerance_valid: Result<(), SolveError>,
    calls: StrategyContext<X, W, C, L, F, B, G, S>,
    report: StrategyWorkReport,
) where
    C: Fn(&X, &Vec<Scalar>, &NewtonConfig, ComparisonTolerance, &W) -> Result<
        Vec<u8>,
        String,
    >,
    L: Fn(&Vec<BlockSpec>) -> Result<Vec<u8>, String>,
    F: Fn(&X, &Vec<Scalar>, BlockStrategy, &NewtonConfig) -> StrategyRun,
    B: Fn(WorkCount, &W) -> WorkBudgetReport,
    G: Fn(&Vec<Scalar>, &Vec<Scalar>, ComparisonTolerance) -> Result<ComparisonReport, SolveError>,
    S: Fn(&StrategyWorkReport) -> Result<Vec<u8>, String>,

    requires
        strategy::strategy_checked(
            blocks,
            operator_identity,
            initial_state,
            config,
            tolerance,
            tolerance_valid,
            calls,
            Ok::<StrategyWorkReport, VerificationRefusal>(report),
        ),
    ensures
        report.outcomes@.len() == 3,
        report.outcomes@[0].0 == BlockStrategy::Monolithic,
        report.outcomes@[1].0 == BlockStrategy::GaussSeidel,
        report.outcomes@[2].0 == BlockStrategy::Jacobi,
        forall|i: int|
            0 <= i < 3 ==> ran_to(
                calls.evaluation,
                initial_state,
                (#[trigger] report.outcomes@[i]).0,
                config,
                calls.limits,
                calls.solve,
                calls.budget,
                report.outcomes@[i].1,
            ),
        compares_pairs(report.outcomes@, report.agreements@, tolerance, calls.agree),
        report.passed <==> {
            &&& forall|i: int|
                0 <= i < 3 ==> (#[trigger] report.outcomes@[i]).1 is Converged
                    && report.outcomes@[i].1->Converged_work.accepted
            &&& report.agreements@.len() == 3
            &&& forall|i: int|
                0 <= i < 3 ==> (#[trigger] report.agreements@[i]).comparison.accepted
        },
{
    let result = Ok::<StrategyWorkReport, VerificationRefusal>(report);
    let at = Solving {
        evaluation: &calls.evaluation,
        initial_state: &initial_state,
        config: &config,
        limits: &calls.limits,
    };
    let (layout, described) = choose|
        layout: Result<Vec<u8>, String>,
        described: Result<Vec<u8>, String>,
    |
        {
            &&& #[trigger] call_ensures(calls.layout, (&blocks,), layout)
            &&& #[trigger] call_ensures(
                calls.describe,
                (&calls.evaluation, &initial_state, &config, tolerance, &calls.limits),
                described,
            )
            &&& evidence::block_bound(operator_identity, layout, described) is Ok
            &&& strategy::strategies_ran(
                at,
                tolerance,
                evidence::block_bound(operator_identity, layout, described)->Ok_0,
                calls,
                result,
            )
        };
    let binding = evidence::block_bound(operator_identity, layout, described)->Ok_0;
    let (first, second, third) = choose|
        first: StrategyOutcome,
        second: StrategyOutcome,
        third: StrategyOutcome,
    |
        {
            &&& #[trigger] strategy::strategy_ran(
                at,
                BlockStrategy::Monolithic,
                calls.solve,
                calls.budget,
                Ok(first),
            )
            &&& #[trigger] strategy::strategy_ran(
                at,
                BlockStrategy::GaussSeidel,
                calls.solve,
                calls.budget,
                Ok(second),
            )
            &&& #[trigger] strategy::strategy_ran(
                at,
                BlockStrategy::Jacobi,
                calls.solve,
                calls.budget,
                Ok(third),
            )
            &&& strategy::strategies_compared(
                binding,
                seq![
                    (BlockStrategy::Monolithic, first),
                    (BlockStrategy::GaussSeidel, second),
                    (BlockStrategy::Jacobi, third),
                ],
                tolerance,
                calls.agree,
                calls.seal,
                strategy::all_pairs(),
                Seq::empty(),
                result,
            )
        };
    lemma_ran(at, BlockStrategy::Monolithic, calls.solve, calls.budget, first);
    lemma_ran(at, BlockStrategy::GaussSeidel, calls.solve, calls.budget, second);
    lemma_ran(at, BlockStrategy::Jacobi, calls.solve, calls.budget, third);
    let outcomes = seq![
        (BlockStrategy::Monolithic, first),
        (BlockStrategy::GaussSeidel, second),
        (BlockStrategy::Jacobi, third),
    ];
    let pairs = strategy::all_pairs();
    let rest = pairs.drop_first();
    let last = rest.drop_first();
    assert(pairs[0] == (0int, 1int));
    assert(rest[0] == (0int, 2int));
    assert(last[0] == (1int, 2int));
    assert(last.drop_first().len() == 0);
    let none = Seq::<StrategyAgreement>::empty();
    let one = lemma_next(binding, outcomes, tolerance, calls.agree, calls.seal, pairs, none, report);
    let two = lemma_next(binding, outcomes, tolerance, calls.agree, calls.seal, rest, one, report);
    let three = lemma_next(
        binding,
        outcomes,
        tolerance,
        calls.agree,
        calls.seal,
        last,
        two,
        report,
    );
    lemma_pair(outcomes, tolerance, calls.agree, 0, 1, none, one);
    lemma_pair(outcomes, tolerance, calls.agree, 0, 2, one, two);
    lemma_pair(outcomes, tolerance, calls.agree, 1, 2, two, three);
    assert(report.outcomes@ == outcomes);
    assert(report.agreements@ == three);
    let f = first is Converged;
    let s = second is Converged;
    let t = third is Converged;
    if f && s {
        assert(one[0] == one.last());
        assert(two[0] == one[0]) by {
            if f && t {
                assert(two.drop_last()[0] == two[0]);
            }
        }
        assert(three[0] == two[0]) by {
            if s && t {
                assert(three.drop_last()[0] == three[0]);
            }
        }
    }
    if f && t {
        let k = two.len() - 1;
        assert(two[k] == two.last());
        assert(three[k] == two[k]) by {
            if s && t {
                assert(three.drop_last()[k] == three[k]);
            }
        }
    }
    if s && t {
        assert(three[three.len() - 1] == three.last());
    }
    assert(compares_pairs(outcomes, three, tolerance, calls.agree));
    let content = strategy::strategy_content(binding, outcomes, three);
    assert(report.passed == content.passed);
    if content.passed {
        assert forall|i: int| 0 <= i < 3 implies (#[trigger] report.outcomes@[i]).1 is Converged
            && report.outcomes@[i].1->Converged_work.accepted by {
            assert(strategy::outcome_passes(outcomes[i].1));
        }
    }
    if (forall|i: int|
        0 <= i < 3 ==> (#[trigger] report.outcomes@[i]).1 is Converged
            && report.outcomes@[i].1->Converged_work.accepted) {
        assert forall|i: int| 0 <= i < outcomes.len() implies strategy::outcome_passes(
            (#[trigger] outcomes[i]).1,
        ) by {
            assert(report.outcomes@[i].1 is Converged);
        }
    }
}

proof fn lemma_next<G, S>(
    binding: BindingModel,
    outcomes: Seq<(BlockStrategy, StrategyOutcome)>,
    tolerance: ComparisonTolerance,
    agree: G,
    seal: S,
    pairs: Seq<(int, int)>,
    before: Seq<StrategyAgreement>,
    report: StrategyWorkReport,
) -> (after: Seq<StrategyAgreement>) where
    G: Fn(&Vec<Scalar>, &Vec<Scalar>, ComparisonTolerance) -> Result<ComparisonReport, SolveError>,
    S: Fn(&StrategyWorkReport) -> Result<Vec<u8>, String>,

    requires
        pairs.len() > 0,
        strategy::strategies_compared(
            binding,
            outcomes,
            tolerance,
            agree,
            seal,
            pairs,
            before,
            Ok::<StrategyWorkReport, VerificationRefusal>(report),
        ),
    ensures
        strategy::pair_compared(
            outcomes,
            tolerance,
            agree,
            pairs[0].0,
            pairs[0].1,
            before,
            Ok::<Seq<StrategyAgreement>, RefusalText>(after),
        ),
        strategy::strategies_compared(
            binding,
            outcomes,
            tolerance,
            agree,
            seal,
            pairs.drop_first(),
            after,
            Ok::<StrategyWorkReport, VerificationRefusal>(report),
        ),
{
    let compared = choose|compared: Result<Seq<StrategyAgreement>, RefusalText>|
        {
            &&& #[trigger] strategy::pair_compared(
                outcomes,
                tolerance,
                agree,
                pairs[0].0,
                pairs[0].1,
                before,
                compared,
            )
            &&& compared is Ok
            &&& strategy::strategies_compared(
                binding,
                outcomes,
                tolerance,
                agree,
                seal,
                pairs.drop_first(),
                compared->Ok_0,
                Ok::<StrategyWorkReport, VerificationRefusal>(report),
            )
        };
    compared->Ok_0
}

/// The outcomes of a strategy report are those of the three strategies, each run from the
/// initial state under the configuration and held against the work limits.
pub proof fn law_outcomes_are_those_of_the_runs<X, W, C, L, F, B, G, S>(
    blocks: Vec<BlockSpec>,
    operator_identity: Seq<char>,
    initial_state: Vec<Scalar>,
    config: NewtonConfig,
    tolerance: ComparisonTolerance,
    tolerance_valid: Result<(), SolveError>,
    calls: StrategyContext<X, W, C, L, F, B, G, S>,
    report: StrategyWorkReport,
    i: int,
) where
    C: Fn(&X, &Vec<Scalar>, &NewtonConfig, ComparisonTolerance, &W) -> Result<
        Vec<u8>,
        String,
    >,
    L: Fn(&Vec<BlockSpec>) -> Result<Vec<u8>, String>,
    F: Fn(&X, &Vec<Scalar>, BlockStrategy, &NewtonConfig) -> StrategyRun,
    B: Fn(WorkCount, &W) -> WorkBudgetReport,
    G: Fn(&Vec<Scalar>, &Vec<Scalar>, ComparisonTolerance) -> Result<ComparisonReport, SolveError>,
    S: Fn(&StrategyWorkReport) -> Result<Vec<u8>, String>,

    requires
        strategy::strategy_checked(
            blocks,
            operator_identity,
            initial_state,
            config,
            tolerance,
            tolerance_valid,
            calls,
            Ok::<StrategyWorkReport, VerificationRefusal>(report),
        ),
        0 <= i < report.outcomes@.len(),
    ensures
        report.outcomes@.len() == 3,
        report.outcomes@[0].0 == BlockStrategy::Monolithic,
        report.outcomes@[1].0 == BlockStrategy::GaussSeidel,
        report.outcomes@[2].0 == BlockStrategy::Jacobi,
        ran_to(
            calls.evaluation,
            initial_state,
            report.outcomes@[i].0,
            config,
            calls.limits,
            calls.solve,
            calls.budget,
            report.outcomes@[i].1,
        ),
{
    lemma_report(
        blocks,
        operator_identity,
        initial_state,
        config,
        tolerance,
        tolerance_valid,
        calls,
        report,
    );
}

/// Every agreement of a strategy report compares the states to which its own two strategies
/// converged, and every two strategies that converged have their agreement.
pub proof fn law_agreements_compare_the_converged_states<X, W, C, L, F, B, G, S>(
    blocks: Vec<BlockSpec>,
    operator_identity: Seq<char>,
    initial_state: Vec<Scalar>,
    config: NewtonConfig,
    tolerance: ComparisonTolerance,
    tolerance_valid: Result<(), SolveError>,
    calls: StrategyContext<X, W, C, L, F, B, G, S>,
    report: StrategyWorkReport,
) where
    C: Fn(&X, &Vec<Scalar>, &NewtonConfig, ComparisonTolerance, &W) -> Result<
        Vec<u8>,
        String,
    >,
    L: Fn(&Vec<BlockSpec>) -> Result<Vec<u8>, String>,
    F: Fn(&X, &Vec<Scalar>, BlockStrategy, &NewtonConfig) -> StrategyRun,
    B: Fn(WorkCount, &W) -> WorkBudgetReport,
    G: Fn(&Vec<Scalar>, &Vec<Scalar>, ComparisonTolerance) -> Result<ComparisonReport, SolveError>,
    S: Fn(&StrategyWorkReport) -> Result<Vec<u8>, String>,

    requires
        strategy::strategy_checked(
            blocks,
            operator_identity,
            initial_state,
            config,
            tolerance,
            tolerance_valid,
            calls,
            Ok::<StrategyWorkReport, VerificationRefusal>(report),
        ),
    ensures
        compares_pairs(report.outcomes@, report.agreements@, tolerance, calls.agree),
        forall|a: int|
            0 <= a < report.agreements@.len() ==> exists|i: int, j: int|
                0 <= i < j < report.outcomes@.len() && #[trigger] compares(
                    #[trigger] report.agreements@[a],
                    report.outcomes@[i],
                    report.outcomes@[j],
                    tolerance,
                    calls.agree,
                ),
{
    lemma_report(
        blocks,
        operator_identity,
        initial_state,
        config,
        tolerance,
        tolerance_valid,
        calls,
        report,
    );
    let outcomes = report.outcomes@;
    assert forall|a: int| 0 <= a < report.agreements@.len() implies exists|i: int, j: int|
        0 <= i < j < report.outcomes@.len() && #[trigger] compares(
            #[trigger] report.agreements@[a],
            report.outcomes@[i],
            report.outcomes@[j],
            tolerance,
            calls.agree,
        ) by {
        let agreement = report.agreements@[a];
        let f = compares(agreement, outcomes[0], outcomes[1], tolerance, calls.agree);
        let s = compares(agreement, outcomes[0], outcomes[2], tolerance, calls.agree);
        let t = compares(agreement, outcomes[1], outcomes[2], tolerance, calls.agree);
        assert(f || s || t);
    }
}

/// A strategy report passes exactly where all three strategies converged within their limits
/// and every comparison of two of them was accepted.
pub proof fn law_strategies_pass_together<X, W, C, L, F, B, G, S>(
    blocks: Vec<BlockSpec>,
    operator_identity: Seq<char>,
    initial_state: Vec<Scalar>,
    config: NewtonConfig,
    tolerance: ComparisonTolerance,
    tolerance_valid: Result<(), SolveError>,
    calls: StrategyContext<X, W, C, L, F, B, G, S>,
    report: StrategyWorkReport,
) where
    C: Fn(&X, &Vec<Scalar>, &NewtonConfig, ComparisonTolerance, &W) -> Result<
        Vec<u8>,
        String,
    >,
    L: Fn(&Vec<BlockSpec>) -> Result<Vec<u8>, String>,
    F: Fn(&X, &Vec<Scalar>, BlockStrategy, &NewtonConfig) -> StrategyRun,
    B: Fn(WorkCount, &W) -> WorkBudgetReport,
    G: Fn(&Vec<Scalar>, &Vec<Scalar>, ComparisonTolerance) -> Result<ComparisonReport, SolveError>,
    S: Fn(&StrategyWorkReport) -> Result<Vec<u8>, String>,

    requires
        strategy::strategy_checked(
            blocks,
            operator_identity,
            initial_state,
            config,
            tolerance,
            tolerance_valid,
            calls,
            Ok::<StrategyWorkReport, VerificationRefusal>(report),
        ),
    ensures
        report.passed <==> {
            &&& report.outcomes@.len() == 3
            &&& forall|i: int|
                0 <= i < report.outcomes@.len() ==> (#[trigger] report.outcomes@[i]).1 is Converged
                    && report.outcomes@[i].1->Converged_work.accepted
            &&& report.agreements@.len() == 3
            &&& forall|i: int|
                0 <= i < report.agreements@.len() ==> (
                #[trigger] report.agreements@[i]).comparison.accepted
        },
{
    lemma_report(
        blocks,
        operator_identity,
        initial_state,
        config,
        tolerance,
        tolerance_valid,
        calls,
        report,
    );
}

/// Where an accepted comparison means that two states are close, a passed report has no two
/// strategies whose states are not.
pub proof fn law_passed_strategies_are_close<X, W, C, L, F, B, G, S>(
    blocks: Vec<BlockSpec>,
    operator_identity: Seq<char>,
    initial_state: Vec<Scalar>,
    config: NewtonConfig,
    tolerance: ComparisonTolerance,
    tolerance_valid: Result<(), SolveError>,
    calls: StrategyContext<X, W, C, L, F, B, G, S>,
    report: StrategyWorkReport,
    close: spec_fn(Seq<Scalar>, Seq<Scalar>) -> bool,
    i: int,
    j: int,
) where
    C: Fn(&X, &Vec<Scalar>, &NewtonConfig, ComparisonTolerance, &W) -> Result<
        Vec<u8>,
        String,
    >,
    L: Fn(&Vec<BlockSpec>) -> Result<Vec<u8>, String>,
    F: Fn(&X, &Vec<Scalar>, BlockStrategy, &NewtonConfig) -> StrategyRun,
    B: Fn(WorkCount, &W) -> WorkBudgetReport,
    G: Fn(&Vec<Scalar>, &Vec<Scalar>, ComparisonTolerance) -> Result<ComparisonReport, SolveError>,
    S: Fn(&StrategyWorkReport) -> Result<Vec<u8>, String>,

    requires
        strategy::strategy_checked(
            blocks,
            operator_identity,
            initial_state,
            config,
            tolerance,
            tolerance_valid,
            calls,
            Ok::<StrategyWorkReport, VerificationRefusal>(report),
        ),
        forall|left: Vec<Scalar>, right: Vec<Scalar>, comparison: ComparisonReport|
            #[trigger] call_ensures(
                calls.agree,
                (&left, &right, tolerance),
                Ok::<ComparisonReport, SolveError>(comparison),
            ) && comparison.accepted ==> close(left@, right@),
        report.passed,
        0 <= i < j < report.outcomes@.len(),
    ensures
        report.outcomes@[i].1 is Converged,
        report.outcomes@[j].1 is Converged,
        close(
            report.outcomes@[i].1->Converged_state@,
            report.outcomes@[j].1->Converged_state@,
        ),
{
    lemma_report(
        blocks,
        operator_identity,
        initial_state,
        config,
        tolerance,
        tolerance_valid,
        calls,
        report,
    );
    let outcomes = report.outcomes@;
    assert(outcomes[0].1 is Converged);
    assert(outcomes[1].1 is Converged);
    assert(outcomes[2].1 is Converged);
    assert(report.agreements@[0].comparison.accepted);
    assert(report.agreements@[1].comparison.accepted);
    assert(report.agreements@[2].comparison.accepted);
}

} // verus!
