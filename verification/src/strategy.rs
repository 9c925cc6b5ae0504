//! The check that block solve strategies agree within a counted work budget.
use crate::derivative::ComparisonTolerance;
use crate::digest;
use crate::digest::digest_bytes;
use crate::evidence;
use crate::evidence::{block_binding, same_binding, BindingModel, VerificationBinding};
use crate::numeric;
use crate::numeric::{equal_values, NewtonConfig, SolveError};
use crate::operator::BlockSpec;
use crate::refusal;
use crate::refusal::{
    numeric_refusal, serialization_refusal, validate_float_slice, validate_identity_float,
    validate_newton_identity, RefusalText, VerificationRefusal,
};
use crate::scalar::Scalar;
use crate::text::same_text;
use crate::verification;
use crate::verification::{require_report, ValidatedKrasisVerification};
use vstd::prelude::*;

verus! {

/// How a block solver takes the blocks.
#[derive(Clone, Copy, Debug, PartialEq, Eq, Structural)]
pub enum BlockStrategy {
    Monolithic,
    GaussSeidel,
    Jacobi,
}

/// Counted work.
#[derive(Clone, Copy, Debug, PartialEq, Eq, Structural)]
pub struct WorkCount {
    pub operator_evaluations: u64,
    pub linear_iterations: u64,
    pub nonlinear_iterations: u64,
    pub accepted_steps: u64,
    pub rejected_steps: u64,
}

/// Counted work held against a budget.
#[derive(Clone, Copy, Debug, PartialEq, Eq, Structural)]
pub struct WorkBudgetReport {
    pub count: WorkCount,
    pub accepted: bool,
}

/// What a block solve reported: its last state, whether it converged and the length of
/// its iteration trace, which holds the start too.
#[derive(Clone, Debug, PartialEq, Eq)]
pub struct BlockSolveReport {
    pub state: Vec<Scalar>,
    pub converged: bool,
    pub trace_length: usize,
}

/// Counts the evaluations of an operator. A counter that cannot grow any more keeps its
/// value and marks the counts as unusable.
#[derive(Clone, Debug, PartialEq, Eq)]
pub struct CountedOperator {
    residuals: u64,
    products: u64,
    overflowed: bool,
}

#[verifier::ext_equal]
pub struct CountedModel {
    pub residuals: nat,
    pub products: nat,
    pub overflowed: bool,
}

impl View for CountedOperator {
    type V = CountedModel;

    closed spec fn view(&self) -> CountedModel {
        CountedModel {
            residuals: self.residuals as nat,
            products: self.products as nat,
            overflowed: self.overflowed,
        }
    }
}

/// A counter after one more evaluation, and whether it overflowed.
pub open spec fn incremented(count: nat) -> (nat, bool) {
    if count < u64::MAX {
        (count + 1, false)
    } else {
        (count, true)
    }
}

pub open spec fn work_overflow(message: Seq<char>) -> RefusalText {
    RefusalText { code: "KRASIS_VERIFY_WORK_OVERFLOW"@, message }
}

impl CountedOperator {
    pub fn new() -> (result: CountedOperator)
        ensures
            result@ == (CountedModel { residuals: 0, products: 0, overflowed: false }),
    {
        CountedOperator { residuals: 0, products: 0, overflowed: false }
    }

    /// Counts one residual evaluation.
    pub fn count_residual(&mut self)
        ensures
            final(self)@ == (CountedModel {
                residuals: incremented(old(self)@.residuals).0,
                overflowed: old(self)@.overflowed || incremented(old(self)@.residuals).1,
                ..old(self)@
            }),
    {
        match self.residuals.checked_add(1) {
            Some(count) => {
                self.residuals = count;
            },
            None => {
                self.overflowed = true;
            },
        }
    }

    /// Counts one Jacobian-vector product.
    pub fn count_product(&mut self)
        ensures
            final(self)@ == (CountedModel {
                products: incremented(old(self)@.products).0,
                overflowed: old(self)@.overflowed || incremented(old(self)@.products).1,
                ..old(self)@
            }),
    {
        match self.products.checked_add(1) {
            Some(count) => {
                self.products = count;
            },
            None => {
                self.overflowed = true;
            },
        }
    }

    /// The counted residuals and products, where neither overflowed.
    pub fn counts(&self) -> (result: Result<(u64, u64), VerificationRefusal>)
        ensures
            if self@.overflowed {
                refusal::reports(
                    work_overflow("operator evaluation counter exceeds u64"@),
                    result,
                )
            } else {
                result matches Ok(counts) && counts.0 == self@.residuals && counts.1
                    == self@.products
            },
    {
        if self.overflowed {
            return Err(
                refusal::refusal(
                    "KRASIS_VERIFY_WORK_OVERFLOW",
                    "operator evaluation counter exceeds u64",
                ),
            );
        }
        Ok((self.residuals, self.products))
    }
}

/// All evaluations together.
pub fn checked_operator_evaluations(counts: (u64, u64)) -> (result: Result<
    u64,
    VerificationRefusal,
>)
    ensures
        if counts.0 + counts.1 > u64::MAX {
            refusal::reports(work_overflow("operator evaluation count exceeds u64"@), result)
        } else {
            result matches Ok(total) && total == counts.0 + counts.1
        },
{
    match counts.0.checked_add(counts.1) {
        Some(total) => Ok(total),
        None => Err(
            refusal::refusal(
                "KRASIS_VERIFY_WORK_OVERFLOW",
                "operator evaluation count exceeds u64",
            ),
        ),
    }
}

/// One counted solve: what it reported, or the text of its failure, and its counts.
#[derive(Debug, PartialEq, Eq)]
pub struct StrategyRun {
    pub solved: Result<BlockSolveReport, String>,
    pub counted: CountedOperator,
}

/// What a strategy led to.
#[allow(inconsistent_fields)]
#[derive(Clone, Debug, PartialEq, Eq)]
pub enum StrategyOutcome {
    Converged { state: Vec<Scalar>, work: WorkBudgetReport },
    NotConverged { state: Vec<Scalar>, work: WorkBudgetReport },
    Refused { message: String, work: WorkBudgetReport },
}

/// A comparison of two states. `encoding` is the comparison as the numerical layer
/// serialises it.
#[derive(Clone, Debug, PartialEq, Eq)]
pub struct ComparisonReport {
    pub accepted: bool,
    pub encoding: String,
}

/// The comparison of two converged strategies.
#[derive(Clone, Debug, PartialEq, Eq)]
pub struct StrategyAgreement {
    pub left: BlockStrategy,
    pub right: BlockStrategy,
    pub comparison: ComparisonReport,
}

/// The report of a strategy check.
#[derive(Clone, Debug, PartialEq, Eq)]
pub struct StrategyWorkReport {
    pub report_digest: String,
    pub binding: VerificationBinding,
    pub outcomes: Vec<(BlockStrategy, StrategyOutcome)>,
    pub agreements: Vec<StrategyAgreement>,
    pub passed: bool,
}

#[verifier::ext_equal]
pub struct StrategyModel {
    pub report_digest: Seq<char>,
    pub binding: BindingModel,
    pub outcomes: Seq<(BlockStrategy, StrategyOutcome)>,
    pub agreements: Seq<StrategyAgreement>,
    pub passed: bool,
}

impl View for StrategyWorkReport {
    type V = StrategyModel;

    open spec fn view(&self) -> StrategyModel {
        StrategyModel {
            report_digest: self.report_digest@,
            binding: self.binding@,
            outcomes: self.outcomes@,
            agreements: self.agreements@,
            passed: self.passed,
        }
    }
}

/// What a run of a strategy check is made under: the evaluation context, the state it starts
/// from, the configuration and the work limits.
pub struct Solving<'a, X, W> {
    pub evaluation: &'a X,
    pub initial_state: &'a Vec<Scalar>,
    pub config: &'a NewtonConfig,
    pub limits: &'a W,
}

/// What a strategy check takes from outside: the evaluation context and the work limits;
/// `describe` serialises them with the initial state, the configuration and the tolerance;
/// `layout` serialises the block layout; `solve` runs a strategy over a counted operator;
/// `budget` holds a count against the work limits; `agree` compares two states under the
/// tolerance; `seal` serialises the report.
pub struct StrategyContext<X, W, C, L, F, B, G, S> where
    C: Fn(&X, &Vec<Scalar>, &NewtonConfig, ComparisonTolerance, &W) -> Result<
        Vec<u8>,
        String,
    >,
    L: Fn(&Vec<BlockSpec>) -> Result<Vec<u8>, String>,
    F: Fn(&X, &Vec<Scalar>, BlockStrategy, &NewtonConfig) -> StrategyRun,
    B: Fn(WorkCount, &W) -> WorkBudgetReport,
    G: Fn(&Vec<Scalar>, &Vec<Scalar>, ComparisonTolerance) -> Result<ComparisonReport, SolveError>,
    S: Fn(&StrategyWorkReport) -> Result<Vec<u8>, String>,
 {
    pub evaluation: X,
    pub limits: W,
    pub describe: C,
    pub layout: L,
    pub solve: F,
    pub budget: B,
    pub agree: G,
    pub seal: S,
}

impl<X, W, C, L, F, B, G, S> StrategyContext<X, W, C, L, F, B, G, S> where
    C: Fn(&X, &Vec<Scalar>, &NewtonConfig, ComparisonTolerance, &W) -> Result<
        Vec<u8>,
        String,
    >,
    L: Fn(&Vec<BlockSpec>) -> Result<Vec<u8>, String>,
    F: Fn(&X, &Vec<Scalar>, BlockStrategy, &NewtonConfig) -> StrategyRun,
    B: Fn(WorkCount, &W) -> WorkBudgetReport,
    G: Fn(&Vec<Scalar>, &Vec<Scalar>, ComparisonTolerance) -> Result<ComparisonReport, SolveError>,
    S: Fn(&StrategyWorkReport) -> Result<Vec<u8>, String>,
 {
    pub open spec fn callable(self) -> bool {
        &&& forall|
            state: &Vec<Scalar>,
            config: &NewtonConfig,
            tolerance: ComparisonTolerance,
        |
            call_requires(
                self.describe,
                (&self.evaluation, state, config, tolerance, &self.limits),
            )
        &&& forall|blocks: &Vec<BlockSpec>| call_requires(self.layout, (blocks,))
        &&& forall|state: &Vec<Scalar>, strategy: BlockStrategy, config: &NewtonConfig|
            call_requires(self.solve, (&self.evaluation, state, strategy, config))
        &&& forall|count: WorkCount| call_requires(self.budget, (count, &self.limits))
        &&& forall|left: &Vec<Scalar>, right: &Vec<Scalar>, tolerance: ComparisonTolerance|
            call_requires(self.agree, (left, right, tolerance))
        &&& forall|report: &StrategyWorkReport| call_requires(self.seal, (report,))
    }
}

/// The work that a run counts as: the iterations are those after the start.
pub open spec fn work_of(run: StrategyRun) -> WorkCount {
    WorkCount {
        operator_evaluations: (run.counted@.residuals + run.counted@.products) as u64,
        linear_iterations: 0,
        nonlinear_iterations: match run.solved {
            Ok(report) => if report.trace_length == 0 {
                0
            } else {
                (report.trace_length - 1) as u64
            },
            Err(_) => 0,
        },
        accepted_steps: 0,
        rejected_steps: 0,
    }
}

/// What a run comes to, with its work held against the budget.
pub open spec fn outcome_of(run: StrategyRun, work: WorkBudgetReport) -> StrategyOutcome {
    match run.solved {
        Err(message) => StrategyOutcome::Refused { message, work },
        Ok(report) => if report.converged {
            StrategyOutcome::Converged { state: report.state, work }
        } else {
            StrategyOutcome::NotConverged { state: report.state, work }
        },
    }
}

/// What settling a run gives.
pub open spec fn run_settled<W, B: Fn(WorkCount, &W) -> WorkBudgetReport>(
    run: StrategyRun,
    limits: W,
    budget: B,
    result: Result<StrategyOutcome, VerificationRefusal>,
) -> bool {
    if run.counted@.overflowed {
        refusal::reports(work_overflow("operator evaluation counter exceeds u64"@), result)
    } else if run.counted@.residuals + run.counted@.products > u64::MAX {
        refusal::reports(work_overflow("operator evaluation count exceeds u64"@), result)
    } else {
        exists|work: WorkBudgetReport|
            {
                &&& #[trigger] call_ensures(budget, (work_of(run), &limits), work)
                &&& result == Ok::<StrategyOutcome, VerificationRefusal>(outcome_of(run, work))
            }
    }
}

/// Settles a run: its counts become work, its report an outcome.
pub fn settle_run<W, B: Fn(WorkCount, &W) -> WorkBudgetReport>(
    run: StrategyRun,
    limits: &W,
    budget: &B,
) -> (result: Result<StrategyOutcome, VerificationRefusal>)
    requires
        forall|count: WorkCount| call_requires(*budget, (count, limits)),
    ensures
        run_settled(run, *limits, *budget, result),
{
    let ghost given = run;
    let counts = match run.counted.counts() {
        Ok(counts) => counts,
        Err(error) => {
            return Err(error);
        },
    };
    let operator_evaluations = match checked_operator_evaluations(counts) {
        Ok(total) => total,
        Err(error) => {
            return Err(error);
        },
    };
    let nonlinear_iterations: u64 = match &run.solved {
        Ok(report) => if report.trace_length == 0 {
            0
        } else {
            (report.trace_length - 1) as u64
        },
        Err(_) => 0,
    };
    let count = WorkCount {
        operator_evaluations,
        linear_iterations: 0,
        nonlinear_iterations,
        accepted_steps: 0,
        rejected_steps: 0,
    };
    assert(count == work_of(given));
    let work = budget(count, limits);
    assert(call_ensures(*budget, (work_of(given), limits), work));
    match run.solved {
        Ok(report) => if report.converged {
            Ok(StrategyOutcome::Converged { state: report.state, work })
        } else {
            Ok(StrategyOutcome::NotConverged { state: report.state, work })
        },
        Err(message) => Ok(StrategyOutcome::Refused { message, work }),
    }
}

/// What running a strategy gives.
pub open spec fn strategy_ran<X, W, F, B>(
    at: Solving<'_, X, W>,
    strategy: BlockStrategy,
    solve: F,
    budget: B,
    result: Result<StrategyOutcome, VerificationRefusal>,
) -> bool where
    F: Fn(&X, &Vec<Scalar>, BlockStrategy, &NewtonConfig) -> StrategyRun,
    B: Fn(WorkCount, &W) -> WorkBudgetReport,
 {
    exists|run: StrategyRun|
        {
            &&& #[trigger] call_ensures(
                solve,
                (at.evaluation, at.initial_state, strategy, at.config),
                run,
            )
            &&& run_settled(run, *at.limits, budget, result)
        }
}

fn run_strategy<X, W, F, B>(
    at: &Solving<'_, X, W>,
    strategy: BlockStrategy,
    solve: &F,
    budget: &B,
) -> (result: Result<StrategyOutcome, VerificationRefusal>) where
    F: Fn(&X, &Vec<Scalar>, BlockStrategy, &NewtonConfig) -> StrategyRun,
    B: Fn(WorkCount, &W) -> WorkBudgetReport,

    requires
        call_requires(*solve, (at.evaluation, at.initial_state, strategy, at.config)),
        forall|count: WorkCount| call_requires(*budget, (count, at.limits)),
    ensures
        strategy_ran(*at, strategy, *solve, *budget, result),
{
    let run = solve(at.evaluation, at.initial_state, strategy, at.config);
    let ghost given = run;
    assert(call_ensures(
        *solve,
        (at.evaluation, at.initial_state, strategy, at.config),
        given,
    ));
    settle_run(run, at.limits, budget)
}

/// What comparing two outcomes adds to the agreements: nothing unless both converged.
pub open spec fn pair_compared<G>(
    outcomes: Seq<(BlockStrategy, StrategyOutcome)>,
    tolerance: ComparisonTolerance,
    agree: G,
    left: int,
    right: int,
    before: Seq<StrategyAgreement>,
    result: Result<Seq<StrategyAgreement>, RefusalText>,
) -> bool where
    G: Fn(&Vec<Scalar>, &Vec<Scalar>, ComparisonTolerance) -> Result<ComparisonReport, SolveError>,
 {
    match (outcomes[left].1, outcomes[right].1) {
        (
            StrategyOutcome::Converged { state: left_state, work: _ },
            StrategyOutcome::Converged { state: right_state, work: _ },
        ) => exists|compared: Result<ComparisonReport, SolveError>|
            {
                &&& #[trigger] call_ensures(
                    agree,
                    (&left_state, &right_state, tolerance),
                    compared,
                )
                &&& match compared {
                    Ok(comparison) => result == Ok::<Seq<StrategyAgreement>, RefusalText>(
                        before.push(
                            StrategyAgreement {
                                left: outcomes[left].0,
                                right: outcomes[right].0,
                                comparison,
                            },
                        ),
                    ),
                    Err(error) => result == Err::<Seq<StrategyAgreement>, RefusalText>(
                        refusal::numeric_refused(error@),
                    ),
                }
            },
        _ => result == Ok::<Seq<StrategyAgreement>, RefusalText>(before),
    }
}

pub open spec fn agreements_model(
    result: Result<Vec<StrategyAgreement>, VerificationRefusal>,
) -> Result<Seq<StrategyAgreement>, RefusalText> {
    match result {
        Ok(agreements) => Ok(agreements@),
        Err(refused) => Err(refused@),
    }
}

fn compare_pair<G>(
    outcomes: &Vec<(BlockStrategy, StrategyOutcome)>,
    tolerance: ComparisonTolerance,
    agree: &G,
    left: usize,
    right: usize,
    agreements: Vec<StrategyAgreement>,
) -> (result: Result<Vec<StrategyAgreement>, VerificationRefusal>) where
    G: Fn(&Vec<Scalar>, &Vec<Scalar>, ComparisonTolerance) -> Result<ComparisonReport, SolveError>,

    requires
        left < outcomes@.len(),
        right < outcomes@.len(),
        forall|left: &Vec<Scalar>, right: &Vec<Scalar>|
            call_requires(*agree, (left, right, tolerance)),
    ensures
        pair_compared(
            outcomes@,
            tolerance,
            *agree,
            left as int,
            right as int,
            agreements@,
            agreements_model(result),
        ),
{
    let mut agreements = agreements;
    match (&outcomes[left].1, &outcomes[right].1) {
        (
            StrategyOutcome::Converged { state: left_state, work: _ },
            StrategyOutcome::Converged { state: right_state, work: _ },
        ) => {
            let compared = agree(left_state, right_state, tolerance);
            assert(call_ensures(*agree, (left_state, right_state, tolerance), compared));
            match compared {
                Ok(comparison) => {
                    agreements.push(
                        StrategyAgreement {
                            left: outcomes[left].0,
                            right: outcomes[right].0,
                            comparison,
                        },
                    );
                    Ok(agreements)
                },
                Err(error) => Err(numeric_refusal(error)),
            }
        },
        _ => Ok(agreements),
    }
}

/// Whether an outcome converged within its budget.
pub open spec fn outcome_passes(outcome: StrategyOutcome) -> bool {
    outcome matches StrategyOutcome::Converged { work, .. } && work.accepted
}

/// What a strategy report says, before it is sealed.
pub open spec fn strategy_content(
    binding: BindingModel,
    outcomes: Seq<(BlockStrategy, StrategyOutcome)>,
    agreements: Seq<StrategyAgreement>,
) -> StrategyModel {
    StrategyModel {
        report_digest: Seq::empty(),
        binding,
        outcomes,
        agreements,
        passed: (forall|i: int| 0 <= i < outcomes.len() ==> outcome_passes((#[trigger] outcomes[i]).1))
            && agreements.len() == 3 && (forall|i: int|
            0 <= i < agreements.len() ==> (#[trigger] agreements[i]).comparison.accepted),
    }
}

pub open spec fn strategy_sealed<S>(
    content: StrategyModel,
    seal: S,
    result: Result<StrategyWorkReport, VerificationRefusal>,
) -> bool where S: Fn(&StrategyWorkReport) -> Result<Vec<u8>, String> {
    exists|unsealed: StrategyWorkReport, encoded: Result<Vec<u8>, String>|
        {
            &&& unsealed@ == content
            &&& #[trigger] call_ensures(seal, (&unsealed,), encoded)
            &&& match encoded {
                Err(error) => refusal::reports(
                    refusal::serialization_refused(error@),
                    result,
                ),
                Ok(bytes) => result matches Ok(report) && report@ == (StrategyModel {
                    report_digest: digest::digest_of_bytes(bytes@),
                    ..content
                }),
            }
        }
}

/// The comparisons of the given pairs, in order, and the report.
pub open spec fn strategies_compared<G, S>(
    binding: BindingModel,
    outcomes: Seq<(BlockStrategy, StrategyOutcome)>,
    tolerance: ComparisonTolerance,
    agree: G,
    seal: S,
    pairs: Seq<(int, int)>,
    before: Seq<StrategyAgreement>,
    result: Result<StrategyWorkReport, VerificationRefusal>,
) -> bool where
    G: Fn(&Vec<Scalar>, &Vec<Scalar>, ComparisonTolerance) -> Result<ComparisonReport, SolveError>,
    S: Fn(&StrategyWorkReport) -> Result<Vec<u8>, String>,

    decreases pairs.len(),
{
    if pairs.len() == 0 {
        strategy_sealed(strategy_content(binding, outcomes, before), seal, result)
    } else {
        exists|compared: Result<Seq<StrategyAgreement>, RefusalText>|
            {
                &&& #[trigger] pair_compared(
                    outcomes,
                    tolerance,
                    agree,
                    pairs[0].0,
                    pairs[0].1,
                    before,
                    compared,
                )
                &&& match compared {
                    Err(refused) => refusal::reports(refused, result),
                    Ok(agreements) => strategies_compared(
                        binding,
                        outcomes,
                        tolerance,
                        agree,
                        seal,
                        pairs.drop_first(),
                        agreements,
                        result,
                    ),
                }
            }
    }
}

/// Every two of three strategies.
pub open spec fn all_pairs() -> Seq<(int, int)> {
    seq![(0int, 1int), (0int, 2int), (1int, 2int)]
}

/// The three runs, in order, and what follows them.
pub open spec fn strategies_ran<X, W, C, L, F, B, G, S>(
    at: Solving<'_, X, W>,
    tolerance: ComparisonTolerance,
    binding: BindingModel,
    calls: StrategyContext<X, W, C, L, F, B, G, S>,
    result: Result<StrategyWorkReport, VerificationRefusal>,
) -> bool where
    C: Fn(&X, &Vec<Scalar>, &NewtonConfig, ComparisonTolerance, &W) -> Result<
        Vec<u8>,
        String,
    >,
    L: Fn(&Vec<BlockSpec>) -> Result<Vec<u8>, String>,
    F: Fn(&X, &Vec<Scalar>, BlockStrategy, &NewtonConfig) -> StrategyRun,
    B: Fn(WorkCount, &W) -> WorkBudgetReport,
    G: Fn(&Vec<Scalar>, &Vec<Scalar>, ComparisonTolerance) -> Result<ComparisonReport, SolveError>,
    S: Fn(&StrategyWorkReport) -> Result<Vec<u8>, String>,
 {
    ||| result is Err && strategy_ran(
        at,
        BlockStrategy::Monolithic,
        calls.solve,
        calls.budget,
        Err(result->Err_0),
    )
    ||| result is Err && exists|first: StrategyOutcome|
        {
            &&& #[trigger] strategy_ran(
                at,
                BlockStrategy::Monolithic,
                calls.solve,
                calls.budget,
                Ok(first),
            )
            &&& strategy_ran(
                at,
                BlockStrategy::GaussSeidel,
                calls.solve,
                calls.budget,
                Err(result->Err_0),
            )
        }
    ||| result is Err && exists|first: StrategyOutcome, second: StrategyOutcome|
        {
            &&& #[trigger] strategy_ran(
                at,
                BlockStrategy::Monolithic,
                calls.solve,
                calls.budget,
                Ok(first),
            )
            &&& #[trigger] strategy_ran(
                at,
                BlockStrategy::GaussSeidel,
                calls.solve,
                calls.budget,
                Ok(second),
            )
            &&& strategy_ran(
                at,
                BlockStrategy::Jacobi,
                calls.solve,
                calls.budget,
                Err(result->Err_0),
            )
        }
    ||| exists|first: StrategyOutcome, second: StrategyOutcome, third: StrategyOutcome|
        {
            &&& #[trigger] strategy_ran(
                at,
                BlockStrategy::Monolithic,
                calls.solve,
                calls.budget,
                Ok(first),
            )
            &&& #[trigger] strategy_ran(
                at,
                BlockStrategy::GaussSeidel,
                calls.solve,
                calls.budget,
                Ok(second),
            )
            &&& #[trigger] strategy_ran(
                at,
                BlockStrategy::Jacobi,
                calls.solve,
                calls.budget,
                Ok(third),
            )
            &&& strategies_compared(
                binding,
                seq![
                    (BlockStrategy::Monolithic, first),
                    (BlockStrategy::GaussSeidel, second),
                    (BlockStrategy::Jacobi, third),
                ],
                tolerance,
                calls.agree,
                calls.seal,
                all_pairs(),
                Seq::empty(),
                result,
            )
        }
}

/// What is wrong with the inputs of a strategy check.
pub open spec fn strategy_failure(
    tolerance_valid: Result<(), SolveError>,
    initial_state: Seq<Scalar>,
    config: NewtonConfig,
    tolerance: ComparisonTolerance,
) -> Option<RefusalText> {
    match tolerance_valid {
        Err(error) => Some(refusal::numeric_refused(error@)),
        Ok(_) => refusal::either(
            refusal::scalars_failure("initial strategy state"@, initial_state, 0),
            refusal::either(
                refusal::newton_failure(config),
                refusal::either(
                    refusal::float_failure("absolute tolerance"@, tolerance.absolute),
                    refusal::float_failure("relative tolerance"@, tolerance.relative),
                ),
            ),
        ),
    }
}

fn validate_strategy(
    tolerance_valid: Result<(), SolveError>,
    initial_state: &Vec<Scalar>,
    config: &NewtonConfig,
    tolerance: ComparisonTolerance,
) -> (result: Result<(), VerificationRefusal>)
    ensures
        refusal::checked(
            strategy_failure(tolerance_valid, initial_state@, *config, tolerance),
            result,
        ),
{
    match tolerance_valid {
        Ok(_) => {},
        Err(error) => {
            return Err(numeric_refusal(error));
        },
    }
    match validate_float_slice("initial strategy state", initial_state) {
        Ok(_) => {},
        Err(error) => {
            return Err(error);
        },
    }
    match validate_newton_identity(config) {
        Ok(_) => {},
        Err(error) => {
            return Err(error);
        },
    }
    match validate_identity_float("absolute tolerance", tolerance.absolute) {
        Ok(_) => {},
        Err(error) => {
            return Err(error);
        },
    }
    validate_identity_float("relative tolerance", tolerance.relative)
}

/// What a strategy check gives, whatever its outside calls returned.
pub open spec fn strategy_checked<X, W, C, L, F, B, G, S>(
    blocks: Vec<BlockSpec>,
    operator_identity: Seq<char>,
    initial_state: Vec<Scalar>,
    config: NewtonConfig,
    tolerance: ComparisonTolerance,
    tolerance_valid: Result<(), SolveError>,
    calls: StrategyContext<X, W, C, L, F, B, G, S>,
    result: Result<StrategyWorkReport, VerificationRefusal>,
) -> bool where
    C: Fn(&X, &Vec<Scalar>, &NewtonConfig, ComparisonTolerance, &W) -> Result<
        Vec<u8>,
        String,
    >,
    L: Fn(&Vec<BlockSpec>) -> Result<Vec<u8>, String>,
    F: Fn(&X, &Vec<Scalar>, BlockStrategy, &NewtonConfig) -> StrategyRun,
    B: Fn(WorkCount, &W) -> WorkBudgetReport,
    G: Fn(&Vec<Scalar>, &Vec<Scalar>, ComparisonTolerance) -> Result<ComparisonReport, SolveError>,
    S: Fn(&StrategyWorkReport) -> Result<Vec<u8>, String>,
 {
    let at = Solving {
        evaluation: &calls.evaluation,
        initial_state: &initial_state,
        config: &config,
        limits: &calls.limits,
    };
    match strategy_failure(tolerance_valid, initial_state@, config, tolerance) {
        Some(failure) => refusal::reports(failure, result),
        None => exists|layout: Result<Vec<u8>, String>, described: Result<Vec<u8>, String>|
            {
                &&& #[trigger] call_ensures(calls.layout, (&blocks,), layout)
                &&& #[trigger] call_ensures(
                    calls.describe,
                    (&calls.evaluation, &initial_state, &config, tolerance, &calls.limits),
                    described,
                )
                &&& match evidence::block_bound(operator_identity, layout, described) {
                    Err(refused) => refusal::reports(refused, result),
                    Ok(binding) => strategies_ran(at, tolerance, binding, calls, result),
                }
            },
    }
}

/// Runs every strategy from one initial state, counts its work and compares the converged
/// ones. The report's identities cover what the calls make of the block layout and of the
/// evaluation context, the initial state, the configuration, the tolerance and the work
/// limits; `tolerance_valid` is what validating the tolerance gave.
pub fn check_strategy_work<X, W, C, L, F, B, G, S>(
    blocks: &Vec<BlockSpec>,
    operator_identity: &str,
    initial_state: &Vec<Scalar>,
    config: &NewtonConfig,
    tolerance: ComparisonTolerance,
    tolerance_valid: Result<(), SolveError>,
    calls: &StrategyContext<X, W, C, L, F, B, G, S>,
) -> (result: Result<StrategyWorkReport, VerificationRefusal>) where
    C: Fn(&X, &Vec<Scalar>, &NewtonConfig, ComparisonTolerance, &W) -> Result<
        Vec<u8>,
        String,
    >,
    L: Fn(&Vec<BlockSpec>) -> Result<Vec<u8>, String>,
    F: Fn(&X, &Vec<Scalar>, BlockStrategy, &NewtonConfig) -> StrategyRun,
    B: Fn(WorkCount, &W) -> WorkBudgetReport,
    G: Fn(&Vec<Scalar>, &Vec<Scalar>, ComparisonTolerance) -> Result<ComparisonReport, SolveError>,
    S: Fn(&StrategyWorkReport) -> Result<Vec<u8>, String>,

    requires
        calls.callable(),
    ensures
        strategy_checked(
            *blocks,
            operator_identity@,
            *initial_state,
            *config,
            tolerance,
            tolerance_valid,
            *calls,
            result,
        ),
{
    match validate_strategy(tolerance_valid, initial_state, config, tolerance) {
        Ok(_) => {},
        Err(error) => {
            return Err(error);
        },
    }
    let layout = (calls.layout)(blocks);
    let ghost laid_out = layout;
    assert(call_ensures(calls.layout, (blocks,), laid_out));
    let told = (calls.describe)(
        &calls.evaluation,
        initial_state,
        config,
        tolerance,
        &calls.limits,
    );
    let ghost described = told;
    assert(call_ensures(
        calls.describe,
        (&calls.evaluation, initial_state, config, tolerance, &calls.limits),
        described,
    ));
    let binding = match block_binding(operator_identity, layout, told) {
        Ok(binding) => binding,
        Err(error) => {
            return Err(error);
        },
    };
    let at = Solving {
        evaluation: &calls.evaluation,
        initial_state,
        config,
        limits: &calls.limits,
    };
    let first = match run_strategy(&at, BlockStrategy::Monolithic, &calls.solve, &calls.budget) {
        Ok(outcome) => outcome,
        Err(error) => {
            return Err(error);
        },
    };
    let second = match run_strategy(&at, BlockStrategy::GaussSeidel, &calls.solve, &calls.budget) {
        Ok(outcome) => outcome,
        Err(error) => {
            return Err(error);
        },
    };
    let third = match run_strategy(&at, BlockStrategy::Jacobi, &calls.solve, &calls.budget) {
        Ok(outcome) => outcome,
        Err(error) => {
            return Err(error);
        },
    };
    let mut outcomes: Vec<(BlockStrategy, StrategyOutcome)> = Vec::new();
    outcomes.push((BlockStrategy::Monolithic, first));
    outcomes.push((BlockStrategy::GaussSeidel, second));
    outcomes.push((BlockStrategy::Jacobi, third));
    proof {
        assert(outcomes@ =~= seq![
            (BlockStrategy::Monolithic, first),
            (BlockStrategy::GaussSeidel, second),
            (BlockStrategy::Jacobi, third),
        ]);
    }
    compare_strategies(binding, outcomes, tolerance, &calls.agree, &calls.seal)
}

/// Compares the converged strategies and makes the report.
fn compare_strategies<G, S>(
    binding: VerificationBinding,
    outcomes: Vec<(BlockStrategy, StrategyOutcome)>,
    tolerance: ComparisonTolerance,
    agree: &G,
    seal: &S,
) -> (result: Result<StrategyWorkReport, VerificationRefusal>) where
    G: Fn(&Vec<Scalar>, &Vec<Scalar>, ComparisonTolerance) -> Result<ComparisonReport, SolveError>,
    S: Fn(&StrategyWorkReport) -> Result<Vec<u8>, String>,

    requires
        outcomes@.len() == 3,
        forall|left: &Vec<Scalar>, right: &Vec<Scalar>|
            call_requires(*agree, (left, right, tolerance)),
        forall|report: &StrategyWorkReport| call_requires(*seal, (report,)),
    ensures
        strategies_compared(
            binding@,
            outcomes@,
            tolerance,
            *agree,
            *seal,
            all_pairs(),
            Seq::empty(),
            result,
        ),
{
    let ghost pairs = all_pairs();
    let ghost rest = pairs.drop_first();
    let ghost last = rest.drop_first();
    proof {
        reveal_with_fuel(strategies_compared, 4);
        assert(rest[0] == (0int, 2int));
        assert(last[0] == (1int, 2int));
        assert(last.drop_first().len() == 0);
    }
    let none: Vec<StrategyAgreement> = Vec::new();
    assert(none@ =~= Seq::<StrategyAgreement>::empty());
    let first = compare_pair(&outcomes, tolerance, agree, 0, 1, none);
    let ghost first_model = agreements_model(first);
    assert(pair_compared(
        outcomes@,
        tolerance,
        *agree,
        pairs[0].0,
        pairs[0].1,
        Seq::empty(),
        first_model,
    ));
    let agreements = match first {
        Ok(agreements) => agreements,
        Err(error) => {
            return Err(error);
        },
    };
    let ghost one = agreements@;
    let second = compare_pair(&outcomes, tolerance, agree, 0, 2, agreements);
    let ghost second_model = agreements_model(second);
    assert(pair_compared(outcomes@, tolerance, *agree, rest[0].0, rest[0].1, one, second_model));
    let agreements = match second {
        Ok(agreements) => agreements,
        Err(error) => {
            return Err(error);
        },
    };
    let ghost two = agreements@;
    let third = compare_pair(&outcomes, tolerance, agree, 1, 2, agreements);
    let ghost third_model = agreements_model(third);
    assert(pair_compared(outcomes@, tolerance, *agree, last[0].0, last[0].1, two, third_model));
    let agreements = match third {
        Ok(agreements) => agreements,
        Err(error) => {
            return Err(error);
        },
    };
    let runs_pass: bool = outcomes_pass(&outcomes);
    let comparisons_pass: bool = comparisons_accepted(&agreements);
    let passed: bool = runs_pass && agreements.len() == 3 && comparisons_pass;
    let mut report = StrategyWorkReport {
        report_digest: String::new(),
        binding,
        outcomes,
        agreements,
        passed,
    };
    let ghost unsealed = report;
    let ghost content = strategy_content(binding@, outcomes@, agreements@);
    assert(unsealed@ == content);
    let sealed = seal(&report);
    assert(call_ensures(*seal, (&unsealed,), sealed));
    let result = match sealed {
        Ok(bytes) => {
            report.report_digest = digest_bytes(&bytes);
            Ok(report)
        },
        Err(error) => Err(serialization_refusal(error)),
    };
    assert(strategy_sealed(content, *seal, result));
    result
}

fn outcomes_pass(outcomes: &Vec<(BlockStrategy, StrategyOutcome)>) -> (result: bool)
    ensures
        result == (forall|i: int|
            0 <= i < outcomes@.len() ==> outcome_passes((#[trigger] outcomes@[i]).1)),
{
    let mut index: usize = 0;
    while index < outcomes.len()
        invariant
            index <= outcomes@.len(),
            forall|i: int| 0 <= i < index ==> outcome_passes((#[trigger] outcomes@[i]).1),
        decreases outcomes.len() - index,
    {
        let passes: bool = match &outcomes[index].1 {
            StrategyOutcome::Converged { state: _, work } => work.accepted,
            _ => false,
        };
        if !passes {
            assert(!outcome_passes(outcomes@[index as int].1));
            return false;
        }
        index += 1;
    }
    true
}

fn comparisons_accepted(agreements: &Vec<StrategyAgreement>) -> (result: bool)
    ensures
        result == (forall|i: int|
            0 <= i < agreements@.len() ==> (#[trigger] agreements@[i]).comparison.accepted),
{
    let mut index: usize = 0;
    while index < agreements.len()
        invariant
            index <= agreements@.len(),
            forall|i: int| 0 <= i < index ==> (#[trigger] agreements@[i]).comparison.accepted,
        decreases agreements.len() - index,
    {
        if !agreements[index].comparison.accepted {
            return false;
        }
        index += 1;
    }
    true
}

/// Whether two outcomes agree: states equal in value, the rest equal.
pub open spec fn outcome_agrees(left: StrategyOutcome, right: StrategyOutcome) -> bool {
    match (left, right) {
        (
            StrategyOutcome::Converged { state: a, work: c },
            StrategyOutcome::Converged { state: b, work: d },
        ) => numeric::same_values(a@, b@) && c == d,
        (
            StrategyOutcome::NotConverged { state: a, work: c },
            StrategyOutcome::NotConverged { state: b, work: d },
        ) => numeric::same_values(a@, b@) && c == d,
        (
            StrategyOutcome::Refused { message: a, work: c },
            StrategyOutcome::Refused { message: b, work: d },
        ) => a@ == b@ && c == d,
        _ => false,
    }
}

fn same_outcome(left: &StrategyOutcome, right: &StrategyOutcome) -> (result: bool)
    ensures
        result == outcome_agrees(*left, *right),
{
    match (left, right) {
        (
            StrategyOutcome::Converged { state: a, work: c },
            StrategyOutcome::Converged { state: b, work: d },
        ) => equal_values(a, b) && *c == *d,
        (
            StrategyOutcome::NotConverged { state: a, work: c },
            StrategyOutcome::NotConverged { state: b, work: d },
        ) => equal_values(a, b) && *c == *d,
        (
            StrategyOutcome::Refused { message: a, work: c },
            StrategyOutcome::Refused { message: b, work: d },
        ) => same_text(a.as_str(), b.as_str()) && *c == *d,
        _ => false,
    }
}

pub open spec fn agreement_agrees(left: StrategyAgreement, right: StrategyAgreement) -> bool {
    &&& left.left == right.left
    &&& left.right == right.right
    &&& left.comparison.accepted == right.comparison.accepted
    &&& left.comparison.encoding@ == right.comparison.encoding@
}

/// Whether two strategy reports agree.
pub open spec fn strategy_agrees(left: StrategyModel, right: StrategyModel) -> bool {
    &&& left.report_digest == right.report_digest
    &&& left.binding == right.binding
    &&& left.outcomes.len() == right.outcomes.len()
    &&& forall|i: int|
        0 <= i < left.outcomes.len() ==> (#[trigger] left.outcomes[i]).0 == right.outcomes[i].0
            && outcome_agrees(left.outcomes[i].1, right.outcomes[i].1)
    &&& left.agreements.len() == right.agreements.len()
    &&& forall|i: int|
        0 <= i < left.agreements.len() ==> agreement_agrees(
            #[trigger] left.agreements[i],
            right.agreements[i],
        )
    &&& left.passed == right.passed
}

pub fn same_strategy_report(left: &StrategyWorkReport, right: &StrategyWorkReport) -> (result: bool)
    ensures
        result == strategy_agrees(left@, right@),
{
    if !same_text(left.report_digest.as_str(), right.report_digest.as_str()) || !same_binding(
        &left.binding,
        &right.binding,
    ) || left.outcomes.len() != right.outcomes.len() || left.agreements.len()
        != right.agreements.len() || left.passed != right.passed {
        return false;
    }
    let mut index: usize = 0;
    while index < left.outcomes.len()
        invariant
            index <= left.outcomes@.len(),
            left.outcomes@.len() == right.outcomes@.len(),
            forall|i: int|
                0 <= i < index ==> (#[trigger] left.outcomes@[i]).0 == right.outcomes@[i].0
                    && outcome_agrees(left.outcomes@[i].1, right.outcomes@[i].1),
        decreases left.outcomes.len() - index,
    {
        if left.outcomes[index].0 != right.outcomes[index].0 || !same_outcome(
            &left.outcomes[index].1,
            &right.outcomes[index].1,
        ) {
            assert(left@.outcomes[index as int] == left.outcomes@[index as int]);
            return false;
        }
        index += 1;
    }
    let mut index: usize = 0;
    while index < left.agreements.len()
        invariant
            index <= left.agreements@.len(),
            left.agreements@.len() == right.agreements@.len(),
            forall|i: int|
                0 <= i < index ==> agreement_agrees(
                    #[trigger] left.agreements@[i],
                    right.agreements@[i],
                ),
        decreases left.agreements.len() - index,
    {
        let mine = &left.agreements[index];
        let theirs = &right.agreements[index];
        if mine.left != theirs.left || mine.right != theirs.right || mine.comparison.accepted
            != theirs.comparison.accepted || !same_text(
            mine.comparison.encoding.as_str(),
            theirs.comparison.encoding.as_str(),
        ) {
            assert(left@.agreements[index as int] == left.agreements@[index as int]);
            return false;
        }
        index += 1;
    }
    true
}

impl StrategyWorkReport {
    /// Confirms the report by recomputing it.
    pub fn validate<X, W, C, L, F, B, G, S>(
        &self,
        blocks: &Vec<BlockSpec>,
        operator_identity: &str,
        initial_state: &Vec<Scalar>,
        config: &NewtonConfig,
        tolerance: ComparisonTolerance,
        tolerance_valid: Result<(), SolveError>,
        calls: &StrategyContext<X, W, C, L, F, B, G, S>,
    ) -> (result: Result<ValidatedKrasisVerification, VerificationRefusal>) where
        C: Fn(&X, &Vec<Scalar>, &NewtonConfig, ComparisonTolerance, &W) -> Result<
            Vec<u8>,
            String,
        >,
        L: Fn(&Vec<BlockSpec>) -> Result<Vec<u8>, String>,
        F: Fn(&X, &Vec<Scalar>, BlockStrategy, &NewtonConfig) -> StrategyRun,
        B: Fn(WorkCount, &W) -> WorkBudgetReport,
        G: Fn(&Vec<Scalar>, &Vec<Scalar>, ComparisonTolerance) -> Result<ComparisonReport, SolveError>,
        S: Fn(&StrategyWorkReport) -> Result<Vec<u8>, String>,

        requires
            calls.callable(),
        ensures
            exists|expected: Result<StrategyWorkReport, VerificationRefusal>|
                {
                    &&& #[trigger] strategy_checked(
                        *blocks,
                        operator_identity@,
                        *initial_state,
                        *config,
                        tolerance,
                        tolerance_valid,
                        *calls,
                        expected,
                    )
                    &&& match expected {
                        Err(refused) => result == Err::<
                            ValidatedKrasisVerification,
                            VerificationRefusal,
                        >(refused),
                        Ok(report) => verification::validated(
                            strategy_agrees(self@, report@),
                            self.passed,
                            result,
                        ),
                    }
                },
    {
        let expected = check_strategy_work(
            blocks,
            operator_identity,
            initial_state,
            config,
            tolerance,
            tolerance_valid,
            calls,
        );
        let ghost recomputed = expected;
        assert(strategy_checked(
            *blocks,
            operator_identity@,
            *initial_state,
            *config,
            tolerance,
            tolerance_valid,
            *calls,
            recomputed,
        ));
        match expected {
            Err(error) => Err(error),
            Ok(report) => require_report(same_strategy_report(self, &report), self.passed),
        }
    }
}

/// A strategy that did not converge is never counted as agreement: a passed report has
/// three converged strategies within budget and three accepted comparisons.
pub proof fn law_passed_strategies_converged(
    binding: BindingModel,
    outcomes: Seq<(BlockStrategy, StrategyOutcome)>,
    agreements: Seq<StrategyAgreement>,
    i: int,
)
    requires
        strategy_content(binding, outcomes, agreements).passed,
        0 <= i < outcomes.len(),
    ensures
        outcomes[i].1 is Converged,
        agreements.len() == 3,
        forall|k: int| 0 <= k < agreements.len() ==> (#[trigger] agreements[k]).comparison.accepted,
{
    assert(outcome_passes(outcomes[i].1));
}

} // verus!
