//! What a derivative report tells: which blocks its checks join, what each check measured and
//! when the report passes.
use crate::derivative;
use crate::derivative::{
    CheckModel, ComparisonTolerance, CrossBlockDerivativeReport, DerivativeContext, Probing,
};
use crate::evidence;
use crate::numeric::SolveError;
use crate::operator::BlockSpec;
use crate::refusal::VerificationRefusal;
use crate::scalar::Scalar;
use vstd::prelude::*;

verus! {

/// The blocks of a state follow each other: the first starts at zero, and each ends where its
/// length says and where the next one starts.
pub proof fn law_blocks_follow_each_other(blocks: Seq<BlockSpec>, k: int)
    requires
        0 <= k < blocks.len(),
    ensures
        derivative::block_start(blocks, 0) == 0,
        derivative::block_start(blocks, k + 1) == derivative::block_start(blocks, k)
            + blocks[k].length,
{
}

/// Whether a position lies inside a block.
pub open spec fn inside(blocks: Seq<BlockSpec>, k: int, position: int) -> bool {
    derivative::block_start(blocks, k) <= position < derivative::block_start(blocks, k)
        + blocks[k].length
}

/// Whether a direction is another one inside a block and zero outside.
pub open spec fn only_inside(
    isolated: Seq<Scalar>,
    direction: Seq<Scalar>,
    blocks: Seq<BlockSpec>,
    source: int,
) -> bool {
    &&& isolated.len() == direction.len()
    &&& forall|i: int|
        #![trigger isolated[i]]
        0 <= i < isolated.len() ==> {
            &&& inside(blocks, source, i) ==> isolated[i] == direction[i]
            &&& !inside(blocks, source, i) ==> isolated[i].bits() == 0
        }
}

/// Whether a component of a target block was measured: the centered differences of its row,
/// at the state along the isolated direction, against the product's value in that row gave
/// the errors, and the tolerance beside that value gave the allowance.
pub open spec fn measured<X, P, T>(
    evaluation: X,
    state: Vec<Scalar>,
    isolated: Vec<Scalar>,
    steps: Vec<Scalar>,
    tolerance: ComparisonTolerance,
    derivative: Seq<Scalar>,
    row: usize,
    probe: P,
    allowed: T,
    errors: Vec<Scalar>,
    bound: Scalar,
) -> bool where
    P: Fn(&X, &Vec<Scalar>, &Vec<Scalar>, usize, Scalar, &Vec<Scalar>) -> Result<
        Vec<Scalar>,
        SolveError,
    >,
    T: Fn(ComparisonTolerance, Scalar) -> Scalar,
 {
    &&& call_ensures(
        probe,
        (&evaluation, &state, &isolated, row, derivative[row as int], &steps),
        Ok::<Vec<Scalar>, SolveError>(errors),
    )
    &&& call_ensures(allowed, (tolerance, derivative[row as int]), bound)
}

/// Whether a check tells of one source block and one target block what probing gave: there
/// are a direction that lies in the source block alone and the product along it; every row of
/// the target block was measured; the check is accepted exactly where every error lies within
/// the allowance of its row; and of every step it names an error that no row exceeds.
pub open spec fn check_tells<X, J, P, T>(
    blocks: Seq<BlockSpec>,
    evaluation: X,
    state: Vec<Scalar>,
    direction: Seq<Scalar>,
    steps: Vec<Scalar>,
    tolerance: ComparisonTolerance,
    product: J,
    probe: P,
    allowed: T,
    source: int,
    target: int,
    isolated: Vec<Scalar>,
    derivative: Vec<Scalar>,
    errors: Seq<Vec<Scalar>>,
    bounds: Seq<Scalar>,
    check: CheckModel,
) -> bool where
    J: Fn(&X, &Vec<Scalar>, &Vec<Scalar>) -> Result<Vec<Scalar>, SolveError>,
    P: Fn(&X, &Vec<Scalar>, &Vec<Scalar>, usize, Scalar, &Vec<Scalar>) -> Result<
        Vec<Scalar>,
        SolveError,
    >,
    T: Fn(ComparisonTolerance, Scalar) -> Scalar,
 {
    let start = derivative::block_start(blocks, target) as int;
    &&& 0 <= source < blocks.len()
    &&& 0 <= target < blocks.len()
    &&& blocks[source].name@ != blocks[target].name@
    &&& check.source_block == blocks[source].name@
    &&& check.target_block == blocks[target].name@
    &&& check.steps == steps@
    &&& only_inside(isolated@, direction, blocks, source)
    &&& call_ensures(
        product,
        (&evaluation, &state, &isolated),
        Ok::<Vec<Scalar>, SolveError>(derivative),
    )
    &&& errors.len() == blocks[target].length
    &&& bounds.len() == blocks[target].length
    &&& forall|c: int|
        #![trigger errors[c]]
        0 <= c < blocks[target].length ==> measured(
            evaluation,
            state,
            isolated,
            steps,
            tolerance,
            derivative@,
            (start + c) as usize,
            probe,
            allowed,
            errors[c],
            bounds[c],
        )
    &&& check.accepted <==> (forall|c: int, k: int|
        0 <= c < errors.len() && 0 <= k < errors[c]@.len() && k < steps@.len() ==> (
        #[trigger] errors[c]@[k]).at_most(bounds[c]))
    &&& check.maximum_absolute_errors.len() == steps@.len()
    &&& forall|c: int, k: int|
        0 <= c < errors.len() && 0 <= k < errors[c]@.len() && k < steps@.len() ==> (
        #[trigger] errors[c]@[k]).nan() || errors[c]@[k].at_most(
            check.maximum_absolute_errors[k],
        )
    &&& forall|k: int|
        #![trigger check.maximum_absolute_errors[k]]
        0 <= k < steps@.len() ==> check.maximum_absolute_errors[k].bits() == 0 || exists|c: int|
            0 <= c < errors.len() && k < errors[c]@.len() && (#[trigger] errors[c])@[k]
                == check.maximum_absolute_errors[k]
}

proof fn lemma_largest(errors: Seq<Vec<Scalar>>, k: int, count: int)
    requires
        0 <= count <= errors.len(),
        0 <= k,
    ensures
        !derivative::largest(errors, k, count).nan(),
        forall|c: int|
            0 <= c < count && k < (#[trigger] errors[c])@.len() ==> errors[c]@[k].nan()
                || errors[c]@[k].at_most(derivative::largest(errors, k, count)),
        derivative::largest(errors, k, count).bits() == 0 || exists|c: int|
            0 <= c < count && k < (#[trigger] errors[c])@.len() && errors[c]@[k]
                == derivative::largest(errors, k, count),
    decreases count,
{
    Scalar::lemma_nil();
    if count > 0 {
        lemma_largest(errors, k, count - 1);
        let last = count - 1;
        let before = derivative::largest(errors, k, last);
        let now = derivative::largest(errors, k, count);
        if k < errors[last]@.len() {
            assert(now == before || now == errors[last]@[k]);
        }
        if now.bits() != 0 {
            if now == before {
                let c = choose|c: int|
                    0 <= c < last && k < (#[trigger] errors[c])@.len() && errors[c]@[k] == before;
                assert(errors[c]@[k] == now);
            } else {
                assert(errors[last]@[k] == now);
            }
        }
    }
}

proof fn lemma_target<X, J, P, T>(
    blocks: Seq<BlockSpec>,
    at: Probing<'_, X>,
    direction: Seq<Scalar>,
    product: J,
    probe: P,
    allowed: T,
    source: int,
    isolated: Vec<Scalar>,
    derived: Vec<Scalar>,
    count: int,
    checks: Seq<CheckModel>,
    i: int,
) -> (made: (int, Seq<Vec<Scalar>>, Seq<Scalar>)) where
    J: Fn(&X, &Vec<Scalar>, &Vec<Scalar>) -> Result<Vec<Scalar>, SolveError>,
    P: Fn(&X, &Vec<Scalar>, &Vec<Scalar>, usize, Scalar, &Vec<Scalar>) -> Result<
        Vec<Scalar>,
        SolveError,
    >,
    T: Fn(ComparisonTolerance, Scalar) -> Scalar,

    requires
        0 <= source < blocks.len(),
        0 <= count <= blocks.len(),
        derivative::isolates(isolated@, direction, blocks, source),
        call_ensures(
            product,
            (at.evaluation, at.state, &isolated),
            Ok::<Vec<Scalar>, SolveError>(derived),
        ),
        derivative::block_start(blocks, blocks.len() as int) <= usize::MAX,
        derivative::targets_probed(
            blocks,
            at,
            source,
            isolated,
            derived@,
            probe,
            allowed,
            count,
            checks,
        ),
        0 <= i < checks.len(),
    ensures
        check_tells(
            blocks,
            *at.evaluation,
            *at.state,
            direction,
            *at.steps,
            at.tolerance,
            product,
            probe,
            allowed,
            source,
            made.0,
            isolated,
            derived,
            made.1,
            made.2,
            checks[i],
        ),
    decreases count,
{
    let last = count - 1;
    if blocks[last].name@ == blocks[source].name@ {
        lemma_target(
            blocks,
            at,
            direction,
            product,
            probe,
            allowed,
            source,
            isolated,
            derived,
            last,
            checks,
            i,
        )
    } else if i < checks.len() - 1 {
        let earlier = checks.drop_last();
        assert(earlier[i] == checks[i]);
        lemma_target(
            blocks,
            at,
            direction,
            product,
            probe,
            allowed,
            source,
            isolated,
            derived,
            last,
            earlier,
            i,
        )
    } else {
        let start = derivative::block_start(blocks, last) as int;
        let (errors, bounds) = choose|errors: Seq<Vec<Scalar>>, bounds: Seq<Scalar>|
            {
                &&& #[trigger] derivative::components_probed(
                    at,
                    isolated,
                    derived@,
                    start,
                    probe,
                    allowed,
                    blocks[last].length as int,
                    errors,
                    bounds,
                )
                &&& checks.last() == derivative::check_of(
                    blocks[source].name@,
                    blocks[last].name@,
                    at.steps@,
                    errors,
                    bounds,
                )
            };
        let check = checks[i];
        derivative::lemma_block_start_monotone(blocks, count, blocks.len() as int);
        assert forall|c: int| #![trigger errors[c]] 0 <= c < blocks[last].length implies measured(
            *at.evaluation,
            *at.state,
            isolated,
            *at.steps,
            at.tolerance,
            derived@,
            (start + c) as usize,
            probe,
            allowed,
            errors[c],
            bounds[c],
        ) by {
            assert(derivative::component_probed(
                at,
                isolated,
                derived@,
                start,
                probe,
                allowed,
                c,
                errors[c],
                bounds[c],
            ));
            assert(((start + c) as usize) as int == start + c);
        }
        assert forall|p: int| #![trigger isolated@[p]] 0 <= p < isolated@.len() implies {
            &&& inside(blocks, source, p) ==> isolated@[p] == direction[p]
            &&& !inside(blocks, source, p) ==> isolated@[p].bits() == 0
        } by {
            assert(derivative::block_start(blocks, source + 1) == derivative::block_start(
                blocks,
                source,
            ) + blocks[source].length);
        }
        assert forall|c: int, k: int|
            0 <= c < errors.len() && 0 <= k < errors[c]@.len() && k < at.steps@.len() implies (
        #[trigger] errors[c]@[k]).nan() || errors[c]@[k].at_most(
            check.maximum_absolute_errors[k],
        ) by {
            lemma_largest(errors, k, errors.len() as int);
        }
        assert forall|k: int|
            #![trigger check.maximum_absolute_errors[k]]
            0 <= k < at.steps@.len() implies check.maximum_absolute_errors[k].bits() == 0
            || exists|c: int|
            0 <= c < errors.len() && k < errors[c]@.len() && (#[trigger] errors[c])@[k]
                == check.maximum_absolute_errors[k] by {
            lemma_largest(errors, k, errors.len() as int);
        }
        (last, errors, bounds)
    }
}

proof fn lemma_source<X, C, L, J, P, T, S>(
    blocks: Seq<BlockSpec>,
    direction: Seq<Scalar>,
    at: Probing<'_, X>,
    calls: DerivativeContext<X, C, L, J, P, T, S>,
    count: int,
    checks: Seq<CheckModel>,
    i: int,
) -> (made: (int, int, Vec<Scalar>, Vec<Scalar>, Seq<Vec<Scalar>>, Seq<Scalar>)) where
    C: Fn(
        &X,
        &Vec<Scalar>,
        &Vec<Scalar>,
        &Vec<Scalar>,
        ComparisonTolerance,
    ) -> Result<Vec<u8>, String>,
    L: Fn(&Vec<BlockSpec>) -> Result<Vec<u8>, String>,
    J: Fn(&X, &Vec<Scalar>, &Vec<Scalar>) -> Result<Vec<Scalar>, SolveError>,
    P: Fn(&X, &Vec<Scalar>, &Vec<Scalar>, usize, Scalar, &Vec<Scalar>) -> Result<
        Vec<Scalar>,
        SolveError,
    >,
    T: Fn(ComparisonTolerance, Scalar) -> Scalar,
    S: Fn(&CrossBlockDerivativeReport) -> Result<Vec<u8>, String>,

    requires
        0 <= count <= blocks.len(),
        derivative::block_start(blocks, blocks.len() as int) <= usize::MAX,
        derivative::sources_probed(blocks, direction, at, calls, count, checks),
        0 <= i < checks.len(),
    ensures
        check_tells(
            blocks,
            *at.evaluation,
            *at.state,
            direction,
            *at.steps,
            at.tolerance,
            calls.product,
            calls.probe,
            calls.allowed,
            made.0,
            made.1,
            made.2,
            made.3,
            made.4,
            made.5,
            checks[i],
        ),
    decreases count,
{
    let source = count - 1;
    let split = choose|earlier: int|
        {
            &&& 0 <= earlier <= checks.len()
            &&& derivative::sources_probed(
                blocks,
                direction,
                at,
                calls,
                count - 1,
                checks.take(earlier),
            )
            &&& derivative::source_probed(
                blocks,
                direction,
                at,
                calls,
                count - 1,
                #[trigger] checks.skip(earlier),
            )
        };
    if i < split {
        let earlier = checks.take(split);
        assert(earlier[i] == checks[i]);
        lemma_source(blocks, direction, at, calls, source, earlier, i)
    } else {
        let mine = checks.skip(split);
        assert(mine[i - split] == checks[i]);
        let (isolated, derived) = choose|isolated: Vec<Scalar>, derived: Vec<Scalar>|
            {
                &&& derivative::isolates(isolated@, direction, blocks, source)
                &&& #[trigger] call_ensures(
                    calls.product,
                    (at.evaluation, at.state, &isolated),
                    Ok::<Vec<Scalar>, SolveError>(derived),
                )
                &&& derivative::targets_probed(
                    blocks,
                    at,
                    source,
                    isolated,
                    derived@,
                    calls.probe,
                    calls.allowed,
                    blocks.len() as int,
                    mine,
                )
            };
        let (target, errors, bounds) = lemma_target(
            blocks,
            at,
            direction,
            calls.product,
            calls.probe,
            calls.allowed,
            source,
            isolated,
            derived,
            blocks.len() as int,
            mine,
            i - split,
        );
        (source, target, isolated, derived, errors, bounds)
    }
}

/// The checks that a derivative report was made from.
proof fn lemma_checks<X, C, L, J, P, T, S>(
    blocks: Vec<BlockSpec>,
    operator_identity: Seq<char>,
    state: Vec<Scalar>,
    direction: Vec<Scalar>,
    steps: Vec<Scalar>,
    tolerance: ComparisonTolerance,
    tolerance_valid: Result<(), SolveError>,
    calls: DerivativeContext<X, C, L, J, P, T, S>,
    report: CrossBlockDerivativeReport,
) where
    C: Fn(
        &X,
        &Vec<Scalar>,
        &Vec<Scalar>,
        &Vec<Scalar>,
        ComparisonTolerance,
    ) -> Result<Vec<u8>, String>,
    L: Fn(&Vec<BlockSpec>) -> Result<Vec<u8>, String>,
    J: Fn(&X, &Vec<Scalar>, &Vec<Scalar>) -> Result<Vec<Scalar>, SolveError>,
    P: Fn(&X, &Vec<Scalar>, &Vec<Scalar>, usize, Scalar, &Vec<Scalar>) -> Result<
        Vec<Scalar>,
        SolveError,
    >,
    T: Fn(ComparisonTolerance, Scalar) -> Scalar,
    S: Fn(&CrossBlockDerivativeReport) -> Result<Vec<u8>, String>,

    requires
        derivative::derivative_checked(
            blocks,
            operator_identity,
            state,
            direction,
            steps,
            tolerance,
            tolerance_valid,
            calls,
            Ok::<CrossBlockDerivativeReport, VerificationRefusal>(report),
        ),
    ensures
        ({
            let at = Probing {
                evaluation: &calls.evaluation,
                state: &state,
                steps: &steps,
                tolerance,
            };
            derivative::sources_probed(
                blocks@,
                direction@,
                at,
                calls,
                blocks@.len() as int,
                derivative::check_models(report.checks@),
            )
        }),
        blocks@.len() >= 2,
        state@.len() == derivative::block_start(blocks@, blocks@.len() as int),
        direction@.len() == state@.len(),
        report.passed == (report.checks@.len() > 0 && forall|i: int|
            0 <= i < report.checks@.len() ==> (#[trigger] report.checks@[i]).accepted),
{
    let result = Ok::<CrossBlockDerivativeReport, VerificationRefusal>(report);
    let at = Probing { evaluation: &calls.evaluation, state: &state, steps: &steps, tolerance };
    let (layout, described) = choose|
        layout: Result<Vec<u8>, String>,
        described: Result<Vec<u8>, String>,
    |
        {
            &&& #[trigger] call_ensures(calls.layout, (&blocks,), layout)
            &&& #[trigger] call_ensures(
                calls.describe,
                (&calls.evaluation, &state, &direction, &steps, tolerance),
                described,
            )
            &&& evidence::block_bound(operator_identity, layout, described) is Ok
            &&& derivative::derivative_bound(
                blocks@,
                direction@,
                at,
                calls,
                evidence::block_bound(operator_identity, layout, described)->Ok_0,
                result,
            )
        };
    let binding = evidence::block_bound(operator_identity, layout, described)->Ok_0;
    let checks = choose|checks: Seq<CheckModel>|
        {
            &&& #[trigger] derivative::sources_probed(
                blocks@,
                direction@,
                at,
                calls,
                blocks@.len() as int,
                checks,
            )
            &&& derivative::derivative_sealed(
                derivative::derivative_content(binding, checks),
                calls.seal,
                result,
            )
        };
    assert(derivative::check_models(report.checks@) == checks);
    assert(report.passed == derivative::derivative_content(binding, checks).passed);
    if report.passed {
        assert forall|i: int| 0 <= i < report.checks@.len() implies (
        #[trigger] report.checks@[i]).accepted by {
            assert(checks[i] == report.checks@[i]@);
        }
    }
    if report.checks@.len() > 0 && (forall|i: int|
        0 <= i < report.checks@.len() ==> (#[trigger] report.checks@[i]).accepted) {
        assert forall|i: int| 0 <= i < checks.len() implies (#[trigger] checks[i]).accepted by {
            assert(checks[i] == report.checks@[i]@);
        }
    }
}

/// A derivative report passes exactly where it has a check and every one of its checks is
/// accepted.
pub proof fn law_derivatives_pass_together<X, C, L, J, P, T, S>(
    blocks: Vec<BlockSpec>,
    operator_identity: Seq<char>,
    state: Vec<Scalar>,
    direction: Vec<Scalar>,
    steps: Vec<Scalar>,
    tolerance: ComparisonTolerance,
    tolerance_valid: Result<(), SolveError>,
    calls: DerivativeContext<X, C, L, J, P, T, S>,
    report: CrossBlockDerivativeReport,
) where
    C: Fn(
        &X,
        &Vec<Scalar>,
        &Vec<Scalar>,
        &Vec<Scalar>,
        ComparisonTolerance,
    ) -> Result<Vec<u8>, String>,
    L: Fn(&Vec<BlockSpec>) -> Result<Vec<u8>, String>,
    J: Fn(&X, &Vec<Scalar>, &Vec<Scalar>) -> Result<Vec<Scalar>, SolveError>,
    P: Fn(&X, &Vec<Scalar>, &Vec<Scalar>, usize, Scalar, &Vec<Scalar>) -> Result<
        Vec<Scalar>,
        SolveError,
    >,
    T: Fn(ComparisonTolerance, Scalar) -> Scalar,
    S: Fn(&CrossBlockDerivativeReport) -> Result<Vec<u8>, String>,

    requires
        derivative::derivative_checked(
            blocks,
            operator_identity,
            state,
            direction,
            steps,
            tolerance,
            tolerance_valid,
            calls,
            Ok::<CrossBlockDerivativeReport, VerificationRefusal>(report),
        ),
    ensures
        report.passed <==> {
            &&& report.checks@.len() > 0
            &&& forall|i: int|
                0 <= i < report.checks@.len() ==> (#[trigger] report.checks@[i]).accepted
        },
{
    lemma_checks(
        blocks,
        operator_identity,
        state,
        direction,
        steps,
        tolerance,
        tolerance_valid,
        calls,
        report,
    );
}

/// Every check of a derivative report tells what probing one block along another gave.
pub proof fn law_check_tells_what_probing_gave<X, C, L, J, P, T, S>(
    blocks: Vec<BlockSpec>,
    operator_identity: Seq<char>,
    state: Vec<Scalar>,
    direction: Vec<Scalar>,
    steps: Vec<Scalar>,
    tolerance: ComparisonTolerance,
    tolerance_valid: Result<(), SolveError>,
    calls: DerivativeContext<X, C, L, J, P, T, S>,
    report: CrossBlockDerivativeReport,
    i: int,
) where
    C: Fn(
        &X,
        &Vec<Scalar>,
        &Vec<Scalar>,
        &Vec<Scalar>,
        ComparisonTolerance,
    ) -> Result<Vec<u8>, String>,
    L: Fn(&Vec<BlockSpec>) -> Result<Vec<u8>, String>,
    J: Fn(&X, &Vec<Scalar>, &Vec<Scalar>) -> Result<Vec<Scalar>, SolveError>,
    P: Fn(&X, &Vec<Scalar>, &Vec<Scalar>, usize, Scalar, &Vec<Scalar>) -> Result<
        Vec<Scalar>,
        SolveError,
    >,
    T: Fn(ComparisonTolerance, Scalar) -> Scalar,
    S: Fn(&CrossBlockDerivativeReport) -> Result<Vec<u8>, String>,

    requires
        derivative::derivative_checked(
            blocks,
            operator_identity,
            state,
            direction,
            steps,
            tolerance,
            tolerance_valid,
            calls,
            Ok::<CrossBlockDerivativeReport, VerificationRefusal>(report),
        ),
        state@.len() <= usize::MAX,
        0 <= i < report.checks@.len(),
    ensures
        exists|
            source: int,
            target: int,
            isolated: Vec<Scalar>,
            derivative: Vec<Scalar>,
            errors: Seq<Vec<Scalar>>,
            bounds: Seq<Scalar>,
        |
            #[trigger] check_tells(
                blocks@,
                calls.evaluation,
                state,
                direction@,
                steps,
                tolerance,
                calls.product,
                calls.probe,
                calls.allowed,
                source,
                target,
                isolated,
                derivative,
                errors,
                bounds,
                report.checks@[i]@,
            ),
{
    lemma_checks(
        blocks,
        operator_identity,
        state,
        direction,
        steps,
        tolerance,
        tolerance_valid,
        calls,
        report,
    );
    let at = Probing { evaluation: &calls.evaluation, state: &state, steps: &steps, tolerance };
    let checks = derivative::check_models(report.checks@);
    assert(checks[i] == report.checks@[i]@);
    let (source, target, isolated, derived, errors, bounds) = lemma_source(
        blocks@,
        direction@,
        at,
        calls,
        blocks@.len() as int,
        checks,
        i,
    );
}

/// A derivative report has a check for every two blocks of different names, in both
/// directions, and none inside a block.
pub proof fn law_report_covers_the_off_diagonal<X, C, L, J, P, T, S>(
    blocks: Vec<BlockSpec>,
    operator_identity: Seq<char>,
    state: Vec<Scalar>,
    direction: Vec<Scalar>,
    steps: Vec<Scalar>,
    tolerance: ComparisonTolerance,
    tolerance_valid: Result<(), SolveError>,
    calls: DerivativeContext<X, C, L, J, P, T, S>,
    report: CrossBlockDerivativeReport,
) where
    C: Fn(
        &X,
        &Vec<Scalar>,
        &Vec<Scalar>,
        &Vec<Scalar>,
        ComparisonTolerance,
    ) -> Result<Vec<u8>, String>,
    L: Fn(&Vec<BlockSpec>) -> Result<Vec<u8>, String>,
    J: Fn(&X, &Vec<Scalar>, &Vec<Scalar>) -> Result<Vec<Scalar>, SolveError>,
    P: Fn(&X, &Vec<Scalar>, &Vec<Scalar>, usize, Scalar, &Vec<Scalar>) -> Result<
        Vec<Scalar>,
        SolveError,
    >,
    T: Fn(ComparisonTolerance, Scalar) -> Scalar,
    S: Fn(&CrossBlockDerivativeReport) -> Result<Vec<u8>, String>,

    requires
        derivative::derivative_checked(
            blocks,
            operator_identity,
            state,
            direction,
            steps,
            tolerance,
            tolerance_valid,
            calls,
            Ok::<CrossBlockDerivativeReport, VerificationRefusal>(report),
        ),
    ensures
        forall|i: int|
            0 <= i < report.checks@.len() ==> (#[trigger] report.checks@[i]).source_block@
                != report.checks@[i].target_block@,
        forall|s: int, t: int|
            0 <= s < blocks@.len() && 0 <= t < blocks@.len() && (#[trigger] blocks@[s]).name@ != (
            #[trigger] blocks@[t]).name@ ==> exists|i: int|
                0 <= i < report.checks@.len() && (#[trigger] report.checks@[i]).source_block@
                    == blocks@[s].name@ && report.checks@[i].target_block@ == blocks@[t].name@,
{
    lemma_checks(
        blocks,
        operator_identity,
        state,
        direction,
        steps,
        tolerance,
        tolerance_valid,
        calls,
        report,
    );
    let at = Probing { evaluation: &calls.evaluation, state: &state, steps: &steps, tolerance };
    let checks = derivative::check_models(report.checks@);
    derivative::law_checks_cover_off_diagonal(
        blocks@,
        direction@,
        at,
        calls,
        blocks@.len() as int,
        checks,
    );
    assert forall|i: int| 0 <= i < report.checks@.len() implies (
    #[trigger] report.checks@[i]).source_block@ != report.checks@[i].target_block@ by {
        assert(checks[i] == report.checks@[i]@);
    }
    assert forall|s: int, t: int|
        0 <= s < blocks@.len() && 0 <= t < blocks@.len() && (#[trigger] blocks@[s]).name@ != (
        #[trigger] blocks@[t]).name@ implies exists|i: int|
        0 <= i < report.checks@.len() && (#[trigger] report.checks@[i]).source_block@
            == blocks@[s].name@ && report.checks@[i].target_block@ == blocks@[t].name@ by {
        let i = choose|i: int|
            0 <= i < checks.len() && (#[trigger] checks[i]).source_block == blocks@[s].name@
                && checks[i].target_block == blocks@[t].name@;
        assert(checks[i] == report.checks@[i]@);
    }
}

proof fn lemma_sources_move<X, C, L, J, P, T, S>(
    blocks: Seq<BlockSpec>,
    direction: Seq<Scalar>,
    at: Probing<'_, X>,
    calls: DerivativeContext<X, C, L, J, P, T, S>,
    count: int,
    checks: Seq<CheckModel>,
    s: int,
) where
    C: Fn(
        &X,
        &Vec<Scalar>,
        &Vec<Scalar>,
        &Vec<Scalar>,
        ComparisonTolerance,
    ) -> Result<Vec<u8>, String>,
    L: Fn(&Vec<BlockSpec>) -> Result<Vec<u8>, String>,
    J: Fn(&X, &Vec<Scalar>, &Vec<Scalar>) -> Result<Vec<Scalar>, SolveError>,
    P: Fn(&X, &Vec<Scalar>, &Vec<Scalar>, usize, Scalar, &Vec<Scalar>) -> Result<
        Vec<Scalar>,
        SolveError,
    >,
    T: Fn(ComparisonTolerance, Scalar) -> Scalar,
    S: Fn(&CrossBlockDerivativeReport) -> Result<Vec<u8>, String>,

    requires
        0 <= s < count <= blocks.len(),
        derivative::sources_probed(blocks, direction, at, calls, count, checks),
    ensures
        !derivative::still(direction, blocks, s),
    decreases count,
{
    let earlier = choose|earlier: int|
        {
            &&& 0 <= earlier <= checks.len()
            &&& derivative::sources_probed(
                blocks,
                direction,
                at,
                calls,
                count - 1,
                checks.take(earlier),
            )
            &&& derivative::source_probed(
                blocks,
                direction,
                at,
                calls,
                count - 1,
                #[trigger] checks.skip(earlier),
            )
        };
    if s < count - 1 {
        lemma_sources_move(blocks, direction, at, calls, count - 1, checks.take(earlier), s);
    }
}

/// A derivative report is given only for a direction that is not zero in any block: each
/// holds a position where the direction has a magnitude.
pub proof fn law_reported_direction_moves_every_block<X, C, L, J, P, T, S>(
    blocks: Vec<BlockSpec>,
    operator_identity: Seq<char>,
    state: Vec<Scalar>,
    direction: Vec<Scalar>,
    steps: Vec<Scalar>,
    tolerance: ComparisonTolerance,
    tolerance_valid: Result<(), SolveError>,
    calls: DerivativeContext<X, C, L, J, P, T, S>,
    report: CrossBlockDerivativeReport,
    s: int,
) where
    C: Fn(
        &X,
        &Vec<Scalar>,
        &Vec<Scalar>,
        &Vec<Scalar>,
        ComparisonTolerance,
    ) -> Result<Vec<u8>, String>,
    L: Fn(&Vec<BlockSpec>) -> Result<Vec<u8>, String>,
    J: Fn(&X, &Vec<Scalar>, &Vec<Scalar>) -> Result<Vec<Scalar>, SolveError>,
    P: Fn(&X, &Vec<Scalar>, &Vec<Scalar>, usize, Scalar, &Vec<Scalar>) -> Result<
        Vec<Scalar>,
        SolveError,
    >,
    T: Fn(ComparisonTolerance, Scalar) -> Scalar,
    S: Fn(&CrossBlockDerivativeReport) -> Result<Vec<u8>, String>,

    requires
        derivative::derivative_checked(
            blocks,
            operator_identity,
            state,
            direction,
            steps,
            tolerance,
            tolerance_valid,
            calls,
            Ok::<CrossBlockDerivativeReport, VerificationRefusal>(report),
        ),
        0 <= s < blocks@.len(),
    ensures
        exists|i: int| inside(blocks@, s, i) && (#[trigger] direction@[i]).magnitude() != 0,
{
    lemma_checks(
        blocks,
        operator_identity,
        state,
        direction,
        steps,
        tolerance,
        tolerance_valid,
        calls,
        report,
    );
    let at = Probing { evaluation: &calls.evaluation, state: &state, steps: &steps, tolerance };
    let checks = derivative::check_models(report.checks@);
    lemma_sources_move(blocks@, direction@, at, calls, blocks@.len() as int, checks, s);
    let i = choose|i: int|
        derivative::block_start(blocks@, s) <= i < derivative::block_start(blocks@, s + 1) && !(!(
        #[trigger] direction@[i]).nan() && direction@[i].rank() == 0);
    assert(direction@[i].magnitude() != 0);
}

} // verus!
