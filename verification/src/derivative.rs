//! The check of isolated cross-block derivatives against centered differences.
use crate::digest;
use crate::digest::digest_bytes;
use crate::evidence;
use crate::evidence::{block_binding, same_binding, BindingModel, VerificationBinding};
use crate::numeric;
use crate::numeric::{equal_values, SolveError};
use crate::operator::BlockSpec;
use crate::refusal;
use crate::refusal::{
    numeric_refusal, serialization_refusal, validate_float_slice, validate_identity_float,
    RefusalText, VerificationRefusal,
};
use crate::scalar::{copy_scalars, zeros, Scalar};
use crate::text::same_text;
use crate::verification;
use crate::verification::{require_report, ValidatedKrasisVerification};
use vstd::prelude::*;

verus! {

/// How far two values may lie apart.
#[derive(Clone, Copy, Debug, PartialEq, Eq, Structural)]
pub struct ComparisonTolerance {
    pub absolute: Scalar,
    pub relative: Scalar,
}

/// What every probe of a derivative check is made under.
pub struct Probing<'a, X> {
    pub evaluation: &'a X,
    pub state: &'a Vec<Scalar>,
    pub steps: &'a Vec<Scalar>,
    pub tolerance: ComparisonTolerance,
}

/// What a derivative check takes from outside: the evaluation context; `describe` serialises
/// it with the state, the direction, the steps and the tolerance; `layout` serialises the
/// block layout; `product` applies the Jacobian at the state to a direction; `probe` gives,
/// for one row of the residual, the largest absolute error of each centered difference at
/// the state along a direction against an analytic value; `allowed` gives the error that the
/// tolerance allows beside an analytic value; `seal` serialises the report.
pub struct DerivativeContext<X, C, L, J, P, T, S> where
    C: Fn(
        &X,
        &Vec<Scalar>,
        &Vec<Scalar>,
        &Vec<Scalar>,
        ComparisonTolerance,
    ) -> Result<Vec<u8>, String>,
    L: Fn(&Vec<BlockSpec>) -> Result<Vec<u8>, String>,
    J: Fn(&X, &Vec<Scalar>, &Vec<Scalar>) -> Result<Vec<Scalar>, SolveError>,
    P: Fn(&X, &Vec<Scalar>, &Vec<Scalar>, usize, Scalar, &Vec<Scalar>) -> Result<
        Vec<Scalar>,
        SolveError,
    >,
    T: Fn(ComparisonTolerance, Scalar) -> Scalar,
    S: Fn(&CrossBlockDerivativeReport) -> Result<Vec<u8>, String>,
 {
    pub evaluation: X,
    pub describe: C,
    pub layout: L,
    pub product: J,
    pub probe: P,
    pub allowed: T,
    pub seal: S,
}

impl<X, C, L, J, P, T, S> DerivativeContext<X, C, L, J, P, T, S> where
    C: Fn(
        &X,
        &Vec<Scalar>,
        &Vec<Scalar>,
        &Vec<Scalar>,
        ComparisonTolerance,
    ) -> Result<Vec<u8>, String>,
    L: Fn(&Vec<BlockSpec>) -> Result<Vec<u8>, String>,
    J: Fn(&X, &Vec<Scalar>, &Vec<Scalar>) -> Result<Vec<Scalar>, SolveError>,
    P: Fn(&X, &Vec<Scalar>, &Vec<Scalar>, usize, Scalar, &Vec<Scalar>) -> Result<
        Vec<Scalar>,
        SolveError,
    >,
    T: Fn(ComparisonTolerance, Scalar) -> Scalar,
    S: Fn(&CrossBlockDerivativeReport) -> Result<Vec<u8>, String>,
 {
    /// Every call is admitted, and a product has the dimension of the state.
    pub open spec fn callable(self, dimension: nat) -> bool {
        &&& forall|
            state: &Vec<Scalar>,
            direction: &Vec<Scalar>,
            steps: &Vec<Scalar>,
            tolerance: ComparisonTolerance,
        |
            call_requires(self.describe, (&self.evaluation, state, direction, steps, tolerance))
        &&& forall|blocks: &Vec<BlockSpec>| call_requires(self.layout, (blocks,))
        &&& forall|state: &Vec<Scalar>, direction: &Vec<Scalar>|
            call_requires(self.product, (&self.evaluation, state, direction))
        &&& forall|
            state: &Vec<Scalar>,
            direction: &Vec<Scalar>,
            product: Result<Vec<Scalar>, SolveError>,
        |
            #[trigger] call_ensures(
                self.product,
                (&self.evaluation, state, direction),
                product,
            ) && product is Ok ==> product->Ok_0@.len() == dimension
        &&& forall|
            state: &Vec<Scalar>,
            direction: &Vec<Scalar>,
            row: usize,
            analytic: Scalar,
            steps: &Vec<Scalar>,
        |
            call_requires(
                self.probe,
                (&self.evaluation, state, direction, row, analytic, steps),
            )
        &&& forall|tolerance: ComparisonTolerance, analytic: Scalar|
            call_requires(self.allowed, (tolerance, analytic))
        &&& forall|report: &CrossBlockDerivativeReport| call_requires(self.seal, (report,))
    }
}

/// The check of one target block's residual along a direction in one source block.
#[derive(Clone, Debug, PartialEq, Eq)]
pub struct CrossBlockDerivativeCheck {
    pub source_block: String,
    pub target_block: String,
    pub steps: Vec<Scalar>,
    pub maximum_absolute_errors: Vec<Scalar>,
    pub accepted: bool,
}

#[verifier::ext_equal]
pub struct CheckModel {
    pub source_block: Seq<char>,
    pub target_block: Seq<char>,
    pub steps: Seq<Scalar>,
    pub maximum_absolute_errors: Seq<Scalar>,
    pub accepted: bool,
}

impl View for CrossBlockDerivativeCheck {
    type V = CheckModel;

    open spec fn view(&self) -> CheckModel {
        CheckModel {
            source_block: self.source_block@,
            target_block: self.target_block@,
            steps: self.steps@,
            maximum_absolute_errors: self.maximum_absolute_errors@,
            accepted: self.accepted,
        }
    }
}

pub open spec fn check_models(checks: Seq<CrossBlockDerivativeCheck>) -> Seq<CheckModel> {
    checks.map_values(|check: CrossBlockDerivativeCheck| check@)
}

/// The report of a derivative check.
#[derive(Clone, Debug, PartialEq, Eq)]
pub struct CrossBlockDerivativeReport {
    pub report_digest: String,
    pub binding: VerificationBinding,
    pub checks: Vec<CrossBlockDerivativeCheck>,
    pub passed: bool,
}

#[verifier::ext_equal]
pub struct DerivativeModel {
    pub report_digest: Seq<char>,
    pub binding: BindingModel,
    pub checks: Seq<CheckModel>,
    pub passed: bool,
}

impl View for CrossBlockDerivativeReport {
    type V = DerivativeModel;

    open spec fn view(&self) -> DerivativeModel {
        DerivativeModel {
            report_digest: self.report_digest@,
            binding: self.binding@,
            checks: check_models(self.checks@),
            passed: self.passed,
        }
    }
}

/// Where block `count` starts.
pub open spec fn block_start(blocks: Seq<BlockSpec>, count: int) -> nat
    decreases count,
{
    if count <= 0 {
        0
    } else {
        block_start(blocks, count - 1) + blocks[count - 1].length as nat
    }
}

pub proof fn lemma_block_start_monotone(blocks: Seq<BlockSpec>, i: int, j: int)
    requires
        0 <= i <= j <= blocks.len(),
    ensures
        block_start(blocks, i) <= block_start(blocks, j),
    decreases j - i,
{
    if i < j {
        lemma_block_start_monotone(blocks, i, j - 1);
    }
}

/// Whether `isolated` is the direction inside one block and zero outside.
pub open spec fn isolates(
    isolated: Seq<Scalar>,
    direction: Seq<Scalar>,
    blocks: Seq<BlockSpec>,
    source: int,
) -> bool {
    &&& isolated.len() == direction.len()
    &&& forall|i: int|
        0 <= i < isolated.len() ==> if block_start(blocks, source) <= i < block_start(
            blocks,
            source + 1,
        ) {
            (#[trigger] isolated[i]) == direction[i]
        } else {
            isolated[i].bits() == 0
        }
}

/// Whether the direction vanishes inside a block.
pub open spec fn still(direction: Seq<Scalar>, blocks: Seq<BlockSpec>, source: int) -> bool {
    forall|i: int|
        block_start(blocks, source) <= i < block_start(blocks, source + 1) ==> !(
        #[trigger] direction[i]).nan() && direction[i].rank() == 0
}

/// Whether the first `count` components of a target block were probed with the given
/// errors, beside the given allowances.
pub open spec fn components_probed<X, P, T>(
    at: Probing<'_, X>,
    isolated: Vec<Scalar>,
    derivative: Seq<Scalar>,
    start: int,
    probe: P,
    allowed: T,
    count: int,
    errors: Seq<Vec<Scalar>>,
    bounds: Seq<Scalar>,
) -> bool where
    P: Fn(&X, &Vec<Scalar>, &Vec<Scalar>, usize, Scalar, &Vec<Scalar>) -> Result<
        Vec<Scalar>,
        SolveError,
    >,
    T: Fn(ComparisonTolerance, Scalar) -> Scalar,
 {
    &&& errors.len() == count
    &&& bounds.len() == count
    &&& forall|c: int|
        0 <= c < count ==> #[trigger] component_probed(
            at,
            isolated,
            derivative,
            start,
            probe,
            allowed,
            c,
            errors[c],
            bounds[c],
        )
}

pub open spec fn component_probed<X, P, T>(
    at: Probing<'_, X>,
    isolated: Vec<Scalar>,
    derivative: Seq<Scalar>,
    start: int,
    probe: P,
    allowed: T,
    c: int,
    errors: Vec<Scalar>,
    bound: Scalar,
) -> bool where
    P: Fn(&X, &Vec<Scalar>, &Vec<Scalar>, usize, Scalar, &Vec<Scalar>) -> Result<
        Vec<Scalar>,
        SolveError,
    >,
    T: Fn(ComparisonTolerance, Scalar) -> Scalar,
 {
    &&& call_ensures(
        probe,
        (
            at.evaluation,
            at.state,
            &isolated,
            (start + c) as usize,
            derivative[start + c],
            at.steps,
        ),
        Ok::<Vec<Scalar>, SolveError>(errors),
    )
    &&& call_ensures(allowed, (at.tolerance, derivative[start + c]), bound)
}

/// The running maximum of the errors of one difference step over the first components.
pub open spec fn largest(errors: Seq<Vec<Scalar>>, k: int, count: int) -> Scalar
    decreases count,
{
    if count <= 0 {
        Scalar::nil()
    } else if k < errors[count - 1]@.len() {
        largest(errors, k, count - 1).maximum(errors[count - 1]@[k])
    } else {
        largest(errors, k, count - 1)
    }
}

/// Whether every error lies within the allowance of its component.
pub open spec fn within(errors: Seq<Vec<Scalar>>, bounds: Seq<Scalar>, steps: nat, count: int) -> bool {
    forall|c: int, k: int|
        0 <= c < count && 0 <= k < errors[c]@.len() && k < steps ==> (
        #[trigger] errors[c]@[k]).at_most(bounds[c])
}

/// What the probes of a target block make of it.
pub open spec fn check_of(
    source: Seq<char>,
    target: Seq<char>,
    steps: Seq<Scalar>,
    errors: Seq<Vec<Scalar>>,
    bounds: Seq<Scalar>,
) -> CheckModel {
    CheckModel {
        source_block: source,
        target_block: target,
        steps,
        maximum_absolute_errors: Seq::new(
            steps.len(),
            |k: int| largest(errors, k, errors.len() as int),
        ),
        accepted: within(errors, bounds, steps.len(), errors.len() as int),
    }
}

/// Whether a target block gave a check.
pub open spec fn target_probed<X, P, T>(
    blocks: Seq<BlockSpec>,
    at: Probing<'_, X>,
    source: int,
    isolated: Vec<Scalar>,
    derivative: Seq<Scalar>,
    probe: P,
    allowed: T,
    target: int,
    check: CheckModel,
) -> bool where
    P: Fn(&X, &Vec<Scalar>, &Vec<Scalar>, usize, Scalar, &Vec<Scalar>) -> Result<
        Vec<Scalar>,
        SolveError,
    >,
    T: Fn(ComparisonTolerance, Scalar) -> Scalar,
 {
    exists|errors: Seq<Vec<Scalar>>, bounds: Seq<Scalar>|
        {
            &&& #[trigger] components_probed(
                at,
                isolated,
                derivative,
                block_start(blocks, target) as int,
                probe,
                allowed,
                blocks[target].length as int,
                errors,
                bounds,
            )
            &&& check == check_of(
                blocks[source].name@,
                blocks[target].name@,
                at.steps@,
                errors,
                bounds,
            )
        }
}

/// Whether the first `count` blocks, but for those of the source's name, gave the checks.
pub open spec fn targets_probed<X, P, T>(
    blocks: Seq<BlockSpec>,
    at: Probing<'_, X>,
    source: int,
    isolated: Vec<Scalar>,
    derivative: Seq<Scalar>,
    probe: P,
    allowed: T,
    count: int,
    checks: Seq<CheckModel>,
) -> bool where
    P: Fn(&X, &Vec<Scalar>, &Vec<Scalar>, usize, Scalar, &Vec<Scalar>) -> Result<
        Vec<Scalar>,
        SolveError,
    >,
    T: Fn(ComparisonTolerance, Scalar) -> Scalar,

    decreases count,
{
    if count <= 0 {
        checks.len() == 0
    } else if blocks[count - 1].name@ == blocks[source].name@ {
        targets_probed(
            blocks,
            at,
            source,
            isolated,
            derivative,
            probe,
            allowed,
            count - 1,
            checks,
        )
    } else {
        &&& checks.len() > 0
        &&& targets_probed(
            blocks,
            at,
            source,
            isolated,
            derivative,
            probe,
            allowed,
            count - 1,
            checks.drop_last(),
        )
        &&& target_probed(
            blocks,
            at,
            source,
            isolated,
            derivative,
            probe,
            allowed,
            count - 1,
            checks.last(),
        )
    }
}

/// Whether a source block gave the checks.
pub open spec fn source_probed<X, C, L, J, P, T, S>(
    blocks: Seq<BlockSpec>,
    direction: Seq<Scalar>,
    at: Probing<'_, X>,
    calls: DerivativeContext<X, C, L, J, P, T, S>,
    source: int,
    checks: Seq<CheckModel>,
) -> bool where
    C: Fn(
        &X,
        &Vec<Scalar>,
        &Vec<Scalar>,
        &Vec<Scalar>,
        ComparisonTolerance,
    ) -> Result<Vec<u8>, String>,
    L: Fn(&Vec<BlockSpec>) -> Result<Vec<u8>, String>,
    J: Fn(&X, &Vec<Scalar>, &Vec<Scalar>) -> Result<Vec<Scalar>, SolveError>,
    P: Fn(&X, &Vec<Scalar>, &Vec<Scalar>, usize, Scalar, &Vec<Scalar>) -> Result<
        Vec<Scalar>,
        SolveError,
    >,
    T: Fn(ComparisonTolerance, Scalar) -> Scalar,
    S: Fn(&CrossBlockDerivativeReport) -> Result<Vec<u8>, String>,
 {
    &&& !still(direction, blocks, source)
    &&& exists|isolated: Vec<Scalar>, derivative: Vec<Scalar>|
        {
            &&& isolates(isolated@, direction, blocks, source)
            &&& #[trigger] call_ensures(
                calls.product,
                (at.evaluation, at.state, &isolated),
                Ok::<Vec<Scalar>, SolveError>(derivative),
            )
            &&& targets_probed(
                blocks,
                at,
                source,
                isolated,
                derivative@,
                calls.probe,
                calls.allowed,
                blocks.len() as int,
                checks,
            )
        }
}

/// Whether the first `count` source blocks gave the checks, one source after the other.
pub open spec fn sources_probed<X, C, L, J, P, T, S>(
    blocks: Seq<BlockSpec>,
    direction: Seq<Scalar>,
    at: Probing<'_, X>,
    calls: DerivativeContext<X, C, L, J, P, T, S>,
    count: int,
    checks: Seq<CheckModel>,
) -> bool where
    C: Fn(
        &X,
        &Vec<Scalar>,
        &Vec<Scalar>,
        &Vec<Scalar>,
        ComparisonTolerance,
    ) -> Result<Vec<u8>, String>,
    L: Fn(&Vec<BlockSpec>) -> Result<Vec<u8>, String>,
    J: Fn(&X, &Vec<Scalar>, &Vec<Scalar>) -> Result<Vec<Scalar>, SolveError>,
    P: Fn(&X, &Vec<Scalar>, &Vec<Scalar>, usize, Scalar, &Vec<Scalar>) -> Result<
        Vec<Scalar>,
        SolveError,
    >,
    T: Fn(ComparisonTolerance, Scalar) -> Scalar,
    S: Fn(&CrossBlockDerivativeReport) -> Result<Vec<u8>, String>,

    decreases count,
{
    if count <= 0 {
        checks.len() == 0
    } else {
        exists|earlier: int|
            {
                &&& 0 <= earlier <= checks.len()
                &&& sources_probed(
                    blocks,
                    direction,
                    at,
                    calls,
                    count - 1,
                    checks.take(earlier),
                )
                &&& source_probed(
                    blocks,
                    direction,
                    at,
                    calls,
                    count - 1,
                    #[trigger] checks.skip(earlier),
                )
            }
    }
}

/// Whether a source block was refused.
pub open spec fn source_refused<X, C, L, J, P, T, S>(
    blocks: Seq<BlockSpec>,
    direction: Seq<Scalar>,
    at: Probing<'_, X>,
    calls: DerivativeContext<X, C, L, J, P, T, S>,
    source: int,
    refused: RefusalText,
) -> bool where
    C: Fn(
        &X,
        &Vec<Scalar>,
        &Vec<Scalar>,
        &Vec<Scalar>,
        ComparisonTolerance,
    ) -> Result<Vec<u8>, String>,
    L: Fn(&Vec<BlockSpec>) -> Result<Vec<u8>, String>,
    J: Fn(&X, &Vec<Scalar>, &Vec<Scalar>) -> Result<Vec<Scalar>, SolveError>,
    P: Fn(&X, &Vec<Scalar>, &Vec<Scalar>, usize, Scalar, &Vec<Scalar>) -> Result<
        Vec<Scalar>,
        SolveError,
    >,
    T: Fn(ComparisonTolerance, Scalar) -> Scalar,
    S: Fn(&CrossBlockDerivativeReport) -> Result<Vec<u8>, String>,
 {
    if still(direction, blocks, source) {
        refused == (RefusalText {
            code: "KRASIS_VERIFY_ZERO_BLOCK_DIRECTION"@,
            message: "source block "@ + blocks[source].name@ + " has a zero direction"@,
        })
    } else {
        exists|isolated: Vec<Scalar>, product: Result<Vec<Scalar>, SolveError>|
            {
                &&& isolates(isolated@, direction, blocks, source)
                &&& #[trigger] call_ensures(
                    calls.product,
                    (at.evaluation, at.state, &isolated),
                    product,
                )
                &&& match product {
                    Err(error) => refused == refusal::numeric_refused(error@),
                    Ok(derivative) => targets_refused(
                        blocks,
                        at,
                        source,
                        isolated,
                        derivative@,
                        calls.probe,
                        calls.allowed,
                        refused,
                    ),
                }
            }
    }
}

/// Whether a probe of some target block failed.
pub open spec fn targets_refused<X, P, T>(
    blocks: Seq<BlockSpec>,
    at: Probing<'_, X>,
    source: int,
    isolated: Vec<Scalar>,
    derivative: Seq<Scalar>,
    probe: P,
    allowed: T,
    refused: RefusalText,
) -> bool where
    P: Fn(&X, &Vec<Scalar>, &Vec<Scalar>, usize, Scalar, &Vec<Scalar>) -> Result<
        Vec<Scalar>,
        SolveError,
    >,
    T: Fn(ComparisonTolerance, Scalar) -> Scalar,
 {
    exists|target: int, checks: Seq<CheckModel>|
        {
            &&& 0 <= target < blocks.len()
            &&& blocks[target].name@ != blocks[source].name@
            &&& #[trigger] targets_probed(
                blocks,
                at,
                source,
                isolated,
                derivative,
                probe,
                allowed,
                target,
                checks,
            )
            &&& target_refused(
                blocks,
                at,
                isolated,
                derivative,
                probe,
                allowed,
                target,
                refused,
            )
        }
}

/// Whether the probe of a component of a target block failed.
pub open spec fn target_refused<X, P, T>(
    blocks: Seq<BlockSpec>,
    at: Probing<'_, X>,
    isolated: Vec<Scalar>,
    derivative: Seq<Scalar>,
    probe: P,
    allowed: T,
    target: int,
    refused: RefusalText,
) -> bool where
    P: Fn(&X, &Vec<Scalar>, &Vec<Scalar>, usize, Scalar, &Vec<Scalar>) -> Result<
        Vec<Scalar>,
        SolveError,
    >,
    T: Fn(ComparisonTolerance, Scalar) -> Scalar,
 {
    let start = block_start(blocks, target) as int;
    exists|c: int, errors: Seq<Vec<Scalar>>, bounds: Seq<Scalar>, error: SolveError|
        {
            &&& 0 <= c < blocks[target].length
            &&& #[trigger] components_probed(
                at,
                isolated,
                derivative,
                start,
                probe,
                allowed,
                c,
                errors,
                bounds,
            )
            &&& #[trigger] call_ensures(
                probe,
                (
                    at.evaluation,
                    at.state,
                    &isolated,
                    (start + c) as usize,
                    derivative[start + c],
                    at.steps,
                ),
                Err::<Vec<Scalar>, SolveError>(error),
            )
            &&& refused == refusal::numeric_refused(error@)
        }
}

/// What a derivative report says, before it is sealed.
pub open spec fn derivative_content(binding: BindingModel, checks: Seq<CheckModel>) -> DerivativeModel {
    DerivativeModel {
        report_digest: Seq::empty(),
        binding,
        checks,
        passed: checks.len() > 0 && forall|i: int|
            0 <= i < checks.len() ==> (#[trigger] checks[i]).accepted,
    }
}

pub open spec fn derivative_sealed<S>(
    content: DerivativeModel,
    seal: S,
    result: Result<CrossBlockDerivativeReport, VerificationRefusal>,
) -> bool where S: Fn(&CrossBlockDerivativeReport) -> Result<Vec<u8>, String> {
    exists|unsealed: CrossBlockDerivativeReport, encoded: Result<Vec<u8>, String>|
        {
            &&& unsealed@ == content
            &&& #[trigger] call_ensures(seal, (&unsealed,), encoded)
            &&& match encoded {
                Err(error) => refusal::reports(
                    refusal::serialization_refused(error@),
                    result,
                ),
                Ok(bytes) => result matches Ok(report) && report@ == (DerivativeModel {
                    report_digest: digest::digest_of_bytes(bytes@),
                    ..content
                }),
            }
        }
}

/// What is wrong with the inputs of a derivative check.
pub open spec fn probe_failure(
    tolerance_valid: Result<(), SolveError>,
    blocks: Seq<BlockSpec>,
    state: Seq<Scalar>,
    direction: Seq<Scalar>,
    steps: Seq<Scalar>,
    tolerance: ComparisonTolerance,
) -> Option<RefusalText> {
    match tolerance_valid {
        Err(error) => Some(refusal::numeric_refused(error@)),
        Ok(_) => refusal::either(
            refusal::scalars_failure("cross-block state"@, state, 0),
            refusal::either(
                refusal::scalars_failure("cross-block direction"@, direction, 0),
                refusal::either(
                    refusal::scalars_failure("cross-block steps"@, steps, 0),
                    refusal::either(
                        refusal::float_failure("absolute tolerance"@, tolerance.absolute),
                        refusal::either(
                            refusal::float_failure("relative tolerance"@, tolerance.relative),
                            if blocks.len() < 2 || state.len() != block_start(
                                blocks,
                                blocks.len() as int,
                            ) || direction.len() != state.len() {
                                Some(
                                    RefusalText {
                                        code: "KRASIS_VERIFY_INVALID_BLOCK_PROBE"@,
                                        message: "cross-block checking requires at least two blocks and full state/direction vectors"@,
                                    },
                                )
                            } else {
                                None
                            },
                        ),
                    ),
                ),
            ),
        ),
    }
}

/// What a derivative check gives once it is bound.
pub open spec fn derivative_bound<X, C, L, J, P, T, S>(
    blocks: Seq<BlockSpec>,
    direction: Seq<Scalar>,
    at: Probing<'_, X>,
    calls: DerivativeContext<X, C, L, J, P, T, S>,
    binding: BindingModel,
    result: Result<CrossBlockDerivativeReport, VerificationRefusal>,
) -> bool where
    C: Fn(
        &X,
        &Vec<Scalar>,
        &Vec<Scalar>,
        &Vec<Scalar>,
        ComparisonTolerance,
    ) -> Result<Vec<u8>, String>,
    L: Fn(&Vec<BlockSpec>) -> Result<Vec<u8>, String>,
    J: Fn(&X, &Vec<Scalar>, &Vec<Scalar>) -> Result<Vec<Scalar>, SolveError>,
    P: Fn(&X, &Vec<Scalar>, &Vec<Scalar>, usize, Scalar, &Vec<Scalar>) -> Result<
        Vec<Scalar>,
        SolveError,
    >,
    T: Fn(ComparisonTolerance, Scalar) -> Scalar,
    S: Fn(&CrossBlockDerivativeReport) -> Result<Vec<u8>, String>,
 {
    ||| result is Err && exists|source: int, earlier: Seq<CheckModel>|
        {
            &&& 0 <= source < blocks.len()
            &&& #[trigger] sources_probed(blocks, direction, at, calls, source, earlier)
            &&& source_refused(blocks, direction, at, calls, source, result->Err_0@)
        }
    ||| exists|checks: Seq<CheckModel>|
        {
            &&& #[trigger] sources_probed(
                blocks,
                direction,
                at,
                calls,
                blocks.len() as int,
                checks,
            )
            &&& derivative_sealed(derivative_content(binding, checks), calls.seal, result)
        }
}

/// What a derivative check gives, whatever its outside calls returned.
pub open spec fn derivative_checked<X, C, L, J, P, T, S>(
    blocks: Vec<BlockSpec>,
    operator_identity: Seq<char>,
    state: Vec<Scalar>,
    direction: Vec<Scalar>,
    steps: Vec<Scalar>,
    tolerance: ComparisonTolerance,
    tolerance_valid: Result<(), SolveError>,
    calls: DerivativeContext<X, C, L, J, P, T, S>,
    result: Result<CrossBlockDerivativeReport, VerificationRefusal>,
) -> bool where
    C: Fn(
        &X,
        &Vec<Scalar>,
        &Vec<Scalar>,
        &Vec<Scalar>,
        ComparisonTolerance,
    ) -> Result<Vec<u8>, String>,
    L: Fn(&Vec<BlockSpec>) -> Result<Vec<u8>, String>,
    J: Fn(&X, &Vec<Scalar>, &Vec<Scalar>) -> Result<Vec<Scalar>, SolveError>,
    P: Fn(&X, &Vec<Scalar>, &Vec<Scalar>, usize, Scalar, &Vec<Scalar>) -> Result<
        Vec<Scalar>,
        SolveError,
    >,
    T: Fn(ComparisonTolerance, Scalar) -> Scalar,
    S: Fn(&CrossBlockDerivativeReport) -> Result<Vec<u8>, String>,
 {
    let at = Probing { evaluation: &calls.evaluation, state: &state, steps: &steps, tolerance };
    match probe_failure(tolerance_valid, blocks@, state@, direction@, steps@, tolerance) {
        Some(failure) => refusal::reports(failure, result),
        None => exists|layout: Result<Vec<u8>, String>, described: Result<Vec<u8>, String>|
            {
                &&& #[trigger] call_ensures(calls.layout, (&blocks,), layout)
                &&& #[trigger] call_ensures(
                    calls.describe,
                    (&calls.evaluation, &state, &direction, &steps, tolerance),
                    described,
                )
                &&& match evidence::block_bound(operator_identity, layout, described) {
                    Err(refused) => refusal::reports(refused, result),
                    Ok(binding) => derivative_bound(
                        blocks@,
                        direction@,
                        at,
                        calls,
                        binding,
                        result,
                    ),
                }
            },
    }
}

/// The direction inside one block, zero elsewhere.
fn isolate(
    direction: &Vec<Scalar>,
    blocks: &Vec<BlockSpec>,
    source: usize,
    start: usize,
) -> (result: Vec<Scalar>)
    requires
        source < blocks@.len(),
        start == block_start(blocks@, source as int),
        block_start(blocks@, source + 1) <= direction@.len(),
    ensures
        isolates(result@, direction@, blocks@, source as int),
{
    let mut result = zeros(direction.len());
    let end: usize = start + blocks[source].length;
    let mut index: usize = start;
    while index < end
        invariant
            start <= index <= end <= direction@.len(),
            start == block_start(blocks@, source as int),
            end == block_start(blocks@, source + 1),
            result@.len() == direction@.len(),
            forall|i: int|
                0 <= i < result@.len() ==> if start <= i < index {
                    (#[trigger] result@[i]) == direction@[i]
                } else {
                    result@[i].bits() == 0
                },
        decreases end - index,
    {
        result.set(index, direction[index]);
        index += 1;
    }
    result
}

/// Whether the direction vanishes inside a block.
fn is_still(
    direction: &Vec<Scalar>,
    blocks: &Vec<BlockSpec>,
    source: usize,
    start: usize,
) -> (result: bool)
    requires
        source < blocks@.len(),
        start == block_start(blocks@, source as int),
        block_start(blocks@, source + 1) <= direction@.len(),
    ensures
        result == still(direction@, blocks@, source as int),
{
    let dimension: usize = direction.len();
    assert(block_start(blocks@, source + 1) <= dimension);
    let end: usize = start + blocks[source].length;
    let zero = Scalar::zero();
    let mut index: usize = start;
    while index < end
        invariant
            start <= index <= end <= direction@.len(),
            start == block_start(blocks@, source as int),
            end == block_start(blocks@, source + 1),
            zero.rank() == 0,
            zero.finite(),
            forall|i: int|
                start <= i < index ==> !(#[trigger] direction@[i]).nan() && direction@[i].rank()
                    == 0,
        decreases end - index,
    {
        if !direction[index].is_equal(&zero) {
            assert(direction@[index as int].nan() || direction@[index as int].rank() != 0);
            return false;
        }
        index += 1;
    }
    true
}

/// Takes the errors of one component into the maxima of a check; says whether all lie
/// within the allowance.
fn fold_errors(
    maxima: &mut Vec<Scalar>,
    errors: &Vec<Scalar>,
    bound: Scalar,
    Ghost(earlier): Ghost<Seq<Vec<Scalar>>>,
) -> (accepted: bool)
    requires
        forall|k: int|
            0 <= k < old(maxima)@.len() ==> (#[trigger] old(maxima)@[k]) == largest(
                earlier,
                k,
                earlier.len() as int,
            ),
    ensures
        final(maxima)@.len() == old(maxima)@.len(),
        forall|k: int|
            0 <= k < final(maxima)@.len() ==> (#[trigger] final(maxima)@[k]) == largest(
                earlier.push(*errors),
                k,
                earlier.len() as int + 1,
            ),
        accepted == (forall|k: int|
            0 <= k < errors@.len() && k < old(maxima)@.len() ==> (#[trigger] errors@[k]).at_most(
                bound,
            )),
{
    let ghost before = maxima@;
    let ghost all = earlier.push(*errors);
    proof {
        assert forall|k: int, count: int| 0 <= count <= earlier.len() implies #[trigger] largest(
            all,
            k,
            count,
        ) == largest(earlier, k, count) by {
            lemma_largest_prefix(earlier, *errors, k, count);
        }
    }
    let mut accepted: bool = true;
    let mut index: usize = 0;
    while index < maxima.len() && index < errors.len()
        invariant
            index <= maxima@.len(),
            index <= errors@.len(),
            maxima@.len() == before.len(),
            all == earlier.push(*errors),
            forall|k: int, count: int|
                0 <= count <= earlier.len() ==> #[trigger] largest(all, k, count) == largest(
                    earlier,
                    k,
                    count,
                ),
            forall|k: int|
                0 <= k < before.len() ==> (#[trigger] before[k]) == largest(
                    earlier,
                    k,
                    earlier.len() as int,
                ),
            forall|k: int|
                0 <= k < index ==> (#[trigger] maxima@[k]) == largest(
                    all,
                    k,
                    earlier.len() as int + 1,
                ),
            forall|k: int| index <= k < maxima@.len() ==> (#[trigger] maxima@[k]) == before[k],
            accepted == (forall|k: int|
                0 <= k < index ==> (#[trigger] errors@[k]).at_most(bound)),
        decreases maxima.len() - index,
    {
        let value = errors[index];
        proof {
            assert(maxima@[index as int] == before[index as int]);
            assert(all[earlier.len() as int] == *errors);
            assert(largest(all, index as int, earlier.len() as int + 1) == largest(
                all,
                index as int,
                earlier.len() as int,
            ).maximum(value));
        }
        let grown = maxima[index].larger(&value);
        maxima.set(index, grown);
        accepted = accepted && value.is_at_most(&bound);
        index += 1;
    }
    proof {
        assert forall|k: int| 0 <= k < maxima@.len() implies (#[trigger] maxima@[k]) == largest(
            all,
            k,
            earlier.len() as int + 1,
        ) by {
            assert(all[earlier.len() as int] == *errors);
            if k >= index {
                assert(maxima@[k] == before[k]);
                assert(largest(all, k, earlier.len() as int) == largest(
                    earlier,
                    k,
                    earlier.len() as int,
                ));
            }
        }
    }
    accepted
}

proof fn lemma_largest_prefix(earlier: Seq<Vec<Scalar>>, last: Vec<Scalar>, k: int, count: int)
    requires
        0 <= count <= earlier.len(),
    ensures
        largest(earlier.push(last), k, count) == largest(earlier, k, count),
    decreases count,
{
    if count > 0 {
        lemma_largest_prefix(earlier, last, k, count - 1);
        assert(earlier.push(last)[count - 1] == earlier[count - 1]);
    }
}

/// Probes every component of a target block.
fn probe_target<X, P, T>(
    blocks: &Vec<BlockSpec>,
    at: &Probing<'_, X>,
    source: usize,
    target: usize,
    start: usize,
    isolated: &Vec<Scalar>,
    derivative: &Vec<Scalar>,
    probe: &P,
    allowed: &T,
) -> (result: Result<CrossBlockDerivativeCheck, VerificationRefusal>) where
    P: Fn(&X, &Vec<Scalar>, &Vec<Scalar>, usize, Scalar, &Vec<Scalar>) -> Result<
        Vec<Scalar>,
        SolveError,
    >,
    T: Fn(ComparisonTolerance, Scalar) -> Scalar,

    requires
        source < blocks@.len(),
        target < blocks@.len(),
        start == block_start(blocks@, target as int),
        block_start(blocks@, target + 1) <= derivative@.len(),
        forall|row: usize, analytic: Scalar|
            call_requires(
                *probe,
                (at.evaluation, at.state, isolated, row, analytic, at.steps),
            ),
        forall|analytic: Scalar| call_requires(*allowed, (at.tolerance, analytic)),
    ensures
        match result {
            Ok(check) => target_probed(
                blocks@,
                *at,
                source as int,
                *isolated,
                derivative@,
                *probe,
                *allowed,
                target as int,
                check@,
            ),
            Err(refused) => target_refused(
                blocks@,
                *at,
                *isolated,
                derivative@,
                *probe,
                *allowed,
                target as int,
                refused@,
            ),
        },
{
    let length: usize = blocks[target].length;
    let dimension: usize = derivative.len();
    let mut maxima = zero_maxima(at.steps.len());
    let mut accepted: bool = true;
    let ghost mut errors: Seq<Vec<Scalar>> = Seq::empty();
    let ghost mut bounds: Seq<Scalar> = Seq::empty();
    let mut component: usize = 0;
    while component < length
        invariant
            component <= length,
            length == blocks@[target as int].length,
            target < blocks@.len(),
            start == block_start(blocks@, target as int),
            start + length <= derivative@.len(),
            dimension == derivative@.len(),
            maxima@.len() == at.steps@.len(),
            components_probed(
                *at,
                *isolated,
                derivative@,
                start as int,
                *probe,
                *allowed,
                component as int,
                errors,
                bounds,
            ),
            forall|k: int|
                0 <= k < maxima@.len() ==> (#[trigger] maxima@[k]) == largest(
                    errors,
                    k,
                    component as int,
                ),
            accepted == within(errors, bounds, at.steps@.len(), component as int),
            forall|row: usize, analytic: Scalar|
                call_requires(
                    *probe,
                    (at.evaluation, at.state, isolated, row, analytic, at.steps),
                ),
            forall|analytic: Scalar| call_requires(*allowed, (at.tolerance, analytic)),
        decreases length - component,
    {
        let row: usize = start + component;
        let analytic = derivative[row];
        let probed = probe(at.evaluation, at.state, isolated, row, analytic, at.steps);
        let found = match probed {
            Ok(found) => found,
            Err(error) => {
                let ghost failed = error;
                let refused = numeric_refusal(error);
                proof {
                    let base: int = start as int;
                    let c: int = component as int;
                    assert(call_ensures(
                        *probe,
                        (
                            at.evaluation,
                            at.state,
                            isolated,
                            (base + c) as usize,
                            derivative@[base + c],
                            at.steps,
                        ),
                        Err::<Vec<Scalar>, SolveError>(failed),
                    ));
                }
                return Err(refused);
            },
        };
        let bound = allowed(at.tolerance, analytic);
        let ghost before_errors = errors;
        let ghost before_bounds = bounds;
        proof {
            errors = before_errors.push(found);
            bounds = before_bounds.push(bound);
        }
        let fits: bool = fold_errors(&mut maxima, &found, bound, Ghost(before_errors));
        proof {
            let base: int = start as int;
            let last: int = component as int;
            assert(component_probed(
                *at,
                *isolated,
                derivative@,
                base,
                *probe,
                *allowed,
                last,
                errors[last],
                bounds[last],
            ));
            assert forall|c: int| 0 <= c < component + 1 implies #[trigger] component_probed(
                *at,
                *isolated,
                derivative@,
                base,
                *probe,
                *allowed,
                c,
                errors[c],
                bounds[c],
            ) by {
                if c < last {
                    assert(errors[c] == before_errors[c]);
                    assert(bounds[c] == before_bounds[c]);
                }
            }
            if accepted && fits {
                assert forall|c: int, k: int|
                    0 <= c < component + 1 && 0 <= k < errors[c]@.len() && k
                        < at.steps@.len() implies (#[trigger] errors[c]@[k]).at_most(bounds[c]) by {
                    if c < last {
                        assert(errors[c] == before_errors[c]);
                        assert(bounds[c] == before_bounds[c]);
                        assert(before_errors[c]@[k].at_most(before_bounds[c]));
                    } else {
                        assert(found@[k].at_most(bound));
                    }
                }
            } else if !accepted {
                let (c, k) = choose|c: int, k: int|
                    0 <= c < component && 0 <= k < before_errors[c]@.len() && k < at.steps@.len()
                        && !(#[trigger] before_errors[c]@[k]).at_most(before_bounds[c]);
                assert(errors[c] == before_errors[c]);
                assert(bounds[c] == before_bounds[c]);
                assert(!errors[c]@[k].at_most(bounds[c]));
            } else {
                let k = choose|k: int|
                    0 <= k < found@.len() && k < at.steps@.len() && !(
                    #[trigger] found@[k]).at_most(bound);
                assert(errors[last] == found);
                assert(!errors[last]@[k].at_most(bounds[last]));
            }
        }
        accepted = accepted && fits;
        component += 1;
    }
    let check = CrossBlockDerivativeCheck {
        source_block: blocks[source].name.clone(),
        target_block: blocks[target].name.clone(),
        steps: copy_scalars(at.steps),
        maximum_absolute_errors: maxima,
        accepted,
    };
    proof {
        let expected = check_of(
            blocks@[source as int].name@,
            blocks@[target as int].name@,
            at.steps@,
            errors,
            bounds,
        );
        assert(check@.maximum_absolute_errors =~= expected.maximum_absolute_errors);
        assert(check@ == expected);
    }
    Ok(check)
}

fn zero_maxima(count: usize) -> (result: Vec<Scalar>)
    ensures
        result@.len() == count,
        forall|k: int| 0 <= k < count ==> (#[trigger] result@[k]) == Scalar::nil(),
{
    let mut result: Vec<Scalar> = Vec::new();
    while result.len() < count
        invariant
            result.len() <= count,
            forall|k: int| 0 <= k < result@.len() ==> (#[trigger] result@[k]) == Scalar::nil(),
        decreases count - result.len(),
    {
        result.push(Scalar::zero());
    }
    result
}

/// Probes every other block along the direction inside one block.
fn probe_source<X, C, L, J, P, T, S>(
    blocks: &Vec<BlockSpec>,
    direction: &Vec<Scalar>,
    at: &Probing<'_, X>,
    source: usize,
    start: usize,
    calls: &DerivativeContext<X, C, L, J, P, T, S>,
) -> (result: Result<Vec<CrossBlockDerivativeCheck>, VerificationRefusal>) where
    C: Fn(
        &X,
        &Vec<Scalar>,
        &Vec<Scalar>,
        &Vec<Scalar>,
        ComparisonTolerance,
    ) -> Result<Vec<u8>, String>,
    L: Fn(&Vec<BlockSpec>) -> Result<Vec<u8>, String>,
    J: Fn(&X, &Vec<Scalar>, &Vec<Scalar>) -> Result<Vec<Scalar>, SolveError>,
    P: Fn(&X, &Vec<Scalar>, &Vec<Scalar>, usize, Scalar, &Vec<Scalar>) -> Result<
        Vec<Scalar>,
        SolveError,
    >,
    T: Fn(ComparisonTolerance, Scalar) -> Scalar,
    S: Fn(&CrossBlockDerivativeReport) -> Result<Vec<u8>, String>,

    requires
        source < blocks@.len(),
        start == block_start(blocks@, source as int),
        block_start(blocks@, blocks@.len() as int) == direction@.len(),
        calls.callable(direction@.len()),
        at.evaluation == &calls.evaluation,
    ensures
        match result {
            Ok(checks) => source_probed(
                blocks@,
                direction@,
                *at,
                *calls,
                source as int,
                check_models(checks@),
            ),
            Err(refused) => source_refused(
                blocks@,
                direction@,
                *at,
                *calls,
                source as int,
                refused@,
            ),
        },
{
    proof {
        lemma_block_start_monotone(blocks@, source + 1, blocks@.len() as int);
    }
    if is_still(direction, blocks, source, start) {
        return Err(
            refusal::refusal(
                "KRASIS_VERIFY_ZERO_BLOCK_DIRECTION",
                "source block ".to_owned().concat(blocks[source].name.as_str()).concat(
                    " has a zero direction",
                ).as_str(),
            ),
        );
    }
    let isolated = isolate(direction, blocks, source, start);
    let product = (calls.product)(at.evaluation, at.state, &isolated);
    let ghost produced = product;
    assert(call_ensures(calls.product, (at.evaluation, at.state, &isolated), produced));
    let derivative = match product {
        Ok(derivative) => derivative,
        Err(error) => {
            return Err(numeric_refusal(error));
        },
    };
    let dimension: usize = direction.len();
    let mut checks: Vec<CrossBlockDerivativeCheck> = Vec::new();
    let mut target: usize = 0;
    let mut offset: usize = 0;
    assert(check_models(checks@).len() == 0);
    while target < blocks.len()
        invariant
            target <= blocks@.len(),
            source < blocks@.len(),
            offset == block_start(blocks@, target as int),
            block_start(blocks@, blocks@.len() as int) == direction@.len(),
            derivative@.len() == direction@.len(),
            dimension == direction@.len(),
            !still(direction@, blocks@, source as int),
            isolates(isolated@, direction@, blocks@, source as int),
            produced == Ok::<Vec<Scalar>, SolveError>(derivative),
            call_ensures(calls.product, (at.evaluation, at.state, &isolated), produced),
            calls.callable(direction@.len()),
            at.evaluation == &calls.evaluation,
            targets_probed(
                blocks@,
                *at,
                source as int,
                isolated,
                derivative@,
                calls.probe,
                calls.allowed,
                target as int,
                check_models(checks@),
            ),
        decreases blocks.len() - target,
    {
        proof {
            lemma_block_start_monotone(blocks@, target + 1, blocks@.len() as int);
        }
        let ghost before = check_models(checks@);
        if !same_text(blocks[target].name.as_str(), blocks[source].name.as_str()) {
            match probe_target(
                blocks,
                at,
                source,
                target,
                offset,
                &isolated,
                &derivative,
                &calls.probe,
                &calls.allowed,
            ) {
                Ok(check) => {
                    checks.push(check);
                    proof {
                        assert(check_models(checks@) =~= before.push(check@));
                        assert(check_models(checks@).drop_last() =~= before);
                    }
                },
                Err(refused) => {
                    proof {
                        assert(targets_refused(
                            blocks@,
                            *at,
                            source as int,
                            isolated,
                            derivative@,
                            calls.probe,
                            calls.allowed,
                            refused@,
                        ));
                    }
                    return Err(refused);
                },
            }
        }
        offset = offset + blocks[target].length;
        target += 1;
    }
    Ok(checks)
}

/// Checks every off-diagonal block of the Jacobian, one source block at a time, against
/// centered differences. The report's identities cover what the calls make of the block
/// layout and of the evaluation context, the state, the direction, the steps and the
/// tolerance; `tolerance_valid` is what validating the tolerance gave.
pub fn check_cross_block_derivatives<X, C, L, J, P, T, S>(
    blocks: &Vec<BlockSpec>,
    operator_identity: &str,
    state: &Vec<Scalar>,
    direction: &Vec<Scalar>,
    steps: &Vec<Scalar>,
    tolerance: ComparisonTolerance,
    tolerance_valid: Result<(), SolveError>,
    calls: &DerivativeContext<X, C, L, J, P, T, S>,
) -> (result: Result<CrossBlockDerivativeReport, VerificationRefusal>) where
    C: Fn(
        &X,
        &Vec<Scalar>,
        &Vec<Scalar>,
        &Vec<Scalar>,
        ComparisonTolerance,
    ) -> Result<Vec<u8>, String>,
    L: Fn(&Vec<BlockSpec>) -> Result<Vec<u8>, String>,
    J: Fn(&X, &Vec<Scalar>, &Vec<Scalar>) -> Result<Vec<Scalar>, SolveError>,
    P: Fn(&X, &Vec<Scalar>, &Vec<Scalar>, usize, Scalar, &Vec<Scalar>) -> Result<
        Vec<Scalar>,
        SolveError,
    >,
    T: Fn(ComparisonTolerance, Scalar) -> Scalar,
    S: Fn(&CrossBlockDerivativeReport) -> Result<Vec<u8>, String>,

    requires
        block_start(blocks@, blocks@.len() as int) <= usize::MAX,
        calls.callable(block_start(blocks@, blocks@.len() as int)),
    ensures
        derivative_checked(
            *blocks,
            operator_identity@,
            *state,
            *direction,
            *steps,
            tolerance,
            tolerance_valid,
            *calls,
            result,
        ),
{
    match validate_probe(tolerance_valid, blocks, state, direction, steps, tolerance) {
        Ok(_) => {},
        Err(error) => {
            return Err(error);
        },
    }
    let layout = (calls.layout)(blocks);
    let ghost laid_out = layout;
    assert(call_ensures(calls.layout, (blocks,), laid_out));
    let told = (calls.describe)(&calls.evaluation, state, direction, steps, tolerance);
    let ghost described = told;
    assert(call_ensures(
        calls.describe,
        (&calls.evaluation, state, direction, steps, tolerance),
        described,
    ));
    let binding = match block_binding(operator_identity, layout, told) {
        Ok(binding) => binding,
        Err(error) => {
            return Err(error);
        },
    };
    let at = Probing { evaluation: &calls.evaluation, state, steps, tolerance };
    let dimension: usize = direction.len();
    let mut checks: Vec<CrossBlockDerivativeCheck> = Vec::new();
    let mut source: usize = 0;
    let mut start: usize = 0;
    assert(check_models(checks@).len() == 0);
    while source < blocks.len()
        invariant
            source <= blocks@.len(),
            start == block_start(blocks@, source as int),
            block_start(blocks@, blocks@.len() as int) == direction@.len(),
            dimension == direction@.len(),
            calls.callable(direction@.len()),
            sources_probed(
                blocks@,
                direction@,
                at,
                *calls,
                source as int,
                check_models(checks@),
            ),
            at == (Probing { evaluation: &calls.evaluation, state, steps, tolerance }),
            probe_failure(
                tolerance_valid,
                blocks@,
                state@,
                direction@,
                steps@,
                tolerance,
            ) is None,
            call_ensures(calls.layout, (blocks,), laid_out),
            call_ensures(
                calls.describe,
                (&calls.evaluation, state, direction, steps, tolerance),
                described,
            ),
            evidence::block_bound(operator_identity@, laid_out, described) == Ok::<
                BindingModel,
                RefusalText,
            >(binding@),
        decreases blocks.len() - source,
    {
        proof {
            lemma_block_start_monotone(blocks@, source + 1, blocks@.len() as int);
        }
        let ghost before = check_models(checks@);
        match probe_source(blocks, direction, &at, source, start, calls) {
            Ok(found) => {
                let ghost mine = check_models(found@);
                let mut found = found;
                let ghost listed = checks@;
                let ghost added = found@;
                checks.append(&mut found);
                proof {
                    let all = check_models(checks@);
                    assert(checks@ =~= listed + added);
                    assert(all =~= before + mine);
                    assert(all.take(before.len() as int) =~= before);
                    assert(all.skip(before.len() as int) =~= mine);
                }
            },
            Err(refused) => {
                let result: Result<CrossBlockDerivativeReport, VerificationRefusal> = Err(
                    refused,
                );
                assert(source_refused(
                    blocks@,
                    direction@,
                    at,
                    *calls,
                    source as int,
                    result->Err_0@,
                ));
                assert(derivative_bound(blocks@, direction@, at, *calls, binding@, result));
                return result;
            },
        }
        start = start + blocks[source].length;
        source += 1;
    }
    let all_accepted: bool = every_accepted(&checks);
    let passed: bool = checks.len() > 0 && all_accepted;
    let mut report = CrossBlockDerivativeReport {
        report_digest: String::new(),
        binding,
        checks,
        passed,
    };
    let ghost unsealed = report;
    let ghost content = derivative_content(binding@, check_models(checks@));
    assert(unsealed@ == content);
    let sealed = (calls.seal)(&report);
    assert(call_ensures(calls.seal, (&unsealed,), sealed));
    let result = match sealed {
        Ok(bytes) => {
            report.report_digest = digest_bytes(&bytes);
            Ok(report)
        },
        Err(error) => Err(serialization_refusal(error)),
    };
    assert(derivative_sealed(content, calls.seal, result));
    assert(derivative_bound(blocks@, direction@, at, *calls, content.binding, result));
    result
}

fn every_accepted(checks: &Vec<CrossBlockDerivativeCheck>) -> (result: bool)
    ensures
        result == (forall|i: int|
            0 <= i < check_models(checks@).len() ==> (#[trigger] check_models(
                checks@,
            )[i]).accepted),
{
    let ghost models = check_models(checks@);
    let mut index: usize = 0;
    while index < checks.len()
        invariant
            index <= checks.len(),
            models == check_models(checks@),
            forall|i: int| 0 <= i < index ==> (#[trigger] models[i]).accepted,
        decreases checks.len() - index,
    {
        assert(models[index as int] == checks@[index as int]@);
        if !checks[index].accepted {
            return false;
        }
        index += 1;
    }
    true
}

/// Checks the inputs of a derivative check.
fn validate_probe(
    tolerance_valid: Result<(), SolveError>,
    blocks: &Vec<BlockSpec>,
    state: &Vec<Scalar>,
    direction: &Vec<Scalar>,
    steps: &Vec<Scalar>,
    tolerance: ComparisonTolerance,
) -> (result: Result<(), VerificationRefusal>)
    requires
        block_start(blocks@, blocks@.len() as int) <= usize::MAX,
    ensures
        refusal::checked(
            probe_failure(tolerance_valid, blocks@, state@, direction@, steps@, tolerance),
            result,
        ),
{
    match tolerance_valid {
        Ok(_) => {},
        Err(error) => {
            return Err(numeric_refusal(error));
        },
    }
    match validate_float_slice("cross-block state", state) {
        Ok(_) => {},
        Err(error) => {
            return Err(error);
        },
    }
    match validate_float_slice("cross-block direction", direction) {
        Ok(_) => {},
        Err(error) => {
            return Err(error);
        },
    }
    match validate_float_slice("cross-block steps", steps) {
        Ok(_) => {},
        Err(error) => {
            return Err(error);
        },
    }
    match validate_identity_float("absolute tolerance", tolerance.absolute) {
        Ok(_) => {},
        Err(error) => {
            return Err(error);
        },
    }
    match validate_identity_float("relative tolerance", tolerance.relative) {
        Ok(_) => {},
        Err(error) => {
            return Err(error);
        },
    }
    let mut dimension: usize = 0;
    let mut index: usize = 0;
    while index < blocks.len()
        invariant
            index <= blocks@.len(),
            dimension == block_start(blocks@, index as int),
            block_start(blocks@, blocks@.len() as int) <= usize::MAX,
        decreases blocks.len() - index,
    {
        proof {
            lemma_block_start_monotone(blocks@, index + 1, blocks@.len() as int);
        }
        dimension = dimension + blocks[index].length;
        index += 1;
    }
    if blocks.len() < 2 || state.len() != dimension || direction.len() != state.len() {
        return Err(
            refusal::refusal(
                "KRASIS_VERIFY_INVALID_BLOCK_PROBE",
                "cross-block checking requires at least two blocks and full state/direction vectors",
            ),
        );
    }
    Ok(())
}

/// Whether two checks agree: names and verdicts are equal, scalars equal in value.
pub open spec fn check_agrees(left: CheckModel, right: CheckModel) -> bool {
    &&& left.source_block == right.source_block
    &&& left.target_block == right.target_block
    &&& numeric::same_values(left.steps, right.steps)
    &&& numeric::same_values(left.maximum_absolute_errors, right.maximum_absolute_errors)
    &&& left.accepted == right.accepted
}

/// Whether two derivative reports agree.
pub open spec fn derivative_agrees(left: DerivativeModel, right: DerivativeModel) -> bool {
    &&& left.report_digest == right.report_digest
    &&& left.binding == right.binding
    &&& left.checks.len() == right.checks.len()
    &&& forall|i: int|
        0 <= i < left.checks.len() ==> check_agrees(#[trigger] left.checks[i], right.checks[i])
    &&& left.passed == right.passed
}

pub fn same_derivative_report(
    left: &CrossBlockDerivativeReport,
    right: &CrossBlockDerivativeReport,
) -> (result: bool)
    ensures
        result == derivative_agrees(left@, right@),
{
    assert(left@.checks.len() == left.checks@.len());
    assert(right@.checks.len() == right.checks@.len());
    if !same_text(left.report_digest.as_str(), right.report_digest.as_str()) || !same_binding(
        &left.binding,
        &right.binding,
    ) || left.checks.len() != right.checks.len() || left.passed != right.passed {
        return false;
    }
    let mut index: usize = 0;
    while index < left.checks.len()
        invariant
            index <= left.checks.len(),
            left.checks.len() == right.checks.len(),
            left@.checks.len() == left.checks@.len(),
            forall|i: int|
                0 <= i < index ==> check_agrees(#[trigger] left@.checks[i], right@.checks[i]),
        decreases left.checks.len() - index,
    {
        let mine = &left.checks[index];
        let theirs = &right.checks[index];
        assert(left@.checks[index as int] == mine@);
        assert(right@.checks[index as int] == theirs@);
        if mine.accepted != theirs.accepted || !same_text(
            mine.source_block.as_str(),
            theirs.source_block.as_str(),
        ) || !same_text(mine.target_block.as_str(), theirs.target_block.as_str())
            || !equal_values(&mine.steps, &theirs.steps) || !equal_values(
            &mine.maximum_absolute_errors,
            &theirs.maximum_absolute_errors,
        ) {
            assert(!check_agrees(left@.checks[index as int], right@.checks[index as int]));
            return false;
        }
        index += 1;
    }
    true
}

impl CrossBlockDerivativeReport {
    /// Confirms the report by recomputing it.
    pub fn validate<X, C, L, J, P, T, S>(
        &self,
        blocks: &Vec<BlockSpec>,
        operator_identity: &str,
        state: &Vec<Scalar>,
        direction: &Vec<Scalar>,
        steps: &Vec<Scalar>,
        tolerance: ComparisonTolerance,
        tolerance_valid: Result<(), SolveError>,
        calls: &DerivativeContext<X, C, L, J, P, T, S>,
    ) -> (result: Result<ValidatedKrasisVerification, VerificationRefusal>) where
        C: Fn(
            &X,
            &Vec<Scalar>,
            &Vec<Scalar>,
            &Vec<Scalar>,
            ComparisonTolerance,
        ) -> Result<Vec<u8>, String>,
        L: Fn(&Vec<BlockSpec>) -> Result<Vec<u8>, String>,
        J: Fn(&X, &Vec<Scalar>, &Vec<Scalar>) -> Result<Vec<Scalar>, SolveError>,
        P: Fn(&X, &Vec<Scalar>, &Vec<Scalar>, usize, Scalar, &Vec<Scalar>) -> Result<
            Vec<Scalar>,
            SolveError,
        >,
        T: Fn(ComparisonTolerance, Scalar) -> Scalar,
        S: Fn(&CrossBlockDerivativeReport) -> Result<Vec<u8>, String>,

        requires
            block_start(blocks@, blocks@.len() as int) <= usize::MAX,
            calls.callable(block_start(blocks@, blocks@.len() as int)),
        ensures
            exists|expected: Result<CrossBlockDerivativeReport, VerificationRefusal>|
                {
                    &&& #[trigger] derivative_checked(
                        *blocks,
                        operator_identity@,
                        *state,
                        *direction,
                        *steps,
                        tolerance,
                        tolerance_valid,
                        *calls,
                        expected,
                    )
                    &&& match expected {
                        Err(refused) => result == Err::<
                            ValidatedKrasisVerification,
                            VerificationRefusal,
                        >(refused),
                        Ok(report) => verification::validated(
                            derivative_agrees(self@, report@),
                            self.passed,
                            result,
                        ),
                    }
                },
    {
        let expected = check_cross_block_derivatives(
            blocks,
            operator_identity,
            state,
            direction,
            steps,
            tolerance,
            tolerance_valid,
            calls,
        );
        let ghost recomputed = expected;
        assert(derivative_checked(
            *blocks,
            operator_identity@,
            *state,
            *direction,
            *steps,
            tolerance,
            tolerance_valid,
            *calls,
            recomputed,
        ));
        match expected {
            Err(error) => Err(error),
            Ok(report) => require_report(same_derivative_report(self, &report), self.passed),
        }
    }
}

proof fn lemma_targets_cross<X, P, T>(
    blocks: Seq<BlockSpec>,
    at: Probing<'_, X>,
    source: int,
    isolated: Vec<Scalar>,
    derivative: Seq<Scalar>,
    probe: P,
    allowed: T,
    count: int,
    checks: Seq<CheckModel>,
) where
    P: Fn(&X, &Vec<Scalar>, &Vec<Scalar>, usize, Scalar, &Vec<Scalar>) -> Result<
        Vec<Scalar>,
        SolveError,
    >,
    T: Fn(ComparisonTolerance, Scalar) -> Scalar,

    requires
        0 <= count <= blocks.len(),
        targets_probed(
            blocks,
            at,
            source,
            isolated,
            derivative,
            probe,
            allowed,
            count,
            checks,
        ),
    ensures
        forall|i: int|
            0 <= i < checks.len() ==> (#[trigger] checks[i]).source_block == blocks[source].name@
                && checks[i].target_block != blocks[source].name@,
        forall|t: int|
            0 <= t < count && (#[trigger] blocks[t]).name@ != blocks[source].name@ ==> exists|
                i: int,
            |
                0 <= i < checks.len() && (#[trigger] checks[i]).target_block == blocks[t].name@,
    decreases count,
{
    if count > 0 {
        let last = count - 1;
        if blocks[last].name@ == blocks[source].name@ {
            lemma_targets_cross(
                blocks,
                at,
                source,
                isolated,
                derivative,
                probe,
                allowed,
                last,
                checks,
            );
        } else {
            let earlier = checks.drop_last();
            lemma_targets_cross(
                blocks,
                at,
                source,
                isolated,
                derivative,
                probe,
                allowed,
                last,
                earlier,
            );
            assert forall|i: int| 0 <= i < checks.len() implies (#[trigger] checks[i]).source_block
                == blocks[source].name@ && checks[i].target_block != blocks[source].name@ by {
                if i < earlier.len() {
                    assert(checks[i] == earlier[i]);
                }
            }
            assert forall|t: int|
                0 <= t < count && (#[trigger] blocks[t]).name@
                    != blocks[source].name@ implies exists|i: int|
                0 <= i < checks.len() && (#[trigger] checks[i]).target_block
                    == blocks[t].name@ by {
                if t < last {
                    let i = choose|i: int|
                        0 <= i < earlier.len() && (#[trigger] earlier[i]).target_block
                            == blocks[t].name@;
                    assert(checks[i] == earlier[i]);
                } else {
                    assert(checks[checks.len() - 1].target_block == blocks[t].name@);
                }
            }
        }
    }
}

/// A derivative check covers exactly the off-diagonal: no check stays inside a block, and
/// every pair of blocks of different names has its check.
pub proof fn law_checks_cover_off_diagonal<X, C, L, J, P, T, S>(
    blocks: Seq<BlockSpec>,
    direction: Seq<Scalar>,
    at: Probing<'_, X>,
    calls: DerivativeContext<X, C, L, J, P, T, S>,
    count: int,
    checks: Seq<CheckModel>,
) where
    C: Fn(
        &X,
        &Vec<Scalar>,
        &Vec<Scalar>,
        &Vec<Scalar>,
        ComparisonTolerance,
    ) -> Result<Vec<u8>, String>,
    L: Fn(&Vec<BlockSpec>) -> Result<Vec<u8>, String>,
    J: Fn(&X, &Vec<Scalar>, &Vec<Scalar>) -> Result<Vec<Scalar>, SolveError>,
    P: Fn(&X, &Vec<Scalar>, &Vec<Scalar>, usize, Scalar, &Vec<Scalar>) -> Result<
        Vec<Scalar>,
        SolveError,
    >,
    T: Fn(ComparisonTolerance, Scalar) -> Scalar,
    S: Fn(&CrossBlockDerivativeReport) -> Result<Vec<u8>, String>,

    requires
        0 <= count <= blocks.len(),
        sources_probed(blocks, direction, at, calls, count, checks),
    ensures
        forall|i: int|
            0 <= i < checks.len() ==> (#[trigger] checks[i]).source_block
                != checks[i].target_block,
        forall|s: int, t: int|
            0 <= s < count && 0 <= t < blocks.len() && (#[trigger] blocks[s]).name@ != (
            #[trigger] blocks[t]).name@ ==> exists|i: int|
                0 <= i < checks.len() && (#[trigger] checks[i]).source_block == blocks[s].name@
                    && checks[i].target_block == blocks[t].name@,
    decreases count,
{
    if count > 0 {
        let source = count - 1;
        let split = choose|earlier: int|
            {
                &&& 0 <= earlier <= checks.len()
                &&& sources_probed(
                    blocks,
                    direction,
                    at,
                    calls,
                    count - 1,
                    checks.take(earlier),
                )
                &&& source_probed(
                    blocks,
                    direction,
                    at,
                    calls,
                    count - 1,
                    #[trigger] checks.skip(earlier),
                )
            };
        let earlier = checks.take(split);
        let mine = checks.skip(split);
        law_checks_cover_off_diagonal(blocks, direction, at, calls, source, earlier);
        let (isolated, derivative) = choose|isolated: Vec<Scalar>, derivative: Vec<Scalar>|
            {
                &&& isolates(isolated@, direction, blocks, source)
                &&& #[trigger] call_ensures(
                    calls.product,
                    (at.evaluation, at.state, &isolated),
                    Ok::<Vec<Scalar>, SolveError>(derivative),
                )
                &&& targets_probed(
                    blocks,
                    at,
                    source,
                    isolated,
                    derivative@,
                    calls.probe,
                    calls.allowed,
                    blocks.len() as int,
                    mine,
                )
            };
        lemma_targets_cross(
            blocks,
            at,
            source,
            isolated,
            derivative@,
            calls.probe,
            calls.allowed,
            blocks.len() as int,
            mine,
        );
        assert forall|i: int| 0 <= i < checks.len() implies (#[trigger] checks[i]).source_block
            != checks[i].target_block by {
            if i < split {
                assert(checks[i] == earlier[i]);
            } else {
                assert(checks[i] == mine[i - split]);
            }
        }
        assert forall|s: int, t: int|
            0 <= s < count && 0 <= t < blocks.len() && (#[trigger] blocks[s]).name@ != (
            #[trigger] blocks[t]).name@ implies exists|i: int|
            0 <= i < checks.len() && (#[trigger] checks[i]).source_block == blocks[s].name@
                && checks[i].target_block == blocks[t].name@ by {
            if s < source {
                let i = choose|i: int|
                    0 <= i < earlier.len() && (#[trigger] earlier[i]).source_block
                        == blocks[s].name@ && earlier[i].target_block == blocks[t].name@;
                assert(checks[i] == earlier[i]);
            } else {
                let i = choose|i: int|
                    0 <= i < mine.len() && (#[trigger] mine[i]).target_block == blocks[t].name@;
                assert(checks[split + i] == mine[i]);
            }
        }
    }
}

} // verus!
