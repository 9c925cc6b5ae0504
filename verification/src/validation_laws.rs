//! When a report is confirmed, and what evidence is bound to a check.
use crate::derivative;
use crate::derivative::CrossBlockDerivativeReport;
use crate::event_check;
use crate::event_check::EventStateReport;
use crate::evidence;
use crate::evidence::{
    EntryModel, EvidenceKind, FinitumSourceBinding, FinitumVerificationSource, SourceModel,
    VerificationBinding,
};
use crate::execution_model::ExecutionModel;
use crate::realization::FinitumRealization;
use crate::refusal::{RefusalText, VerificationRefusal};
use crate::restart;
use crate::restart::RestartTrajectoryReport;
use crate::scalar::Scalar;
use crate::strategy;
use crate::strategy::{StrategyOutcome, StrategyWorkReport};
use crate::verification;
use crate::verification::ValidatedKrasisVerification;
use vstd::prelude::*;

verus! {

/// A report is confirmed exactly where its recomputation is the same; a confirmed report's
/// verdict is its own.
pub proof fn law_report_is_confirmed_by_the_same_one(
    same: bool,
    passed: bool,
    result: Result<ValidatedKrasisVerification, VerificationRefusal>,
)
    requires
        verification::validated(same, passed, result),
    ensures
        result is Ok <==> same,
        result matches Ok(verdict) ==> verdict.accepted == passed,
{
}

/// Whether scalars are equal in value, one by one.
pub open spec fn equal_in_value(left: Seq<Scalar>, right: Seq<Scalar>) -> bool {
    &&& left.len() == right.len()
    &&& forall|k: int| 0 <= k < left.len() ==> (#[trigger] left[k]).same_value(right[k])
}

/// Restart reports agree exactly where every text, count and flag is equal and both norms
/// are equal in value.
pub proof fn law_restart_reports_agree(
    left: RestartTrajectoryReport,
    right: RestartTrajectoryReport,
)
    ensures
        restart::restart_agrees(left@, right@) <==> {
            &&& left.report_digest@ == right.report_digest@
            &&& left.binding@ == right.binding@
            &&& left.split_after_steps == right.split_after_steps
            &&& left.total_steps == right.total_steps
            &&& left.initial_checkpoint_digest@ == right.initial_checkpoint_digest@
            &&& left.trajectory_l_infinity.same_value(right.trajectory_l_infinity)
            &&& left.trajectory_l2_time.same_value(right.trajectory_l2_time)
            &&& left.continuous_final_checkpoint_digest@ == right.continuous_final_checkpoint_digest@
            &&& left.restarted_final_checkpoint_digest@ == right.restarted_final_checkpoint_digest@
            &&& left.final_checkpoint_byte_identical == right.final_checkpoint_byte_identical
            &&& left.passed == right.passed
        },
{
}

/// Event reports agree exactly where every text and flag is equal and their events are, one
/// by one, with their scalars equal in value.
pub proof fn law_event_reports_agree(left: EventStateReport, right: EventStateReport)
    ensures
        event_check::event_report_agrees(left@, right@) <==> {
            &&& left.report_digest@ == right.report_digest@
            &&& left.binding@ == right.binding@
            &&& left.scope@ == right.scope@
            &&& left.accepted_step == right.accepted_step
            &&& left.events@.len() == right.events@.len()
            &&& forall|k: int|
                0 <= k < left.events@.len() ==> {
                    &&& (#[trigger] left.events@[k]).index == right.events@[k].index
                    &&& left.events@[k].direction == right.events@[k].direction
                    &&& left.events@[k].time.same_value(right.events@[k].time)
                    &&& left.events@[k].value_before.same_value(right.events@[k].value_before)
                    &&& left.events@[k].value_after.same_value(right.events@[k].value_after)
                }
            &&& left.input_state_before_digest@ == right.input_state_before_digest@
            &&& left.input_state_after_digest@ == right.input_state_after_digest@
            &&& left.input_state_unchanged == right.input_state_unchanged
            &&& left.passed == right.passed
        },
{
}

/// Derivative reports agree exactly where digest, binding and verdict are equal and their
/// checks are, one by one, with their scalars equal in value.
pub proof fn law_derivative_reports_agree(
    left: CrossBlockDerivativeReport,
    right: CrossBlockDerivativeReport,
)
    ensures
        derivative::derivative_agrees(left@, right@) <==> {
            &&& left.report_digest@ == right.report_digest@
            &&& left.binding@ == right.binding@
            &&& left.passed == right.passed
            &&& left.checks@.len() == right.checks@.len()
            &&& forall|k: int|
                0 <= k < left.checks@.len() ==> {
                    &&& (#[trigger] left.checks@[k]).source_block@ == right.checks@[k].source_block@
                    &&& left.checks@[k].target_block@ == right.checks@[k].target_block@
                    &&& left.checks@[k].accepted == right.checks@[k].accepted
                    &&& equal_in_value(left.checks@[k].steps@, right.checks@[k].steps@)
                    &&& equal_in_value(
                        left.checks@[k].maximum_absolute_errors@,
                        right.checks@[k].maximum_absolute_errors@,
                    )
                }
        },
{
    let mine = left@.checks;
    let theirs = right@.checks;
    assert(mine.len() == left.checks@.len() && theirs.len() == right.checks@.len());
    if mine.len() == theirs.len() {
        assert forall|k: int| 0 <= k < mine.len() implies derivative::check_agrees(
            #[trigger] mine[k],
            theirs[k],
        ) == {
            &&& left.checks@[k].source_block@ == right.checks@[k].source_block@
            &&& left.checks@[k].target_block@ == right.checks@[k].target_block@
            &&& left.checks@[k].accepted == right.checks@[k].accepted
            &&& equal_in_value(left.checks@[k].steps@, right.checks@[k].steps@)
            &&& equal_in_value(
                left.checks@[k].maximum_absolute_errors@,
                right.checks@[k].maximum_absolute_errors@,
            )
        } by {
            assert(mine[k] == left.checks@[k]@);
            assert(theirs[k] == right.checks@[k]@);
        }
        if forall|k: int|
            0 <= k < mine.len() ==> derivative::check_agrees(#[trigger] mine[k], theirs[k]) {
            assert forall|k: int| 0 <= k < left.checks@.len() implies {
                &&& (#[trigger] left.checks@[k]).source_block@ == right.checks@[k].source_block@
                &&& left.checks@[k].target_block@ == right.checks@[k].target_block@
                &&& left.checks@[k].accepted == right.checks@[k].accepted
                &&& equal_in_value(left.checks@[k].steps@, right.checks@[k].steps@)
                &&& equal_in_value(
                    left.checks@[k].maximum_absolute_errors@,
                    right.checks@[k].maximum_absolute_errors@,
                )
            } by {
                assert(derivative::check_agrees(mine[k], theirs[k]));
            }
        }
    }
}

/// Whether two outcomes are of one kind, with the same work and states equal in value or the
/// same message.
pub open spec fn ended_alike(left: StrategyOutcome, right: StrategyOutcome) -> bool {
    match (left, right) {
        (
            StrategyOutcome::Converged { state: mine, work: spent },
            StrategyOutcome::Converged { state: theirs, work: other },
        ) => equal_in_value(mine@, theirs@) && spent == other,
        (
            StrategyOutcome::NotConverged { state: mine, work: spent },
            StrategyOutcome::NotConverged { state: theirs, work: other },
        ) => equal_in_value(mine@, theirs@) && spent == other,
        (
            StrategyOutcome::Refused { message: mine, work: spent },
            StrategyOutcome::Refused { message: theirs, work: other },
        ) => mine@ == theirs@ && spent == other,
        _ => false,
    }
}

/// Strategy reports agree only where digest, binding and verdict are equal, the same
/// strategies ended in the same way with the same work and states equal in value, and the
/// same pairs were compared with the same verdicts.
pub proof fn law_strategy_reports_agree(left: StrategyWorkReport, right: StrategyWorkReport)
    requires
        strategy::strategy_agrees(left@, right@),
    ensures
        left.report_digest@ == right.report_digest@,
        left.binding@ == right.binding@,
        left.passed == right.passed,
        left.outcomes@.len() == right.outcomes@.len(),
        forall|k: int|
            0 <= k < left.outcomes@.len() ==> {
                &&& (#[trigger] left.outcomes@[k]).0 == right.outcomes@[k].0
                &&& ended_alike(left.outcomes@[k].1, right.outcomes@[k].1)
            },
        left.agreements@.len() == right.agreements@.len(),
        forall|k: int|
            0 <= k < left.agreements@.len() ==> {
                &&& (#[trigger] left.agreements@[k]).left == right.agreements@[k].left
                &&& left.agreements@[k].right == right.agreements@[k].right
                &&& left.agreements@[k].comparison.accepted
                    == right.agreements@[k].comparison.accepted
                &&& left.agreements@[k].comparison.encoding@
                    == right.agreements@[k].comparison.encoding@
            },
{
    assert forall|k: int| 0 <= k < left.outcomes@.len() implies strategy::outcome_agrees(
        (#[trigger] left.outcomes@[k]).1,
        right.outcomes@[k].1,
    ) by {
        assert(left@.outcomes[k].0 == right@.outcomes[k].0);
    }
}

/// Whether a piece of evidence was recomputed against a realization of the identity that it
/// names, of a kind that it can bind to.
pub open spec fn evidence_recomputed<V: Fn(usize, usize) -> Result<bool, String>>(
    entries: Seq<EntryModel>,
    realizations: Seq<FinitumRealization<'_>>,
    validate: V,
    k: int,
    r: int,
    accepted: bool,
) -> bool {
    &&& 0 <= r < realizations.len()
    &&& realizations[r].identity_text() == entries[k].identity
    &&& entries[k].kind == EvidenceKind::RealizationAgreement ==> realizations[r] is Plan
    &&& call_ensures(validate, (k as usize, r as usize), Ok::<bool, String>(accepted))
}

proof fn lemma_position(identities: Seq<Seq<char>>, identity: Seq<char>, from: int)
    requires
        0 <= from,
    ensures
        evidence::position_of(identities, identity, from) matches Some(position) ==> from
            <= position < identities.len() && identities[position] == identity,
    decreases identities.len() - from,
{
    if from < identities.len() {
        lemma_position(identities, identity, from + 1);
    }
}

/// Every piece of evidence is bound with the verdict of its own recomputation, against a
/// realization of the identity that it names; assembly-based agreement binds to plans alone.
/// Together they are accepted exactly where each is.
pub proof fn law_bound_evidence_was_recomputed<V: Fn(usize, usize) -> Result<bool, String>>(
    entries: Seq<EntryModel>,
    realizations: Seq<FinitumRealization<'_>>,
    validate: V,
    bindings: Seq<SourceModel>,
    accepted: bool,
)
    requires
        evidence::evidence_validated(
            entries,
            realizations,
            validate,
            Ok::<(Seq<SourceModel>, bool), RefusalText>((bindings, accepted)),
        ),
    ensures
        realizations.len() > 0,
        bindings.len() == entries.len(),
        forall|k: int|
            0 <= k < entries.len() ==> {
                &&& (#[trigger] bindings[k]).realization_identity == entries[k].identity
                &&& bindings[k].verification == entries[k].header
                &&& exists|r: int| #[trigger]
                    evidence_recomputed(
                        entries,
                        realizations,
                        validate,
                        k,
                        r,
                        bindings[k].accepted,
                    )
            },
        accepted <==> forall|k: int|
            0 <= k < bindings.len() ==> (#[trigger] bindings[k]).accepted,
{
    let identities = evidence::identities_of(realizations);
    assert forall|k: int| 0 <= k < entries.len() implies {
        &&& (#[trigger] bindings[k]).realization_identity == entries[k].identity
        &&& bindings[k].verification == entries[k].header
        &&& exists|r: int| #[trigger]
            evidence_recomputed(entries, realizations, validate, k, r, bindings[k].accepted)
    } by {
        lemma_position(identities, entries[k].identity, 0);
        assert(bindings[k].realization_identity == entries[k].identity);
        assert(evidence::target_of(entries[k], realizations) is Some);
        let r = evidence::target_of(entries[k], realizations)->Some_0;
        assert(identities[r] == realizations[r].identity_text());
        assert(evidence_recomputed(
            entries,
            realizations,
            validate,
            k,
            r,
            bindings[k].accepted,
        ));
    }
}

/// Whether a bound source names a piece of evidence and holds its recomputed verdict.
pub open spec fn tells_evidence<V: Fn(usize, usize) -> Result<bool, String>>(
    source: FinitumSourceBinding,
    entries: Seq<EntryModel>,
    realizations: Seq<FinitumRealization<'_>>,
    validate: V,
    k: int,
) -> bool {
    &&& source.realization_identity@ == entries[k].identity
    &&& source.verification@ == entries[k].header
    &&& exists|r: int| #[trigger]
        evidence_recomputed(entries, realizations, validate, k, r, source.accepted)
}

/// A check over an execution is bound to evidence that was all recomputed, and says accepted
/// exactly where every piece of it was.
pub proof fn law_execution_binding_tells_its_evidence<
    V: Fn(usize, usize) -> Result<bool, String>,
    R: Fn(Scalar) -> String,
>(
    execution: ExecutionModel,
    dimension: nat,
    identity: Seq<char>,
    sources: Seq<FinitumRealization<'_>>,
    described: Result<Vec<u8>, String>,
    entries: Seq<EntryModel>,
    validate: V,
    render: R,
    binding: VerificationBinding,
)
    requires
        evidence::execution_bound(
            execution,
            dimension,
            identity,
            sources,
            described,
            entries,
            validate,
            render,
            Ok::<VerificationBinding, VerificationRefusal>(binding),
        ),
    ensures
        binding.operator_identity@ == identity,
        binding.finitum_sources@.len() == entries.len(),
        binding.finitum_verification_accepted matches Some(accepted) && (accepted <==> forall|
            k: int,
        |
            0 <= k < entries.len() ==> (#[trigger] binding.finitum_sources@[k]).accepted),
        forall|k: int|
            0 <= k < entries.len() ==> tells_evidence(
                #[trigger] binding.finitum_sources@[k],
                entries,
                sources,
                validate,
                k,
            ),
{
    let validated = choose|validated: Result<(Seq<SourceModel>, bool), RefusalText>|
        {
            &&& #[trigger] evidence::evidence_validated(entries, sources, validate, validated)
            &&& match validated {
                Err(refused) => false,
                Ok((bindings, accepted)) => binding@.sources == bindings && binding@.accepted
                    == Some(accepted) && binding@.operator_identity == identity,
            }
        };
    let bindings = validated->Ok_0.0;
    let accepted = validated->Ok_0.1;
    law_bound_evidence_was_recomputed(entries, sources, validate, bindings, accepted);
    let models = evidence::source_models(binding.finitum_sources@);
    assert(models.len() == binding.finitum_sources@.len());
    assert forall|k: int| 0 <= k < entries.len() implies bindings[k] == (
    #[trigger] binding.finitum_sources@[k])@ by {
        assert(models[k] == binding.finitum_sources@[k]@);
    }
    assert forall|k: int| 0 <= k < entries.len() implies tells_evidence(
        #[trigger] binding.finitum_sources@[k],
        entries,
        sources,
        validate,
        k,
    ) by {
        assert(bindings[k] == binding.finitum_sources@[k]@);
    }
    if forall|k: int| 0 <= k < entries.len() ==> (#[trigger] binding.finitum_sources@[k]).accepted {
        assert forall|k: int| 0 <= k < bindings.len() implies (#[trigger] bindings[k]).accepted by {
            assert(bindings[k] == binding.finitum_sources@[k]@);
        }
    }
}

/// Joined evidence holds the entries of every source, those of a source behind those of the
/// sources before it and in its own order, and nothing else.
pub proof fn law_joined_evidence_keeps_every_entry(
    sources: Seq<FinitumVerificationSource>,
    count: int,
    s: int,
)
    requires
        0 <= s < count <= sources.len(),
    ensures
        ({
            let joined = evidence::joined_entries(sources, count);
            let before = evidence::joined_entries(sources, s);
            let start = before.len() as int;
            let end = start + sources[s]@.len();
            &&& before.len() + sources[s]@.len() <= joined.len()
            &&& joined.subrange(
                start,
                end,
            ) == sources[s]@
            &&& evidence::joined_entries(sources, s + 1).len() == before.len() + sources[s]@.len()
        }),
        evidence::joined_entries(sources, 0).len() == 0,
    decreases count,
{
    let joined = evidence::joined_entries(sources, count);
    let before = evidence::joined_entries(sources, s);
    let start = before.len() as int;
    let end = start + sources[s]@.len();
    if s < count - 1 {
        let shorter = evidence::joined_entries(sources, count - 1);
        law_joined_evidence_keeps_every_entry(sources, count - 1, s);
        assert(joined.subrange(start, end)
            =~= shorter.subrange(start, end));
    } else {
        assert(joined.subrange(start, end)
            =~= sources[s]@);
    }
}

} // verus!
