//! Evidence that the discretization layer owns, and the binding of a check to it.
use crate::digest;
use crate::digest::digest_bytes;
use crate::execution;
use crate::execution::CoupledExecution;
use crate::execution_model::ExecutionModel;
use crate::error::KrasisError;
use crate::layout;
use crate::numeric::SolveError;
use crate::operator::TransactionalOperator;
use crate::realization::{FinitumRealization, RealizationPlan};
use crate::refusal;
use crate::refusal::{
    krasis_refusal, require_identity, serialization_refusal, validate_coupled_checkpoint_identity,
    validate_realizations, RefusalText, VerificationRefusal,
};
use crate::scalar::Scalar;
use crate::text::same_text;
use vstd::prelude::*;

verus! {

/// The schema of every verification report. A report binds one source of evidence per
/// realization that the operator is built over.
pub const KRASIS_VERIFICATION_SCHEMA: &'static str = "krasis-verification/2";

/// One report of the discretization layer, bound to the realization it was recomputed
/// against. `verification` is the report's header as that layer serialises it.
#[derive(Clone, Debug, PartialEq, Eq)]
pub struct FinitumSourceBinding {
    pub realization_identity: String,
    pub verification: String,
    pub accepted: bool,
}

#[verifier::ext_equal]
pub struct SourceModel {
    pub realization_identity: Seq<char>,
    pub verification: Seq<char>,
    pub accepted: bool,
}

impl View for FinitumSourceBinding {
    type V = SourceModel;

    open spec fn view(&self) -> SourceModel {
        SourceModel {
            realization_identity: self.realization_identity@,
            verification: self.verification@,
            accepted: self.accepted,
        }
    }
}

pub open spec fn source_models(sources: Seq<FinitumSourceBinding>) -> Seq<SourceModel> {
    sources.map_values(|source: FinitumSourceBinding| source@)
}

/// What a report is bound to.
#[derive(Clone, Debug, PartialEq, Eq)]
pub struct VerificationBinding {
    pub schema: String,
    pub operator_identity: String,
    pub layout_identity: String,
    pub config_identity: String,
    /// One entry per bound report, in the order of the source; empty for a check over a
    /// generic operator.
    pub finitum_sources: Vec<FinitumSourceBinding>,
    /// Whether every bound report was accepted; `None` for a generic check.
    pub finitum_verification_accepted: Option<bool>,
}

#[verifier::ext_equal]
pub struct BindingModel {
    pub schema: Seq<char>,
    pub operator_identity: Seq<char>,
    pub layout_identity: Seq<char>,
    pub config_identity: Seq<char>,
    pub sources: Seq<SourceModel>,
    pub accepted: Option<bool>,
}

impl View for VerificationBinding {
    type V = BindingModel;

    open spec fn view(&self) -> BindingModel {
        BindingModel {
            schema: self.schema@,
            operator_identity: self.operator_identity@,
            layout_identity: self.layout_identity@,
            config_identity: self.config_identity@,
            sources: source_models(self.finitum_sources@),
            accepted: self.finitum_verification_accepted,
        }
    }
}

/// Whether two bindings are equal.
pub fn same_binding(left: &VerificationBinding, right: &VerificationBinding) -> (result: bool)
    ensures
        result == (left@ == right@),
{
    assert(left@.sources.len() == left.finitum_sources@.len());
    assert(right@.sources.len() == right.finitum_sources@.len());
    if !same_text(left.schema.as_str(), right.schema.as_str()) || !same_text(
        left.operator_identity.as_str(),
        right.operator_identity.as_str(),
    ) || !same_text(left.layout_identity.as_str(), right.layout_identity.as_str()) || !same_text(
        left.config_identity.as_str(),
        right.config_identity.as_str(),
    ) || left.finitum_sources.len() != right.finitum_sources.len() {
        return false;
    }
    match (left.finitum_verification_accepted, right.finitum_verification_accepted) {
        (Some(mine), Some(theirs)) => {
            if mine != theirs {
                return false;
            }
        },
        (None, None) => {},
        _ => {
            return false;
        },
    }
    let mut index: usize = 0;
    while index < left.finitum_sources.len()
        invariant
            index <= left.finitum_sources.len(),
            left.finitum_sources.len() == right.finitum_sources.len(),
            forall|i: int|
                0 <= i < index ==> (#[trigger] left@.sources[i]) == right@.sources[i],
        decreases left.finitum_sources.len() - index,
    {
        let mine = &left.finitum_sources[index];
        let theirs = &right.finitum_sources[index];
        assert(left@.sources[index as int] == mine@);
        assert(right@.sources[index as int] == theirs@);
        if mine.accepted != theirs.accepted || !same_text(
            mine.realization_identity.as_str(),
            theirs.realization_identity.as_str(),
        ) || !same_text(mine.verification.as_str(), theirs.verification.as_str()) {
            assert(mine@ != theirs@);
            return false;
        }
        index += 1;
    }
    assert(left@.sources =~= right@.sources);
    true
}

/// What kind of report a piece of evidence is.
#[derive(Clone, Copy, Debug, PartialEq, Eq, Structural)]
pub enum EvidenceKind {
    /// Assembly-based agreement, for a single-model plan only.
    RealizationAgreement,
    /// A nodal patch comparison over the realization's mesh.
    Patch,
}

/// One report, by its kind and header, and the identity of the realization it was
/// computed over.
#[derive(Clone, Debug, PartialEq, Eq)]
pub struct FinitumSourceEntry {
    realization_identity: String,
    kind: EvidenceKind,
    header: String,
}

#[verifier::ext_equal]
pub struct EntryModel {
    pub identity: Seq<char>,
    pub kind: EvidenceKind,
    pub header: Seq<char>,
}

impl View for FinitumSourceEntry {
    type V = EntryModel;

    closed spec fn view(&self) -> EntryModel {
        EntryModel {
            identity: self.realization_identity@,
            kind: self.kind,
            header: self.header@,
        }
    }
}

/// One or more reports of the discretization layer, each bound to the identity of the
/// realization it was computed over. A check requires every realization that its operator
/// is built over to be covered by at least one report, and every report to name one of them.
#[derive(Clone, Debug, PartialEq, Eq)]
pub struct FinitumVerificationSource {
    entries: Vec<FinitumSourceEntry>,
}

impl View for FinitumVerificationSource {
    type V = Seq<EntryModel>;

    closed spec fn view(&self) -> Seq<EntryModel> {
        self.entries@.map_values(|entry: FinitumSourceEntry| entry@)
    }
}

pub open spec fn source_refused(message: Seq<char>) -> RefusalText {
    RefusalText { code: "KRASIS_VERIFY_FINITUM_SOURCE"@, message }
}

/// The refusal for evidence that its own layer does not validate.
pub open spec fn evidence_refused(error: Seq<char>) -> RefusalText {
    source_refused("Finitum verification did not validate against its bound source: "@ + error)
}

fn finitum_source_refusal(error: &str) -> (result: VerificationRefusal)
    ensures
        result@ == evidence_refused(error@),
{
    refusal::refusal(
        "KRASIS_VERIFY_FINITUM_SOURCE",
        "Finitum verification did not validate against its bound source: ".to_owned().concat(
            error,
        ).as_str(),
    )
}

/// The identities of realizations.
pub open spec fn identities_of(realizations: Seq<FinitumRealization<'_>>) -> Seq<Seq<char>> {
    Seq::new(realizations.len(), |i: int| realizations[i].identity_text())
}

/// The first position at or after `from` that holds the identity.
pub open spec fn position_of(identities: Seq<Seq<char>>, identity: Seq<char>, from: int) -> Option<
    int,
>
    decreases identities.len() - from,
{
    if from >= identities.len() {
        None
    } else if identities[from] == identity {
        Some(from)
    } else {
        position_of(identities, identity, from + 1)
    }
}

/// The realization that a piece of evidence names.
pub open spec fn target_of(
    entry: EntryModel,
    realizations: Seq<FinitumRealization<'_>>,
) -> Option<int> {
    position_of(identities_of(realizations), entry.identity, 0)
}

/// Whether evidence of this kind can bind to a realization.
pub open spec fn admissible(entry: EntryModel, realization: FinitumRealization<'_>) -> bool {
    entry.kind == EvidenceKind::Patch || realization is Plan
}

/// Whether the first `count` entries were recomputed as `bindings` says: `validate` takes
/// the positions of an entry and of the realization it names.
pub open spec fn recomputed<V: Fn(usize, usize) -> Result<bool, String>>(
    entries: Seq<EntryModel>,
    realizations: Seq<FinitumRealization<'_>>,
    validate: V,
    count: int,
    bindings: Seq<SourceModel>,
) -> bool {
    &&& bindings.len() == count
    &&& forall|k: int|
        0 <= k < count ==> {
            &&& (#[trigger] bindings[k]).realization_identity == entries[k].identity
            &&& bindings[k].verification == entries[k].header
            &&& target_of(entries[k], realizations) matches Some(target) && admissible(
                entries[k],
                realizations[target],
            ) && call_ensures(
                validate,
                (k as usize, target as usize),
                Ok::<bool, String>(bindings[k].accepted),
            )
        }
}

/// Whether the entry at position `k` is refused.
pub open spec fn entry_refused<V: Fn(usize, usize) -> Result<bool, String>>(
    entries: Seq<EntryModel>,
    realizations: Seq<FinitumRealization<'_>>,
    validate: V,
    k: int,
    refused: RefusalText,
) -> bool {
    match target_of(entries[k], realizations) {
        None => refused == source_refused(
            "Finitum evidence was bound to a different realization identity"@,
        ),
        Some(target) => if !admissible(entries[k], realizations[target]) {
            refused == source_refused(
                "assembly-based realization agreement is single-model evidence; a reduced system operator binds nodal-patch evidence"@,
            )
        } else {
            exists|error: String|
                {
                    &&& #[trigger] call_ensures(
                        validate,
                        (k as usize, target as usize),
                        Err::<bool, String>(error),
                    )
                    &&& refused == evidence_refused(error@)
                }
        },
    }
}

/// Whether some entry names the realization.
pub open spec fn covers(
    entries: Seq<EntryModel>,
    realizations: Seq<FinitumRealization<'_>>,
    count: int,
    realization: int,
) -> bool {
    exists|k: int|
        0 <= k < count && target_of(#[trigger] entries[k], realizations) == Some(realization)
}

pub open spec fn first_uncovered(
    entries: Seq<EntryModel>,
    realizations: Seq<FinitumRealization<'_>>,
    realization: int,
) -> bool {
    &&& 0 <= realization < realizations.len()
    &&& !covers(entries, realizations, entries.len() as int, realization)
    &&& forall|r: int|
        0 <= r < realization ==> #[trigger] covers(
            entries,
            realizations,
            entries.len() as int,
            r,
        )
}

pub open spec fn all_accepted(bindings: Seq<SourceModel>) -> bool {
    forall|k: int| 0 <= k < bindings.len() ==> (#[trigger] bindings[k]).accepted
}

/// What recomputing evidence against realizations gives: bindings for all entries where
/// every entry names a realization that admits it, validates, and every realization is
/// named; otherwise the first reason why not.
pub open spec fn evidence_validated<V: Fn(usize, usize) -> Result<bool, String>>(
    entries: Seq<EntryModel>,
    realizations: Seq<FinitumRealization<'_>>,
    validate: V,
    result: Result<(Seq<SourceModel>, bool), RefusalText>,
) -> bool {
    if realizations.len() == 0 {
        result == Err::<(Seq<SourceModel>, bool), RefusalText>(
            source_refused(
                "the operator is built over no Finitum realization for evidence to bind to"@,
            ),
        )
    } else {
        match result {
            Ok((bindings, accepted)) => {
                &&& recomputed(entries, realizations, validate, entries.len() as int, bindings)
                &&& accepted == all_accepted(bindings)
                &&& forall|r: int|
                    0 <= r < realizations.len() ==> #[trigger] covers(
                        entries,
                        realizations,
                        entries.len() as int,
                        r,
                    )
            },
            Err(refused) => {
                ||| exists|k: int, bindings: Seq<SourceModel>|
                    {
                        &&& 0 <= k < entries.len()
                        &&& #[trigger] recomputed(entries, realizations, validate, k, bindings)
                        &&& entry_refused(entries, realizations, validate, k, refused)
                    }
                ||| exists|r: int, bindings: Seq<SourceModel>|
                    {
                        &&& #[trigger] recomputed(
                            entries,
                            realizations,
                            validate,
                            entries.len() as int,
                            bindings,
                        )
                        &&& #[trigger] first_uncovered(entries, realizations, r)
                        &&& refused == source_refused(
                            "no Finitum evidence is bound to realization `"@
                                + realizations[r].identity_text() + "`"@,
                        )
                    }
            },
        }
    }
}

/// A validation as a mathematical value.
pub open spec fn validation_model(
    result: Result<(Vec<FinitumSourceBinding>, bool), VerificationRefusal>,
) -> Result<(Seq<SourceModel>, bool), RefusalText> {
    match result {
        Ok((bindings, accepted)) => Ok((source_models(bindings@), accepted)),
        Err(refused) => Err(refused@),
    }
}

impl FinitumVerificationSource {
    fn single(realization_identity: String, kind: EvidenceKind, header: &str) -> (result:
        FinitumVerificationSource)
        ensures
            result@ == seq![
                EntryModel { identity: realization_identity@, kind, header: header@ },
            ],
    {
        let mut entries: Vec<FinitumSourceEntry> = Vec::new();
        entries.push(
            FinitumSourceEntry { realization_identity, kind, header: header.to_owned() },
        );
        let result = FinitumVerificationSource { entries };
        assert(result@ =~= seq![
            EntryModel { identity: realization_identity@, kind, header: header@ },
        ]);
        result
    }

    /// Assembly-based agreement over a single-model plan. `validated` is what validating
    /// the report against the plan gave.
    pub fn from_realization_agreement(
        header: &str,
        realization: &RealizationPlan,
        validated: Result<bool, String>,
    ) -> (result: Result<FinitumVerificationSource, VerificationRefusal>)
        ensures
            match validated {
                Err(error) => refusal::reports(evidence_refused(error@), result),
                Ok(_) => result matches Ok(source) && source@ == seq![
                    EntryModel {
                        identity: FinitumRealization::Plan(realization).identity_text(),
                        kind: EvidenceKind::RealizationAgreement,
                        header: header@,
                    },
                ],
            },
    {
        match validated {
            Err(error) => Err(finitum_source_refusal(error.as_str())),
            Ok(_) => Ok(
                FinitumVerificationSource::single(
                    FinitumRealization::Plan(realization).identity(),
                    EvidenceKind::RealizationAgreement,
                    header,
                ),
            ),
        }
    }

    /// A nodal patch comparison over the realization's mesh. `report` is the header of
    /// the report, or why there is none.
    pub fn check_patch(realization: &FinitumRealization<'_>, report: Result<String, String>) -> (result:
        Result<FinitumVerificationSource, VerificationRefusal>)
        ensures
            match report {
                Err(error) => refusal::reports(evidence_refused(error@), result),
                Ok(header) => result matches Ok(source) && source@ == seq![
                    EntryModel {
                        identity: realization.identity_text(),
                        kind: EvidenceKind::Patch,
                        header: header@,
                    },
                ],
            },
    {
        match report {
            Err(error) => Err(finitum_source_refusal(error.as_str())),
            Ok(header) => Ok(
                FinitumVerificationSource::single(
                    realization.identity(),
                    EvidenceKind::Patch,
                    header.as_str(),
                ),
            ),
        }
    }

    /// As `check_patch`, with an exact solution that may refuse: a typed refusal keeps
    /// its producer's code.
    pub fn try_check_patch(
        realization: &FinitumRealization<'_>,
        report: Result<String, SolveError>,
    ) -> (result: Result<FinitumVerificationSource, VerificationRefusal>)
        ensures
            match report {
                Err(error) => refusal::reports(
                    match error@.refusal {
                        Some(_) => refusal::numeric_refused(error@),
                        None => evidence_refused(error@.text),
                    },
                    result,
                ),
                Ok(header) => result matches Ok(source) && source@ == seq![
                    EntryModel {
                        identity: realization.identity_text(),
                        kind: EvidenceKind::Patch,
                        header: header@,
                    },
                ],
            },
    {
        match report {
            Err(error) => match error.refusal {
                Some(typed) => Err(
                    refusal::numeric_refusal(
                        SolveError { refusal: Some(typed), text: error.text },
                    ),
                ),
                None => Err(finitum_source_refusal(error.text.as_str())),
            },
            Ok(header) => FinitumVerificationSource::check_patch(realization, Ok(header)),
        }
    }

    /// Joins sources in the given order.
    pub fn compose(sources: Vec<FinitumVerificationSource>) -> (result: FinitumVerificationSource)
        ensures
            result@ == joined_entries(sources@, sources@.len() as int),
    {
        let mut entries: Vec<FinitumSourceEntry> = Vec::new();
        let mut index: usize = 0;
        proof {
            assert(entries@.map_values(|entry: FinitumSourceEntry| entry@) =~= Seq::<
                EntryModel,
            >::empty());
        }
        while index < sources.len()
            invariant
                index <= sources.len(),
                entries@.map_values(|entry: FinitumSourceEntry| entry@) == joined_entries(
                    sources@,
                    index as int,
                ),
            decreases sources.len() - index,
        {
            let source = &sources[index];
            let ghost before = entries@.map_values(|entry: FinitumSourceEntry| entry@);
            let mut position: usize = 0;
            assert(source@.take(0) =~= Seq::<EntryModel>::empty());
            assert(before + source@.take(0) =~= before);
            while position < source.entries.len()
                invariant
                    position <= source.entries.len(),
                    entries@.map_values(|entry: FinitumSourceEntry| entry@) == before
                        + source@.take(position as int),
                decreases source.entries.len() - position,
            {
                let entry = &source.entries[position];
                let ghost listed = entries@;
                let copy = FinitumSourceEntry {
                    realization_identity: entry.realization_identity.clone(),
                    kind: entry.kind,
                    header: entry.header.clone(),
                };
                entries.push(copy);
                proof {
                    assert(source@[position as int] == entry@);
                    assert(entries@.map_values(|entry: FinitumSourceEntry| entry@)
                        =~= listed.map_values(|entry: FinitumSourceEntry| entry@).push(copy@));
                    assert(entries@.map_values(|entry: FinitumSourceEntry| entry@) =~= before
                        + source@.take(position + 1));
                }
                position += 1;
            }
            assert(source@.take(position as int) =~= source@);
            index += 1;
        }
        FinitumVerificationSource { entries }
    }

    /// The identities of the realizations that this source is bound to, in entry order.
    pub fn realization_identities(&self) -> (result: Vec<String>)
        ensures
            result@.len() == self@.len(),
            forall|i: int| 0 <= i < result@.len() ==> (#[trigger] result@[i])@ == self@[i].identity,
    {
        let mut result: Vec<String> = Vec::new();
        let mut index: usize = 0;
        while index < self.entries.len()
            invariant
                index <= self.entries.len(),
                result@.len() == index,
                forall|i: int| 0 <= i < index ==> (#[trigger] result@[i])@ == self@[i].identity,
            decreases self.entries.len() - index,
        {
            assert(self@[index as int] == self.entries@[index as int]@);
            result.push(self.entries[index].realization_identity.clone());
            index += 1;
        }
        result
    }

    /// Recomputes every bound report against the realization it names.
    pub fn validate_for<V: Fn(usize, usize) -> Result<bool, String>>(
        &self,
        realizations: &Vec<FinitumRealization<'_>>,
        validate: &V,
    ) -> (result: Result<(Vec<FinitumSourceBinding>, bool), VerificationRefusal>)
        requires
            forall|entry: usize, realization: usize| call_requires(
                *validate,
                (entry, realization),
            ),
        ensures
            evidence_validated(self@, realizations@, *validate, validation_model(result)),
    {
        if realizations.len() == 0 {
            return Err(
                refusal::refusal(
                    "KRASIS_VERIFY_FINITUM_SOURCE",
                    "the operator is built over no Finitum realization for evidence to bind to",
                ),
            );
        }
        let ghost entries = self@;
        let identities = identity_list(realizations);
        let mut covered: Vec<bool> = Vec::new();
        while covered.len() < realizations.len()
            invariant
                covered.len() <= realizations.len(),
                forall|r: int| 0 <= r < covered@.len() ==> !#[trigger] covered@[r],
            decreases realizations.len() - covered.len(),
        {
            covered.push(false);
        }
        let mut bindings: Vec<FinitumSourceBinding> = Vec::new();
        let mut accepted_all: bool = true;
        let mut index: usize = 0;
        while index < self.entries.len()
            invariant
                index <= self.entries.len(),
                entries == self@,
                identities@.len() == realizations@.len(),
                forall|r: int|
                    0 <= r < identities@.len() ==> (#[trigger] identities@[r])@ == identities_of(
                        realizations@,
                    )[r],
                covered@.len() == realizations@.len(),
                forall|r: int|
                    0 <= r < covered@.len() ==> (#[trigger] covered@[r]) == covers(
                        entries,
                        realizations@,
                        index as int,
                        r,
                    ),
                recomputed(
                    entries,
                    realizations@,
                    *validate,
                    index as int,
                    source_models(bindings@),
                ),
                accepted_all == all_accepted(source_models(bindings@)),
                realizations@.len() > 0,
                forall|entry: usize, realization: usize| call_requires(
                    *validate,
                    (entry, realization),
                ),
            decreases self.entries.len() - index,
        {
            let entry = &self.entries[index];
            assert(entries[index as int] == entry@);
            let ghost before = source_models(bindings@);
            let target: usize = match find_identity(
                &identities,
                entry.realization_identity.as_str(),
                Ghost(identities_of(realizations@)),
            ) {
                Some(target) => target,
                None => {
                    let refused = refusal::refusal(
                        "KRASIS_VERIFY_FINITUM_SOURCE",
                        "Finitum evidence was bound to a different realization identity",
                    );
                    assert(entry_refused(
                        entries,
                        realizations@,
                        *validate,
                        index as int,
                        refused@,
                    ));
                    return Err(refused);
                },
            };
            let ghost marked = covered@;
            covered.set(target, true);
            let single: bool = match &realizations[target] {
                FinitumRealization::Plan(_) => true,
                FinitumRealization::ReducedSystem(_) => false,
            };
            if entry.kind == EvidenceKind::RealizationAgreement && !single {
                let refused = refusal::refusal(
                    "KRASIS_VERIFY_FINITUM_SOURCE",
                    "assembly-based realization agreement is single-model evidence; a reduced system operator binds nodal-patch evidence",
                );
                assert(entry_refused(
                    entries,
                    realizations@,
                    *validate,
                    index as int,
                    refused@,
                ));
                return Err(refused);
            }
            let outcome = validate(index, target);
            let accepted: bool = match outcome {
                Ok(accepted) => accepted,
                Err(error) => {
                    let refused = finitum_source_refusal(error.as_str());
                    proof {
                        let k: int = index as int;
                        let goal: int = target as int;
                        assert(call_ensures(
                            *validate,
                            (k as usize, goal as usize),
                            Err::<bool, String>(error),
                        ));
                        assert(target_of(entries[index as int], realizations@) == Some(
                            target as int,
                        ));
                        assert(admissible(entries[index as int], realizations@[target as int]));
                        assert(refused@ == evidence_refused(error@));
                        assert(entry_refused(
                            entries,
                            realizations@,
                            *validate,
                            index as int,
                            refused@,
                        ));
                    }
                    return Err(refused);
                },
            };
            accepted_all = accepted_all && accepted;
            let binding = FinitumSourceBinding {
                realization_identity: entry.realization_identity.clone(),
                verification: entry.header.clone(),
                accepted,
            };
            let ghost listed = bindings@;
            bindings.push(binding);
            proof {
                let after = source_models(bindings@);
                assert(after =~= source_models(listed).push(binding@));
                assert(call_ensures(*validate, (index, target), Ok::<bool, String>(accepted)));
                assert forall|k: int| 0 <= k < index + 1 implies {
                    &&& (#[trigger] after[k]).realization_identity == entries[k].identity
                    &&& after[k].verification == entries[k].header
                    &&& target_of(entries[k], realizations@) matches Some(goal) && admissible(
                        entries[k],
                        realizations@[goal],
                    ) && call_ensures(
                        *validate,
                        (k as usize, goal as usize),
                        Ok::<bool, String>(after[k].accepted),
                    )
                } by {
                    if k < index {
                        assert(after[k] == before[k]);
                    }
                }
                if accepted_all {
                    assert forall|k: int| 0 <= k < after.len() implies (
                    #[trigger] after[k]).accepted by {
                        if k < index {
                            assert(after[k] == before[k]);
                        }
                    }
                } else if accepted {
                    let k = choose|k: int| 0 <= k < before.len() && !(#[trigger] before[k]).accepted;
                    assert(after[k] == before[k]);
                } else {
                    assert(!after[index as int].accepted);
                }
                assert forall|r: int| 0 <= r < covered@.len() implies (#[trigger] covered@[r])
                    == covers(entries, realizations@, index + 1, r) by {
                    if covers(entries, realizations@, index as int, r) {
                        let k = choose|k: int|
                            0 <= k < index && target_of(#[trigger] entries[k], realizations@)
                                == Some(r);
                        assert(target_of(entries[k], realizations@) == Some(r));
                    }
                    if r == target {
                        assert(target_of(entries[index as int], realizations@) == Some(r));
                    } else {
                        assert(covered@[r] == marked[r]);
                    }
                }
            }
            index += 1;
        }
        let mut realization: usize = 0;
        while realization < covered.len()
            invariant
                realization <= covered@.len(),
                covered@.len() == realizations@.len(),
                realizations@.len() > 0,
                identities@.len() == realizations@.len(),
                entries == self@,
                forall|r: int|
                    0 <= r < identities@.len() ==> (#[trigger] identities@[r])@ == identities_of(
                        realizations@,
                    )[r],
                forall|r: int|
                    0 <= r < covered@.len() ==> (#[trigger] covered@[r]) == covers(
                        entries,
                        realizations@,
                        entries.len() as int,
                        r,
                    ),
                forall|r: int|
                    0 <= r < realization ==> #[trigger] covers(
                        entries,
                        realizations@,
                        entries.len() as int,
                        r,
                    ),
                recomputed(
                    entries,
                    realizations@,
                    *validate,
                    entries.len() as int,
                    source_models(bindings@),
                ),
            decreases covered.len() - realization,
        {
            if !covered[realization] {
                let refused = refusal::refusal(
                    "KRASIS_VERIFY_FINITUM_SOURCE",
                    "no Finitum evidence is bound to realization `".to_owned().concat(
                        identities[realization].as_str(),
                    ).concat("`").as_str(),
                );
                assert(first_uncovered(entries, realizations@, realization as int));
                return Err(refused);
            }
            realization += 1;
        }
        Ok((bindings, accepted_all))
    }
}

pub open spec fn joined_entries(sources: Seq<FinitumVerificationSource>, count: int) -> Seq<
    EntryModel,
>
    decreases count,
{
    if count <= 0 {
        Seq::empty()
    } else {
        joined_entries(sources, count - 1) + sources[count - 1]@
    }
}

fn identity_list(realizations: &Vec<FinitumRealization<'_>>) -> (result: Vec<String>)
    ensures
        result@.len() == realizations@.len(),
        forall|r: int|
            0 <= r < result@.len() ==> (#[trigger] result@[r])@ == identities_of(realizations@)[r],
{
    let mut result: Vec<String> = Vec::new();
    let mut index: usize = 0;
    while index < realizations.len()
        invariant
            index <= realizations.len(),
            result@.len() == index,
            forall|r: int|
                0 <= r < index ==> (#[trigger] result@[r])@ == identities_of(realizations@)[r],
        decreases realizations.len() - index,
    {
        result.push(realizations[index].identity());
        index += 1;
    }
    result
}

fn find_identity(
    identities: &Vec<String>,
    identity: &str,
    Ghost(models): Ghost<Seq<Seq<char>>>,
) -> (result: Option<usize>)
    requires
        identities@.len() == models.len(),
        forall|r: int| 0 <= r < models.len() ==> (#[trigger] identities@[r])@ == models[r],
    ensures
        match result {
            Some(position) => position < models.len() && position_of(models, identity@, 0)
                == Some(position as int),
            None => position_of(models, identity@, 0) is None,
        },
{
    let mut index: usize = 0;
    while index < identities.len()
        invariant
            index <= identities.len(),
            identities@.len() == models.len(),
            forall|r: int| 0 <= r < models.len() ==> (#[trigger] identities@[r])@ == models[r],
            position_of(models, identity@, 0) == position_of(models, identity@, index as int),
        decreases identities.len() - index,
    {
        assert(identities@[index as int]@ == models[index as int]);
        if same_text(identities[index].as_str(), identity) {
            return Some(index);
        }
        index += 1;
    }
    None
}

/// What checking the scalars of an execution gives, over an operator of the given
/// dimension, identity and realizations.
pub open spec fn source_checked<R: Fn(Scalar) -> String>(
    execution: ExecutionModel,
    dimension: nat,
    identity: Seq<char>,
    sources: Seq<FinitumRealization<'_>>,
    render: R,
    result: Result<(), VerificationRefusal>,
) -> bool {
    match execution::checkpointed(execution, dimension, identity) {
        Err(failure) => exists|error: KrasisError|
            {
                &&& error@ == failure
                &&& result is Err
                &&& #[trigger] refusal::state_refused(error, render, result->Err_0@)
            },
        Ok(saved) => refusal::checked(
            refusal::either(
                refusal::checkpoint_failure(saved),
                refusal::realizations_failure(sources, 0),
            ),
            result,
        ),
    }
}

/// Checks that an execution has restart data and that every scalar in them, and every
/// scalar that its realizations expose, may enter an identity.
pub fn validate_execution_identity_source<Op: TransactionalOperator, R: Fn(Scalar) -> String>(
    execution: &CoupledExecution<Op>,
    render: &R,
) -> (result: Result<(), VerificationRefusal>)
    requires
        execution.wf(),
        forall|value: Scalar| call_requires(*render, (value,)),
    ensures
        source_checked(
            execution@,
            execution.op().size(),
            execution.op().identity_text(),
            execution.op().sources(),
            *render,
            result,
        ),
{
    proof {
        execution.lemma_wf();
    }
    let checkpoint = match execution.checkpoint() {
        Ok(checkpoint) => checkpoint,
        Err(error) => {
            let ghost failed = error;
            let refused = krasis_refusal(error, render);
            let result: Result<(), VerificationRefusal> = Err(refused);
            assert(refusal::state_refused(failed, *render, result->Err_0@));
            assert(execution::checkpointed(
                execution@,
                execution.op().size(),
                execution.op().identity_text(),
            ) is Err);
            return result;
        },
    };
    match validate_coupled_checkpoint_identity(&checkpoint) {
        Ok(_) => {},
        Err(error) => {
            return Err(error);
        },
    }
    let realizations = execution.operator().realizations();
    validate_realizations(&realizations)
}

/// What binding a check to an execution and its evidence gives. `described` is the evaluation
/// context and the configuration of the check as they were serialised.
pub open spec fn execution_bound<
    V: Fn(usize, usize) -> Result<bool, String>,
    R: Fn(Scalar) -> String,
>(
    execution: ExecutionModel,
    dimension: nat,
    identity: Seq<char>,
    sources: Seq<FinitumRealization<'_>>,
    described: Result<Vec<u8>, String>,
    entries: Seq<EntryModel>,
    validate: V,
    render: R,
    result: Result<VerificationBinding, VerificationRefusal>,
) -> bool {
    ||| result is Err && source_checked(
        execution,
        dimension,
        identity,
        sources,
        render,
        Err(result->Err_0),
    )
    ||| source_checked(execution, dimension, identity, sources, render, Ok(())) && exists|
        validated: Result<(Seq<SourceModel>, bool), RefusalText>,
    |
        {
            &&& #[trigger] evidence_validated(entries, sources, validate, validated)
            &&& match validated {
                Err(refused) => refusal::reports(refused, result),
                Ok((bindings, accepted)) => match described {
                    Err(error) => refusal::reports(
                        refusal::serialization_refused(error@),
                        result,
                    ),
                    Ok(bytes) => result matches Ok(binding) && binding@ == (BindingModel {
                        schema: KRASIS_VERIFICATION_SCHEMA@,
                        operator_identity: identity,
                        layout_identity: layout::identity_of(execution.state.layout),
                        config_identity: digest::digest_of_bytes(bytes@),
                        sources: bindings,
                        accepted: Some(accepted),
                    }),
                },
            }
        }
}

/// Binds a check to an execution, its configuration and its evidence. `described` is the
/// evaluation context and the configuration of the check as they were serialised.
pub fn execution_binding<
    Op: TransactionalOperator,
    V: Fn(usize, usize) -> Result<bool, String>,
    R: Fn(Scalar) -> String,
>(
    execution: &CoupledExecution<Op>,
    described: Result<Vec<u8>, String>,
    source: &FinitumVerificationSource,
    validate: &V,
    render: &R,
) -> (result: Result<VerificationBinding, VerificationRefusal>)
    requires
        execution.wf(),
        forall|entry: usize, realization: usize| call_requires(*validate, (entry, realization)),
        forall|value: Scalar| call_requires(*render, (value,)),
    ensures
        execution_bound(
            execution@,
            execution.op().size(),
            execution.op().identity_text(),
            execution.op().sources(),
            described,
            source@,
            *validate,
            *render,
            result,
        ),
{
    proof {
        execution.lemma_wf();
    }
    match validate_execution_identity_source(execution, render) {
        Ok(_) => {},
        Err(error) => {
            return Err(error);
        },
    }
    let realizations = execution.operator().realizations();
    let validated = source.validate_for(&realizations, validate);
    assert(evidence_validated(
        source@,
        execution.op().sources(),
        *validate,
        validation_model(validated),
    ));
    match validated {
        Err(error) => Err(error),
        Ok((finitum_sources, accepted)) => match described {
            Err(error) => Err(serialization_refusal(error)),
            Ok(bytes) => Ok(
                VerificationBinding {
                    schema: KRASIS_VERIFICATION_SCHEMA.to_owned(),
                    operator_identity: execution.operator().identity().to_owned(),
                    layout_identity: execution.state().layout().identity().to_owned(),
                    config_identity: digest_bytes(&bytes),
                    finitum_sources,
                    finitum_verification_accepted: Some(accepted),
                },
            ),
        },
    }
}

/// What binding a check to a generic operator gives.
pub open spec fn generic_bound(
    operator_identity: Seq<char>,
    layout_identity: Seq<char>,
    config: Seq<u8>,
) -> Result<BindingModel, RefusalText> {
    match refusal::identity_failure(operator_identity, "operator"@) {
        Some(failure) => Err(failure),
        None => Ok(
            BindingModel {
                schema: KRASIS_VERIFICATION_SCHEMA@,
                operator_identity,
                layout_identity,
                config_identity: digest::digest_of_bytes(config),
                sources: Seq::empty(),
                accepted: None,
            },
        ),
    }
}

/// Binds a check to a generic operator, which the caller identifies.
pub fn generic_binding(operator_identity: &str, layout_identity: String, config: &Vec<u8>) -> (result:
    Result<VerificationBinding, VerificationRefusal>)
    ensures
        match generic_bound(operator_identity@, layout_identity@, config@) {
            Err(refused) => refusal::reports(refused, result),
            Ok(model) => result matches Ok(binding) && binding@ == model,
        },
{
    let operator_identity = match require_identity(operator_identity, "operator") {
        Ok(identity) => identity,
        Err(error) => {
            return Err(error);
        },
    };
    let finitum_sources: Vec<FinitumSourceBinding> = Vec::new();
    assert(source_models(finitum_sources@) =~= Seq::<SourceModel>::empty());
    Ok(
        VerificationBinding {
            schema: KRASIS_VERIFICATION_SCHEMA.to_owned(),
            operator_identity,
            layout_identity,
            config_identity: digest_bytes(config),
            finitum_sources,
            finitum_verification_accepted: None,
        },
    )
}

/// What binding a check to a block operator gives. `layout` is its block layout, `described`
/// the evaluation context and the configuration of the check, as they were serialised.
pub open spec fn block_bound(
    operator_identity: Seq<char>,
    layout: Result<Vec<u8>, String>,
    described: Result<Vec<u8>, String>,
) -> Result<BindingModel, RefusalText> {
    match refusal::identity_failure(operator_identity, "operator"@) {
        Some(failure) => Err(failure),
        None => match (layout, described) {
            (Err(error), _) => Err(refusal::serialization_refused(error@)),
            (Ok(_), Err(error)) => Err(refusal::serialization_refused(error@)),
            (Ok(layout), Ok(described)) => generic_bound(
                operator_identity,
                digest::digest_of_bytes(layout@),
                described@,
            ),
        },
    }
}

/// Binds a check to a block operator, which the caller identifies.
pub fn block_binding(
    operator_identity: &str,
    layout: Result<Vec<u8>, String>,
    described: Result<Vec<u8>, String>,
) -> (result: Result<VerificationBinding, VerificationRefusal>)
    ensures
        match block_bound(operator_identity@, layout, described) {
            Err(refused) => refusal::reports(refused, result),
            Ok(model) => result matches Ok(binding) && binding@ == model,
        },
{
    match require_identity(operator_identity, "operator") {
        Ok(_) => {},
        Err(error) => {
            return Err(error);
        },
    }
    let layout = match layout {
        Ok(layout) => layout,
        Err(error) => {
            return Err(serialization_refusal(error));
        },
    };
    match described {
        Ok(bytes) => generic_binding(operator_identity, digest_bytes(&layout), &bytes),
        Err(error) => Err(serialization_refusal(error)),
    }
}

/// Evidence binds completely or not at all: where it validates, every realization is
/// covered by an entry that names it, and every entry names a realization.
pub proof fn law_evidence_binds_completely<V: Fn(usize, usize) -> Result<bool, String>>(
    entries: Seq<EntryModel>,
    realizations: Seq<FinitumRealization<'_>>,
    validate: V,
    bindings: Seq<SourceModel>,
    accepted: bool,
)
    requires
        evidence_validated(
            entries,
            realizations,
            validate,
            Ok::<(Seq<SourceModel>, bool), RefusalText>((bindings, accepted)),
        ),
    ensures
        bindings.len() == entries.len(),
        forall|r: int|
            0 <= r < realizations.len() ==> exists|k: int|
                0 <= k < bindings.len() && (#[trigger] bindings[k]).realization_identity
                    == (#[trigger] realizations[r]).identity_text(),
        forall|k: int|
            0 <= k < bindings.len() ==> exists|r: int|
                0 <= r < realizations.len() && (#[trigger] realizations[r]).identity_text() == (
                #[trigger] bindings[k]).realization_identity,
        accepted ==> forall|k: int| 0 <= k < bindings.len() ==> (#[trigger] bindings[k]).accepted,
{
    let identities = identities_of(realizations);
    assert forall|r: int| 0 <= r < realizations.len() implies exists|k: int|
        0 <= k < bindings.len() && (#[trigger] bindings[k]).realization_identity
            == (#[trigger] realizations[r]).identity_text() by {
        assert(covers(entries, realizations, entries.len() as int, r));
        let k = choose|k: int|
            0 <= k < entries.len() && target_of(#[trigger] entries[k], realizations) == Some(r);
        lemma_position(identities, entries[k].identity, 0);
        assert(identities[r] == realizations[r].identity_text());
        assert(bindings[k].realization_identity == realizations[r].identity_text());
    }
    assert forall|k: int| 0 <= k < bindings.len() implies exists|r: int|
        0 <= r < realizations.len() && (#[trigger] realizations[r]).identity_text() == (
        #[trigger] bindings[k]).realization_identity by {
        assert(bindings[k].realization_identity == entries[k].identity);
        lemma_position(identities, entries[k].identity, 0);
        let r = target_of(entries[k], realizations)->Some_0;
        assert(identities[r] == realizations[r].identity_text());
        assert(realizations[r].identity_text() == bindings[k].realization_identity);
    }
}

proof fn lemma_position(identities: Seq<Seq<char>>, identity: Seq<char>, from: int)
    requires
        0 <= from,
    ensures
        position_of(identities, identity, from) matches Some(position) ==> from <= position
            < identities.len() && identities[position] == identity,
    decreases identities.len() - from,
{
    if from < identities.len() {
        lemma_position(identities, identity, from + 1);
    }
}

} // verus!
