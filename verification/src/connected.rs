//! Realization groups composed through the elimination of matching traces.
use crate::binding::StateBinding;
use crate::digest;
use crate::error::{ErrorModel, KrasisError};
use crate::initialization;
use crate::initialization::{
    consistent_initialization_identity, ConsistentInitialization, RateSolvePolicy, RowKind,
};
use crate::layout::StateLayout;
use crate::numeric::NewtonConfig;
use crate::operator::TransactionalOperator;
use crate::realization::{Constraint, ConstraintDependency, FinitumRealization};
use crate::system::{compose_kinds, CoupledSystemOperator};
use crate::system_model;
use crate::text;
use crate::text::{join_with, same_text, text_precedes};
use vstd::prelude::*;

verus! {

/// The affine constraints of a connected state over the given number of unknowns.
#[derive(Clone, Debug, PartialEq, Eq)]
pub struct ConstraintSet {
    pub dof_count: usize,
    pub constraints: Vec<Constraint>,
}

impl ConstraintSet {
    /// Every target and every dependency is one of the unknowns.
    pub open spec fn valid(self) -> bool {
        forall|i: int|
            0 <= i < self.constraints@.len() ==> constraint_valid(
                #[trigger] self.constraints@[i],
                self.dof_count as int,
            )
    }
}

pub open spec fn constraint_valid(constraint: Constraint, dof_count: int) -> bool {
    &&& constraint.target < dof_count
    &&& forall|k: int|
        0 <= k < constraint.dependencies@.len() ==> (#[trigger] constraint.dependencies@[k]).dof
            < dof_count
}

/// A mask with every dependency marked differential, up to a count.
pub open spec fn spread(
    mask: Seq<RowKind>,
    dependencies: Seq<ConstraintDependency>,
    count: int,
) -> Seq<RowKind>
    decreases count,
{
    if count <= 0 {
        mask
    } else {
        spread(mask, dependencies, count - 1).update(
            dependencies[count - 1].dof as int,
            RowKind::Differential,
        )
    }
}

/// A mask after the elimination of one constraint: a differential target makes its
/// dependencies differential, and the target's own row becomes an equality.
pub open spec fn eliminated(mask: Seq<RowKind>, constraint: Constraint) -> Seq<RowKind> {
    let merged = if mask[constraint.target as int] == RowKind::Differential {
        spread(mask, constraint.dependencies@, constraint.dependencies@.len() as int)
    } else {
        mask
    };
    merged.update(constraint.target as int, RowKind::Algebraic)
}

/// A mask after the elimination of the first `count` constraints.
pub open spec fn merged_mask(
    mask: Seq<RowKind>,
    constraints: Seq<Constraint>,
    count: int,
) -> Seq<RowKind>
    decreases count,
{
    if count <= 0 {
        mask
    } else {
        eliminated(merged_mask(mask, constraints, count - 1), constraints[count - 1])
    }
}

/// `sorted` with a text put behind every text that does not come after it.
pub open spec fn place_text(sorted: Seq<Seq<char>>, entry: Seq<char>) -> Seq<Seq<char>>
    decreases sorted.len(),
{
    if sorted.len() == 0 || !text::precedes(entry, sorted.last()) {
        sorted.push(entry)
    } else {
        place_text(sorted.drop_last(), entry).push(sorted.last())
    }
}

/// The first `count` texts in order.
pub open spec fn sorted_texts(texts: Seq<Seq<char>>, count: int) -> Seq<Seq<char>>
    decreases count,
{
    if count <= 0 {
        Seq::empty()
    } else {
        place_text(sorted_texts(texts, count - 1), texts[count - 1])
    }
}

/// Whether the realizations of a system are reduced systems of the given digests.
pub open spec fn built_over_reduced(
    sources: Seq<FinitumRealization<'_>>,
    digests: Seq<String>,
) -> bool {
    &&& sources.len() == digests.len()
    &&& forall|i: int|
        0 <= i < sources.len() ==> {
            &&& (#[trigger] sources[i]) is ReducedSystem
            &&& sources[i]->ReducedSystem_0.digest@ == digests[i]@
        }
}

fn matches_reduced(realizations: &Vec<FinitumRealization<'_>>, digests: &Vec<String>) -> (result:
    bool)
    ensures
        result == built_over_reduced(realizations@, digests@),
{
    if realizations.len() != digests.len() {
        return false;
    }
    let mut index: usize = 0;
    while index < realizations.len()
        invariant
            index <= realizations@.len(),
            realizations@.len() == digests@.len(),
            forall|i: int|
                0 <= i < index ==> {
                    &&& (#[trigger] realizations@[i]) is ReducedSystem
                    &&& realizations@[i]->ReducedSystem_0.digest@ == digests@[i]@
                },
        decreases realizations.len() - index,
    {
        match &realizations[index] {
            FinitumRealization::ReducedSystem(reduced) => {
                if !same_text(reduced.digest.as_str(), digests[index].as_str()) {
                    return false;
                }
            },
            FinitumRealization::Plan(_) => {
                return false;
            },
        }
        index += 1;
    }
    true
}

/// A composed system whose matching traces are eliminated by constraints.
#[derive(Clone, Debug, PartialEq, Eq)]
pub struct ConnectedSystemOperator {
    inner: CoupledSystemOperator,
    constraints: ConstraintSet,
    identity: String,
    consistent_initialization: Option<ConsistentInitialization>,
}

/// What connecting a system gives; `fits` says whether the connected operators are the
/// system's own.
pub open spec fn connected(
    inner: CoupledSystemOperator,
    constraints: Result<ConstraintSet, String>,
    fits: bool,
    identity: Seq<char>,
    result: Result<ConnectedSystemOperator, KrasisError>,
) -> bool {
    match constraints {
        Err(error) => result matches Err(failure) && failure@ == ErrorModel::InvalidCoupling(
            error@,
        ),
        Ok(constraints) => if !fits || inner.size() != constraints.dof_count {
            result matches Err(failure) && failure@ == ErrorModel::InvalidCoupling(
                "connection operators differ from coupled leaves"@,
            )
        } else {
            result matches Ok(operator) && {
                &&& operator.wf()
                &&& operator.system() == inner
                &&& operator.traces() == constraints
                &&& operator.initialization() is None
                &&& operator.identity_text() == identity
            }
        },
    }
}

/// What the merged row kinds are, or that a leaf has none.
pub open spec fn connected_kinds(operator: ConnectedSystemOperator) -> Result<
    Seq<RowKind>,
    ErrorModel,
> {
    let leaves = operator.system()@.leaves;
    if !system_model::classified(leaves) {
        Err(ErrorModel::InvalidCoupling("connected leaf has no row classification"@))
    } else {
        Ok(
            merged_mask(
                system_model::composed_kinds(leaves, leaves.len() as int),
                operator.traces().constraints@,
                operator.traces().constraints@.len() as int,
            ),
        )
    }
}

impl ConnectedSystemOperator {
    pub closed spec fn system(&self) -> CoupledSystemOperator {
        self.inner
    }

    pub closed spec fn traces(&self) -> ConstraintSet {
        self.constraints
    }

    pub closed spec fn initialization(&self) -> Option<ConsistentInitialization> {
        self.consistent_initialization
    }

    /// A well-formed system and valid constraints over its state.
    pub closed spec fn wf(&self) -> bool {
        &&& self.inner.wf()
        &&& self.constraints.valid()
        &&& self.constraints.dof_count == self.inner.size()
        &&& self.consistent_initialization matches Some(config) ==> config.mask@.len()
            == self.inner.size()
    }

    pub proof fn lemma_wf(&self)
        requires
            self.wf(),
        ensures
            self.system().wf(),
            self.traces().valid(),
            self.traces().dof_count == self.system().size(),
    {
    }

    fn assemble(
        inner: CoupledSystemOperator,
        constraints: Result<ConstraintSet, String>,
        fits: bool,
        identity: String,
    ) -> (result: Result<ConnectedSystemOperator, KrasisError>)
        requires
            inner.wf(),
            constraints matches Ok(set) ==> set.valid(),
        ensures
            connected(inner, constraints, fits, identity@, result),
    {
        let constraints = match constraints {
            Ok(constraints) => constraints,
            Err(error) => {
                return Err(KrasisError::InvalidCoupling(error));
            },
        };
        if !fits || inner.dimension() != constraints.dof_count {
            return Err(
                KrasisError::InvalidCoupling(
                    "connection operators differ from coupled leaves".to_owned(),
                ),
            );
        }
        Ok(
            ConnectedSystemOperator {
                inner,
                constraints,
                identity,
                consistent_initialization: None,
            },
        )
    }

    /// Connects the two leaves of a system, in the order of the connection's end points.
    /// `constraints` is what the connection gave for its operators, whose digests follow.
    pub fn new(
        inner: CoupledSystemOperator,
        constraints: Result<ConstraintSet, String>,
        connection_identity: &str,
        first_digest: String,
        second_digest: String,
    ) -> (result: Result<ConnectedSystemOperator, KrasisError>)
        requires
            inner.wf(),
            constraints matches Ok(set) ==> set.valid(),
        ensures
            connected(
                inner,
                constraints,
                built_over_reduced(inner.sources(), seq![first_digest, second_digest]),
                "krasis-connected-system/1:"@ + inner.identity_text() + ":"@
                    + connection_identity@,
                result,
            ),
    {
        let mut digests: Vec<String> = Vec::new();
        digests.push(first_digest);
        digests.push(second_digest);
        assert(digests@ =~= seq![first_digest, second_digest]);
        let fits: bool = matches_reduced(&inner.realizations(), &digests);
        let identity = "krasis-connected-system/1:".to_owned().concat(inner.identity()).concat(
            ":",
        ).concat(connection_identity);
        ConnectedSystemOperator::assemble(inner, constraints, fits, identity)
    }

    /// Connects the leaves of a system through any number of interfaces. `constraints` is
    /// what the connections gave for the operators, one per leaf in leaf order, whose
    /// digests follow. The order of the connections does not matter.
    pub fn new_system(
        inner: CoupledSystemOperator,
        constraints: Result<ConstraintSet, String>,
        connection_identities: &Vec<String>,
        digests: &Vec<String>,
    ) -> (result: Result<ConnectedSystemOperator, KrasisError>)
        requires
            inner.wf(),
            constraints matches Ok(set) ==> set.valid(),
        ensures
            connected(
                inner,
                constraints,
                inner@.leaves.len() == digests@.len() && built_over_reduced(
                    inner.sources(),
                    digests@,
                ),
                "krasis-connected-system/2:"@ + inner.identity_text() + ":"@ + text::joined_with(
                    sorted_texts(
                        text::text_models(connection_identities@),
                        connection_identities@.len() as int,
                    ),
                    ":"@,
                ),
                result,
            ),
    {
        proof {
            inner.lemma_wf();
        }
        let same_count: bool = inner.leaves().len() == digests.len();
        let fits: bool = same_count && matches_reduced(&inner.realizations(), digests);
        let sorted = sort_texts(connection_identities);
        let identity = "krasis-connected-system/2:".to_owned().concat(inner.identity()).concat(
            ":",
        ).concat(join_with(&sorted, ":").as_str());
        ConnectedSystemOperator::assemble(inner, constraints, fits, identity)
    }

    /// The row kinds of the connected state: a merged trace row is differential where any
    /// participating row stores state, and an eliminated row is an algebraic equality.
    pub fn row_kinds(&self) -> (result: Result<Vec<RowKind>, KrasisError>)
        requires
            self.wf(),
        ensures
            match connected_kinds(*self) {
                Ok(mask) => result matches Ok(kinds) && kinds@ == mask && kinds@.len()
                    == self.system().size(),
                Err(failure) => result matches Err(error) && error@ == failure,
            },
    {
        proof {
            self.inner.lemma_wf();
        }
        let mut mask = match compose_kinds(self.inner.leaves()) {
            Ok(mask) => mask,
            Err(_) => {
                return Err(
                    KrasisError::InvalidCoupling(
                        "connected leaf has no row classification".to_owned(),
                    ),
                );
            },
        };
        let ghost composed = mask@;
        let constraints = &self.constraints.constraints;
        let mut index: usize = 0;
        while index < constraints.len()
            invariant
                index <= constraints@.len(),
                self.wf(),
                constraints@ == self.constraints.constraints@,
                mask@.len() == self.inner.size(),
                composed.len() == self.inner.size(),
                mask@ == merged_mask(composed, constraints@, index as int),
            decreases constraints.len() - index,
        {
            let constraint = &constraints[index];
            assert(constraint_valid(*constraint, self.constraints.dof_count as int)) by {
                assert(self.constraints.valid());
                assert(constraint_valid(
                    self.constraints.constraints@[index as int],
                    self.constraints.dof_count as int,
                ));
            }
            let ghost before = mask@;
            if mask[constraint.target] == RowKind::Differential {
                let mut inner: usize = 0;
                while inner < constraint.dependencies.len()
                    invariant
                        inner <= constraint.dependencies@.len(),
                        constraint_valid(*constraint, self.constraints.dof_count as int),
                        self.constraints.dof_count == self.inner.size(),
                        mask@.len() == self.inner.size(),
                        before.len() == self.inner.size(),
                        mask@ == spread(before, constraint.dependencies@, inner as int),
                    decreases constraint.dependencies.len() - inner,
                {
                    assert(constraint.dependencies@[inner as int].dof
                        < self.constraints.dof_count);
                    mask.set(constraint.dependencies[inner].dof, RowKind::Differential);
                    inner += 1;
                }
            }
            mask.set(constraint.target, RowKind::Algebraic);
            index += 1;
        }
        Ok(mask)
    }

    /// Records the merged row kinds and a Newton configuration for consistent
    /// initialization and folds both into the identity; the rate is always solved.
    pub fn with_consistent_initialization(self, newton: NewtonConfig) -> (result: Result<
        ConnectedSystemOperator,
        KrasisError,
    >)
        requires
            self.wf(),
        ensures
            match connected_kinds(self) {
                Err(failure) => result matches Err(error) && error@ == failure,
                Ok(mask) => result matches Ok(after) && {
                    &&& after.wf()
                    &&& after.system() == self.system()
                    &&& after.traces() == self.traces()
                    &&& after.initialization() matches Some(config) && config.mask@ == mask
                        && config.newton == newton && config.policy == RateSolvePolicy::Always
                    &&& after.identity_text() == self.identity_text() + ":consistent-init="@
                        + digest::digest_of(
                        initialization::initialization_payload(
                            mask,
                            newton.encoding@,
                            RateSolvePolicy::Always,
                        ),
                    )
                },
            },
    {
        let mask = match self.row_kinds() {
            Ok(mask) => mask,
            Err(error) => {
                return Err(error);
            },
        };
        let policy = RateSolvePolicy::Always;
        let recorded = consistent_initialization_identity(&mask, &newton, policy);
        let identity = self.identity.clone().concat(":consistent-init=").concat(
            recorded.as_str(),
        );
        Ok(
            ConnectedSystemOperator {
                inner: self.inner,
                constraints: self.constraints,
                identity,
                consistent_initialization: Some(
                    ConsistentInitialization { mask, newton, policy },
                ),
            },
        )
    }

    /// The system before its traces are eliminated.
    pub fn inner(&self) -> (result: &CoupledSystemOperator)
        requires
            self.wf(),
        ensures
            *result == self.system(),
            result.wf(),
    {
        &self.inner
    }

    pub fn constraints(&self) -> (result: &ConstraintSet)
        requires
            self.wf(),
        ensures
            *result == self.traces(),
            result.valid(),
    {
        &self.constraints
    }

    pub fn recorded_initialization(&self) -> (result: Option<&ConsistentInitialization>)
        ensures
            match result {
                Some(config) => self.initialization() == Some(*config),
                None => self.initialization() is None,
            },
    {
        match &self.consistent_initialization {
            Some(config) => Some(config),
            None => None,
        }
    }

    pub fn layout(&self) -> (result: &StateLayout)
        requires
            self.wf(),
        ensures
            result@ == self.system()@.layout,
            result.wf(),
    {
        self.inner.layout()
    }

    pub fn binding(&self) -> (result: &StateBinding)
        requires
            self.wf(),
        ensures
            result@ == self.system()@.pairs,
            result.wf(),
    {
        self.inner.binding()
    }
}

impl TransactionalOperator for ConnectedSystemOperator {
    open spec fn valid(&self) -> bool {
        self.wf()
    }

    closed spec fn identity_text(&self) -> Seq<char> {
        self.identity@
    }

    open spec fn layout_text(&self) -> Seq<char> {
        self.system().layout_text()
    }

    open spec fn size(&self) -> nat {
        self.system().size()
    }

    open spec fn sources(&self) -> Seq<FinitumRealization<'_>> {
        self.system().sources()
    }

    fn identity(&self) -> (result: &str) {
        self.identity.as_str()
    }

    fn state_layout_identity(&self) -> (result: &str) {
        self.inner.state_layout_identity()
    }

    fn dimension(&self) -> (result: usize) {
        self.constraints.dof_count
    }

    fn realizations(&self) -> (result: Vec<FinitumRealization<'_>>) {
        self.inner.realizations()
    }
}

/// Puts texts in order.
fn sort_texts(texts: &Vec<String>) -> (result: Vec<String>)
    ensures
        text::text_models(result@) == sorted_texts(text::text_models(texts@), texts@.len() as int),
{
    let ghost models = text::text_models(texts@);
    let mut sorted: Vec<String> = Vec::new();
    let mut index: usize = 0;
    assert(text::text_models(sorted@) =~= sorted_texts(models, 0));
    while index < texts.len()
        invariant
            index <= texts@.len(),
            models == text::text_models(texts@),
            text::text_models(sorted@) == sorted_texts(models, index as int),
        decreases texts.len() - index,
    {
        assert(models[index as int] == texts@[index as int]@);
        insert_text(&mut sorted, texts[index].clone());
        index += 1;
    }
    sorted
}

fn insert_text(sorted: &mut Vec<String>, entry: String)
    ensures
        text::text_models(final(sorted)@) == place_text(text::text_models(old(sorted)@), entry@),
{
    let ghost before = text::text_models(sorted@);
    let mut position: usize = sorted.len();
    while position > 0 && text_precedes(entry.as_str(), sorted[position - 1].as_str())
        invariant
            position <= sorted@.len(),
            before == text::text_models(sorted@),
            forall|i: int| position <= i < before.len() ==> text::precedes(
                entry@,
                #[trigger] before[i],
            ),
        decreases position,
    {
        assert(before[position - 1] == sorted@[position - 1]@);
        position -= 1;
    }
    proof {
        if position > 0 {
            assert(before[position - 1] == sorted@[position - 1]@);
        }
        lemma_place_text_at(before, entry@, position as int);
    }
    let ghost placed = entry@;
    sorted.insert(position, entry);
    assert(text::text_models(sorted@) =~= before.insert(position as int, placed));
}

proof fn lemma_place_text_at(sorted: Seq<Seq<char>>, entry: Seq<char>, position: int)
    requires
        0 <= position <= sorted.len(),
        forall|i: int| position <= i < sorted.len() ==> text::precedes(entry, #[trigger] sorted[i]),
        position == 0 || !text::precedes(entry, sorted[position - 1]),
    ensures
        place_text(sorted, entry) == sorted.insert(position, entry),
    decreases sorted.len(),
{
    if position < sorted.len() {
        let rest = sorted.drop_last();
        lemma_place_text_at(rest, entry, position);
        assert(sorted.insert(position, entry) =~= rest.insert(position, entry).push(
            sorted.last(),
        ));
    } else {
        assert(sorted.insert(position, entry) =~= sorted.push(entry));
    }
}

} // verus!
