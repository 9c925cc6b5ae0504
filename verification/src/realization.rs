//! What the library reads of a realized discretization, as plain values.
use crate::digest;
use crate::digest::digest_bytes;
use crate::scalar::Scalar;
use vstd::prelude::*;

verus! {

/// One field of a block-composed product space: the system-level variable it
/// belongs to and its place in the state.
#[derive(Clone, Copy, Debug, PartialEq, Eq, Structural)]
pub struct FieldBlock {
    pub variable: u32,
    pub offset: usize,
    pub extent: usize,
}

/// One dependency of an affine constraint.
#[derive(Clone, Copy, Debug, PartialEq, Eq, Structural)]
pub struct ConstraintDependency {
    pub dof: usize,
    pub weight: Scalar,
}

/// An affine constraint: the target is the weighted sum of its dependencies plus an offset.
#[derive(Clone, Debug, PartialEq, Eq)]
pub struct Constraint {
    pub target: usize,
    pub dependencies: Vec<ConstraintDependency>,
    pub offset: Scalar,
}

/// One basis function at one quadrature point; a part that the element omits is `None`.
#[derive(Clone, Debug, PartialEq, Eq)]
pub struct BasisSample {
    pub value: Option<Scalar>,
    pub gradient: Option<Vec<Scalar>>,
}

/// A quadrature point with the element's basis functions there.
#[derive(Clone, Debug, PartialEq, Eq)]
pub struct QuadraturePoint {
    pub coordinates: Vec<Scalar>,
    pub weight: Scalar,
    pub basis: Vec<BasisSample>,
}

/// A single-model realization: its dimension, its digest and the scalars it exposes.
/// `digest` is the digest as the discretization layer prints it.
#[derive(Clone, Debug, PartialEq, Eq)]
pub struct RealizationPlan {
    pub dimension: usize,
    pub digest: String,
    pub algorithm: String,
    pub hex: String,
    pub vertices: Vec<Vec<Scalar>>,
    pub quadrature: Vec<QuadraturePoint>,
    pub constraints: Vec<Constraint>,
    pub stored_inputs: Vec<Vec<Scalar>>,
}

/// A constraint-eliminated system operator. `digest` covers the plan, the bound
/// closures and any prescribed motion; `constraint_encoding` is its serialised
/// constraint set.
#[derive(Clone, Debug, PartialEq, Eq)]
pub struct ReducedSystem {
    pub dimension: usize,
    pub digest: String,
    pub constraint_encoding: Vec<u8>,
    pub fields: Vec<FieldBlock>,
    pub vertices: Vec<Vec<Scalar>>,
    pub constraints: Vec<Constraint>,
}

/// A saddle-point operator over one mixed space, by its content digest.
#[derive(Clone, Debug, PartialEq, Eq)]
pub struct MixedOperator {
    pub digest: String,
}

/// A block operator over one system, by its content digest.
#[derive(Clone, Debug, PartialEq, Eq)]
pub struct SystemOperator {
    pub digest: String,
}

/// Content-addressed identity of an operator's numerical action.
///
/// Two operators of one shape but a different action report different identities.
pub trait OperatorIdentity {
    spec fn content_text(&self) -> Seq<char>;

    fn content_identity(&self) -> (result: String)
        ensures
            result@ == self.content_text(),
    ;
}

impl OperatorIdentity for MixedOperator {
    open spec fn content_text(&self) -> Seq<char> {
        "finitum-mixed:"@ + self.digest@
    }

    fn content_identity(&self) -> (result: String) {
        "finitum-mixed:".to_owned().concat(self.digest.as_str())
    }
}

impl OperatorIdentity for SystemOperator {
    open spec fn content_text(&self) -> Seq<char> {
        "finitum-system:"@ + self.digest@
    }

    fn content_identity(&self) -> (result: String) {
        "finitum-system:".to_owned().concat(self.digest.as_str())
    }
}

impl OperatorIdentity for ReducedSystem {
    open spec fn content_text(&self) -> Seq<char> {
        "finitum-reduced-system:"@ + self.digest@ + ":constraints="@ + digest::digest_of_bytes(
            self.constraint_encoding@,
        )
    }

    fn content_identity(&self) -> (result: String) {
        "finitum-reduced-system:".to_owned().concat(self.digest.as_str()).concat(
            ":constraints=",
        ).concat(digest_bytes(&self.constraint_encoding).as_str())
    }
}

impl<Op: OperatorIdentity> OperatorIdentity for &Op {
    open spec fn content_text(&self) -> Seq<char> {
        (**self).content_text()
    }

    fn content_identity(&self) -> (result: String) {
        (**self).content_identity()
    }
}

/// One realization that a composed operator is built over, as evidence binds to it.
#[derive(Clone, Copy, Debug)]
pub enum FinitumRealization<'a> {
    Plan(&'a RealizationPlan),
    ReducedSystem(&'a ReducedSystem),
}

impl<'a> FinitumRealization<'a> {
    /// The identity that evidence binds to.
    pub open spec fn identity_text(self) -> Seq<char> {
        match self {
            FinitumRealization::Plan(plan) => plan.algorithm@ + ":"@ + plan.hex@,
            FinitumRealization::ReducedSystem(reduced) => reduced.content_text(),
        }
    }

    pub fn identity(&self) -> (result: String)
        ensures
            result@ == self.identity_text(),
    {
        match self {
            FinitumRealization::Plan(plan) => plan.algorithm.clone().concat(":").concat(
                plan.hex.as_str(),
            ),
            FinitumRealization::ReducedSystem(reduced) => reduced.content_identity(),
        }
    }

    /// The mesh, by the coordinates of its vertices.
    pub fn mesh(&self) -> (result: &'a Vec<Vec<Scalar>>)
        ensures
            *result == (match *self {
                FinitumRealization::Plan(plan) => plan.vertices,
                FinitumRealization::ReducedSystem(reduced) => reduced.vertices,
            }),
    {
        match self {
            FinitumRealization::Plan(plan) => &plan.vertices,
            FinitumRealization::ReducedSystem(reduced) => &reduced.vertices,
        }
    }
}

impl<'a> From<&'a RealizationPlan> for FinitumRealization<'a> {
    fn from(plan: &'a RealizationPlan) -> (result: FinitumRealization<'a>) {
        FinitumRealization::Plan(plan)
    }
}

impl<'a> vstd::std_specs::convert::FromSpecImpl<&'a RealizationPlan> for FinitumRealization<'a> {
    open spec fn obeys_from_spec() -> bool {
        true
    }

    open spec fn from_spec(plan: &'a RealizationPlan) -> FinitumRealization<'a> {
        FinitumRealization::Plan(plan)
    }
}

impl<'a> From<&'a ReducedSystem> for FinitumRealization<'a> {
    fn from(reduced: &'a ReducedSystem) -> (result: FinitumRealization<'a>) {
        FinitumRealization::ReducedSystem(reduced)
    }
}

impl<'a> vstd::std_specs::convert::FromSpecImpl<&'a ReducedSystem> for FinitumRealization<'a> {
    open spec fn obeys_from_spec() -> bool {
        true
    }

    open spec fn from_spec(reduced: &'a ReducedSystem) -> FinitumRealization<'a> {
        FinitumRealization::ReducedSystem(reduced)
    }
}

} // verus!
