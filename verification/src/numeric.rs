//! What the library reads of the numerical layer: integrator states, step
//! outcomes, solver configurations and failures, as plain values.
use crate::error::{ErrorModel, KrasisError};
use crate::scalar::{copy_scalars, Scalar};
use vstd::prelude::*;

verus! {

/// A typed evaluation failure: the producer's code, origin and located message.
#[derive(Debug, PartialEq, Eq)]
pub struct EvaluationRefusal {
    pub code: String,
    pub origin: String,
    pub message: String,
}

#[verifier::ext_equal]
pub struct RefusalModel {
    pub code: Seq<char>,
    pub origin: Seq<char>,
    pub message: Seq<char>,
}

impl View for EvaluationRefusal {
    type V = RefusalModel;

    open spec fn view(&self) -> RefusalModel {
        RefusalModel { code: self.code@, origin: self.origin@, message: self.message@ }
    }
}

impl Clone for EvaluationRefusal {
    fn clone(&self) -> (result: EvaluationRefusal)
        ensures
            result@ == self@,
    {
        EvaluationRefusal {
            code: self.code.clone(),
            origin: self.origin.clone(),
            message: self.message.clone(),
        }
    }
}

/// A failure that the numerical layer reported: typed where an evaluation refused,
/// and always with its text.
#[derive(Clone, Debug, PartialEq, Eq)]
pub struct SolveError {
    pub refusal: Option<EvaluationRefusal>,
    pub text: String,
}

/// A failure that the library reports to the numerical layer.
#[derive(Clone, Debug, PartialEq, Eq)]
pub enum NumericError {
    /// A typed evaluation failure, passed on.
    Evaluation(EvaluationRefusal),
    /// An argument has the wrong length.
    DimensionMismatch { operation: String, expected: usize, actual: usize },
    /// A value is infinite or NaN.
    NonFinite { operation: String, index: usize },
    /// Any other failure of the library, by its text.
    Operator { message: String },
    /// A failure of the numerical layer, passed on.
    Reported(SolveError),
}

/// A reported failure as a mathematical value.
#[verifier::ext_equal]
pub struct SolveModel {
    pub refusal: Option<RefusalModel>,
    pub text: Seq<char>,
}

impl View for SolveError {
    type V = SolveModel;

    open spec fn view(&self) -> SolveModel {
        SolveModel {
            refusal: match self.refusal {
                Some(refusal) => Some(refusal@),
                None => None,
            },
            text: self.text@,
        }
    }
}

#[verifier::ext_equal]
pub enum NumericModel {
    Evaluation(RefusalModel),
    DimensionMismatch { operation: Seq<char>, expected: nat, actual: nat },
    NonFinite { operation: Seq<char>, index: nat },
    Operator { message: Seq<char> },
    Reported(SolveModel),
}

impl View for NumericError {
    type V = NumericModel;

    open spec fn view(&self) -> NumericModel {
        match *self {
            NumericError::Evaluation(refusal) => NumericModel::Evaluation(refusal@),
            NumericError::DimensionMismatch { operation, expected, actual } =>
                NumericModel::DimensionMismatch {
                operation: operation@,
                expected: expected as nat,
                actual: actual as nat,
            },
            NumericError::NonFinite { operation, index } => NumericModel::NonFinite {
                operation: operation@,
                index: index as nat,
            },
            NumericError::Operator { message } => NumericModel::Operator { message: message@ },
            NumericError::Reported(error) => NumericModel::Reported(error@),
        }
    }
}

/// A reported failure as the library reports it: a typed refusal keeps its code
/// and origin, anything else is its text.
pub open spec fn solve_failure(error: SolveModel) -> ErrorModel {
    match error.refusal {
        Some(refusal) => ErrorModel::EvaluationRefused {
            code: refusal.code,
            origin: refusal.origin,
            message: refusal.message,
        },
        None => ErrorModel::Solve(error.text),
    }
}

pub fn krasis_solve_error(error: SolveError) -> (result: KrasisError)
    ensures
        result@ == solve_failure(error@),
{
    match error.refusal {
        Some(refusal) => KrasisError::EvaluationRefused {
            code: refusal.code,
            origin: refusal.origin,
            message: refusal.message,
        },
        None => KrasisError::Solve(error.text),
    }
}

/// Whether `outward` is how a failure goes back to the numerical layer: a typed
/// refusal with code and origin intact, anything else as its text.
pub open spec fn passed_back<R: Fn(Scalar) -> String>(
    error: KrasisError,
    render: R,
    outward: NumericError,
) -> bool {
    match error@ {
        ErrorModel::EvaluationRefused { code, origin, message } => outward@
            == NumericModel::Evaluation(RefusalModel { code, origin, message }),
        _ => exists|first: String, second: String|
            {
                &&& outward@ == (NumericModel::Operator {
                    message: #[trigger] error@.text(first@, second@),
                })
                &&& error matches KrasisError::InvalidCommitTime { time, current } ==> {
                    &&& call_ensures(render, (time,), first)
                    &&& call_ensures(render, (current,), second)
                }
            },
    }
}

/// The inverse mapping at a boundary that the numerical layer calls: a typed
/// refusal goes back out with code and origin intact, anything else as its text.
pub fn methodus_operator_error<R: Fn(Scalar) -> String>(error: KrasisError, render: &R) -> (result:
    NumericError)
    requires
        forall|value: Scalar| call_requires(*render, (value,)),
    ensures
        passed_back(error, *render, result),
{
    match error {
        KrasisError::EvaluationRefused { code, origin, message } => NumericError::Evaluation(
            EvaluationRefusal { code, origin, message },
        ),
        other => NumericError::Operator { message: other.message(render) },
    }
}

/// The state of a multistep integrator.
#[derive(Debug, PartialEq, Eq)]
pub struct BdfState {
    pub time: Scalar,
    pub values: Vec<Scalar>,
    pub previous_values: Option<Vec<Scalar>>,
    pub previous_step: Option<Scalar>,
    pub accepted_steps: u64,
}

#[verifier::ext_equal]
pub struct BdfModel {
    pub time: Scalar,
    pub values: Seq<Scalar>,
    pub previous_values: Option<Seq<Scalar>>,
    pub previous_step: Option<Scalar>,
    pub accepted_steps: u64,
}

impl View for BdfState {
    type V = BdfModel;

    open spec fn view(&self) -> BdfModel {
        BdfModel {
            time: self.time,
            values: self.values@,
            previous_values: match self.previous_values {
                Some(values) => Some(values@),
                None => None,
            },
            previous_step: self.previous_step,
            accepted_steps: self.accepted_steps,
        }
    }
}

impl Clone for BdfState {
    fn clone(&self) -> (result: BdfState)
        ensures
            result@ == self@,
    {
        BdfState {
            time: self.time,
            values: copy_scalars(&self.values),
            previous_values: match &self.previous_values {
                Some(values) => Some(copy_scalars(values)),
                None => None,
            },
            previous_step: self.previous_step,
            accepted_steps: self.accepted_steps,
        }
    }
}

/// One event located by a step: its index among the event functions, its time and
/// the values of its function before and after.
#[derive(Clone, Copy, Debug, PartialEq, Eq, Structural)]
pub struct EventSample {
    pub index: usize,
    pub time: Scalar,
    pub value_before: Scalar,
    pub value_after: Scalar,
}

/// An accepted step: the next integrator state and the events passed. `report` is what the
/// integrator says of the step, as the numerical layer serialises it.
#[derive(Clone, Debug, PartialEq, Eq)]
pub struct AcceptedStep {
    pub state: BdfState,
    pub events: Vec<EventSample>,
    pub report: String,
}

/// A rejected step: what the integrator says of it, as the numerical layer serialises it.
#[derive(Clone, Debug, PartialEq, Eq)]
pub struct RejectedStep {
    pub report: String,
}

/// What an attempted step led to.
#[derive(Clone, Debug, PartialEq, Eq)]
pub enum StepOutcome {
    Accepted(AcceptedStep),
    Rejected(RejectedStep),
}

/// The configuration of a Newton solve. `encoding` is the JSON object of the whole
/// configuration, as the numerical layer serialises it.
#[derive(Debug, PartialEq, Eq)]
pub struct NewtonConfig {
    pub absolute_tolerance: Scalar,
    pub relative_tolerance: Scalar,
    pub initial_damping: Scalar,
    pub minimum_damping: Scalar,
    pub encoding: String,
}

impl Clone for NewtonConfig {
    fn clone(&self) -> (result: NewtonConfig)
        ensures
            result.absolute_tolerance == self.absolute_tolerance,
            result.relative_tolerance == self.relative_tolerance,
            result.initial_damping == self.initial_damping,
            result.minimum_damping == self.minimum_damping,
            result.encoding@ == self.encoding@,
    {
        NewtonConfig {
            absolute_tolerance: self.absolute_tolerance,
            relative_tolerance: self.relative_tolerance,
            initial_damping: self.initial_damping,
            minimum_damping: self.minimum_damping,
            encoding: self.encoding.clone(),
        }
    }
}

/// The result of a Newton solve.
#[derive(Clone, Debug, PartialEq, Eq)]
pub struct NewtonReport {
    pub state: Vec<Scalar>,
    pub converged: bool,
}

/// Values equal one by one.
pub open spec fn same_values(left: Seq<Scalar>, right: Seq<Scalar>) -> bool {
    &&& left.len() == right.len()
    &&& forall|i: int| 0 <= i < left.len() ==> (#[trigger] left[i]).same_value(right[i])
}

/// Whether two vectors are equal in value.
pub fn equal_values(left: &Vec<Scalar>, right: &Vec<Scalar>) -> (result: bool)
    ensures
        result == same_values(left@, right@),
{
    if left.len() != right.len() {
        return false;
    }
    let mut index: usize = 0;
    while index < left.len()
        invariant
            index <= left.len(),
            left.len() == right.len(),
            forall|i: int| 0 <= i < index ==> (#[trigger] left@[i]).same_value(right@[i]),
        decreases left.len() - index,
    {
        if !left[index].is_equal(&right[index]) {
            return false;
        }
        index += 1;
    }
    true
}

} // verus!
