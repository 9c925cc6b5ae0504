//! Errors and their texts.
use crate::scalar::Scalar;
use crate::text;
use crate::text::{decimal_text, size_text};
use vstd::prelude::*;

verus! {

/// Why a request was refused.
#[allow(inconsistent_fields)]
#[derive(Clone, Debug, PartialEq, Eq)]
pub enum KrasisError {
    /// The layout has no block.
    EmptyLayout,
    /// A block id is blank.
    EmptyBlockId,
    /// The block's range is empty.
    EmptyBlock(String),
    /// The block id occurs twice.
    DuplicateBlock(String),
    /// A block starts after the end of the previous one.
    BlockGap { expected: usize, actual: usize },
    /// A block starts before the end of the previous one.
    OverlappingBlock { block: String, start: usize, end: usize },
    /// The field is already in the state.
    DuplicateField(String),
    /// The constitutive slot is already in the state.
    DuplicateConstitutive(String),
    /// No such field.
    UnknownField(String),
    /// No such constitutive slot.
    UnknownConstitutive(String),
    /// The layout has no block of the field's name.
    FieldOutsideLayout(String),
    /// A block of the layout has no field yet.
    MissingField(String),
    /// The values have the wrong length.
    FieldLength { field: String, actual: usize, expected: usize },
    /// A value is infinite or NaN.
    NonFiniteValue { label: String, index: usize },
    /// A trial is open.
    TrialAlreadyActive,
    /// No trial is open.
    NoActiveTrial,
    /// A slot was added during a trial.
    StructureDuringTrial,
    /// The commit time is not finite or lies before the current time.
    InvalidCommitTime { time: Scalar, current: Scalar },
    /// No further step can be counted.
    StepOverflow,
    /// The checkpoint belongs to another layout.
    LayoutMismatch { actual: String, expected: String },
    /// The checkpoint does not describe this state.
    MalformedCheckpoint(String),
    /// The composition is inconsistent.
    InvalidCoupling(String),
    /// The numerical solve failed.
    Solve(String),
    /// The linear solve stopped short of its tolerance.
    SolveDidNotConverge { algorithm: String, iterations: usize },
    /// A callback refused an evaluation; its own code, origin and message.
    EvaluationRefused { code: String, origin: String, message: String },
    /// No vertex to sample at.
    EmptyNodalContext,
    /// Vertices of different dimension.
    InconsistentNodalCoordinates { index: usize, expected: usize, actual: usize },
    /// A block has no initial source.
    InitialBlockMissing(String),
    /// An initial source names no block.
    InitialBlockUnknown(String),
    /// Two initial sources name one block.
    InitialBlockDuplicate(String),
    /// The block width is no multiple of the vertex count.
    InitialDimensionMismatch { block: String, width: usize, vertex_count: usize },
    /// The source has no point values.
    InitialSourceNotPointwise(String),
    /// A binding names no block of the layout.
    StateBindingUnknownBlock(String),
    /// Two bindings name one block.
    StateBindingDuplicateBlock(String),
    /// Two bindings name one semantic id.
    StateBindingDuplicateSemanticId(u32),
    /// A block is left unbound.
    StateBindingIncomplete,
    /// The binding belongs to another layout.
    StateBindingLayoutMismatch,
    /// The row mask has the wrong length.
    ConsistentInitializationMaskLength { actual: usize, expected: usize },
}

/// An error as a mathematical value.
#[allow(inconsistent_fields)]
#[verifier::ext_equal]
pub enum ErrorModel {
    EmptyLayout,
    EmptyBlockId,
    EmptyBlock(Seq<char>),
    DuplicateBlock(Seq<char>),
    BlockGap { expected: nat, actual: nat },
    OverlappingBlock { block: Seq<char>, start: nat, end: nat },
    DuplicateField(Seq<char>),
    DuplicateConstitutive(Seq<char>),
    UnknownField(Seq<char>),
    UnknownConstitutive(Seq<char>),
    FieldOutsideLayout(Seq<char>),
    MissingField(Seq<char>),
    FieldLength { field: Seq<char>, actual: nat, expected: nat },
    NonFiniteValue { label: Seq<char>, index: nat },
    TrialAlreadyActive,
    NoActiveTrial,
    StructureDuringTrial,
    InvalidCommitTime { time: Scalar, current: Scalar },
    StepOverflow,
    LayoutMismatch { actual: Seq<char>, expected: Seq<char> },
    MalformedCheckpoint(Seq<char>),
    InvalidCoupling(Seq<char>),
    Solve(Seq<char>),
    SolveDidNotConverge { algorithm: Seq<char>, iterations: nat },
    EvaluationRefused { code: Seq<char>, origin: Seq<char>, message: Seq<char> },
    EmptyNodalContext,
    InconsistentNodalCoordinates { index: nat, expected: nat, actual: nat },
    InitialBlockMissing(Seq<char>),
    InitialBlockUnknown(Seq<char>),
    InitialBlockDuplicate(Seq<char>),
    InitialDimensionMismatch { block: Seq<char>, width: nat, vertex_count: nat },
    InitialSourceNotPointwise(Seq<char>),
    StateBindingUnknownBlock(Seq<char>),
    StateBindingDuplicateBlock(Seq<char>),
    StateBindingDuplicateSemanticId(nat),
    StateBindingIncomplete,
    StateBindingLayoutMismatch,
    ConsistentInitializationMaskLength { actual: nat, expected: nat },
}

impl View for KrasisError {
    type V = ErrorModel;

    open spec fn view(&self) -> ErrorModel {
        match *self {
            KrasisError::EmptyLayout => ErrorModel::EmptyLayout,
            KrasisError::EmptyBlockId => ErrorModel::EmptyBlockId,
            KrasisError::EmptyBlock(a) => ErrorModel::EmptyBlock(a@),
            KrasisError::DuplicateBlock(a) => ErrorModel::DuplicateBlock(a@),
            KrasisError::BlockGap { expected, actual } => ErrorModel::BlockGap { expected: expected as nat, actual: actual as nat },
            KrasisError::OverlappingBlock { block, start, end } => ErrorModel::OverlappingBlock { block: block@, start: start as nat, end: end as nat },
            KrasisError::DuplicateField(a) => ErrorModel::DuplicateField(a@),
            KrasisError::DuplicateConstitutive(a) => ErrorModel::DuplicateConstitutive(a@),
            KrasisError::UnknownField(a) => ErrorModel::UnknownField(a@),
            KrasisError::UnknownConstitutive(a) => ErrorModel::UnknownConstitutive(a@),
            KrasisError::FieldOutsideLayout(a) => ErrorModel::FieldOutsideLayout(a@),
            KrasisError::MissingField(a) => ErrorModel::MissingField(a@),
            KrasisError::FieldLength { field, actual, expected } => ErrorModel::FieldLength { field: field@, actual: actual as nat, expected: expected as nat },
            KrasisError::NonFiniteValue { label, index } => ErrorModel::NonFiniteValue { label: label@, index: index as nat },
            KrasisError::TrialAlreadyActive => ErrorModel::TrialAlreadyActive,
            KrasisError::NoActiveTrial => ErrorModel::NoActiveTrial,
            KrasisError::StructureDuringTrial => ErrorModel::StructureDuringTrial,
            KrasisError::InvalidCommitTime { time, current } => ErrorModel::InvalidCommitTime { time, current },
            KrasisError::StepOverflow => ErrorModel::StepOverflow,
            KrasisError::LayoutMismatch { actual, expected } => ErrorModel::LayoutMismatch { actual: actual@, expected: expected@ },
            KrasisError::MalformedCheckpoint(a) => ErrorModel::MalformedCheckpoint(a@),
            KrasisError::InvalidCoupling(a) => ErrorModel::InvalidCoupling(a@),
            KrasisError::Solve(a) => ErrorModel::Solve(a@),
            KrasisError::SolveDidNotConverge { algorithm, iterations } => ErrorModel::SolveDidNotConverge { algorithm: algorithm@, iterations: iterations as nat },
            KrasisError::EvaluationRefused { code, origin, message } => ErrorModel::EvaluationRefused { code: code@, origin: origin@, message: message@ },
            KrasisError::EmptyNodalContext => ErrorModel::EmptyNodalContext,
            KrasisError::InconsistentNodalCoordinates { index, expected, actual } => ErrorModel::InconsistentNodalCoordinates { index: index as nat, expected: expected as nat, actual: actual as nat },
            KrasisError::InitialBlockMissing(a) => ErrorModel::InitialBlockMissing(a@),
            KrasisError::InitialBlockUnknown(a) => ErrorModel::InitialBlockUnknown(a@),
            KrasisError::InitialBlockDuplicate(a) => ErrorModel::InitialBlockDuplicate(a@),
            KrasisError::InitialDimensionMismatch { block, width, vertex_count } => ErrorModel::InitialDimensionMismatch { block: block@, width: width as nat, vertex_count: vertex_count as nat },
            KrasisError::InitialSourceNotPointwise(a) => ErrorModel::InitialSourceNotPointwise(a@),
            KrasisError::StateBindingUnknownBlock(a) => ErrorModel::StateBindingUnknownBlock(a@),
            KrasisError::StateBindingDuplicateBlock(a) => ErrorModel::StateBindingDuplicateBlock(a@),
            KrasisError::StateBindingDuplicateSemanticId(a) => ErrorModel::StateBindingDuplicateSemanticId(a as nat),
            KrasisError::StateBindingIncomplete => ErrorModel::StateBindingIncomplete,
            KrasisError::StateBindingLayoutMismatch => ErrorModel::StateBindingLayoutMismatch,
            KrasisError::ConsistentInitializationMaskLength { actual, expected } => ErrorModel::ConsistentInitializationMaskLength { actual: actual as nat, expected: expected as nat },
        }
    }
}

impl ErrorModel {
    /// The text of an error; `first` and `second` are the texts of the scalars it holds, if any.
    pub open spec fn text(self, first: Seq<char>, second: Seq<char>) -> Seq<char> {
        match self {
            ErrorModel::EmptyLayout => "a coupled state layout must contain at least one block"@,
            ErrorModel::EmptyBlockId => "state block id must not be empty"@,
            ErrorModel::EmptyBlock(a) => "block `"@ + a + "` has zero width"@,
            ErrorModel::DuplicateBlock(a) => "block `"@ + a + "` is declared more than once"@,
            ErrorModel::BlockGap { expected, actual } => "block layout has a gap: expected the next block at "@ + text::decimal(expected) + ", found "@ + text::decimal(actual),
            ErrorModel::OverlappingBlock { block, start, end } => "block `"@ + block + "` range "@ + text::decimal(start) + ".."@ + text::decimal(end) + " overlaps an existing block"@,
            ErrorModel::DuplicateField(a) => "field `"@ + a + "` already exists"@,
            ErrorModel::DuplicateConstitutive(a) => "constitutive slot `"@ + a + "` already exists"@,
            ErrorModel::UnknownField(a) => "unknown field `"@ + a + "`"@,
            ErrorModel::UnknownConstitutive(a) => "unknown constitutive slot `"@ + a + "`"@,
            ErrorModel::FieldOutsideLayout(a) => "field `"@ + a + "` has no block in the state layout"@,
            ErrorModel::MissingField(a) => "state layout field `"@ + a + "` has not been initialized"@,
            ErrorModel::FieldLength { field, actual, expected } => "field `"@ + field + "` has length "@ + text::decimal(actual) + ", expected "@ + text::decimal(expected),
            ErrorModel::NonFiniteValue { label, index } => label + " has a non-finite value at index "@ + text::decimal(index),
            ErrorModel::TrialAlreadyActive => "a trial transaction is already active"@,
            ErrorModel::NoActiveTrial => "no trial transaction is active"@,
            ErrorModel::StructureDuringTrial => "state structure cannot change during an active trial"@,
            ErrorModel::InvalidCommitTime { .. } => "commit time "@ + first + " must be finite and no earlier than "@ + second,
            ErrorModel::StepOverflow => "the committed step counter is exhausted"@,
            ErrorModel::LayoutMismatch { actual, expected } => "checkpoint layout digest `"@ + actual + "` does not match `"@ + expected + "`"@,
            ErrorModel::MalformedCheckpoint(a) => "checkpoint state is malformed: "@ + a,
            ErrorModel::InvalidCoupling(a) => "coupled operator configuration is invalid: "@ + a,
            ErrorModel::Solve(a) => "coupled numerical solve failed: "@ + a,
            ErrorModel::SolveDidNotConverge { algorithm, iterations } => algorithm + " did not converge within the configured tolerance after "@ + text::decimal(iterations) + " iterations"@,
            ErrorModel::EvaluationRefused { code, origin, message } => code + " at "@ + origin + ": "@ + message,
            ErrorModel::EmptyNodalContext => "nodal context has no vertex coordinates"@,
            ErrorModel::InconsistentNodalCoordinates { index, expected, actual } => "nodal coordinate "@ + text::decimal(index) + " has dimension "@ + text::decimal(actual) + ", expected "@ + text::decimal(expected) + " to match every other vertex"@,
            ErrorModel::InitialBlockMissing(a) => "initial-condition bindings are missing block `"@ + a + "`"@,
            ErrorModel::InitialBlockUnknown(a) => "initial-condition bindings name unknown block `"@ + a + "`"@,
            ErrorModel::InitialBlockDuplicate(a) => "initial-condition bindings name block `"@ + a + "` more than once"@,
            ErrorModel::InitialDimensionMismatch { block, width, vertex_count } => "block `"@ + block + "` has width "@ + text::decimal(width) + ", which is not a whole number of components over "@ + text::decimal(vertex_count) + " vertices"@,
            ErrorModel::InitialSourceNotPointwise(a) => "block `"@ + a + "` binds a field source that cannot be evaluated pointwise"@,
            ErrorModel::StateBindingUnknownBlock(a) => "state binding names unknown block `"@ + a + "`"@,
            ErrorModel::StateBindingDuplicateBlock(a) => "state binding names block `"@ + a + "` more than once"@,
            ErrorModel::StateBindingDuplicateSemanticId(a) => "state binding names semantic id `"@ + text::decimal(a) + "` more than once"@,
            ErrorModel::StateBindingIncomplete => "state binding does not cover every block in the state layout"@,
            ErrorModel::StateBindingLayoutMismatch => "state binding blocks do not match the coupled operator's state layout"@,
            ErrorModel::ConsistentInitializationMaskLength { actual, expected } => "consistent-initialization mask has "@ + text::decimal(actual) + " rows, expected "@ + text::decimal(expected) + " to match the operator dimension"@,
        }
    }
}

impl KrasisError {
    /// The text of the error. `render` gives the text of a scalar.
    pub fn message<R: Fn(Scalar) -> String>(&self, render: &R) -> (result: String)
        requires
            forall|value: Scalar| call_requires(*render, (value,)),
        ensures
            exists|first: String, second: String|
                {
                    &&& result@ == #[trigger] self@.text(first@, second@)
                    &&& *self matches KrasisError::InvalidCommitTime { time, current } ==> {
                        &&& call_ensures(*render, (time,), first)
                        &&& call_ensures(*render, (current,), second)
                    }
                },
    {
        let ghost mut first: String = arbitrary();
        let ghost mut second: String = arbitrary();
        let result = match self {
            KrasisError::EmptyLayout => "a coupled state layout must contain at least one block".to_owned(),
            KrasisError::EmptyBlockId => "state block id must not be empty".to_owned(),
            KrasisError::EmptyBlock(a) => "block `".to_owned().concat(a.as_str()).concat("` has zero width"),
            KrasisError::DuplicateBlock(a) => "block `".to_owned().concat(a.as_str()).concat("` is declared more than once"),
            KrasisError::BlockGap { expected, actual } => "block layout has a gap: expected the next block at ".to_owned().concat(size_text(*expected).as_str()).concat(", found ").concat(size_text(*actual).as_str()),
            KrasisError::OverlappingBlock { block, start, end } => "block `".to_owned().concat(block.as_str()).concat("` range ").concat(size_text(*start).as_str()).concat("..").concat(size_text(*end).as_str()).concat(" overlaps an existing block"),
            KrasisError::DuplicateField(a) => "field `".to_owned().concat(a.as_str()).concat("` already exists"),
            KrasisError::DuplicateConstitutive(a) => "constitutive slot `".to_owned().concat(a.as_str()).concat("` already exists"),
            KrasisError::UnknownField(a) => "unknown field `".to_owned().concat(a.as_str()).concat("`"),
            KrasisError::UnknownConstitutive(a) => "unknown constitutive slot `".to_owned().concat(a.as_str()).concat("`"),
            KrasisError::FieldOutsideLayout(a) => "field `".to_owned().concat(a.as_str()).concat("` has no block in the state layout"),
            KrasisError::MissingField(a) => "state layout field `".to_owned().concat(a.as_str()).concat("` has not been initialized"),
            KrasisError::FieldLength { field, actual, expected } => "field `".to_owned().concat(field.as_str()).concat("` has length ").concat(size_text(*actual).as_str()).concat(", expected ").concat(size_text(*expected).as_str()),
            KrasisError::NonFiniteValue { label, index } => label.as_str().to_owned().concat(" has a non-finite value at index ").concat(size_text(*index).as_str()),
            KrasisError::TrialAlreadyActive => "a trial transaction is already active".to_owned(),
            KrasisError::NoActiveTrial => "no trial transaction is active".to_owned(),
            KrasisError::StructureDuringTrial => "state structure cannot change during an active trial".to_owned(),
            KrasisError::InvalidCommitTime { time, current } => {
                let time_text = render(*time);
                let current_text = render(*current);
                proof {
                    first = time_text;
                    second = current_text;
                }
                "commit time ".to_owned().concat(time_text.as_str()).concat(" must be finite and no earlier than ").concat(current_text.as_str())
            },
            KrasisError::StepOverflow => "the committed step counter is exhausted".to_owned(),
            KrasisError::LayoutMismatch { actual, expected } => "checkpoint layout digest `".to_owned().concat(actual.as_str()).concat("` does not match `").concat(expected.as_str()).concat("`"),
            KrasisError::MalformedCheckpoint(a) => "checkpoint state is malformed: ".to_owned().concat(a.as_str()),
            KrasisError::InvalidCoupling(a) => "coupled operator configuration is invalid: ".to_owned().concat(a.as_str()),
            KrasisError::Solve(a) => "coupled numerical solve failed: ".to_owned().concat(a.as_str()),
            KrasisError::SolveDidNotConverge { algorithm, iterations } => algorithm.as_str().to_owned().concat(" did not converge within the configured tolerance after ").concat(size_text(*iterations).as_str()).concat(" iterations"),
            KrasisError::EvaluationRefused { code, origin, message } => code.as_str().to_owned().concat(" at ").concat(origin.as_str()).concat(": ").concat(message.as_str()),
            KrasisError::EmptyNodalContext => "nodal context has no vertex coordinates".to_owned(),
            KrasisError::InconsistentNodalCoordinates { index, expected, actual } => "nodal coordinate ".to_owned().concat(size_text(*index).as_str()).concat(" has dimension ").concat(size_text(*actual).as_str()).concat(", expected ").concat(size_text(*expected).as_str()).concat(" to match every other vertex"),
            KrasisError::InitialBlockMissing(a) => "initial-condition bindings are missing block `".to_owned().concat(a.as_str()).concat("`"),
            KrasisError::InitialBlockUnknown(a) => "initial-condition bindings name unknown block `".to_owned().concat(a.as_str()).concat("`"),
            KrasisError::InitialBlockDuplicate(a) => "initial-condition bindings name block `".to_owned().concat(a.as_str()).concat("` more than once"),
            KrasisError::InitialDimensionMismatch { block, width, vertex_count } => "block `".to_owned().concat(block.as_str()).concat("` has width ").concat(size_text(*width).as_str()).concat(", which is not a whole number of components over ").concat(size_text(*vertex_count).as_str()).concat(" vertices"),
            KrasisError::InitialSourceNotPointwise(a) => "block `".to_owned().concat(a.as_str()).concat("` binds a field source that cannot be evaluated pointwise"),
            KrasisError::StateBindingUnknownBlock(a) => "state binding names unknown block `".to_owned().concat(a.as_str()).concat("`"),
            KrasisError::StateBindingDuplicateBlock(a) => "state binding names block `".to_owned().concat(a.as_str()).concat("` more than once"),
            KrasisError::StateBindingDuplicateSemanticId(a) => "state binding names semantic id `".to_owned().concat(decimal_text(*a as u64).as_str()).concat("` more than once"),
            KrasisError::StateBindingIncomplete => "state binding does not cover every block in the state layout".to_owned(),
            KrasisError::StateBindingLayoutMismatch => "state binding blocks do not match the coupled operator's state layout".to_owned(),
            KrasisError::ConsistentInitializationMaskLength { actual, expected } => "consistent-initialization mask has ".to_owned().concat(size_text(*actual).as_str()).concat(" rows, expected ").concat(size_text(*expected).as_str()).concat(" to match the operator dimension"),
        };
        assert(result@ == self@.text(first@, second@));
        result
    }
}

} // verus!
