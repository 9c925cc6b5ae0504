//! Refusals of verification checks, and the scalars that may enter an identity.
use crate::checkpoint::{HistoryModel, NamedHistory, NamedModel, NamedScalars};
use crate::error::{ErrorModel, KrasisError};
use crate::execution::CoupledCheckpoint;
use crate::execution_model::CoupledCheckpointModel;
use crate::numeric::{BdfModel, BdfState, NewtonConfig, SolveError, SolveModel};
use crate::realization::{
    BasisSample, Constraint, ConstraintDependency, FinitumRealization, QuadraturePoint,
};
use crate::scalar::Scalar;
use crate::text;
use crate::text::{is_blank, size_text};
use vstd::prelude::*;

verus! {

/// Why a check refused: a stable code and a text.
#[derive(Clone, Debug, PartialEq, Eq)]
pub struct VerificationRefusal {
    pub code: String,
    pub message: String,
}

/// A refusal as a mathematical value.
#[verifier::ext_equal]
pub struct RefusalText {
    pub code: Seq<char>,
    pub message: Seq<char>,
}

impl View for VerificationRefusal {
    type V = RefusalText;

    open spec fn view(&self) -> RefusalText {
        RefusalText { code: self.code@, message: self.message@ }
    }
}

impl VerificationRefusal {
    /// The text of the refusal.
    pub fn message(&self) -> (result: String)
        ensures
            result@ == self.code@ + ": "@ + self.message@,
    {
        self.code.clone().concat(": ").concat(self.message.as_str())
    }
}

/// Whether the result reports exactly the failure.
pub open spec fn reports<T>(failure: RefusalText, result: Result<T, VerificationRefusal>) -> bool {
    result matches Err(refusal) && refusal@ == failure
}

/// Whether a check that gives nothing succeeded exactly where there is no failure.
pub open spec fn checked(
    failure: Option<RefusalText>,
    result: Result<(), VerificationRefusal>,
) -> bool {
    match failure {
        Some(failure) => reports(failure, result),
        None => result is Ok,
    }
}

/// The first failure of two.
pub open spec fn either(first: Option<RefusalText>, second: Option<RefusalText>) -> Option<
    RefusalText,
> {
    match first {
        Some(failure) => Some(failure),
        None => second,
    }
}

pub(crate) fn refusal(code: &str, message: &str) -> (result: VerificationRefusal)
    ensures
        result@ == (RefusalText { code: code@, message: message@ }),
{
    VerificationRefusal { code: code.to_owned(), message: message.to_owned() }
}

/// The refusal for a failure of the numerical layer: a typed one keeps its code.
pub open spec fn numeric_refused(error: SolveModel) -> RefusalText {
    match error.refusal {
        Some(typed) => RefusalText {
            code: typed.code,
            message: typed.origin + ": "@ + typed.message,
        },
        None => RefusalText { code: "KRASIS_VERIFY_NUMERIC"@, message: error.text },
    }
}

pub(crate) fn numeric_refusal(error: SolveError) -> (result: VerificationRefusal)
    ensures
        result@ == numeric_refused(error@),
{
    match error.refusal {
        Some(typed) => VerificationRefusal {
            code: typed.code,
            message: typed.origin.concat(": ").concat(typed.message.as_str()),
        },
        None => VerificationRefusal {
            code: "KRASIS_VERIFY_NUMERIC".to_owned(),
            message: error.text,
        },
    }
}

/// Whether a text is the text of an error under a rendering of scalars.
pub open spec fn error_text<R: Fn(Scalar) -> String>(
    error: KrasisError,
    render: R,
    message: Seq<char>,
) -> bool {
    exists|first: String, second: String|
        {
            &&& message == #[trigger] error@.text(first@, second@)
            &&& error matches KrasisError::InvalidCommitTime { time, current } ==> {
                &&& call_ensures(render, (time,), first)
                &&& call_ensures(render, (current,), second)
            }
        }
}

/// Whether a refusal is how a check reports an error of the library: a typed
/// evaluation failure keeps its producer's code, anything else is a state failure.
pub open spec fn state_refused<R: Fn(Scalar) -> String>(
    error: KrasisError,
    render: R,
    refused: RefusalText,
) -> bool {
    match error@ {
        ErrorModel::EvaluationRefused { code, origin, message } => refused == (RefusalText {
            code,
            message: origin + ": "@ + message,
        }),
        _ => refused.code == "KRASIS_VERIFY_STATE"@ && error_text(
            error,
            render,
            refused.message,
        ),
    }
}

pub(crate) fn krasis_refusal<R: Fn(Scalar) -> String>(error: KrasisError, render: &R) -> (result:
    VerificationRefusal)
    requires
        forall|value: Scalar| call_requires(*render, (value,)),
    ensures
        state_refused(error, *render, result@),
{
    match error {
        KrasisError::EvaluationRefused { code, origin, message } => VerificationRefusal {
            code,
            message: origin.concat(": ").concat(message.as_str()),
        },
        other => VerificationRefusal {
            code: "KRASIS_VERIFY_STATE".to_owned(),
            message: other.message(render),
        },
    }
}

pub open spec fn serialization_refused(text: Seq<char>) -> RefusalText {
    RefusalText { code: "KRASIS_VERIFY_SERIALIZATION"@, message: text }
}

pub(crate) fn serialization_refusal(error: String) -> (result: VerificationRefusal)
    ensures
        result@ == serialization_refused(error@),
{
    VerificationRefusal { code: "KRASIS_VERIFY_SERIALIZATION".to_owned(), message: error }
}

/// What is wrong with a scalar that enters an identity: it must be finite, and its zero
/// must be positive.
pub open spec fn float_failure(label: Seq<char>, value: Scalar) -> Option<RefusalText> {
    if !value.finite() {
        Some(
            RefusalText {
                code: "KRASIS_VERIFY_NONFINITE_IDENTITY_INPUT"@,
                message: label + " must be finite before identity construction"@,
            },
        )
    } else if value.negative_zero() {
        Some(
            RefusalText {
                code: "KRASIS_VERIFY_NEGATIVE_ZERO_IDENTITY_INPUT"@,
                message: label + " must use canonical positive zero"@,
            },
        )
    } else {
        None
    }
}

pub(crate) fn validate_identity_float(label: &str, value: Scalar) -> (result: Result<
    (),
    VerificationRefusal,
>)
    ensures
        checked(float_failure(label@, value), result),
{
    if !value.is_finite() {
        return Err(
            refusal(
                "KRASIS_VERIFY_NONFINITE_IDENTITY_INPUT",
                label.to_owned().concat(" must be finite before identity construction").as_str(),
            ),
        );
    }
    if value.is_negative_zero() {
        return Err(
            refusal(
                "KRASIS_VERIFY_NEGATIVE_ZERO_IDENTITY_INPUT",
                label.to_owned().concat(" must use canonical positive zero").as_str(),
            ),
        );
    }
    Ok(())
}

/// The failure of the first scalar at or after `from` that may not enter an identity.
pub open spec fn scalars_failure(label: Seq<char>, values: Seq<Scalar>, from: int) -> Option<
    RefusalText,
>
    decreases values.len() - from,
{
    if from >= values.len() {
        None
    } else {
        either(float_failure(label, values[from]), scalars_failure(label, values, from + 1))
    }
}

pub(crate) fn validate_float_slice(label: &str, values: &Vec<Scalar>) -> (result: Result<
    (),
    VerificationRefusal,
>)
    ensures
        checked(scalars_failure(label@, values@, 0), result),
{
    let mut index: usize = 0;
    while index < values.len()
        invariant
            index <= values.len(),
            scalars_failure(label@, values@, 0) == scalars_failure(
                label@,
                values@,
                index as int,
            ),
        decreases values.len() - index,
    {
        match validate_identity_float(label, values[index]) {
            Ok(_) => {},
            Err(error) => {
                return Err(error);
            },
        }
        index += 1;
    }
    Ok(())
}

/// The configuration of a multistep integrator, as far as the checks read it.
#[derive(Clone, Debug, PartialEq, Eq)]
pub struct BdfConfig {
    pub absolute_tolerance: Scalar,
    pub relative_tolerance: Scalar,
    pub minimum_step: Scalar,
    pub maximum_step: Scalar,
    pub newton: NewtonConfig,
}

pub open spec fn newton_failure(config: NewtonConfig) -> Option<RefusalText> {
    either(
        float_failure("Newton absolute tolerance"@, config.absolute_tolerance),
        either(
            float_failure("Newton relative tolerance"@, config.relative_tolerance),
            either(
                float_failure("Newton initial damping"@, config.initial_damping),
                float_failure("Newton minimum damping"@, config.minimum_damping),
            ),
        ),
    )
}

pub(crate) fn validate_newton_identity(config: &NewtonConfig) -> (result: Result<
    (),
    VerificationRefusal,
>)
    ensures
        checked(newton_failure(*config), result),
{
    match validate_identity_float("Newton absolute tolerance", config.absolute_tolerance) {
        Ok(_) => {},
        Err(error) => {
            return Err(error);
        },
    }
    match validate_identity_float("Newton relative tolerance", config.relative_tolerance) {
        Ok(_) => {},
        Err(error) => {
            return Err(error);
        },
    }
    match validate_identity_float("Newton initial damping", config.initial_damping) {
        Ok(_) => {},
        Err(error) => {
            return Err(error);
        },
    }
    validate_identity_float("Newton minimum damping", config.minimum_damping)
}

pub open spec fn step_failure(step: Scalar, config: BdfConfig) -> Option<RefusalText> {
    either(
        float_failure("BDF step"@, step),
        either(
            float_failure("BDF absolute tolerance"@, config.absolute_tolerance),
            either(
                float_failure("BDF relative tolerance"@, config.relative_tolerance),
                either(
                    float_failure("BDF minimum step"@, config.minimum_step),
                    either(
                        float_failure("BDF maximum step"@, config.maximum_step),
                        newton_failure(config.newton),
                    ),
                ),
            ),
        ),
    )
}

pub(crate) fn validate_bdf_identity_inputs(step: Scalar, config: &BdfConfig) -> (result: Result<
    (),
    VerificationRefusal,
>)
    ensures
        checked(step_failure(step, *config), result),
{
    match validate_identity_float("BDF step", step) {
        Ok(_) => {},
        Err(error) => {
            return Err(error);
        },
    }
    match validate_identity_float("BDF absolute tolerance", config.absolute_tolerance) {
        Ok(_) => {},
        Err(error) => {
            return Err(error);
        },
    }
    match validate_identity_float("BDF relative tolerance", config.relative_tolerance) {
        Ok(_) => {},
        Err(error) => {
            return Err(error);
        },
    }
    match validate_identity_float("BDF minimum step", config.minimum_step) {
        Ok(_) => {},
        Err(error) => {
            return Err(error);
        },
    }
    match validate_identity_float("BDF maximum step", config.maximum_step) {
        Ok(_) => {},
        Err(error) => {
            return Err(error);
        },
    }
    validate_newton_identity(&config.newton)
}

pub open spec fn integrator_failure(state: BdfModel) -> Option<RefusalText> {
    either(
        float_failure("BDF state time"@, state.time),
        either(
            scalars_failure("BDF state values"@, state.values, 0),
            either(
                match state.previous_values {
                    Some(previous) => scalars_failure("previous BDF state values"@, previous, 0),
                    None => None,
                },
                match state.previous_step {
                    Some(step) => float_failure("previous BDF step"@, step),
                    None => None,
                },
            ),
        ),
    )
}

pub(crate) fn validate_bdf_state_identity(state: &BdfState) -> (result: Result<
    (),
    VerificationRefusal,
>)
    ensures
        checked(integrator_failure(state@), result),
{
    match validate_identity_float("BDF state time", state.time) {
        Ok(_) => {},
        Err(error) => {
            return Err(error);
        },
    }
    match validate_float_slice("BDF state values", &state.values) {
        Ok(_) => {},
        Err(error) => {
            return Err(error);
        },
    }
    match &state.previous_values {
        Some(previous) => match validate_float_slice("previous BDF state values", previous) {
            Ok(_) => {},
            Err(error) => {
                return Err(error);
            },
        },
        None => {},
    }
    match state.previous_step {
        Some(step) => validate_identity_float("previous BDF step", step),
        None => Ok(()),
    }
}

/// The failure of the first named vector at or after `from`.
pub open spec fn named_failure(
    prefix: Seq<char>,
    entries: Seq<NamedModel>,
    from: int,
) -> Option<RefusalText>
    decreases entries.len() - from,
{
    if from >= entries.len() {
        None
    } else {
        either(
            scalars_failure(prefix + entries[from].name + "`"@, entries[from].values, 0),
            named_failure(prefix, entries, from + 1),
        )
    }
}

fn validate_named(prefix: &str, entries: &Vec<NamedScalars>) -> (result: Result<
    (),
    VerificationRefusal,
>)
    ensures
        checked(
            named_failure(
                prefix@,
                entries@.map_values(|entry: NamedScalars| entry@),
                0,
            ),
            result,
        ),
{
    let ghost models = entries@.map_values(|entry: NamedScalars| entry@);
    let mut index: usize = 0;
    while index < entries.len()
        invariant
            index <= entries.len(),
            models == entries@.map_values(|entry: NamedScalars| entry@),
            named_failure(prefix@, models, 0) == named_failure(prefix@, models, index as int),
        decreases entries.len() - index,
    {
        assert(models[index as int] == entries@[index as int]@);
        let label = prefix.to_owned().concat(entries[index].name.as_str()).concat("`");
        match validate_float_slice(label.as_str(), &entries[index].values) {
            Ok(_) => {},
            Err(error) => {
                return Err(error);
            },
        }
        index += 1;
    }
    Ok(())
}

/// The failure of the first history level at or after `from` of a field.
pub open spec fn levels_failure(
    name: Seq<char>,
    levels: Seq<Seq<Scalar>>,
    from: int,
) -> Option<RefusalText>
    decreases levels.len() - from,
{
    if from >= levels.len() {
        None
    } else {
        either(
            scalars_failure(
                "checkpoint history `"@ + name + "` level "@ + text::decimal(from as nat),
                levels[from],
                0,
            ),
            levels_failure(name, levels, from + 1),
        )
    }
}

pub open spec fn histories_failure(entries: Seq<HistoryModel>, from: int) -> Option<RefusalText>
    decreases entries.len() - from,
{
    if from >= entries.len() {
        None
    } else {
        either(
            levels_failure(entries[from].name, entries[from].levels, 0),
            histories_failure(entries, from + 1),
        )
    }
}

fn validate_levels(entry: &NamedHistory) -> (result: Result<(), VerificationRefusal>)
    ensures
        checked(levels_failure(entry@.name, entry@.levels, 0), result),
{
    let ghost levels = entry@.levels;
    let mut level: usize = 0;
    while level < entry.levels.len()
        invariant
            level <= entry.levels.len(),
            levels == entry@.levels,
            levels_failure(entry@.name, levels, 0) == levels_failure(
                entry@.name,
                levels,
                level as int,
            ),
        decreases entry.levels.len() - level,
    {
        assert(levels[level as int] == entry.levels@[level as int]@);
        let label = "checkpoint history `".to_owned().concat(entry.name.as_str()).concat(
            "` level ",
        ).concat(size_text(level).as_str());
        match validate_float_slice(label.as_str(), &entry.levels[level]) {
            Ok(_) => {},
            Err(error) => {
                return Err(error);
            },
        }
        level += 1;
    }
    Ok(())
}

fn validate_histories(entries: &Vec<NamedHistory>) -> (result: Result<(), VerificationRefusal>)
    ensures
        checked(
            histories_failure(entries@.map_values(|entry: NamedHistory| entry@), 0),
            result,
        ),
{
    let ghost models = entries@.map_values(|entry: NamedHistory| entry@);
    let mut index: usize = 0;
    while index < entries.len()
        invariant
            index <= entries.len(),
            models == entries@.map_values(|entry: NamedHistory| entry@),
            histories_failure(models, 0) == histories_failure(models, index as int),
        decreases entries.len() - index,
    {
        assert(models[index as int] == entries@[index as int]@);
        match validate_levels(&entries[index]) {
            Ok(_) => {},
            Err(error) => {
                return Err(error);
            },
        }
        index += 1;
    }
    Ok(())
}

/// What is wrong with the scalars of restart data.
pub open spec fn checkpoint_failure(checkpoint: CoupledCheckpointModel) -> Option<RefusalText> {
    either(
        float_failure("checkpoint time"@, checkpoint.state.time),
        either(
            named_failure("checkpoint field `"@, checkpoint.state.fields, 0),
            either(
                histories_failure(checkpoint.state.field_history, 0),
                either(
                    named_failure("checkpoint constitutive `"@, checkpoint.state.constitutive, 0),
                    integrator_failure(checkpoint.integrator),
                ),
            ),
        ),
    )
}

pub(crate) fn validate_coupled_checkpoint_identity(checkpoint: &CoupledCheckpoint) -> (result:
    Result<(), VerificationRefusal>)
    ensures
        checked(checkpoint_failure(checkpoint@), result),
{
    match validate_identity_float("checkpoint time", checkpoint.state.time) {
        Ok(_) => {},
        Err(error) => {
            return Err(error);
        },
    }
    match validate_named("checkpoint field `", &checkpoint.state.fields) {
        Ok(_) => {},
        Err(error) => {
            return Err(error);
        },
    }
    match validate_histories(&checkpoint.state.field_history) {
        Ok(_) => {},
        Err(error) => {
            return Err(error);
        },
    }
    match validate_named("checkpoint constitutive `", &checkpoint.state.constitutive) {
        Ok(_) => {},
        Err(error) => {
            return Err(error);
        },
    }
    validate_bdf_state_identity(&checkpoint.integrator)
}

/// The failure of the first mesh vertex at or after `from`.
pub open spec fn vertices_failure(vertices: Seq<Vec<Scalar>>, from: int) -> Option<RefusalText>
    decreases vertices.len() - from,
{
    if from >= vertices.len() {
        None
    } else {
        either(
            scalars_failure(
                "realization mesh vertex "@ + text::decimal(from as nat),
                vertices[from]@,
                0,
            ),
            vertices_failure(vertices, from + 1),
        )
    }
}

fn validate_vertices(vertices: &Vec<Vec<Scalar>>) -> (result: Result<(), VerificationRefusal>)
    ensures
        checked(vertices_failure(vertices@, 0), result),
{
    let mut index: usize = 0;
    while index < vertices.len()
        invariant
            index <= vertices.len(),
            vertices_failure(vertices@, 0) == vertices_failure(vertices@, index as int),
        decreases vertices.len() - index,
    {
        let label = "realization mesh vertex ".to_owned().concat(size_text(index).as_str());
        match validate_float_slice(label.as_str(), &vertices[index]) {
            Ok(_) => {},
            Err(error) => {
                return Err(error);
            },
        }
        index += 1;
    }
    Ok(())
}

pub open spec fn weights_failure(
    dependencies: Seq<ConstraintDependency>,
    from: int,
) -> Option<RefusalText>
    decreases dependencies.len() - from,
{
    if from >= dependencies.len() {
        None
    } else {
        either(
            float_failure("realization constraint weight"@, dependencies[from].weight),
            weights_failure(dependencies, from + 1),
        )
    }
}

/// The failure of the first constraint at or after `from`.
pub open spec fn constraints_failure(constraints: Seq<Constraint>, from: int) -> Option<
    RefusalText,
>
    decreases constraints.len() - from,
{
    if from >= constraints.len() {
        None
    } else {
        either(
            float_failure("realization constraint offset"@, constraints[from].offset),
            either(
                weights_failure(constraints[from].dependencies@, 0),
                constraints_failure(constraints, from + 1),
            ),
        )
    }
}

fn validate_weights(dependencies: &Vec<ConstraintDependency>) -> (result: Result<
    (),
    VerificationRefusal,
>)
    ensures
        checked(weights_failure(dependencies@, 0), result),
{
    let mut index: usize = 0;
    while index < dependencies.len()
        invariant
            index <= dependencies.len(),
            weights_failure(dependencies@, 0) == weights_failure(dependencies@, index as int),
        decreases dependencies.len() - index,
    {
        match validate_identity_float("realization constraint weight", dependencies[index].weight) {
            Ok(_) => {},
            Err(error) => {
                return Err(error);
            },
        }
        index += 1;
    }
    Ok(())
}

fn validate_constraints(constraints: &Vec<Constraint>) -> (result: Result<
    (),
    VerificationRefusal,
>)
    ensures
        checked(constraints_failure(constraints@, 0), result),
{
    let mut index: usize = 0;
    while index < constraints.len()
        invariant
            index <= constraints.len(),
            constraints_failure(constraints@, 0) == constraints_failure(
                constraints@,
                index as int,
            ),
        decreases constraints.len() - index,
    {
        match validate_identity_float("realization constraint offset", constraints[index].offset) {
            Ok(_) => {},
            Err(error) => {
                return Err(error);
            },
        }
        match validate_weights(&constraints[index].dependencies) {
            Ok(_) => {},
            Err(error) => {
                return Err(error);
            },
        }
        index += 1;
    }
    Ok(())
}

/// What is wrong with one basis function at a quadrature point.
pub open spec fn basis_failure(sample: BasisSample) -> Option<RefusalText> {
    match sample.value {
        None => Some(
            RefusalText {
                code: "KRASIS_VERIFY_REALIZATION_SOURCE"@,
                message: "Finitum element omitted an expected basis value"@,
            },
        ),
        Some(value) => either(
            float_failure("realization basis value"@, value),
            match sample.gradient {
                None => Some(
                    RefusalText {
                        code: "KRASIS_VERIFY_REALIZATION_SOURCE"@,
                        message: "Finitum element omitted an expected basis gradient"@,
                    },
                ),
                Some(gradient) => scalars_failure("realization basis gradient"@, gradient@, 0),
            },
        ),
    }
}

pub open spec fn samples_failure(samples: Seq<BasisSample>, from: int) -> Option<RefusalText>
    decreases samples.len() - from,
{
    if from >= samples.len() {
        None
    } else {
        either(basis_failure(samples[from]), samples_failure(samples, from + 1))
    }
}

/// The failure of the first quadrature point at or after `from`.
pub open spec fn quadrature_failure(points: Seq<QuadraturePoint>, from: int) -> Option<
    RefusalText,
>
    decreases points.len() - from,
{
    if from >= points.len() {
        None
    } else {
        either(
            scalars_failure(
                "realization quadrature point "@ + text::decimal(from as nat),
                points[from].coordinates@,
                0,
            ),
            either(
                float_failure("realization quadrature weight"@, points[from].weight),
                either(
                    samples_failure(points[from].basis@, 0),
                    quadrature_failure(points, from + 1),
                ),
            ),
        )
    }
}

fn validate_samples(samples: &Vec<BasisSample>) -> (result: Result<(), VerificationRefusal>)
    ensures
        checked(samples_failure(samples@, 0), result),
{
    let mut index: usize = 0;
    while index < samples.len()
        invariant
            index <= samples.len(),
            samples_failure(samples@, 0) == samples_failure(samples@, index as int),
        decreases samples.len() - index,
    {
        let value = match samples[index].value {
            Some(value) => value,
            None => {
                return Err(
                    refusal(
                        "KRASIS_VERIFY_REALIZATION_SOURCE",
                        "Finitum element omitted an expected basis value",
                    ),
                );
            },
        };
        match validate_identity_float("realization basis value", value) {
            Ok(_) => {},
            Err(error) => {
                return Err(error);
            },
        }
        match &samples[index].gradient {
            Some(gradient) => match validate_float_slice("realization basis gradient", gradient) {
                Ok(_) => {},
                Err(error) => {
                    return Err(error);
                },
            },
            None => {
                return Err(
                    refusal(
                        "KRASIS_VERIFY_REALIZATION_SOURCE",
                        "Finitum element omitted an expected basis gradient",
                    ),
                );
            },
        }
        index += 1;
    }
    Ok(())
}

fn validate_quadrature(points: &Vec<QuadraturePoint>) -> (result: Result<
    (),
    VerificationRefusal,
>)
    ensures
        checked(quadrature_failure(points@, 0), result),
{
    let mut index: usize = 0;
    while index < points.len()
        invariant
            index <= points.len(),
            quadrature_failure(points@, 0) == quadrature_failure(points@, index as int),
        decreases points.len() - index,
    {
        let label = "realization quadrature point ".to_owned().concat(size_text(index).as_str());
        match validate_float_slice(label.as_str(), &points[index].coordinates) {
            Ok(_) => {},
            Err(error) => {
                return Err(error);
            },
        }
        match validate_identity_float("realization quadrature weight", points[index].weight) {
            Ok(_) => {},
            Err(error) => {
                return Err(error);
            },
        }
        match validate_samples(&points[index].basis) {
            Ok(_) => {},
            Err(error) => {
                return Err(error);
            },
        }
        index += 1;
    }
    Ok(())
}

pub open spec fn inputs_failure(inputs: Seq<Vec<Scalar>>, from: int) -> Option<RefusalText>
    decreases inputs.len() - from,
{
    if from >= inputs.len() {
        None
    } else {
        either(
            scalars_failure("realization stored external input"@, inputs[from]@, 0),
            inputs_failure(inputs, from + 1),
        )
    }
}

fn validate_inputs(inputs: &Vec<Vec<Scalar>>) -> (result: Result<(), VerificationRefusal>)
    ensures
        checked(inputs_failure(inputs@, 0), result),
{
    let mut index: usize = 0;
    while index < inputs.len()
        invariant
            index <= inputs.len(),
            inputs_failure(inputs@, 0) == inputs_failure(inputs@, index as int),
        decreases inputs.len() - index,
    {
        match validate_float_slice("realization stored external input", &inputs[index]) {
            Ok(_) => {},
            Err(error) => {
                return Err(error);
            },
        }
        index += 1;
    }
    Ok(())
}

/// What is wrong with the scalars that a realization exposes: mesh, element, constraints
/// and stored inputs of a plan; mesh and constraints of a reduced system.
pub open spec fn realization_failure(realization: FinitumRealization<'_>) -> Option<RefusalText> {
    match realization {
        FinitumRealization::Plan(plan) => either(
            vertices_failure(plan.vertices@, 0),
            either(
                quadrature_failure(plan.quadrature@, 0),
                either(
                    constraints_failure(plan.constraints@, 0),
                    inputs_failure(plan.stored_inputs@, 0),
                ),
            ),
        ),
        FinitumRealization::ReducedSystem(reduced) => either(
            vertices_failure(reduced.vertices@, 0),
            constraints_failure(reduced.constraints@, 0),
        ),
    }
}

fn validate_realization_identity_source(realization: &FinitumRealization<'_>) -> (result: Result<
    (),
    VerificationRefusal,
>)
    ensures
        checked(realization_failure(*realization), result),
{
    match realization {
        FinitumRealization::Plan(plan) => {
            match validate_vertices(&plan.vertices) {
                Ok(_) => {},
                Err(error) => {
                    return Err(error);
                },
            }
            match validate_quadrature(&plan.quadrature) {
                Ok(_) => {},
                Err(error) => {
                    return Err(error);
                },
            }
            match validate_constraints(&plan.constraints) {
                Ok(_) => {},
                Err(error) => {
                    return Err(error);
                },
            }
            validate_inputs(&plan.stored_inputs)
        },
        FinitumRealization::ReducedSystem(reduced) => {
            match validate_vertices(&reduced.vertices) {
                Ok(_) => {},
                Err(error) => {
                    return Err(error);
                },
            }
            validate_constraints(&reduced.constraints)
        },
    }
}

/// The failure of the first realization at or after `from`.
pub open spec fn realizations_failure(
    realizations: Seq<FinitumRealization<'_>>,
    from: int,
) -> Option<RefusalText>
    decreases realizations.len() - from,
{
    if from >= realizations.len() {
        None
    } else {
        either(
            realization_failure(realizations[from]),
            realizations_failure(realizations, from + 1),
        )
    }
}

pub(crate) fn validate_realizations(realizations: &Vec<FinitumRealization<'_>>) -> (result: Result<
    (),
    VerificationRefusal,
>)
    ensures
        checked(realizations_failure(realizations@, 0), result),
{
    let mut index: usize = 0;
    while index < realizations.len()
        invariant
            index <= realizations.len(),
            realizations_failure(realizations@, 0) == realizations_failure(
                realizations@,
                index as int,
            ),
        decreases realizations.len() - index,
    {
        match validate_realization_identity_source(&realizations[index]) {
            Ok(_) => {},
            Err(error) => {
                return Err(error);
            },
        }
        index += 1;
    }
    Ok(())
}

/// An identity that a caller supplies must not be blank.
pub open spec fn identity_failure(identity: Seq<char>, label: Seq<char>) -> Option<RefusalText> {
    if text::blank(identity) {
        Some(
            RefusalText {
                code: "KRASIS_VERIFY_MISSING_IDENTITY"@,
                message: label + " identity must be nonempty"@,
            },
        )
    } else {
        None
    }
}

pub(crate) fn require_identity(identity: &str, label: &str) -> (result: Result<
    String,
    VerificationRefusal,
>)
    ensures
        match identity_failure(identity@, label@) {
            Some(failure) => reports(failure, result),
            None => result matches Ok(kept) && kept@ == identity@,
        },
{
    if is_blank(identity) {
        Err(
            refusal(
                "KRASIS_VERIFY_MISSING_IDENTITY",
                label.to_owned().concat(" identity must be nonempty").as_str(),
            ),
        )
    } else {
        Ok(identity.to_owned())
    }
}

/// A scalar that has one serialised form: finite, and not the negative zero.
pub open spec fn canonical(value: Scalar) -> bool {
    value.finite() && !value.negative_zero()
}

pub open spec fn canonical_scalars(values: Seq<Scalar>) -> bool {
    forall|i: int| 0 <= i < values.len() ==> canonical(#[trigger] values[i])
}

proof fn lemma_scalars(label: Seq<char>, values: Seq<Scalar>, from: int)
    requires
        0 <= from <= values.len(),
    ensures
        scalars_failure(label, values, from) is None <==> (forall|i: int|
            from <= i < values.len() ==> canonical(#[trigger] values[i])),
    decreases values.len() - from,
{
    if from < values.len() {
        lemma_scalars(label, values, from + 1);
    }
}

proof fn lemma_named(prefix: Seq<char>, entries: Seq<NamedModel>, from: int)
    requires
        0 <= from <= entries.len(),
        named_failure(prefix, entries, from) is None,
    ensures
        forall|i: int|
            from <= i < entries.len() ==> canonical_scalars((#[trigger] entries[i]).values),
    decreases entries.len() - from,
{
    if from < entries.len() {
        lemma_scalars(prefix + entries[from].name + "`"@, entries[from].values, 0);
        lemma_named(prefix, entries, from + 1);
    }
}

proof fn lemma_levels(name: Seq<char>, levels: Seq<Seq<Scalar>>, from: int)
    requires
        0 <= from <= levels.len(),
        levels_failure(name, levels, from) is None,
    ensures
        forall|i: int| from <= i < levels.len() ==> canonical_scalars(#[trigger] levels[i]),
    decreases levels.len() - from,
{
    if from < levels.len() {
        lemma_scalars(
            "checkpoint history `"@ + name + "` level "@ + text::decimal(from as nat),
            levels[from],
            0,
        );
        lemma_levels(name, levels, from + 1);
    }
}

proof fn lemma_histories(entries: Seq<HistoryModel>, from: int)
    requires
        0 <= from <= entries.len(),
        histories_failure(entries, from) is None,
    ensures
        forall|i: int, level: int|
            from <= i < entries.len() && 0 <= level < entries[i].levels.len() ==> canonical_scalars(
                #[trigger] entries[i].levels[level],
            ),
    decreases entries.len() - from,
{
    if from < entries.len() {
        lemma_levels(entries[from].name, entries[from].levels, 0);
        lemma_histories(entries, from + 1);
    }
}

/// Restart data enter an identity only where every scalar in them, through fields,
/// history, constitutive slots and the integrator, is finite and no negative zero.
pub proof fn law_identity_scalars_are_canonical(checkpoint: CoupledCheckpointModel)
    requires
        checkpoint_failure(checkpoint) is None,
    ensures
        canonical(checkpoint.state.time),
        forall|i: int|
            0 <= i < checkpoint.state.fields.len() ==> canonical_scalars(
                (#[trigger] checkpoint.state.fields[i]).values,
            ),
        forall|i: int, level: int|
            0 <= i < checkpoint.state.field_history.len() && 0 <= level
                < checkpoint.state.field_history[i].levels.len() ==> canonical_scalars(
                #[trigger] checkpoint.state.field_history[i].levels[level],
            ),
        forall|i: int|
            0 <= i < checkpoint.state.constitutive.len() ==> canonical_scalars(
                (#[trigger] checkpoint.state.constitutive[i]).values,
            ),
        canonical(checkpoint.integrator.time),
        canonical_scalars(checkpoint.integrator.values),
        checkpoint.integrator.previous_values matches Some(previous) ==> canonical_scalars(
            previous,
        ),
        checkpoint.integrator.previous_step matches Some(step) ==> canonical(step),
{
    lemma_named("checkpoint field `"@, checkpoint.state.fields, 0);
    lemma_histories(checkpoint.state.field_history, 0);
    lemma_named("checkpoint constitutive `"@, checkpoint.state.constitutive, 0);
    lemma_scalars("BDF state values"@, checkpoint.integrator.values, 0);
    if checkpoint.integrator.previous_values is Some {
        lemma_scalars(
            "previous BDF state values"@,
            checkpoint.integrator.previous_values->Some_0,
            0,
        );
    }
}

} // verus!
