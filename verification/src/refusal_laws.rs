//! Which inputs may enter an identity, and how failures are told.
use crate::checkpoint::{HistoryModel, NamedModel};
use crate::derivative;
use crate::derivative::ComparisonTolerance;
use crate::error::{ErrorModel, KrasisError};
use crate::event_check;
use crate::execution_model::CoupledCheckpointModel;
use crate::numeric;
use crate::numeric::{BdfModel, NewtonConfig, NumericError, NumericModel, SolveError};
use crate::operator::BlockSpec;
use crate::realization::{
    BasisSample, Constraint, ConstraintDependency, FinitumRealization, QuadraturePoint,
};
use crate::refusal;
use crate::refusal::{BdfConfig, RefusalText};
use crate::scalar::Scalar;
use crate::strategy;
use crate::text;
use vstd::prelude::*;

verus! {

/// A scalar that may enter an identity: finite, and not the zero with its sign bit set.
pub open spec fn enters(value: Scalar) -> bool {
    value.finite() && value.bits() != 0x8000_0000_0000_0000
}

pub open spec fn all_enter(values: Seq<Scalar>) -> bool {
    forall|k: int| 0 <= k < values.len() ==> enters(#[trigger] values[k])
}

proof fn lemma_scalars(label: Seq<char>, values: Seq<Scalar>, from: int)
    requires
        0 <= from <= values.len(),
    ensures
        refusal::scalars_failure(label, values, from) is None <==> forall|k: int|
            from <= k < values.len() ==> enters(#[trigger] values[k]),
    decreases values.len() - from,
{
    if from < values.len() {
        lemma_scalars(label, values, from + 1);
        assert(values[from] == values[from]);
    }
}

/// A step and an integrator configuration are admitted exactly where the step, the four
/// scalars of the integrator and the four of its Newton solve may all enter an identity.
pub proof fn law_step_is_admitted_where_its_scalars_enter(step: Scalar, config: BdfConfig)
    ensures
        refusal::step_failure(step, config) is None <==> {
            &&& enters(step)
            &&& enters(config.absolute_tolerance)
            &&& enters(config.relative_tolerance)
            &&& enters(config.minimum_step)
            &&& enters(config.maximum_step)
            &&& enters(config.newton.absolute_tolerance)
            &&& enters(config.newton.relative_tolerance)
            &&& enters(config.newton.initial_damping)
            &&& enters(config.newton.minimum_damping)
        },
        refusal::newton_failure(config.newton) is None <==> {
            &&& enters(config.newton.absolute_tolerance)
            &&& enters(config.newton.relative_tolerance)
            &&& enters(config.newton.initial_damping)
            &&& enters(config.newton.minimum_damping)
        },
{
}

/// An integrator state is admitted exactly where all of its scalars may enter an identity.
pub proof fn law_integrator_is_admitted_where_its_scalars_enter(state: BdfModel)
    ensures
        refusal::integrator_failure(state) is None <==> {
            &&& enters(state.time)
            &&& all_enter(state.values)
            &&& state.previous_values matches Some(previous) ==> all_enter(previous)
            &&& state.previous_step matches Some(step) ==> enters(step)
        },
{
    lemma_scalars("BDF state values"@, state.values, 0);
    if state.previous_values is Some {
        lemma_scalars("previous BDF state values"@, state.previous_values->Some_0, 0);
    }
}

proof fn lemma_named(prefix: Seq<char>, entries: Seq<NamedModel>, from: int)
    requires
        0 <= from <= entries.len(),
    ensures
        refusal::named_failure(prefix, entries, from) is None <==> forall|i: int|
            from <= i < entries.len() ==> all_enter((#[trigger] entries[i]).values),
    decreases entries.len() - from,
{
    if from < entries.len() {
        lemma_scalars(prefix + entries[from].name + "`"@, entries[from].values, 0);
        lemma_named(prefix, entries, from + 1);
        assert(entries[from] == entries[from]);
    }
}

proof fn lemma_levels(name: Seq<char>, levels: Seq<Seq<Scalar>>, from: int)
    requires
        0 <= from <= levels.len(),
    ensures
        refusal::levels_failure(name, levels, from) is None <==> forall|i: int|
            from <= i < levels.len() ==> all_enter(#[trigger] levels[i]),
    decreases levels.len() - from,
{
    if from < levels.len() {
        lemma_scalars(
            "checkpoint history `"@ + name + "` level "@ + text::decimal(from as nat),
            levels[from],
            0,
        );
        lemma_levels(name, levels, from + 1);
        assert(levels[from] == levels[from]);
    }
}

/// Whether every scalar of every level may enter an identity.
pub open spec fn levels_enter(levels: Seq<Seq<Scalar>>) -> bool {
    forall|i: int| 0 <= i < levels.len() ==> all_enter(#[trigger] levels[i])
}

proof fn lemma_histories(entries: Seq<HistoryModel>, from: int)
    requires
        0 <= from <= entries.len(),
    ensures
        refusal::histories_failure(entries, from) is None <==> forall|i: int|
            from <= i < entries.len() ==> levels_enter((#[trigger] entries[i]).levels),
    decreases entries.len() - from,
{
    if from < entries.len() {
        lemma_levels(entries[from].name, entries[from].levels, 0);
        lemma_histories(entries, from + 1);
        assert(entries[from] == entries[from]);
    }
}

/// Restart data are admitted exactly where every scalar in them may enter an identity: the
/// times, and those of fields, histories, constitutive slots and the integrator.
pub proof fn law_restart_data_are_admitted_where_their_scalars_enter(
    checkpoint: CoupledCheckpointModel,
)
    ensures
        refusal::checkpoint_failure(checkpoint) is None <==> {
            &&& enters(checkpoint.state.time)
            &&& forall|i: int|
                0 <= i < checkpoint.state.fields.len() ==> all_enter(
                    (#[trigger] checkpoint.state.fields[i]).values,
                )
            &&& forall|i: int|
                0 <= i < checkpoint.state.field_history.len() ==> levels_enter(
                    (#[trigger] checkpoint.state.field_history[i]).levels,
                )
            &&& forall|i: int|
                0 <= i < checkpoint.state.constitutive.len() ==> all_enter(
                    (#[trigger] checkpoint.state.constitutive[i]).values,
                )
            &&& enters(checkpoint.integrator.time)
            &&& all_enter(checkpoint.integrator.values)
            &&& checkpoint.integrator.previous_values matches Some(previous) ==> all_enter(
                previous,
            )
            &&& checkpoint.integrator.previous_step matches Some(step) ==> enters(step)
        },
{
    lemma_named("checkpoint field `"@, checkpoint.state.fields, 0);
    lemma_histories(checkpoint.state.field_history, 0);
    lemma_named("checkpoint constitutive `"@, checkpoint.state.constitutive, 0);
    law_integrator_is_admitted_where_its_scalars_enter(checkpoint.integrator);
}

/// Whether every coordinate of every point may enter an identity.
pub open spec fn points_enter(points: Seq<Vec<Scalar>>) -> bool {
    forall|i: int| 0 <= i < points.len() ==> all_enter((#[trigger] points[i])@)
}

proof fn lemma_vertices(vertices: Seq<Vec<Scalar>>, from: int)
    requires
        0 <= from <= vertices.len(),
    ensures
        refusal::vertices_failure(vertices, from) is None <==> forall|i: int|
            from <= i < vertices.len() ==> all_enter((#[trigger] vertices[i])@),
    decreases vertices.len() - from,
{
    if from < vertices.len() {
        lemma_scalars(
            "realization mesh vertex "@ + text::decimal(from as nat),
            vertices[from]@,
            0,
        );
        lemma_vertices(vertices, from + 1);
        assert(vertices[from] == vertices[from]);
    }
}

proof fn lemma_inputs(inputs: Seq<Vec<Scalar>>, from: int)
    requires
        0 <= from <= inputs.len(),
    ensures
        refusal::inputs_failure(inputs, from) is None <==> forall|i: int|
            from <= i < inputs.len() ==> all_enter((#[trigger] inputs[i])@),
    decreases inputs.len() - from,
{
    if from < inputs.len() {
        lemma_scalars("realization stored external input"@, inputs[from]@, 0);
        lemma_inputs(inputs, from + 1);
        assert(inputs[from] == inputs[from]);
    }
}

/// Whether the offset and every weight of a constraint may enter an identity.
pub open spec fn constraint_enters(constraint: Constraint) -> bool {
    &&& enters(constraint.offset)
    &&& forall|k: int|
        0 <= k < constraint.dependencies@.len() ==> enters(
            (#[trigger] constraint.dependencies@[k]).weight,
        )
}

pub open spec fn constraints_enter(constraints: Seq<Constraint>) -> bool {
    forall|i: int| 0 <= i < constraints.len() ==> constraint_enters(#[trigger] constraints[i])
}

proof fn lemma_weights(dependencies: Seq<ConstraintDependency>, from: int)
    requires
        0 <= from <= dependencies.len(),
    ensures
        refusal::weights_failure(dependencies, from) is None <==> forall|k: int|
            from <= k < dependencies.len() ==> enters((#[trigger] dependencies[k]).weight),
    decreases dependencies.len() - from,
{
    if from < dependencies.len() {
        lemma_weights(dependencies, from + 1);
        assert(dependencies[from] == dependencies[from]);
    }
}

proof fn lemma_constraints(constraints: Seq<Constraint>, from: int)
    requires
        0 <= from <= constraints.len(),
    ensures
        refusal::constraints_failure(constraints, from) is None <==> forall|i: int|
            from <= i < constraints.len() ==> constraint_enters(#[trigger] constraints[i]),
    decreases constraints.len() - from,
{
    if from < constraints.len() {
        lemma_weights(constraints[from].dependencies@, 0);
        lemma_constraints(constraints, from + 1);
        assert(constraints[from] == constraints[from]);
    }
}

/// Whether a basis sample has a value and a gradient whose scalars may enter an identity.
pub open spec fn sample_enters(sample: BasisSample) -> bool {
    &&& sample.value matches Some(value) && enters(value)
    &&& sample.gradient matches Some(gradient) && all_enter(gradient@)
}

/// Whether the scalars of a quadrature point may enter an identity.
pub open spec fn point_enters(point: QuadraturePoint) -> bool {
    &&& all_enter(point.coordinates@)
    &&& enters(point.weight)
    &&& forall|k: int| 0 <= k < point.basis@.len() ==> sample_enters(#[trigger] point.basis@[k])
}

proof fn lemma_samples(samples: Seq<BasisSample>, from: int)
    requires
        0 <= from <= samples.len(),
    ensures
        refusal::samples_failure(samples, from) is None <==> forall|k: int|
            from <= k < samples.len() ==> sample_enters(#[trigger] samples[k]),
    decreases samples.len() - from,
{
    if from < samples.len() {
        if samples[from].gradient is Some {
            lemma_scalars(
                "realization basis gradient"@,
                samples[from].gradient->Some_0@,
                0,
            );
        }
        lemma_samples(samples, from + 1);
        assert(samples[from] == samples[from]);
    }
}

proof fn lemma_quadrature(points: Seq<QuadraturePoint>, from: int)
    requires
        0 <= from <= points.len(),
    ensures
        refusal::quadrature_failure(points, from) is None <==> forall|i: int|
            from <= i < points.len() ==> point_enters(#[trigger] points[i]),
    decreases points.len() - from,
{
    if from < points.len() {
        lemma_scalars(
            "realization quadrature point "@ + text::decimal(from as nat),
            points[from].coordinates@,
            0,
        );
        lemma_samples(points[from].basis@, 0);
        lemma_quadrature(points, from + 1);
        assert(points[from] == points[from]);
    }
}

/// Whether every scalar that a realization exposes may enter an identity: its mesh and its
/// constraints, and a plan's quadrature and stored inputs.
pub open spec fn realization_enters(realization: FinitumRealization<'_>) -> bool {
    match realization {
        FinitumRealization::Plan(plan) => {
            &&& points_enter(plan.vertices@)
            &&& constraints_enter(plan.constraints@)
            &&& points_enter(plan.stored_inputs@)
            &&& forall|i: int|
                0 <= i < plan.quadrature@.len() ==> point_enters(#[trigger] plan.quadrature@[i])
        },
        FinitumRealization::ReducedSystem(reduced) => {
            &&& points_enter(reduced.vertices@)
            &&& constraints_enter(reduced.constraints@)
        },
    }
}

/// A realization is admitted exactly where every scalar it exposes may enter an identity.
pub proof fn law_realization_is_admitted_where_its_scalars_enter(
    realization: FinitumRealization<'_>,
)
    ensures
        refusal::realization_failure(realization) is None <==> realization_enters(realization),
{
    match realization {
        FinitumRealization::Plan(plan) => {
            lemma_vertices(plan.vertices@, 0);
            lemma_quadrature(plan.quadrature@, 0);
            lemma_constraints(plan.constraints@, 0);
            lemma_inputs(plan.stored_inputs@, 0);
        },
        FinitumRealization::ReducedSystem(reduced) => {
            lemma_vertices(reduced.vertices@, 0);
            lemma_constraints(reduced.constraints@, 0);
        },
    }
}

/// Realizations are admitted exactly where each of them is.
pub proof fn law_realizations_are_admitted_together(
    realizations: Seq<FinitumRealization<'_>>,
    from: int,
)
    requires
        0 <= from <= realizations.len(),
    ensures
        refusal::realizations_failure(realizations, from) is None <==> forall|i: int|
            from <= i < realizations.len() ==> realization_enters(#[trigger] realizations[i]),
    decreases realizations.len() - from,
{
    if from < realizations.len() {
        law_realization_is_admitted_where_its_scalars_enter(realizations[from]);
        law_realizations_are_admitted_together(realizations, from + 1);
        assert(realizations[from] == realizations[from]);
    }
}

/// A strategy check is admitted exactly where its tolerance is valid and the initial state,
/// the Newton configuration and the tolerances may enter an identity.
pub proof fn law_strategy_check_is_admitted(
    tolerance_valid: Result<(), SolveError>,
    initial_state: Seq<Scalar>,
    config: NewtonConfig,
    tolerance: ComparisonTolerance,
)
    ensures
        strategy::strategy_failure(tolerance_valid, initial_state, config, tolerance) is None <==> {
            &&& tolerance_valid is Ok
            &&& all_enter(initial_state)
            &&& enters(config.absolute_tolerance)
            &&& enters(config.relative_tolerance)
            &&& enters(config.initial_damping)
            &&& enters(config.minimum_damping)
            &&& enters(tolerance.absolute)
            &&& enters(tolerance.relative)
        },
{
    lemma_scalars("initial strategy state"@, initial_state, 0);
}

/// A derivative check is admitted exactly where its tolerance is valid, every scalar may
/// enter an identity, there are two blocks or more, and state and direction fill them.
pub proof fn law_derivative_check_is_admitted(
    tolerance_valid: Result<(), SolveError>,
    blocks: Seq<BlockSpec>,
    state: Seq<Scalar>,
    direction: Seq<Scalar>,
    steps: Seq<Scalar>,
    tolerance: ComparisonTolerance,
)
    ensures
        derivative::probe_failure(
            tolerance_valid,
            blocks,
            state,
            direction,
            steps,
            tolerance,
        ) is None <==> {
            &&& tolerance_valid is Ok
            &&& all_enter(state)
            &&& all_enter(direction)
            &&& all_enter(steps)
            &&& enters(tolerance.absolute)
            &&& enters(tolerance.relative)
            &&& blocks.len() >= 2
            &&& state.len() == derivative::block_start(blocks, blocks.len() as int)
            &&& direction.len() == state.len()
        },
{
    lemma_scalars("cross-block state"@, state, 0);
    lemma_scalars("cross-block direction"@, direction, 0);
    lemma_scalars("cross-block steps"@, steps, 0);
}

/// An event check is admitted exactly where the state has the operator's dimension, the
/// operator's identity is not blank and every scalar may enter an identity.
pub proof fn law_event_check_is_admitted(
    state: BdfModel,
    dimension: nat,
    operator_identity: Seq<char>,
    step: Scalar,
    config: BdfConfig,
)
    ensures
        event_check::event_failure(state, dimension, operator_identity, step, config) is None <==> {
            &&& refusal::integrator_failure(state) is None
            &&& refusal::step_failure(step, config) is None
            &&& state.values.len() == dimension
            &&& !text::blank(operator_identity)
        },
{
}

/// A typed refusal of an evaluation keeps its code, origin and message on its way into the
/// library and back out; any other failure keeps its text.
pub proof fn law_typed_refusal_comes_back_as_it_went_in<R: Fn(Scalar) -> String>(
    failure: SolveError,
    error: KrasisError,
    render: R,
    outward: NumericError,
)
    requires
        error@ == numeric::solve_failure(failure@),
        numeric::passed_back(error, render, outward),
    ensures
        failure@.refusal matches Some(refused) ==> outward@ == NumericModel::Evaluation(refused),
        failure@.refusal is None ==> error@ == ErrorModel::Solve(failure@.text),
{
}

/// A check that a typed refusal stopped keeps its code, and says where it came from before
/// what it says.
pub proof fn law_typed_refusal_keeps_its_code<R: Fn(Scalar) -> String>(
    failure: SolveError,
    error: KrasisError,
    render: R,
    refused: RefusalText,
)
    requires
        error@ == numeric::solve_failure(failure@),
        failure@.refusal is Some,
        refusal::state_refused(error, render, refused),
    ensures
        refused.code == failure@.refusal->Some_0.code,
        refused.message == failure@.refusal->Some_0.origin + ": "@
            + failure@.refusal->Some_0.message,
        refused == refusal::numeric_refused(failure@),
{
}

} // verus!
