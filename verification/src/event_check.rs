//! The check of located events on a generic event surface: a step from a given state
//! reports its events and leaves its input alone.
use crate::digest;
use crate::digest::digest_bytes;
use crate::event::EventDirection;
use crate::evidence;
use crate::evidence::{generic_binding, same_binding, BindingModel, VerificationBinding};
use crate::numeric::{BdfModel, BdfState, EventSample, SolveError, StepOutcome};
use crate::refusal;
use crate::refusal::{
    numeric_refusal, require_identity, serialization_refusal, validate_bdf_identity_inputs,
    validate_bdf_state_identity, validate_float_slice, validate_identity_float, BdfConfig,
    RefusalText, VerificationRefusal,
};
use crate::scalar::Scalar;
use crate::text;
use crate::text::{same_text, size_text};
use crate::trajectory::same_bytes;
use crate::verification;
use crate::verification::{require_report, ValidatedKrasisVerification};
use vstd::prelude::*;

verus! {

/// One event and the direction in which its function crossed.
#[derive(Clone, Copy, Debug, PartialEq, Eq, Structural)]
pub struct EventDisposition {
    pub index: usize,
    pub time: Scalar,
    pub value_before: Scalar,
    pub value_after: Scalar,
    pub direction: EventDirection,
}

/// The direction of a crossing.
pub open spec fn direction_of(event: EventSample) -> EventDirection {
    if event.value_before.below(event.value_after) {
        EventDirection::Rising
    } else if event.value_after.below(event.value_before) {
        EventDirection::Falling
    } else {
        EventDirection::Either
    }
}

pub open spec fn disposed(event: EventSample) -> EventDisposition {
    EventDisposition {
        index: event.index,
        time: event.time,
        value_before: event.value_before,
        value_after: event.value_after,
        direction: direction_of(event),
    }
}

pub fn dispose_event(event: &EventSample) -> (result: EventDisposition)
    ensures
        result == disposed(*event),
{
    let direction = if event.value_before.is_below(&event.value_after) {
        EventDirection::Rising
    } else if event.value_after.is_below(&event.value_before) {
        EventDirection::Falling
    } else {
        EventDirection::Either
    };
    EventDisposition {
        index: event.index,
        time: event.time,
        value_before: event.value_before,
        value_after: event.value_after,
        direction,
    }
}

/// The report of an event check.
#[derive(Clone, Debug, PartialEq, Eq)]
pub struct EventStateReport {
    pub report_digest: String,
    pub binding: VerificationBinding,
    /// What the report claims: the events of a generic operator, which no execution keeps.
    pub scope: String,
    pub accepted_step: bool,
    pub events: Vec<EventDisposition>,
    pub input_state_before_digest: String,
    pub input_state_after_digest: String,
    pub input_state_unchanged: bool,
    pub passed: bool,
}

#[verifier::ext_equal]
pub struct EventReportModel {
    pub report_digest: Seq<char>,
    pub binding: BindingModel,
    pub scope: Seq<char>,
    pub accepted_step: bool,
    pub events: Seq<EventDisposition>,
    pub input_state_before_digest: Seq<char>,
    pub input_state_after_digest: Seq<char>,
    pub input_state_unchanged: bool,
    pub passed: bool,
}

impl View for EventStateReport {
    type V = EventReportModel;

    open spec fn view(&self) -> EventReportModel {
        EventReportModel {
            report_digest: self.report_digest@,
            binding: self.binding@,
            scope: self.scope@,
            accepted_step: self.accepted_step,
            events: self.events@,
            input_state_before_digest: self.input_state_before_digest@,
            input_state_after_digest: self.input_state_after_digest@,
            input_state_unchanged: self.input_state_unchanged,
            passed: self.passed,
        }
    }
}

/// What an event check takes from outside: the evaluation context; `describe` serialises the
/// context, the state, the step and the configuration; `encode` serialises a state; `attempt`
/// makes the step from the same four; `seal` serialises the report.
pub struct EventContext<X, C, E, A, S> where
    C: Fn(&X, &BdfState, Scalar, &BdfConfig) -> Result<Vec<u8>, String>,
    E: Fn(&BdfState) -> Result<Vec<u8>, String>,
    A: Fn(&X, &BdfState, Scalar, &BdfConfig) -> Result<StepOutcome, String>,
    S: Fn(&EventStateReport) -> Result<Vec<u8>, String>,
 {
    pub evaluation: X,
    pub describe: C,
    pub encode: E,
    pub attempt: A,
    pub seal: S,
}

impl<X, C, E, A, S> EventContext<X, C, E, A, S> where
    C: Fn(&X, &BdfState, Scalar, &BdfConfig) -> Result<Vec<u8>, String>,
    E: Fn(&BdfState) -> Result<Vec<u8>, String>,
    A: Fn(&X, &BdfState, Scalar, &BdfConfig) -> Result<StepOutcome, String>,
    S: Fn(&EventStateReport) -> Result<Vec<u8>, String>,
 {
    pub open spec fn callable(self) -> bool {
        &&& forall|state: &BdfState, step: Scalar, config: &BdfConfig|
            call_requires(self.describe, (&self.evaluation, state, step, config))
        &&& forall|state: &BdfState| call_requires(self.encode, (state,))
        &&& forall|state: &BdfState, step: Scalar, config: &BdfConfig|
            call_requires(self.attempt, (&self.evaluation, state, step, config))
        &&& forall|report: &EventStateReport| call_requires(self.seal, (report,))
    }
}

/// The events that a step reports; a step that was not accepted reports none.
pub open spec fn events_of(outcome: StepOutcome) -> Seq<EventDisposition> {
    match outcome {
        StepOutcome::Accepted(accepted) => accepted.events@.map_values(
            |event: EventSample| disposed(event),
        ),
        StepOutcome::Rejected(_) => Seq::empty(),
    }
}

fn dispose_events(outcome: &StepOutcome) -> (result: Vec<EventDisposition>)
    ensures
        result@ == events_of(*outcome),
{
    let mut result: Vec<EventDisposition> = Vec::new();
    match outcome {
        StepOutcome::Rejected(_) => {},
        StepOutcome::Accepted(accepted) => {
            let ghost expected = events_of(*outcome);
            let mut index: usize = 0;
            while index < accepted.events.len()
                invariant
                    index <= accepted.events@.len(),
                    expected == accepted.events@.map_values(|event: EventSample| disposed(event)),
                    result@ == expected.take(index as int),
                decreases accepted.events.len() - index,
            {
                result.push(dispose_event(&accepted.events[index]));
                assert(result@ =~= expected.take(index + 1));
                index += 1;
            }
            assert(result@ =~= expected);
        },
    }
    assert(result@ =~= events_of(*outcome));
    result
}

/// The scope that every event report states.
pub open spec fn event_scope() -> Seq<char> {
    "generic Methodus DaeOperator event surface; no Krasis CoupledExecution event persistence claim"@
}

/// What an event report says, before it is sealed.
pub open spec fn event_content(
    binding: BindingModel,
    outcome: StepOutcome,
    before: Seq<u8>,
    after: Seq<u8>,
) -> EventReportModel {
    EventReportModel {
        report_digest: Seq::empty(),
        binding,
        scope: event_scope(),
        accepted_step: outcome is Accepted,
        events: events_of(outcome),
        input_state_before_digest: digest::digest_of_bytes(before),
        input_state_after_digest: digest::digest_of_bytes(after),
        input_state_unchanged: before == after,
        passed: before == after,
    }
}

pub open spec fn event_sealed<S>(
    content: EventReportModel,
    seal: S,
    result: Result<EventStateReport, VerificationRefusal>,
) -> bool where S: Fn(&EventStateReport) -> Result<Vec<u8>, String> {
    exists|unsealed: EventStateReport, encoded: Result<Vec<u8>, String>|
        {
            &&& unsealed@ == content
            &&& #[trigger] call_ensures(seal, (&unsealed,), encoded)
            &&& match encoded {
                Err(error) => refusal::reports(
                    refusal::serialization_refused(error@),
                    result,
                ),
                Ok(bytes) => result matches Ok(report) && report@ == (EventReportModel {
                    report_digest: digest::digest_of_bytes(bytes@),
                    ..content
                }),
            }
        }
}

/// The state encoded again after the step, and the report.
pub open spec fn event_stepped<X, C, E, A, S>(
    state: BdfState,
    binding: BindingModel,
    before: Seq<u8>,
    outcome: StepOutcome,
    calls: EventContext<X, C, E, A, S>,
    result: Result<EventStateReport, VerificationRefusal>,
) -> bool where
    C: Fn(&X, &BdfState, Scalar, &BdfConfig) -> Result<Vec<u8>, String>,
    E: Fn(&BdfState) -> Result<Vec<u8>, String>,
    A: Fn(&X, &BdfState, Scalar, &BdfConfig) -> Result<StepOutcome, String>,
    S: Fn(&EventStateReport) -> Result<Vec<u8>, String>,
 {
    exists|after: Result<Vec<u8>, String>|
        {
            &&& #[trigger] call_ensures(calls.encode, (&state,), after)
            &&& match after {
                Err(error) => refusal::reports(
                    refusal::serialization_refused(error@),
                    result,
                ),
                Ok(after) => event_sealed(
                    event_content(binding, outcome, before, after@),
                    calls.seal,
                    result,
                ),
            }
        }
}

/// The first encoding of the state, the step and what follows.
pub open spec fn event_probed<X, C, E, A, S>(
    state: BdfState,
    step: Scalar,
    config: BdfConfig,
    binding: BindingModel,
    calls: EventContext<X, C, E, A, S>,
    result: Result<EventStateReport, VerificationRefusal>,
) -> bool where
    C: Fn(&X, &BdfState, Scalar, &BdfConfig) -> Result<Vec<u8>, String>,
    E: Fn(&BdfState) -> Result<Vec<u8>, String>,
    A: Fn(&X, &BdfState, Scalar, &BdfConfig) -> Result<StepOutcome, String>,
    S: Fn(&EventStateReport) -> Result<Vec<u8>, String>,
 {
    ||| exists|error: String|
        {
            &&& #[trigger] call_ensures(
                calls.encode,
                (&state,),
                Err::<Vec<u8>, String>(error),
            )
            &&& refusal::reports(refusal::serialization_refused(error@), result)
        }
    ||| exists|before: Vec<u8>, outcome: Result<StepOutcome, String>|
        {
            &&& #[trigger] call_ensures(calls.encode, (&state,), Ok::<Vec<u8>, String>(before))
            &&& #[trigger] call_ensures(
                calls.attempt,
                (&calls.evaluation, &state, step, &config),
                outcome,
            )
            &&& match outcome {
                Err(error) => refusal::reports(
                    RefusalText { code: "KRASIS_VERIFY_EVENT_SOLVE"@, message: error@ },
                    result,
                ),
                Ok(outcome) => event_stepped(state, binding, before@, outcome, calls, result),
            }
        }
}

/// What is wrong with the inputs of an event check.
pub open spec fn event_failure(
    state: BdfModel,
    dimension: nat,
    operator_identity: Seq<char>,
    step: Scalar,
    config: BdfConfig,
) -> Option<RefusalText> {
    refusal::either(
        refusal::integrator_failure(state),
        refusal::either(
            refusal::step_failure(step, config),
            if state.values.len() != dimension {
                Some(
                    RefusalText {
                        code: "KRASIS_VERIFY_EVENT_DIMENSION"@,
                        message: "event state dimension does not match its operator"@,
                    },
                )
            } else {
                refusal::identity_failure(operator_identity, "operator"@)
            },
        ),
    )
}

/// What an event check gives, whatever its outside calls returned.
pub open spec fn event_checked<X, C, E, A, S>(
    state: BdfState,
    dimension: nat,
    operator_identity: Seq<char>,
    step: Scalar,
    config: BdfConfig,
    calls: EventContext<X, C, E, A, S>,
    result: Result<EventStateReport, VerificationRefusal>,
) -> bool where
    C: Fn(&X, &BdfState, Scalar, &BdfConfig) -> Result<Vec<u8>, String>,
    E: Fn(&BdfState) -> Result<Vec<u8>, String>,
    A: Fn(&X, &BdfState, Scalar, &BdfConfig) -> Result<StepOutcome, String>,
    S: Fn(&EventStateReport) -> Result<Vec<u8>, String>,
 {
    match event_failure(state@, dimension, operator_identity, step, config) {
        Some(failure) => refusal::reports(failure, result),
        None => exists|described: Result<Vec<u8>, String>|
            {
                &&& #[trigger] call_ensures(
                    calls.describe,
                    (&calls.evaluation, &state, step, &config),
                    described,
                )
                &&& match described {
                    Err(error) => refusal::reports(
                        refusal::serialization_refused(error@),
                        result,
                    ),
                    Ok(bytes) => event_probed(
                        state,
                        step,
                        config,
                        evidence::generic_bound(
                            operator_identity,
                            "generic-dae-dimension/1:"@ + text::decimal(dimension),
                            bytes@,
                        )->Ok_0,
                        calls,
                        result,
                    ),
                }
            },
    }
}

/// Makes one step from a state and reports its events.
pub fn check_event_state_from<X, C, E, A, S>(
    dimension: usize,
    operator_identity: &str,
    state: BdfState,
    step: Scalar,
    config: &BdfConfig,
    calls: &EventContext<X, C, E, A, S>,
) -> (result: Result<EventStateReport, VerificationRefusal>) where
    C: Fn(&X, &BdfState, Scalar, &BdfConfig) -> Result<Vec<u8>, String>,
    E: Fn(&BdfState) -> Result<Vec<u8>, String>,
    A: Fn(&X, &BdfState, Scalar, &BdfConfig) -> Result<StepOutcome, String>,
    S: Fn(&EventStateReport) -> Result<Vec<u8>, String>,

    requires
        calls.callable(),
    ensures
        event_checked(
            state,
            dimension as nat,
            operator_identity@,
            step,
            *config,
            *calls,
            result,
        ),
{
    match validate_bdf_state_identity(&state) {
        Ok(_) => {},
        Err(error) => {
            return Err(error);
        },
    }
    match validate_bdf_identity_inputs(step, config) {
        Ok(_) => {},
        Err(error) => {
            return Err(error);
        },
    }
    if state.values.len() != dimension {
        return Err(
            refusal::refusal(
                "KRASIS_VERIFY_EVENT_DIMENSION",
                "event state dimension does not match its operator",
            ),
        );
    }
    match require_identity(operator_identity, "operator") {
        Ok(_) => {},
        Err(error) => {
            return Err(error);
        },
    }
    let described = (calls.describe)(&calls.evaluation, &state, step, config);
    let ghost description = described;
    assert(call_ensures(
        calls.describe,
        (&calls.evaluation, &state, step, config),
        description,
    ));
    let bytes = match described {
        Ok(bytes) => bytes,
        Err(error) => {
            return Err(serialization_refusal(error));
        },
    };
    let layout_identity = "generic-dae-dimension/1:".to_owned().concat(
        size_text(dimension).as_str(),
    );
    let binding = match generic_binding(operator_identity, layout_identity, &bytes) {
        Ok(binding) => binding,
        Err(error) => {
            return Err(error);
        },
    };
    probe_event(&state, step, config, binding, calls)
}

/// The step of an event check and its report.
fn probe_event<X, C, E, A, S>(
    state: &BdfState,
    step: Scalar,
    config: &BdfConfig,
    binding: VerificationBinding,
    calls: &EventContext<X, C, E, A, S>,
) -> (result: Result<EventStateReport, VerificationRefusal>) where
    C: Fn(&X, &BdfState, Scalar, &BdfConfig) -> Result<Vec<u8>, String>,
    E: Fn(&BdfState) -> Result<Vec<u8>, String>,
    A: Fn(&X, &BdfState, Scalar, &BdfConfig) -> Result<StepOutcome, String>,
    S: Fn(&EventStateReport) -> Result<Vec<u8>, String>,

    requires
        calls.callable(),
    ensures
        event_probed(*state, step, *config, binding@, *calls, result),
{
    let encoded = (calls.encode)(state);
    let ghost first = encoded;
    assert(call_ensures(calls.encode, (state,), first));
    let before = match encoded {
        Ok(bytes) => bytes,
        Err(error) => {
            return Err(serialization_refusal(error));
        },
    };
    let attempted = (calls.attempt)(&calls.evaluation, state, step, config);
    let ghost tried = attempted;
    assert(call_ensures(calls.attempt, (&calls.evaluation, state, step, config), tried));
    let outcome = match attempted {
        Ok(outcome) => outcome,
        Err(error) => {
            return Err(refusal::refusal("KRASIS_VERIFY_EVENT_SOLVE", error.as_str()));
        },
    };
    let encoded = (calls.encode)(state);
    let ghost second = encoded;
    assert(call_ensures(calls.encode, (state,), second));
    let after = match encoded {
        Ok(bytes) => bytes,
        Err(error) => {
            let result: Result<EventStateReport, VerificationRefusal> = Err(
                serialization_refusal(error),
            );
            assert(event_stepped(*state, binding@, before@, outcome, *calls, result));
            return result;
        },
    };
    let unchanged: bool = same_bytes(&before, &after);
    let accepted_step: bool = match &outcome {
        StepOutcome::Accepted(_) => true,
        StepOutcome::Rejected(_) => false,
    };
    let mut report = EventStateReport {
        report_digest: String::new(),
        binding,
        scope: "generic Methodus DaeOperator event surface; no Krasis CoupledExecution event persistence claim".to_owned(),
        accepted_step,
        events: dispose_events(&outcome),
        input_state_before_digest: digest_bytes(&before),
        input_state_after_digest: digest_bytes(&after),
        input_state_unchanged: unchanged,
        passed: unchanged,
    };
    let ghost unsealed = report;
    let ghost content = event_content(binding@, outcome, before@, after@);
    assert(unsealed@ == content);
    let sealed = (calls.seal)(&report);
    assert(call_ensures(calls.seal, (&unsealed,), sealed));
    let result = match sealed {
        Ok(bytes) => {
            report.report_digest = digest_bytes(&bytes);
            Ok(report)
        },
        Err(error) => Err(serialization_refusal(error)),
    };
    assert(event_sealed(content, calls.seal, result));
    assert(event_stepped(*state, binding@, before@, outcome, *calls, result));
    result
}

/// What is wrong with the inputs of an event check that initializes its own state.
pub open spec fn initial_failure(
    time: Scalar,
    values: Seq<Scalar>,
    step: Scalar,
    config: BdfConfig,
) -> Option<RefusalText> {
    refusal::either(
        refusal::float_failure("initial event time"@, time),
        refusal::either(
            refusal::scalars_failure("initial event state"@, values, 0),
            refusal::step_failure(step, config),
        ),
    )
}

/// What an event check from initial values gives.
pub open spec fn initial_event_checked<I, X, C, E, A, S>(
    dimension: nat,
    operator_identity: Seq<char>,
    time: Scalar,
    values: Vec<Scalar>,
    step: Scalar,
    config: BdfConfig,
    initialize: I,
    calls: EventContext<X, C, E, A, S>,
    result: Result<EventStateReport, VerificationRefusal>,
) -> bool where
    I: FnOnce(&X, Scalar, Vec<Scalar>) -> Result<BdfState, SolveError>,
    C: Fn(&X, &BdfState, Scalar, &BdfConfig) -> Result<Vec<u8>, String>,
    E: Fn(&BdfState) -> Result<Vec<u8>, String>,
    A: Fn(&X, &BdfState, Scalar, &BdfConfig) -> Result<StepOutcome, String>,
    S: Fn(&EventStateReport) -> Result<Vec<u8>, String>,
 {
    match initial_failure(time, values@, step, config) {
        Some(failure) => refusal::reports(failure, result),
        None => exists|initialized: Result<BdfState, SolveError>|
            {
                &&& #[trigger] call_ensures(
                    initialize,
                    (&calls.evaluation, time, values),
                    initialized,
                )
                &&& match initialized {
                    Err(error) => refusal::reports(refusal::numeric_refused(error@), result),
                    Ok(state) => event_checked(
                        state,
                        dimension,
                        operator_identity,
                        step,
                        config,
                        calls,
                        result,
                    ),
                }
            },
    }
}

/// Initializes an integrator state, makes one step from it and reports its events.
pub fn check_event_state<I, X, C, E, A, S>(
    dimension: usize,
    operator_identity: &str,
    initial_time: Scalar,
    initial_values: Vec<Scalar>,
    step: Scalar,
    config: &BdfConfig,
    initialize: I,
    calls: &EventContext<X, C, E, A, S>,
) -> (result: Result<EventStateReport, VerificationRefusal>) where
    I: FnOnce(&X, Scalar, Vec<Scalar>) -> Result<BdfState, SolveError>,
    C: Fn(&X, &BdfState, Scalar, &BdfConfig) -> Result<Vec<u8>, String>,
    E: Fn(&BdfState) -> Result<Vec<u8>, String>,
    A: Fn(&X, &BdfState, Scalar, &BdfConfig) -> Result<StepOutcome, String>,
    S: Fn(&EventStateReport) -> Result<Vec<u8>, String>,

    requires
        calls.callable(),
        forall|time: Scalar, values: Vec<Scalar>|
            call_requires(initialize, (&calls.evaluation, time, values)),
    ensures
        initial_event_checked(
            dimension as nat,
            operator_identity@,
            initial_time,
            initial_values,
            step,
            *config,
            initialize,
            *calls,
            result,
        ),
{
    match validate_identity_float("initial event time", initial_time) {
        Ok(_) => {},
        Err(error) => {
            return Err(error);
        },
    }
    match validate_float_slice("initial event state", &initial_values) {
        Ok(_) => {},
        Err(error) => {
            return Err(error);
        },
    }
    match validate_bdf_identity_inputs(step, config) {
        Ok(_) => {},
        Err(error) => {
            return Err(error);
        },
    }
    let ghost values = initial_values;
    let initialized = initialize(&calls.evaluation, initial_time, initial_values);
    let ghost made = initialized;
    assert(call_ensures(initialize, (&calls.evaluation, initial_time, values), made));
    match initialized {
        Ok(state) => check_event_state_from(
            dimension,
            operator_identity,
            state,
            step,
            config,
            calls,
        ),
        Err(error) => Err(numeric_refusal(error)),
    }
}

/// Whether two events agree: index and direction equal, scalars equal in value.
pub open spec fn event_agrees(left: EventDisposition, right: EventDisposition) -> bool {
    &&& left.index == right.index
    &&& left.time.same_value(right.time)
    &&& left.value_before.same_value(right.value_before)
    &&& left.value_after.same_value(right.value_after)
    &&& left.direction == right.direction
}

/// Whether two event reports agree.
pub open spec fn event_report_agrees(left: EventReportModel, right: EventReportModel) -> bool {
    &&& left.events.len() == right.events.len()
    &&& forall|i: int|
        0 <= i < left.events.len() ==> event_agrees(#[trigger] left.events[i], right.events[i])
    &&& right == (EventReportModel { events: right.events, ..left })
}

pub fn same_event_report(left: &EventStateReport, right: &EventStateReport) -> (result: bool)
    ensures
        result == event_report_agrees(left@, right@),
{
    if !same_text(left.report_digest.as_str(), right.report_digest.as_str()) || !same_binding(
        &left.binding,
        &right.binding,
    ) || !same_text(left.scope.as_str(), right.scope.as_str()) || left.accepted_step
        != right.accepted_step || left.events.len() != right.events.len() || !same_text(
        left.input_state_before_digest.as_str(),
        right.input_state_before_digest.as_str(),
    ) || !same_text(
        left.input_state_after_digest.as_str(),
        right.input_state_after_digest.as_str(),
    ) || left.input_state_unchanged != right.input_state_unchanged || left.passed
        != right.passed {
        return false;
    }
    let mut index: usize = 0;
    while index < left.events.len()
        invariant
            index <= left.events@.len(),
            left.events@.len() == right.events@.len(),
            forall|i: int|
                0 <= i < index ==> event_agrees(#[trigger] left.events@[i], right.events@[i]),
        decreases left.events.len() - index,
    {
        let mine = left.events[index];
        let theirs = right.events[index];
        if mine.index != theirs.index || mine.direction != theirs.direction
            || !mine.time.is_equal(&theirs.time) || !mine.value_before.is_equal(
            &theirs.value_before,
        ) || !mine.value_after.is_equal(&theirs.value_after) {
            assert(!event_agrees(left.events@[index as int], right.events@[index as int]));
            return false;
        }
        index += 1;
    }
    true
}

impl EventStateReport {
    /// Confirms a report from initial values by recomputing it.
    pub fn validate_initial<I, X, C, E, A, S>(
        &self,
        dimension: usize,
        operator_identity: &str,
        initial_time: Scalar,
        initial_values: Vec<Scalar>,
        step: Scalar,
        config: &BdfConfig,
        initialize: I,
        calls: &EventContext<X, C, E, A, S>,
    ) -> (result: Result<ValidatedKrasisVerification, VerificationRefusal>) where
        I: FnOnce(&X, Scalar, Vec<Scalar>) -> Result<BdfState, SolveError>,
        C: Fn(&X, &BdfState, Scalar, &BdfConfig) -> Result<Vec<u8>, String>,
        E: Fn(&BdfState) -> Result<Vec<u8>, String>,
        A: Fn(&X, &BdfState, Scalar, &BdfConfig) -> Result<StepOutcome, String>,
        S: Fn(&EventStateReport) -> Result<Vec<u8>, String>,

        requires
            calls.callable(),
            forall|time: Scalar, values: Vec<Scalar>|
                call_requires(initialize, (&calls.evaluation, time, values)),
        ensures
            exists|expected: Result<EventStateReport, VerificationRefusal>|
                {
                    &&& #[trigger] initial_event_checked(
                        dimension as nat,
                        operator_identity@,
                        initial_time,
                        initial_values,
                        step,
                        *config,
                        initialize,
                        *calls,
                        expected,
                    )
                    &&& match expected {
                        Err(refused) => result == Err::<
                            ValidatedKrasisVerification,
                            VerificationRefusal,
                        >(refused),
                        Ok(report) => verification::validated(
                            event_report_agrees(self@, report@),
                            self.passed,
                            result,
                        ),
                    }
                },
    {
        let ghost values = initial_values;
        let expected = check_event_state(
            dimension,
            operator_identity,
            initial_time,
            initial_values,
            step,
            config,
            initialize,
            calls,
        );
        let ghost recomputed = expected;
        assert(initial_event_checked(
            dimension as nat,
            operator_identity@,
            initial_time,
            values,
            step,
            *config,
            initialize,
            *calls,
            recomputed,
        ));
        match expected {
            Err(error) => Err(error),
            Ok(report) => require_report(same_event_report(self, &report), self.passed),
        }
    }

    /// Confirms a report from a given state by recomputing it.
    pub fn validate_from_state<X, C, E, A, S>(
        &self,
        dimension: usize,
        operator_identity: &str,
        state: BdfState,
        step: Scalar,
        config: &BdfConfig,
        calls: &EventContext<X, C, E, A, S>,
    ) -> (result: Result<ValidatedKrasisVerification, VerificationRefusal>) where
        C: Fn(&X, &BdfState, Scalar, &BdfConfig) -> Result<Vec<u8>, String>,
        E: Fn(&BdfState) -> Result<Vec<u8>, String>,
        A: Fn(&X, &BdfState, Scalar, &BdfConfig) -> Result<StepOutcome, String>,
        S: Fn(&EventStateReport) -> Result<Vec<u8>, String>,

        requires
            calls.callable(),
        ensures
            exists|expected: Result<EventStateReport, VerificationRefusal>|
                {
                    &&& #[trigger] event_checked(
                        state,
                        dimension as nat,
                        operator_identity@,
                        step,
                        *config,
                        *calls,
                        expected,
                    )
                    &&& match expected {
                        Err(refused) => result == Err::<
                            ValidatedKrasisVerification,
                            VerificationRefusal,
                        >(refused),
                        Ok(report) => verification::validated(
                            event_report_agrees(self@, report@),
                            self.passed,
                            result,
                        ),
                    }
                },
    {
        let ghost given = state;
        let expected = check_event_state_from(
            dimension,
            operator_identity,
            state,
            step,
            config,
            calls,
        );
        let ghost recomputed = expected;
        assert(event_checked(
            given,
            dimension as nat,
            operator_identity@,
            step,
            *config,
            *calls,
            recomputed,
        ));
        match expected {
            Err(error) => Err(error),
            Ok(report) => require_report(same_event_report(self, &report), self.passed),
        }
    }
}

/// A step that was not accepted reports no event.
pub proof fn law_rejected_step_has_no_events(outcome: StepOutcome)
    requires
        outcome is Rejected,
    ensures
        events_of(outcome).len() == 0,
{
}

} // verus!
