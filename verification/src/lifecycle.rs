//! The safety and lifecycle protocol around one provider run.
//!
//! The host performs the pending step of a run, reports what came of it, and gets the next step,
//! until the run is settled.

use vstd::prelude::*;

verus! {

/// The terminal outcome that a request scope is told.
#[derive(Clone, Debug, PartialEq, Eq)]
pub enum MemoryRunOutcome {
    Complete,
    Canceled,
    Error { message: String },
}

/// How a generation came out.
#[derive(Clone, Debug, PartialEq, Eq)]
pub enum GenerateReport {
    Succeeded,
    Canceled,
    Failed { message: String },
}

/// What the run gives back to its caller.
#[derive(Clone, Debug, PartialEq, Eq)]
pub enum Settlement {
    /// The result of the generation, be it an output or an error.
    GenerateResult,
    /// The error with which the scope could not be opened.
    BeginError,
    /// The error with which the scope could not configure the request.
    ConfigureError,
    /// The error with which the scope could not be finished.
    FinishError,
    /// An unsupported request: the provider's safety check rejected it, for `reason`.
    Rejected { reason: String },
    /// An unsupported request: the provider took an optimized selection without opening a scope.
    ScopeMissing,
}

/// The pending step of a run.
#[derive(Clone, Debug, PartialEq, Eq)]
pub enum RunStep {
    /// Plan the execution domains onto the request. `optimized` says of a run with a memory context
    /// whether its selection is an optimized strategy, and is absent for a run without one.
    Plan { optimized: Option<bool> },
    /// Ask the provider's safety check.
    CheckSafety { optimized: bool },
    /// Ask the provider to open a request scope.
    BeginScope { optimized: bool },
    /// Let the scope configure the request.
    Configure,
    /// Generate, under an open scope or without one.
    Generate { scoped: bool },
    /// Finish the scope with `outcome`. What is given back afterwards is `settlement`, or
    /// `on_failure` where finishing fails.
    Finish { outcome: MemoryRunOutcome, settlement: Settlement, on_failure: Settlement },
    /// The run is over.
    Settled { settlement: Settlement },
}

/// What came of a step.
#[derive(Clone, Debug, PartialEq, Eq)]
pub enum RunEvent {
    Planned,
    SafetyAccepted,
    SafetyRejected { reason: String },
    ScopeOpened,
    ScopeDeclined,
    BeginFailed,
    Configured,
    ConfigureFailed { message: String },
    Generated { report: GenerateReport },
    Finished,
    FinishFailed,
}

/// The outcome that a scope is told of a generation.
pub open spec fn outcome_of(report: GenerateReport) -> MemoryRunOutcome {
    match report {
        GenerateReport::Succeeded => MemoryRunOutcome::Complete,
        GenerateReport::Canceled => MemoryRunOutcome::Canceled,
        GenerateReport::Failed { message } => MemoryRunOutcome::Error { message },
    }
}

/// The step that follows `step` once `event` has come of it. An event that answers another step
/// changes nothing.
pub open spec fn next_step(step: RunStep, event: RunEvent) -> RunStep {
    match (step, event) {
        (RunStep::Plan { optimized: Some(optimized) }, RunEvent::Planned) => RunStep::CheckSafety {
            optimized,
        },
        (RunStep::Plan { optimized: None }, RunEvent::Planned) => RunStep::Generate { scoped: false },
        (RunStep::CheckSafety { optimized }, RunEvent::SafetyAccepted) => RunStep::BeginScope {
            optimized,
        },
        (RunStep::CheckSafety { .. }, RunEvent::SafetyRejected { reason }) => RunStep::Settled {
            settlement: Settlement::Rejected { reason },
        },
        (RunStep::BeginScope { .. }, RunEvent::ScopeOpened) => RunStep::Configure,
        (RunStep::BeginScope { optimized }, RunEvent::ScopeDeclined) => if optimized {
            RunStep::Settled { settlement: Settlement::ScopeMissing }
        } else {
            RunStep::Generate { scoped: false }
        },
        (RunStep::BeginScope { .. }, RunEvent::BeginFailed) => RunStep::Settled {
            settlement: Settlement::BeginError,
        },
        (RunStep::Configure, RunEvent::Configured) => RunStep::Generate { scoped: true },
        (RunStep::Configure, RunEvent::ConfigureFailed { message }) => RunStep::Finish {
            outcome: MemoryRunOutcome::Error { message },
            settlement: Settlement::ConfigureError,
            on_failure: Settlement::ConfigureError,
        },
        (RunStep::Generate { scoped }, RunEvent::Generated { report }) => if scoped {
            RunStep::Finish {
                outcome: outcome_of(report),
                settlement: Settlement::GenerateResult,
                on_failure: if report == GenerateReport::Succeeded {
                    Settlement::FinishError
                } else {
                    Settlement::GenerateResult
                },
            }
        } else {
            RunStep::Settled { settlement: Settlement::GenerateResult }
        },
        (RunStep::Finish { settlement, .. }, RunEvent::Finished) => RunStep::Settled { settlement },
        (RunStep::Finish { on_failure, .. }, RunEvent::FinishFailed) => RunStep::Settled {
            settlement: on_failure,
        },
        _ => step,
    }
}

impl RunStep {
    /// The first step of a run. `optimized` says of a run with a memory context whether its selection
    /// is an optimized strategy, and is absent for a run without one, which generates as soon as it
    /// is planned.
    pub fn begin(optimized: Option<bool>) -> (result: Self)
        ensures
            result == (RunStep::Plan { optimized }),
    {
        RunStep::Plan { optimized }
    }

    /// The step that follows once `event` has come of this one.
    pub fn advance(self, event: RunEvent) -> (result: Self)
        ensures
            result == next_step(self, event),
    {
        match (self, event) {
            (RunStep::Plan { optimized: Some(optimized) }, RunEvent::Planned) => {
                RunStep::CheckSafety { optimized }
            },
            (RunStep::Plan { optimized: None }, RunEvent::Planned) => {
                RunStep::Generate { scoped: false }
            },
            (RunStep::CheckSafety { optimized }, RunEvent::SafetyAccepted) => {
                RunStep::BeginScope { optimized }
            },
            (RunStep::CheckSafety { .. }, RunEvent::SafetyRejected { reason }) => {
                RunStep::Settled { settlement: Settlement::Rejected { reason } }
            },
            (RunStep::BeginScope { .. }, RunEvent::ScopeOpened) => RunStep::Configure,
            (RunStep::BeginScope { optimized }, RunEvent::ScopeDeclined) => {
                if optimized {
                    RunStep::Settled { settlement: Settlement::ScopeMissing }
                } else {
                    RunStep::Generate { scoped: false }
                }
            },
            (RunStep::BeginScope { .. }, RunEvent::BeginFailed) => {
                RunStep::Settled { settlement: Settlement::BeginError }
            },
            (RunStep::Configure, RunEvent::Configured) => RunStep::Generate { scoped: true },
            (RunStep::Configure, RunEvent::ConfigureFailed { message }) => RunStep::Finish {
                outcome: MemoryRunOutcome::Error { message },
                settlement: Settlement::ConfigureError,
                on_failure: Settlement::ConfigureError,
            },
            (RunStep::Generate { scoped }, RunEvent::Generated { report }) => {
                if !scoped {
                    return RunStep::Settled { settlement: Settlement::GenerateResult };
                }
                match report {
                    GenerateReport::Succeeded => RunStep::Finish {
                        outcome: MemoryRunOutcome::Complete,
                        settlement: Settlement::GenerateResult,
                        on_failure: Settlement::FinishError,
                    },
                    GenerateReport::Canceled => RunStep::Finish {
                        outcome: MemoryRunOutcome::Canceled,
                        settlement: Settlement::GenerateResult,
                        on_failure: Settlement::GenerateResult,
                    },
                    GenerateReport::Failed { message } => RunStep::Finish {
                        outcome: MemoryRunOutcome::Error { message },
                        settlement: Settlement::GenerateResult,
                        on_failure: Settlement::GenerateResult,
                    },
                }
            },
            (RunStep::Finish { settlement, .. }, RunEvent::Finished) => {
                RunStep::Settled { settlement }
            },
            (RunStep::Finish { on_failure, .. }, RunEvent::FinishFailed) => {
                RunStep::Settled { settlement: on_failure }
            },
            (step, _) => step,
        }
    }
}

/// What a caller is told when a provider took an optimized selection without opening a scope.
pub fn missing_scope_message(engine: &str) -> (result: String)
    ensures
        result@ == engine@
            + " accepted an optimized memory-strategy selection without opening a request scope"@,
{
    engine.to_owned().concat(
        " accepted an optimized memory-strategy selection without opening a request scope",
    )
}

/// The steps that a run goes through as `events` come of them, the first step included.
pub open spec fn steps(first: RunStep, events: Seq<RunEvent>) -> Seq<RunStep>
    decreases events.len(),
{
    if events.len() == 0 {
        seq![first]
    } else {
        let before = steps(first, events.drop_last());
        before.push(next_step(before.last(), events.last()))
    }
}

/// How often a scope was opened as `events` came in.
pub open spec fn scopes_opened(first: RunStep, events: Seq<RunEvent>) -> nat
    decreases events.len(),
{
    if events.len() == 0 {
        0
    } else {
        let at = steps(first, events.drop_last()).last();
        scopes_opened(first, events.drop_last()) + if at is BeginScope && events.last()
            is ScopeOpened {
            1nat
        } else {
            0nat
        }
    }
}

/// How often a scope was told its terminal outcome as `events` came in.
pub open spec fn scopes_finished(first: RunStep, events: Seq<RunEvent>) -> nat
    decreases events.len(),
{
    if events.len() == 0 {
        0
    } else {
        let at = steps(first, events.drop_last()).last();
        let event = events.last();
        scopes_finished(first, events.drop_last()) + if at is Finish && (event is Finished || event
            is FinishFailed) {
            1nat
        } else {
            0nat
        }
    }
}

/// How often a scope was asked to configure the request as `events` came in.
pub open spec fn configurations(first: RunStep, events: Seq<RunEvent>) -> nat
    decreases events.len(),
{
    if events.len() == 0 {
        0
    } else {
        let at = steps(first, events.drop_last()).last();
        let event = events.last();
        configurations(first, events.drop_last()) + if at is Configure && (event is Configured
            || event is ConfigureFailed) {
            1nat
        } else {
            0nat
        }
    }
}

/// How often a generation was carried out as `events` came in.
pub open spec fn generations(first: RunStep, events: Seq<RunEvent>) -> nat
    decreases events.len(),
{
    if events.len() == 0 {
        0
    } else {
        let at = steps(first, events.drop_last()).last();
        generations(first, events.drop_last()) + if at is Generate && events.last() is Generated {
            1nat
        } else {
            0nat
        }
    }
}

/// How often the execution domains were planned as `events` came in.
pub open spec fn plannings(first: RunStep, events: Seq<RunEvent>) -> nat
    decreases events.len(),
{
    if events.len() == 0 {
        0
    } else {
        let at = steps(first, events.drop_last()).last();
        plannings(first, events.drop_last()) + if at is Plan && events.last() is Planned {
            1nat
        } else {
            0nat
        }
    }
}

/// A scope is open while the run is at this step.
pub open spec fn under_scope(step: RunStep) -> bool {
    match step {
        RunStep::Configure => true,
        RunStep::Generate { scoped } => scoped,
        RunStep::Finish { .. } => true,
        _ => false,
    }
}

/// One where `condition` holds, and zero otherwise.
spec fn one_if(condition: bool) -> nat {
    if condition {
        1
    } else {
        0
    }
}

/// A scope that is opened is told exactly one terminal outcome: at every point of a run the scopes
/// opened and not yet finished are the one that the pending step is under, so a settled run has
/// finished each scope it opened, once, and opened at most one. It generated at most once.
pub proof fn law_scope_is_finished_exactly_once(optimized: Option<bool>, events: Seq<RunEvent>)
    ensures
        ({
            let first = RunStep::Plan { optimized };
            let at = steps(first, events).last();
            &&& scopes_opened(first, events) <= 1
            &&& scopes_opened(first, events) == scopes_finished(first, events) + if under_scope(
                at,
            ) {
                1nat
            } else {
                0nat
            }
            &&& at is Settled ==> scopes_finished(first, events) == scopes_opened(first, events)
            &&& generations(first, events) <= 1
            &&& at is Generate ==> generations(first, events) == 0
        }),
{
    lemma_run(optimized, events);
}

/// Each scope that is opened configures the request exactly once, before anything is generated under
/// it: only while that is pending are there more scopes than configurations, and nothing has been
/// generated then.
pub proof fn law_scope_configures_once_before_generating(
    optimized: Option<bool>,
    events: Seq<RunEvent>,
)
    ensures
        ({
            let first = RunStep::Plan { optimized };
            let at = steps(first, events).last();
            &&& scopes_opened(first, events) == configurations(first, events) + if at is Configure {
                1nat
            } else {
                0nat
            }
            &&& at is Configure ==> generations(first, events) == 0
            &&& at is Settled ==> configurations(first, events) == scopes_opened(first, events)
            &&& at == (RunStep::Generate { scoped: true }) ==> configurations(first, events) == 1
        }),
{
    lemma_run(optimized, events);
}

/// Every run, with a memory context or without, plans its execution domains exactly once, before
/// anything else.
pub proof fn law_domains_are_planned_once_and_first(optimized: Option<bool>, events: Seq<RunEvent>)
    ensures
        ({
            let first = RunStep::Plan { optimized };
            let at = steps(first, events).last();
            &&& plannings(first, events) == if at is Plan {
                0nat
            } else {
                1nat
            }
            &&& plannings(first, events) == 0 ==> {
                &&& at == first
                &&& scopes_opened(first, events) == 0
                &&& generations(first, events) == 0
            }
        }),
{
    lemma_run(optimized, events);
}

proof fn lemma_run(optimized: Option<bool>, events: Seq<RunEvent>)
    ensures
        ({
            let first = RunStep::Plan { optimized };
            let at = steps(first, events).last();
            &&& steps(first, events).len() == events.len() + 1
            &&& at is Plan ==> at == first
            &&& plannings(first, events) == one_if(!(at is Plan))
            &&& scopes_opened(first, events) <= 1
            &&& at is Plan || at is CheckSafety || at is BeginScope ==> scopes_opened(first, events)
                == 0
            &&& scopes_opened(first, events) == scopes_finished(first, events) + one_if(
                under_scope(at),
            )
            &&& scopes_opened(first, events) == configurations(first, events) + one_if(
                at is Configure,
            )
            &&& generations(first, events) <= 1
            &&& at is Plan || at is CheckSafety || at is BeginScope || at is Configure || at
                is Generate ==> generations(first, events) == 0
        }),
    decreases events.len(),
{
    if events.len() > 0 {
        lemma_run(optimized, events.drop_last());
    }
}

/// A run that is settled stays so.
pub proof fn law_settled_run_stays_settled(settlement: Settlement, event: RunEvent)
    ensures
        next_step(RunStep::Settled { settlement }, event) == (RunStep::Settled { settlement }),
{
}

/// How far a run still is from being settled.
pub open spec fn remaining_steps(step: RunStep) -> nat {
    match step {
        RunStep::Plan { .. } => 6,
        RunStep::CheckSafety { .. } => 5,
        RunStep::BeginScope { .. } => 4,
        RunStep::Configure => 3,
        RunStep::Generate { .. } => 2,
        RunStep::Finish { .. } => 1,
        RunStep::Settled { .. } => 0,
    }
}

/// Every event that changes the step brings the run closer to being settled.
pub proof fn law_run_makes_progress(step: RunStep, event: RunEvent)
    ensures
        next_step(step, event) != step ==> remaining_steps(next_step(step, event))
            < remaining_steps(step),
{
}

/// A generation error is given back as it is, whether or not finishing the scope fails as well; a
/// failure to finish is given back only after a successful generation.
pub proof fn law_generation_error_is_not_masked(report: GenerateReport, finish: RunEvent)
    requires
        finish is Finished || finish is FinishFailed,
    ensures
        next_step(
            next_step(RunStep::Generate { scoped: true }, RunEvent::Generated { report }),
            finish,
        ) == (RunStep::Settled {
            settlement: if report == GenerateReport::Succeeded && finish is FinishFailed {
                Settlement::FinishError
            } else {
                Settlement::GenerateResult
            },
        }),
{
}

/// A run with a memory context goes on to its safety check with what is known of its selection, and
/// one without generates outside any scope.
pub proof fn law_plan_leads_on(optimized: bool)
    ensures
        next_step(RunStep::Plan { optimized: Some(optimized) }, RunEvent::Planned)
            == (RunStep::CheckSafety { optimized }),
        next_step(RunStep::Plan { optimized: None }, RunEvent::Planned) == (RunStep::Generate {
            scoped: false,
        }),
{
}

/// A rejected safety check ends the run with the reason that was given, whatever the selection; only
/// an accepted one goes on to a scope.
pub proof fn law_rejected_request_ends_the_run(optimized: bool, reason: String)
    ensures
        next_step(RunStep::CheckSafety { optimized }, RunEvent::SafetyRejected { reason })
            == (RunStep::Settled { settlement: Settlement::Rejected { reason } }),
        next_step(RunStep::CheckSafety { optimized }, RunEvent::SafetyAccepted)
            == (RunStep::BeginScope { optimized }),
{
}

/// A scope that is opened is configured, and a failure to open one ends the run. A run goes on without
/// a scope only where its selection is not an optimized one.
pub proof fn law_optimized_run_needs_a_scope(optimized: bool)
    ensures
        next_step(RunStep::BeginScope { optimized }, RunEvent::ScopeOpened) == RunStep::Configure,
        next_step(RunStep::BeginScope { optimized }, RunEvent::BeginFailed) == (RunStep::Settled {
            settlement: Settlement::BeginError,
        }),
        next_step(RunStep::BeginScope { optimized: true }, RunEvent::ScopeDeclined)
            == (RunStep::Settled { settlement: Settlement::ScopeMissing }),
        next_step(RunStep::BeginScope { optimized: false }, RunEvent::ScopeDeclined)
            == (RunStep::Generate { scoped: false }),
{
}

/// A scope that cannot configure the request is told that error and nothing is generated: the run
/// gives back the configuration error, whether or not finishing fails.
pub proof fn law_configuration_error_ends_the_run(message: String, finish: RunEvent)
    requires
        finish is Finished || finish is FinishFailed,
    ensures
        next_step(RunStep::Configure, RunEvent::Configured) == (RunStep::Generate { scoped: true }),
        ({
            let told = next_step(RunStep::Configure, RunEvent::ConfigureFailed { message });
            &&& told is Finish
            &&& told->outcome == (MemoryRunOutcome::Error { message })
            &&& next_step(told, finish) == (RunStep::Settled {
                settlement: Settlement::ConfigureError,
            })
        }),
{
}

/// A scope is told how the generation under it came out: complete, canceled, or failed with the very
/// message. Without a scope the result is given back at once.
pub proof fn law_scope_is_told_how_generation_came_out(report: GenerateReport)
    ensures
        ({
            let told = next_step(
                RunStep::Generate { scoped: true },
                RunEvent::Generated { report },
            );
            &&& told is Finish
            &&& report is Succeeded ==> told->outcome is Complete
            &&& report is Canceled ==> told->outcome is Canceled
            &&& report matches GenerateReport::Failed { message } ==> told->outcome == (
            MemoryRunOutcome::Error { message })
        }),
        next_step(RunStep::Generate { scoped: false }, RunEvent::Generated { report })
            == (RunStep::Settled { settlement: Settlement::GenerateResult }),
{
}

/// An event that answers another step than the pending one changes nothing.
pub proof fn law_stray_event_changes_nothing(step: RunStep, event: RunEvent)
    requires
        !(step is Plan && event is Planned),
        !(step is CheckSafety && (event is SafetyAccepted || event is SafetyRejected)),
        !(step is BeginScope && (event is ScopeOpened || event is ScopeDeclined || event
            is BeginFailed)),
        !(step is Configure && (event is Configured || event is ConfigureFailed)),
        !(step is Generate && event is Generated),
        !(step is Finish && (event is Finished || event is FinishFailed)),
    ensures
        next_step(step, event) == step,
{
}

/// How often the safety check was accepted as `events` came in.
pub open spec fn acceptances(first: RunStep, events: Seq<RunEvent>) -> nat
    decreases events.len(),
{
    if events.len() == 0 {
        0
    } else {
        let at = steps(first, events.drop_last()).last();
        acceptances(first, events.drop_last()) + if at is CheckSafety && events.last()
            is SafetyAccepted {
            1nat
        } else {
            0nat
        }
    }
}

/// How often the safety check was rejected as `events` came in.
pub open spec fn rejections(first: RunStep, events: Seq<RunEvent>) -> nat
    decreases events.len(),
{
    if events.len() == 0 {
        0
    } else {
        let at = steps(first, events.drop_last()).last();
        rejections(first, events.drop_last()) + if at is CheckSafety && events.last()
            is SafetyRejected {
            1nat
        } else {
            0nat
        }
    }
}

/// Under a memory context nothing is opened, configured or generated unless the safety check was
/// accepted, and a run whose safety check was rejected is over, with nothing opened or generated.
pub proof fn law_nothing_runs_unless_safety_is_accepted(optimized: bool, events: Seq<RunEvent>)
    ensures
        ({
            let first = RunStep::Plan { optimized: Some(optimized) };
            let at = steps(first, events).last();
            &&& scopes_opened(first, events) > 0 ==> acceptances(first, events) == 1
            &&& configurations(first, events) > 0 ==> acceptances(first, events) == 1
            &&& generations(first, events) > 0 ==> acceptances(first, events) == 1
            &&& at is BeginScope || at is Configure || at is Generate || at is Finish
                ==> acceptances(first, events) == 1
            &&& rejections(first, events) > 0 ==> {
                &&& at matches RunStep::Settled { settlement }
                &&& settlement is Rejected
                &&& acceptances(first, events) == 0
                &&& scopes_opened(first, events) == 0
                &&& generations(first, events) == 0
            }
        }),
{
    lemma_run(Some(optimized), events);
    lemma_safety(optimized, events);
    lemma_ends(Some(optimized), events);
}

proof fn lemma_safety(optimized: bool, events: Seq<RunEvent>)
    ensures
        ({
            let first = RunStep::Plan { optimized: Some(optimized) };
            let at = steps(first, events).last();
            let accepted = acceptances(first, events);
            let rejected = rejections(first, events);
            &&& accepted + rejected <= 1
            &&& at is Plan ==> at == first
            &&& at is Plan || at is CheckSafety ==> accepted + rejected == 0
            &&& at is BeginScope || at is Configure || at is Generate || at is Finish ==> accepted
                == 1
            &&& at matches RunStep::Settled { settlement } ==> if settlement is Rejected {
                accepted == 0 && rejected == 1
            } else {
                accepted == 1 && rejected == 0
            }
            &&& at matches RunStep::Finish { settlement, on_failure, .. } ==> !(settlement
                is Rejected) && !(on_failure is Rejected)
        }),
    decreases events.len(),
{
    let first = RunStep::Plan { optimized: Some(optimized) };
    if events.len() > 0 {
        lemma_safety(optimized, events.drop_last());
        lemma_run(Some(optimized), events.drop_last());
        let before = steps(first, events.drop_last());
        let at = before.last();
        assert(steps(first, events) == before.push(next_step(at, events.last())));
        assert(steps(first, events).last() == next_step(at, events.last()));
    }
}

/// What a settled run gives back tells what happened: a generation result or a failure to finish comes
/// after exactly one generation, a failure to finish or to configure after exactly one scope, and every
/// other end without either. A missing scope is given back only for an optimized selection.
pub proof fn law_settlement_tells_what_happened(optimized: Option<bool>, events: Seq<RunEvent>)
    ensures
        ({
            let first = RunStep::Plan { optimized };
            let at = steps(first, events).last();
            at matches RunStep::Settled { settlement } ==> match settlement {
                Settlement::GenerateResult => generations(first, events) == 1,
                Settlement::FinishError => generations(first, events) == 1 && scopes_opened(
                    first,
                    events,
                ) == 1,
                Settlement::ConfigureError => generations(first, events) == 0 && scopes_opened(
                    first,
                    events,
                ) == 1,
                Settlement::ScopeMissing => optimized == Some(true) && generations(first, events)
                    == 0 && scopes_opened(first, events) == 0,
                Settlement::BeginError | Settlement::Rejected { .. } => optimized is Some
                    && generations(first, events) == 0 && scopes_opened(first, events) == 0,
            }
        }),
{
    lemma_ends(optimized, events);
}

proof fn lemma_ends(optimized: Option<bool>, events: Seq<RunEvent>)
    ensures
        ({
            let first = RunStep::Plan { optimized };
            let at = steps(first, events).last();
            let generated = generations(first, events);
            let opened = scopes_opened(first, events);
            &&& at matches RunStep::CheckSafety { optimized: known } ==> optimized == Some(known)
            &&& at matches RunStep::BeginScope { optimized: known } ==> optimized == Some(known)
            &&& at matches RunStep::Finish { settlement, on_failure, .. } ==> if generated == 1 {
                &&& settlement is GenerateResult
                &&& on_failure is GenerateResult || on_failure is FinishError
            } else {
                &&& generated == 0
                &&& settlement is ConfigureError
                &&& on_failure is ConfigureError
            }
            &&& at matches RunStep::Settled { settlement } ==> match settlement {
                Settlement::GenerateResult => generated == 1,
                Settlement::FinishError => generated == 1 && opened == 1,
                Settlement::ConfigureError => generated == 0 && opened == 1,
                Settlement::ScopeMissing => optimized == Some(true) && generated == 0 && opened == 0,
                Settlement::BeginError | Settlement::Rejected { .. } => optimized is Some
                    && generated == 0 && opened == 0,
            }
        }),
    decreases events.len(),
{
    let first = RunStep::Plan { optimized };
    lemma_run(optimized, events);
    if events.len() > 0 {
        lemma_ends(optimized, events.drop_last());
        lemma_run(optimized, events.drop_last());
        let before = steps(first, events.drop_last());
        assert(steps(first, events) == before.push(next_step(before.last(), events.last())));
        assert(steps(first, events).last() == next_step(before.last(), events.last()));
    }
}

/// Finishing a scope settles the run with what was set down for it, and a failure to finish with what
/// was set down for that.
pub proof fn law_finishing_settles_the_run(
    outcome: MemoryRunOutcome,
    settlement: Settlement,
    on_failure: Settlement,
)
    ensures
        ({
            let pending = RunStep::Finish { outcome, settlement, on_failure };
            &&& next_step(pending, RunEvent::Finished) == (RunStep::Settled { settlement })
            &&& next_step(pending, RunEvent::FinishFailed) == (RunStep::Settled {
                settlement: on_failure,
            })
        }),
{
}

} // verus!
