use memory_strategy::lifecycle::{
    missing_scope_message, GenerateReport, MemoryRunOutcome, RunEvent, RunStep, Settlement,
};

/// A provider that answers each step the way a test tells it to, and keeps count.
struct MockProvider {
    safety_rejects: Option<&'static str>,
    opens_scope: bool,
    begin_fails: bool,
    configure_fails: Option<&'static str>,
    generate: GenerateReport,
    finish_fails: bool,
    plan_calls: usize,
    configure_calls: usize,
    generate_calls: usize,
    finish_calls: Vec<MemoryRunOutcome>,
}

fn provider(generate: GenerateReport) -> MockProvider {
    MockProvider {
        safety_rejects: None,
        opens_scope: true,
        begin_fails: false,
        configure_fails: None,
        generate,
        finish_fails: false,
        plan_calls: 0,
        configure_calls: 0,
        generate_calls: 0,
        finish_calls: vec![],
    }
}

fn run(provider: &mut MockProvider, optimized: Option<bool>) -> Settlement {
    let mut step = RunStep::begin(optimized);
    loop {
        let event = match &step {
            RunStep::Plan { .. } => {
                provider.plan_calls += 1;
                assert_eq!(provider.configure_calls + provider.generate_calls, 0);
                RunEvent::Planned
            }
            RunStep::CheckSafety { .. } => match provider.safety_rejects {
                Some(reason) => RunEvent::SafetyRejected { reason: reason.to_owned() },
                None => RunEvent::SafetyAccepted,
            },
            RunStep::BeginScope { .. } => {
                if provider.begin_fails {
                    RunEvent::BeginFailed
                } else if provider.opens_scope {
                    RunEvent::ScopeOpened
                } else {
                    RunEvent::ScopeDeclined
                }
            }
            RunStep::Configure => {
                assert_eq!(provider.generate_calls, 0);
                provider.configure_calls += 1;
                match provider.configure_fails {
                    Some(message) => RunEvent::ConfigureFailed { message: message.to_owned() },
                    None => RunEvent::Configured,
                }
            }
            RunStep::Generate { .. } => {
                provider.generate_calls += 1;
                RunEvent::Generated { report: provider.generate.clone() }
            }
            RunStep::Finish { outcome, .. } => {
                provider.finish_calls.push(outcome.clone());
                if provider.finish_fails {
                    RunEvent::FinishFailed
                } else {
                    RunEvent::Finished
                }
            }
            RunStep::Settled { settlement } => {
                assert_eq!(provider.plan_calls, 1);
                return settlement.clone();
            }
        };
        step = step.advance(event);
    }
}

fn failed(message: &str) -> GenerateReport {
    GenerateReport::Failed { message: message.to_owned() }
}

/// What the caller of a run gets, where `provider` was run to `settlement`.
fn returned(provider: &MockProvider, settlement: &Settlement) -> Result<(), String> {
    match settlement {
        Settlement::GenerateResult => match &provider.generate {
            GenerateReport::Succeeded => Ok(()),
            GenerateReport::Canceled => Err("canceled".to_owned()),
            GenerateReport::Failed { message } => Err(message.clone()),
        },
        other => Err(format!("{other:?}")),
    }
}

fn assert_single_terminal(
    generate: GenerateReport,
    configure_fails: Option<&'static str>,
    expected: MemoryRunOutcome,
) {
    let mut provider = provider(generate);
    provider.configure_fails = configure_fails;
    let settlement = run(&mut provider, Some(true));
    let result = returned(&provider, &settlement);
    if matches!(expected, MemoryRunOutcome::Complete) {
        assert!(result.is_ok());
    } else {
        assert!(result.is_err());
    }
    assert_eq!(provider.configure_calls, 1);
    assert_eq!(provider.finish_calls, vec![expected]);
}

#[test]
fn lifecycle_finishes_exactly_once_on_success_cancel_error_and_configure_failure() {
    assert_single_terminal(GenerateReport::Succeeded, None, MemoryRunOutcome::Complete);
    assert_single_terminal(GenerateReport::Canceled, None, MemoryRunOutcome::Canceled);
    assert_single_terminal(
        failed("unsupported: render failed"),
        None,
        MemoryRunOutcome::Error { message: "unsupported: render failed".to_owned() },
    );
    assert_single_terminal(
        GenerateReport::Succeeded,
        Some("unsupported: configure failed"),
        MemoryRunOutcome::Error { message: "unsupported: configure failed".to_owned() },
    );
}

#[test]
fn a_run_without_a_memory_context_only_generates() {
    let mut provider = provider(GenerateReport::Canceled);
    assert_eq!(run(&mut provider, None), Settlement::GenerateResult);
    assert_eq!(provider.generate_calls, 1);
    assert_eq!(provider.configure_calls, 0);
    assert!(provider.finish_calls.is_empty());
}

#[test]
fn a_rejected_request_does_not_generate() {
    let mut provider = provider(GenerateReport::Succeeded);
    provider.safety_rejects = Some("fingerprint moved");
    assert_eq!(
        run(&mut provider, Some(false)),
        Settlement::Rejected { reason: "fingerprint moved".to_owned() }
    );
    assert_eq!(provider.generate_calls, 0);
}

#[test]
fn a_scope_that_cannot_be_opened_ends_the_run() {
    let mut provider = provider(GenerateReport::Succeeded);
    provider.begin_fails = true;
    assert_eq!(run(&mut provider, Some(true)), Settlement::BeginError);
    assert_eq!(provider.generate_calls, 0);
    assert!(provider.finish_calls.is_empty());
}

#[test]
fn only_an_optimized_selection_needs_a_scope() {
    let mut optimized = provider(GenerateReport::Succeeded);
    optimized.opens_scope = false;
    assert_eq!(run(&mut optimized, Some(true)), Settlement::ScopeMissing);
    assert_eq!(optimized.generate_calls, 0);
    let mut baseline = provider(GenerateReport::Succeeded);
    baseline.opens_scope = false;
    assert_eq!(run(&mut baseline, Some(false)), Settlement::GenerateResult);
    assert_eq!(baseline.generate_calls, 1);
    assert_eq!(
        missing_scope_message("engine"),
        "engine accepted an optimized memory-strategy selection without opening a request scope"
    );
}

#[test]
fn a_finish_failure_is_reported_only_after_a_success() {
    let mut lucky = provider(GenerateReport::Succeeded);
    lucky.finish_fails = true;
    assert_eq!(run(&mut lucky, Some(true)), Settlement::FinishError);
    let mut unlucky = provider(failed("boom"));
    unlucky.finish_fails = true;
    assert_eq!(run(&mut unlucky, Some(true)), Settlement::GenerateResult);
    let mut misconfigured = provider(GenerateReport::Succeeded);
    misconfigured.configure_fails = Some("no");
    misconfigured.finish_fails = true;
    assert_eq!(run(&mut misconfigured, Some(true)), Settlement::ConfigureError);
    assert_eq!(misconfigured.finish_calls.len(), 1);
}

#[test]
fn an_event_that_answers_another_step_changes_nothing() {
    assert_eq!(RunStep::Configure.advance(RunEvent::Finished), RunStep::Configure);
    let settled = RunStep::Settled { settlement: Settlement::GenerateResult };
    assert_eq!(settled.clone().advance(RunEvent::SafetyAccepted), settled);
}
