use ubuntu_setup_cli::orchestrator::{
    blocking_dependency, exit_code, selected_order, InstallerRun, LifecycleAction,
    LifecycleEvent, LifecycleState, Outcome, Phase, Stage,
};

fn run(dry_run: bool, assume_yes: bool) -> InstallerRun {
    InstallerRun::new(
        "Rust".to_string(),
        "Are you sure reinstalling Rust?".to_string(),
        dry_run,
        assume_yes,
    )
}

fn strings(a: &[&str]) -> Vec<String> {
    a.iter().map(|s| s.to_string()).collect()
}

#[test]
fn confirmed_install_runs_phases_in_order() {
    let mut r = run(false, false);
    assert!(matches!(r.advance(LifecycleEvent::Start), LifecycleAction::CheckInstalled));
    match r.advance(LifecycleEvent::CheckReported { installed: false }) {
        LifecycleAction::Confirm { question, default_yes } => {
            assert_eq!(question, "Do you want to install Rust?");
            assert!(default_yes);
        }
        other => panic!("unexpected action: {:?}", other),
    }
    assert!(matches!(
        r.advance(LifecycleEvent::Answered { yes: true }),
        LifecycleAction::RunPhase(Phase::PreInstall)
    ));
    assert!(matches!(
        r.advance(LifecycleEvent::PhaseSucceeded),
        LifecycleAction::RunPhase(Phase::Install)
    ));
    assert!(matches!(
        r.advance(LifecycleEvent::PhaseSucceeded),
        LifecycleAction::RunPhase(Phase::PostInstall)
    ));
    assert!(matches!(
        r.advance(LifecycleEvent::PhaseSucceeded),
        LifecycleAction::Finish(Outcome::Done)
    ));
    assert_eq!(r.state, LifecycleState::Finished);
}

#[test]
fn installed_component_asks_the_reinstall_question() {
    let mut r = run(false, false);
    r.advance(LifecycleEvent::Start);
    match r.advance(LifecycleEvent::CheckReported { installed: true }) {
        LifecycleAction::Confirm { question, default_yes } => {
            assert_eq!(question, "Are you sure reinstalling Rust?");
            assert!(!default_yes);
        }
        other => panic!("unexpected action: {:?}", other),
    }
    assert!(matches!(
        r.advance(LifecycleEvent::Answered { yes: false }),
        LifecycleAction::Finish(Outcome::Skipped)
    ));
}

#[test]
fn failure_stops_remaining_phases() {
    let mut r = run(false, false);
    r.advance(LifecycleEvent::Start);
    r.advance(LifecycleEvent::CheckReported { installed: false });
    r.advance(LifecycleEvent::Answered { yes: true });
    r.advance(LifecycleEvent::PhaseSucceeded);
    match r.advance(LifecycleEvent::PhaseFailed { cause: "exit 1".to_string() }) {
        LifecycleAction::Finish(Outcome::Failed { stage, cause }) => {
            assert_eq!(stage, Stage::Phase(Phase::Install));
            assert_eq!(cause, "exit 1");
        }
        other => panic!("unexpected action: {:?}", other),
    }
    assert!(!r.accepts(&LifecycleEvent::PhaseSucceeded));
}

#[test]
fn failed_check_is_a_failure() {
    let mut r = run(false, false);
    r.advance(LifecycleEvent::Start);
    match r.advance(LifecycleEvent::CheckFailed { cause: "probe".to_string() }) {
        LifecycleAction::Finish(Outcome::Failed { stage, .. }) => assert_eq!(stage, Stage::Check),
        other => panic!("unexpected action: {:?}", other),
    }
}

#[test]
fn dry_run_never_runs_a_phase() {
    for installed in [false, true] {
        let mut r = run(true, false);
        r.advance(LifecycleEvent::Start);
        let a = r.advance(LifecycleEvent::CheckReported { installed });
        if installed {
            assert!(matches!(a, LifecycleAction::Finish(Outcome::Skipped)));
        } else {
            assert!(matches!(a, LifecycleAction::Finish(Outcome::WouldInstall)));
        }
        assert!(!r.accepts(&LifecycleEvent::Answered { yes: true }));
        assert!(!r.accepts(&LifecycleEvent::PhaseSucceeded));
    }
}

#[test]
fn assume_yes_takes_the_preselected_answer() {
    let mut r = run(false, true);
    r.advance(LifecycleEvent::Start);
    assert!(matches!(
        r.advance(LifecycleEvent::CheckReported { installed: false }),
        LifecycleAction::RunPhase(Phase::PreInstall)
    ));
    let mut r = run(false, true);
    r.advance(LifecycleEvent::Start);
    assert!(matches!(
        r.advance(LifecycleEvent::CheckReported { installed: true }),
        LifecycleAction::Finish(Outcome::Skipped)
    ));
}

#[test]
fn failed_dependency_blocks_dependents_only() {
    let names = strings(&["A", "B", "C"]);
    let outcomes = vec![
        Some(Outcome::Failed { stage: Stage::Phase(Phase::Install), cause: "x".to_string() }),
        Some(Outcome::Skipped),
        None,
    ];
    assert_eq!(
        blocking_dependency(&strings(&["B", "A"]), &names, &outcomes),
        Some("A".to_string())
    );
    assert_eq!(blocking_dependency(&strings(&["B", "C"]), &names, &outcomes), None);
    assert_eq!(blocking_dependency(&vec![], &names, &outcomes), None);
    let outcomes = vec![Some(Outcome::Blocked { dependency: "Z".to_string() }), None, None];
    assert_eq!(
        blocking_dependency(&strings(&["A"]), &names, &outcomes),
        Some("A".to_string())
    );
}

#[test]
fn selection_keeps_resolved_order() {
    assert_eq!(selected_order(&vec![2, 0, 1], &vec![true, false, true]), vec![2, 0]);
    assert_eq!(selected_order(&vec![1, 0], &vec![false, false]), Vec::<usize>::new());
}

#[test]
fn exit_code_reflects_failures() {
    assert_eq!(exit_code(&vec![Outcome::Done, Outcome::Skipped, Outcome::WouldInstall]), 0);
    assert_eq!(exit_code(&vec![]), 0);
    assert_eq!(
        exit_code(&vec![Outcome::Done, Outcome::Blocked { dependency: "A".to_string() }]),
        1
    );
    assert_eq!(
        exit_code(&vec![Outcome::Failed { stage: Stage::Check, cause: String::new() }]),
        1
    );
}

