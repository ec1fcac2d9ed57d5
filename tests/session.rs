use ubuntu_setup_cli::security::{AccessAction, AccessEvent, SudoSession};

fn args(a: &[&str]) -> Vec<String> {
    a.iter().map(|s| s.to_string()).collect()
}

#[test]
fn probe_success_grants_and_caches() {
    let mut s = SudoSession::new();
    assert!(!s.is_cached());
    assert_eq!(s.ensure_sudo_access(), AccessAction::RunProbe);
    assert_eq!(s.advance(AccessEvent::ProbeSucceeded), AccessAction::Granted);
    assert!(s.is_cached());
    assert_eq!(s.ensure_sudo_access(), AccessAction::Granted);
}

#[test]
fn failed_probe_asks_for_the_secret() {
    let mut s = SudoSession::new();
    assert_eq!(s.ensure_sudo_access(), AccessAction::RunProbe);
    assert_eq!(s.advance(AccessEvent::ProbeFailed), AccessAction::PromptAndAuthenticate);
    assert_eq!(s.advance(AccessEvent::AuthSucceeded), AccessAction::Granted);
    assert!(s.is_cached());
}

#[test]
fn failed_authentication_does_not_poison_the_cache() {
    let mut s = SudoSession::new();
    s.ensure_sudo_access();
    s.advance(AccessEvent::ProbeFailed);
    assert_eq!(s.advance(AccessEvent::AuthFailed), AccessAction::Denied);
    assert!(!s.is_cached());
    assert_eq!(s.ensure_sudo_access(), AccessAction::RunProbe);
    assert_eq!(s.advance(AccessEvent::ProbeFailed), AccessAction::PromptAndAuthenticate);
    assert_eq!(s.advance(AccessEvent::AuthSucceeded), AccessAction::Granted);
}

#[test]
fn many_requests_share_one_authentication() {
    let mut s = SudoSession::new();
    let mut prompts = 0;
    for _ in 0..5 {
        let mut a = s.ensure_sudo_access();
        loop {
            a = match a {
                AccessAction::Granted | AccessAction::Denied => break,
                AccessAction::RunProbe => s.advance(AccessEvent::ProbeFailed),
                AccessAction::PromptAndAuthenticate => {
                    prompts += 1;
                    s.advance(AccessEvent::AuthSucceeded)
                }
            };
        }
        assert_eq!(a, AccessAction::Granted);
    }
    assert_eq!(prompts, 1);
}

#[test]
fn elevated_command_needs_a_grant() {
    let mut s = SudoSession::new();
    let a = args(&["apt-get", "update", "-y"]);
    assert!(s.run_sudo_command(&a).is_none());
    s.ensure_sudo_access();
    s.advance(AccessEvent::ProbeSucceeded);
    let inv = s.run_sudo_command(&a).unwrap();
    assert_eq!(inv.program, "sudo");
    assert_eq!(inv.args, a);
}

#[test]
fn unexpected_report_is_refused() {
    let mut s = SudoSession::new();
    assert_eq!(s.advance(AccessEvent::AuthSucceeded), AccessAction::Denied);
    assert!(!s.is_cached());
}

#[test]
fn default_session_has_no_grant() {
    let mut s = SudoSession::default();
    assert!(!s.is_cached());
    assert_eq!(s.ensure_sudo_access(), AccessAction::RunProbe);
}
