//! The elevation session: a process-wide "access already granted" fact and
//! the decisions of the access flow. Whoever holds the session runs the
//! probe and the authentication it asks for and reports back; holding the
//! session under one lock for a whole flow keeps concurrent callers from
//! racing on it.

use vstd::prelude::*;
use crate::system::{Invocation, strings_view};

verus! {

/// Where an access flow stands.
#[derive(PartialEq, Eq, Structural, Clone, Copy, Debug)]
pub enum AccessPhase {
    Idle,
    /// Waiting for the non-interactive privilege check.
    Probing,
    /// Waiting for the authentication fed with the user's secret.
    Authenticating,
}

/// What the holder of the session reports.
#[derive(PartialEq, Eq, Structural, Clone, Copy, Debug)]
pub enum AccessEvent {
    /// Elevated access is needed.
    Requested,
    ProbeSucceeded,
    ProbeFailed,
    AuthSucceeded,
    AuthFailed,
}

/// What the session asks its holder to do next.
#[derive(PartialEq, Eq, Structural, Clone, Copy, Debug)]
pub enum AccessAction {
    /// Access is granted; nothing more to run.
    Granted,
    /// Run the non-interactive privilege check and report its result.
    RunProbe,
    /// Prompt for the secret, feed it to the authentication command over its
    /// input channel, and report the result.
    PromptAndAuthenticate,
    /// Access was refused.
    Denied,
}

/// One transition: from the cached flag and phase, on an event, to the new
/// flag, phase and action.
pub open spec fn access_step(cached: bool, phase: AccessPhase, e: AccessEvent) -> (
    bool,
    AccessPhase,
    AccessAction,
) {
    match (phase, e) {
        (_, AccessEvent::Requested) => if cached {
            (true, AccessPhase::Idle, AccessAction::Granted)
        } else {
            (false, AccessPhase::Probing, AccessAction::RunProbe)
        },
        (AccessPhase::Probing, AccessEvent::ProbeSucceeded) => (
            true,
            AccessPhase::Idle,
            AccessAction::Granted,
        ),
        (AccessPhase::Probing, AccessEvent::ProbeFailed) => (
            cached,
            AccessPhase::Authenticating,
            AccessAction::PromptAndAuthenticate,
        ),
        (AccessPhase::Authenticating, AccessEvent::AuthSucceeded) => (
            true,
            AccessPhase::Idle,
            AccessAction::Granted,
        ),
        _ => (cached, AccessPhase::Idle, AccessAction::Denied),
    }
}

/// Caches whether elevated access has been granted in this process.
pub struct SudoSession {
    cached: bool,
    phase: AccessPhase,
}

impl SudoSession {
    pub closed spec fn is_granted(&self) -> bool {
        self.cached
    }

    pub closed spec fn phase(&self) -> AccessPhase {
        self.phase
    }

    pub fn new() -> (r: Self)
        ensures
            !r.is_granted(),
            r.phase() == AccessPhase::Idle,
    {
        SudoSession { cached: false, phase: AccessPhase::Idle }
    }

    /// Whether access has been granted.
    pub fn is_cached(&self) -> (r: bool)
        ensures
            r == self.is_granted(),
    {
        self.cached
    }

    /// Advances the access flow on `e`.
    pub fn advance(&mut self, e: AccessEvent) -> (r: AccessAction)
        ensures
            (final(self).is_granted(), final(self).phase(), r) == access_step(
                old(self).is_granted(),
                old(self).phase(),
                e,
            ),
    {
        match (self.phase, e) {
            (_, AccessEvent::Requested) => {
                if self.cached {
                    self.phase = AccessPhase::Idle;
                    AccessAction::Granted
                } else {
                    self.phase = AccessPhase::Probing;
                    AccessAction::RunProbe
                }
            },
            (AccessPhase::Probing, AccessEvent::ProbeSucceeded) => {
                self.cached = true;
                self.phase = AccessPhase::Idle;
                AccessAction::Granted
            },
            (AccessPhase::Probing, AccessEvent::ProbeFailed) => {
                self.phase = AccessPhase::Authenticating;
                AccessAction::PromptAndAuthenticate
            },
            (AccessPhase::Authenticating, AccessEvent::AuthSucceeded) => {
                self.cached = true;
                self.phase = AccessPhase::Idle;
                AccessAction::Granted
            },
            _ => {
                self.phase = AccessPhase::Idle;
                AccessAction::Denied
            },
        }
    }

    /// Starts an access flow: granted at once when access is cached,
    /// otherwise asks for the privilege check.
    pub fn ensure_sudo_access(&mut self) -> (r: AccessAction)
        ensures
            (final(self).is_granted(), final(self).phase(), r) == access_step(
                old(self).is_granted(),
                old(self).phase(),
                AccessEvent::Requested,
            ),
    {
        self.advance(AccessEvent::Requested)
    }

    /// The command that runs `args` elevated, once access is granted;
    /// `None` while access still has to be obtained.
    pub fn run_sudo_command(&self, args: &Vec<String>) -> (r: Option<Invocation>)
        ensures
            r is Some <==> self.is_granted(),
            match r {
                Some(inv) => inv.program@ == "sudo"@ && strings_view(inv.args@) == strings_view(
                    args@,
                ),
                None => true,
            },
    {
        if self.cached {
            Some(Invocation { program: "sudo".to_owned(), args: args.clone() })
        } else {
            None
        }
    }
}

impl Default for SudoSession {
    fn default() -> (r: Self)
        ensures
            !r.is_granted(),
            r.phase() == AccessPhase::Idle,
    {
        SudoSession::new()
    }
}

/// One whole access request served on its own, given whether the privilege
/// check and the authentication would succeed: the cached flag afterwards,
/// whether the check ran, whether the user was prompted, and whether access
/// was granted.
pub open spec fn access_request(cached: bool, probe_ok: bool, auth_ok: bool) -> (bool, bool, bool, bool) {
    let (c1, ph1, a1) = access_step(cached, AccessPhase::Idle, AccessEvent::Requested);
    if a1 == AccessAction::Granted {
        (c1, false, false, true)
    } else {
        let probe = if probe_ok {
            AccessEvent::ProbeSucceeded
        } else {
            AccessEvent::ProbeFailed
        };
        let (c2, ph2, a2) = access_step(c1, ph1, probe);
        if a2 == AccessAction::Granted {
            (c2, true, false, true)
        } else {
            let auth = if auth_ok {
                AccessEvent::AuthSucceeded
            } else {
                AccessEvent::AuthFailed
            };
            let (c3, _ph3, a3) = access_step(c2, ph2, auth);
            (c3, true, true, a3 == AccessAction::Granted)
        }
    }
}

/// Requests served one after another: for each, whether the check ran,
/// whether the user was prompted, and whether access was granted.
pub open spec fn access_requests(cached: bool, answers: Seq<(bool, bool)>) -> Seq<(bool, bool, bool)>
    decreases answers.len(),
{
    if answers.len() == 0 {
        seq![]
    } else {
        let (c, probed, prompted, granted) = access_request(cached, answers[0].0, answers[0].1);
        seq![(probed, prompted, granted)] + access_requests(c, answers.drop_first())
    }
}

proof fn lemma_cached_requests(answers: Seq<(bool, bool)>)
    ensures
        access_requests(true, answers).len() == answers.len(),
        forall|j: int| 0 <= j < answers.len() ==> access_requests(true, answers)[j] == (false, false, true),
    decreases answers.len(),
{
    if answers.len() > 0 {
        lemma_cached_requests(answers.drop_first());
        let r = access_requests(true, answers);
        assert forall|j: int| 0 <= j < answers.len() implies r[j] == (false, false, true) by {
            if j > 0 {
                assert(r[j] == access_requests(true, answers.drop_first())[j - 1]);
            }
        }
    }
}

/// Requests served one at a time share one grant: once a request is granted,
/// every later request is granted at once, with no privilege check and no
/// prompt. So at most one authentication ever takes place after which
/// access holds, and a failed one leaves later requests free to try again.
pub proof fn lemma_grant_shared(cached: bool, answers: Seq<(bool, bool)>)
    ensures
        access_requests(cached, answers).len() == answers.len(),
        forall|i: int, j: int|
            0 <= i < j < answers.len() && (#[trigger] access_requests(cached, answers)[i]).2
                ==> #[trigger] access_requests(cached, answers)[j] == (false, false, true),
    decreases answers.len(),
{
    if answers.len() > 0 {
        let (c, probed, prompted, granted) = access_request(cached, answers[0].0, answers[0].1);
        let rest = answers.drop_first();
        lemma_grant_shared(c, rest);
        lemma_cached_requests(rest);
        let r = access_requests(cached, answers);
        assert forall|i: int, j: int|
            0 <= i < j < answers.len() && (#[trigger] r[i]).2 implies #[trigger] r[j] == (
            false,
            false,
            true,
        ) by {
            assert(r[j] == access_requests(c, rest)[j - 1]);
            if i > 0 {
                assert(r[i] == access_requests(c, rest)[i - 1]);
            } else {
                assert(c);
            }
        }
    }
}

} // verus!
