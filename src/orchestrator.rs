//! The lifecycle of one installer within a run, as decisions: detect state,
//! ask for confirmation, run `pre_install`, `install`, `post_install` in
//! strict order, stop at the first failure. The caller performs each action
//! and reports back. Also the run-level decisions: which installers a
//! failure blocks, and the exit code.

use vstd::prelude::*;
use crate::installers::Installer;
use crate::registry::{InstallerRegistry, deps_of, names_of};
use crate::resolve::{DependencyError, is_resolution, is_resolve_result};

verus! {

#[derive(PartialEq, Eq, Structural, Clone, Copy, Debug)]
pub enum Phase {
    PreInstall,
    Install,
    PostInstall,
}

/// Where an installer failed.
#[derive(PartialEq, Eq, Structural, Clone, Copy, Debug)]
pub enum Stage {
    Check,
    Phase(Phase),
}

/// How an installer ended in a run.
#[derive(Debug)]
pub enum Outcome {
    Done,
    /// Not run: the user declined, or nothing was to be done.
    Skipped,
    /// Dry run: would have been installed.
    WouldInstall,
    Failed { stage: Stage, cause: String },
    /// Not run because an installer it depends on did not succeed.
    Blocked { dependency: String },
}

/// The shape of an outcome, without its texts.
#[derive(PartialEq, Eq, Structural, Clone, Copy, Debug)]
pub enum OutcomeKind {
    Done,
    Skipped,
    WouldInstall,
    Failed(Stage),
    Blocked,
}

pub open spec fn outcome_kind(o: Outcome) -> OutcomeKind {
    match o {
        Outcome::Done => OutcomeKind::Done,
        Outcome::Skipped => OutcomeKind::Skipped,
        Outcome::WouldInstall => OutcomeKind::WouldInstall,
        Outcome::Failed { stage, .. } => OutcomeKind::Failed(stage),
        Outcome::Blocked { .. } => OutcomeKind::Blocked,
    }
}

#[derive(PartialEq, Eq, Structural, Clone, Copy, Debug)]
pub enum LifecycleState {
    NotChecked,
    Checking,
    AwaitingAnswer { installed: bool },
    Preparing,
    Installing,
    Finalizing,
    Finished,
}

/// What the caller reports.
#[derive(Debug)]
pub enum LifecycleEvent {
    Start,
    CheckReported { installed: bool },
    CheckFailed { cause: String },
    Answered { yes: bool },
    PhaseSucceeded,
    PhaseFailed { cause: String },
}

/// What the caller is asked to do next.
#[derive(Debug)]
pub enum LifecycleAction {
    /// Probe whether the component is installed.
    CheckInstalled,
    /// Ask the user `question`; `default_yes` is the preselected answer.
    Confirm { question: String, default_yes: bool },
    RunPhase(Phase),
    /// The installer is through; report its outcome.
    Finish(Outcome),
}

/// The shape of an action, without its texts.
#[derive(PartialEq, Eq, Structural, Clone, Copy, Debug)]
pub enum ActionKind {
    CheckInstalled,
    Confirm { reinstall: bool },
    RunPhase(Phase),
    Finish(OutcomeKind),
}

pub open spec fn action_kind(a: LifecycleAction) -> ActionKind {
    match a {
        LifecycleAction::CheckInstalled => ActionKind::CheckInstalled,
        LifecycleAction::Confirm { default_yes, .. } => ActionKind::Confirm { reinstall: !default_yes },
        LifecycleAction::RunPhase(p) => ActionKind::RunPhase(p),
        LifecycleAction::Finish(o) => ActionKind::Finish(outcome_kind(o)),
    }
}

/// The events the machine takes in each state.
pub open spec fn accepts(s: LifecycleState, e: LifecycleEvent) -> bool {
    match (s, e) {
        (LifecycleState::NotChecked, LifecycleEvent::Start) => true,
        (LifecycleState::Checking, LifecycleEvent::CheckReported { .. }) => true,
        (LifecycleState::Checking, LifecycleEvent::CheckFailed { .. }) => true,
        (LifecycleState::AwaitingAnswer { .. }, LifecycleEvent::Answered { .. }) => true,
        (LifecycleState::Preparing, LifecycleEvent::PhaseSucceeded) => true,
        (LifecycleState::Preparing, LifecycleEvent::PhaseFailed { .. }) => true,
        (LifecycleState::Installing, LifecycleEvent::PhaseSucceeded) => true,
        (LifecycleState::Installing, LifecycleEvent::PhaseFailed { .. }) => true,
        (LifecycleState::Finalizing, LifecycleEvent::PhaseSucceeded) => true,
        (LifecycleState::Finalizing, LifecycleEvent::PhaseFailed { .. }) => true,
        _ => false,
    }
}

/// After a confirmation: start the first phase, or skip.
pub open spec fn after_answer(yes: bool) -> (LifecycleState, ActionKind) {
    if yes {
        (LifecycleState::Preparing, ActionKind::RunPhase(Phase::PreInstall))
    } else {
        (LifecycleState::Finished, ActionKind::Finish(OutcomeKind::Skipped))
    }
}

/// One transition, for an event the state accepts. In a dry run no phase is
/// run and nothing is asked; with `assume_yes` each question takes its
/// preselected answer (install what is missing, keep what is there).
pub open spec fn lifecycle_step(
    s: LifecycleState,
    dry_run: bool,
    assume_yes: bool,
    e: LifecycleEvent,
) -> (LifecycleState, ActionKind) {
    match (s, e) {
        (LifecycleState::NotChecked, LifecycleEvent::Start) => (
            LifecycleState::Checking,
            ActionKind::CheckInstalled,
        ),
        (LifecycleState::Checking, LifecycleEvent::CheckReported { installed }) => if dry_run {
            (
                LifecycleState::Finished,
                ActionKind::Finish(
                    if installed {
                        OutcomeKind::Skipped
                    } else {
                        OutcomeKind::WouldInstall
                    },
                ),
            )
        } else if assume_yes {
            after_answer(!installed)
        } else {
            (LifecycleState::AwaitingAnswer { installed }, ActionKind::Confirm { reinstall: installed })
        },
        (LifecycleState::Checking, LifecycleEvent::CheckFailed { .. }) => (
            LifecycleState::Finished,
            ActionKind::Finish(OutcomeKind::Failed(Stage::Check)),
        ),
        (LifecycleState::AwaitingAnswer { .. }, LifecycleEvent::Answered { yes }) => after_answer(yes),
        (LifecycleState::Preparing, LifecycleEvent::PhaseSucceeded) => (
            LifecycleState::Installing,
            ActionKind::RunPhase(Phase::Install),
        ),
        (LifecycleState::Installing, LifecycleEvent::PhaseSucceeded) => (
            LifecycleState::Finalizing,
            ActionKind::RunPhase(Phase::PostInstall),
        ),
        (LifecycleState::Finalizing, LifecycleEvent::PhaseSucceeded) => (
            LifecycleState::Finished,
            ActionKind::Finish(OutcomeKind::Done),
        ),
        (LifecycleState::Preparing, LifecycleEvent::PhaseFailed { .. }) => (
            LifecycleState::Finished,
            ActionKind::Finish(OutcomeKind::Failed(Stage::Phase(Phase::PreInstall))),
        ),
        (LifecycleState::Installing, LifecycleEvent::PhaseFailed { .. }) => (
            LifecycleState::Finished,
            ActionKind::Finish(OutcomeKind::Failed(Stage::Phase(Phase::Install))),
        ),
        (LifecycleState::Finalizing, LifecycleEvent::PhaseFailed { .. }) => (
            LifecycleState::Finished,
            ActionKind::Finish(OutcomeKind::Failed(Stage::Phase(Phase::PostInstall))),
        ),
        _ => (s, ActionKind::CheckInstalled),
    }
}

/// The question asked before installing a missing component.
pub open spec fn install_question(name: Seq<char>) -> Seq<char> {
    "Do you want to install "@ + name + "?"@
}

/// The texts an action carries: the question asked, the cause of a failure.
pub open spec fn action_texts(
    name: Seq<char>,
    reinstall_msg: Seq<char>,
    e: LifecycleEvent,
    a: LifecycleAction,
) -> bool {
    match a {
        LifecycleAction::Confirm { question, default_yes } => question@ == if default_yes {
            install_question(name)
        } else {
            reinstall_msg
        },
        LifecycleAction::Finish(Outcome::Failed { cause, .. }) => match e {
            LifecycleEvent::CheckFailed { cause: c } => cause@ == c@,
            LifecycleEvent::PhaseFailed { cause: c } => cause@ == c@,
            _ => false,
        },
        _ => true,
    }
}

/// One installer's way through a run.
pub struct InstallerRun {
    pub name: String,
    pub reinstall_msg: String,
    pub dry_run: bool,
    pub assume_yes: bool,
    pub state: LifecycleState,
}

impl InstallerRun {
    pub fn new(name: String, reinstall_msg: String, dry_run: bool, assume_yes: bool) -> (r: Self)
        ensures
            r.name == name,
            r.reinstall_msg == reinstall_msg,
            r.dry_run == dry_run,
            r.assume_yes == assume_yes,
            r.state == LifecycleState::NotChecked,
    {
        InstallerRun { name, reinstall_msg, dry_run, assume_yes, state: LifecycleState::NotChecked }
    }

    /// Whether the run takes `e` in its current state.
    pub fn accepts(&self, e: &LifecycleEvent) -> (r: bool)
        ensures
            r == accepts(self.state, *e),
    {
        match (self.state, e) {
            (LifecycleState::NotChecked, LifecycleEvent::Start) => true,
            (LifecycleState::Checking, LifecycleEvent::CheckReported { .. }) => true,
            (LifecycleState::Checking, LifecycleEvent::CheckFailed { .. }) => true,
            (LifecycleState::AwaitingAnswer { .. }, LifecycleEvent::Answered { .. }) => true,
            (LifecycleState::Preparing, LifecycleEvent::PhaseSucceeded) => true,
            (LifecycleState::Preparing, LifecycleEvent::PhaseFailed { .. }) => true,
            (LifecycleState::Installing, LifecycleEvent::PhaseSucceeded) => true,
            (LifecycleState::Installing, LifecycleEvent::PhaseFailed { .. }) => true,
            (LifecycleState::Finalizing, LifecycleEvent::PhaseSucceeded) => true,
            (LifecycleState::Finalizing, LifecycleEvent::PhaseFailed { .. }) => true,
            _ => false,
        }
    }

    /// Takes the caller's report and says what to do next.
    pub fn advance(&mut self, e: LifecycleEvent) -> (r: LifecycleAction)
        requires
            accepts(old(self).state, e),
        ensures
            (final(self).state, action_kind(r)) == lifecycle_step(
                old(self).state,
                old(self).dry_run,
                old(self).assume_yes,
                e,
            ),
            action_texts(old(self).name@, old(self).reinstall_msg@, e, r),
            final(self).name == old(self).name,
            final(self).reinstall_msg == old(self).reinstall_msg,
            final(self).dry_run == old(self).dry_run,
            final(self).assume_yes == old(self).assume_yes,
    {
        match e {
            LifecycleEvent::Start => {
                self.state = LifecycleState::Checking;
                LifecycleAction::CheckInstalled
            },
            LifecycleEvent::CheckReported { installed } => {
                if self.dry_run {
                    self.state = LifecycleState::Finished;
                    if installed {
                        LifecycleAction::Finish(Outcome::Skipped)
                    } else {
                        LifecycleAction::Finish(Outcome::WouldInstall)
                    }
                } else if self.assume_yes {
                    self.answer(!installed)
                } else {
                    self.state = LifecycleState::AwaitingAnswer { installed };
                    let question = if installed {
                        self.reinstall_msg.clone()
                    } else {
                        let mut q = String::from_str("Do you want to install ");
                        q.append(self.name.as_str());
                        q.append("?");
                        q
                    };
                    LifecycleAction::Confirm { question, default_yes: !installed }
                }
            },
            LifecycleEvent::CheckFailed { cause } => {
                self.state = LifecycleState::Finished;
                LifecycleAction::Finish(Outcome::Failed { stage: Stage::Check, cause })
            },
            LifecycleEvent::Answered { yes } => self.answer(yes),
            LifecycleEvent::PhaseSucceeded => {
                match self.state {
                    LifecycleState::Preparing => {
                        self.state = LifecycleState::Installing;
                        LifecycleAction::RunPhase(Phase::Install)
                    },
                    LifecycleState::Installing => {
                        self.state = LifecycleState::Finalizing;
                        LifecycleAction::RunPhase(Phase::PostInstall)
                    },
                    _ => {
                        self.state = LifecycleState::Finished;
                        LifecycleAction::Finish(Outcome::Done)
                    },
                }
            },
            LifecycleEvent::PhaseFailed { cause } => {
                let phase = match self.state {
                    LifecycleState::Preparing => Phase::PreInstall,
                    LifecycleState::Installing => Phase::Install,
                    _ => Phase::PostInstall,
                };
                self.state = LifecycleState::Finished;
                LifecycleAction::Finish(Outcome::Failed { stage: Stage::Phase(phase), cause })
            },
        }
    }

    fn answer(&mut self, yes: bool) -> (r: LifecycleAction)
        ensures
            (final(self).state, action_kind(r)) == after_answer(yes),
            !(r is Confirm),
            !(r matches LifecycleAction::Finish(Outcome::Failed { .. })),
            final(self).name == old(self).name,
            final(self).reinstall_msg == old(self).reinstall_msg,
            final(self).dry_run == old(self).dry_run,
            final(self).assume_yes == old(self).assume_yes,
    {
        if yes {
            self.state = LifecycleState::Preparing;
            LifecycleAction::RunPhase(Phase::PreInstall)
        } else {
            self.state = LifecycleState::Finished;
            LifecycleAction::Finish(Outcome::Skipped)
        }
    }
}

/// The states a dry run can be in.
pub open spec fn dry_run_state(s: LifecycleState) -> bool {
    s == LifecycleState::NotChecked || s == LifecycleState::Checking || s == LifecycleState::Finished
}

/// A dry run never runs a phase: from its first state on, every step stays
/// among the states before and after the check, and no step asks for a
/// phase, so neither commands nor elevation are ever requested.
pub proof fn lemma_dry_run_runs_nothing(s: LifecycleState, assume_yes: bool, e: LifecycleEvent)
    requires
        dry_run_state(s),
    ensures
        dry_run_state(lifecycle_step(s, true, assume_yes, e).0),
        !(lifecycle_step(s, true, assume_yes, e).1 is RunPhase),
{
}

/// Phases run in strict order: installation only right after preparation
/// succeeded, finalization only right after installation succeeded, and
/// preparation only after the check and a yes (asked, or assumed). A
/// finished installer, failed or not, takes no further event.
pub proof fn lemma_phases_in_order(s: LifecycleState, dry_run: bool, assume_yes: bool, e: LifecycleEvent)
    requires
        accepts(s, e),
    ensures
        lifecycle_step(s, dry_run, assume_yes, e).1 == ActionKind::RunPhase(Phase::Install) ==> s
            == LifecycleState::Preparing && e is PhaseSucceeded,
        lifecycle_step(s, dry_run, assume_yes, e).1 == ActionKind::RunPhase(Phase::PostInstall)
            ==> s == LifecycleState::Installing && e is PhaseSucceeded,
        lifecycle_step(s, dry_run, assume_yes, e).1 == ActionKind::RunPhase(Phase::PreInstall) ==> (
        s is AwaitingAnswer && e == LifecycleEvent::Answered { yes: true }) || (s
            == LifecycleState::Checking && !dry_run && assume_yes && e
            == LifecycleEvent::CheckReported { installed: false }),
        s != LifecycleState::Finished,
{
}

/// Whether installers that depend on one with this outcome may still run.
pub open spec fn lets_dependents_run(k: OutcomeKind) -> bool {
    !(k is Failed) && !(k is Blocked)
}

/// Whether the installer is done with, failed or blocked.
pub open spec fn is_failure(o: Outcome) -> bool {
    !lets_dependents_run(outcome_kind(o))
}

/// The dependency named `d` ended in failure, or was itself blocked.
pub open spec fn blocks(names: Seq<Seq<char>>, outcomes: Seq<Option<Outcome>>, d: Seq<char>) -> bool {
    exists|i: int|
        0 <= i < names.len() && i < outcomes.len() && names[i] == d && #[trigger] outcomes[i] is Some
            && is_failure(outcomes[i]->Some_0)
}

fn is_failure_exec(o: &Outcome) -> (r: bool)
    ensures
        r == is_failure(*o),
{
    match o {
        Outcome::Failed { .. } => true,
        Outcome::Blocked { .. } => true,
        _ => false,
    }
}

/// The first of `deps` (in declared order) whose installer failed or was
/// blocked, given the outcomes so far by registration position (`None`:
/// not run). An installer with such a dependency must not run.
pub fn blocking_dependency(
    deps: &Vec<String>,
    names: &Vec<String>,
    outcomes: &Vec<Option<Outcome>>,
) -> (r: Option<String>)
    ensures
        match r {
            Some(d) => exists|k: int|
                0 <= k < deps.len() && deps@[k]@ == d@ && blocks(
                    crate::system::strings_view(names@),
                    outcomes@,
                    d@,
                ) && forall|k2: int|
                    0 <= k2 < k ==> !blocks(
                        crate::system::strings_view(names@),
                        outcomes@,
                        #[trigger] deps@[k2]@,
                    ),
            None => forall|k: int|
                0 <= k < deps.len() ==> !blocks(
                    crate::system::strings_view(names@),
                    outcomes@,
                    #[trigger] deps@[k]@,
                ),
        },
{
    let ghost nv = crate::system::strings_view(names@);
    let mut k: usize = 0;
    while k < deps.len()
        invariant
            k <= deps.len(),
            nv == crate::system::strings_view(names@),
            forall|k2: int| 0 <= k2 < k ==> !blocks(nv, outcomes@, #[trigger] deps@[k2]@),
        decreases deps.len() - k,
    {
        let mut i: usize = 0;
        while i < names.len() && i < outcomes.len()
            invariant
                i <= names.len(),
                k < deps.len(),
                nv == crate::system::strings_view(names@),
                forall|k2: int| 0 <= k2 < k ==> !blocks(nv, outcomes@, #[trigger] deps@[k2]@),
                forall|m: int|
                    0 <= m < i && m < names.len() && m < outcomes.len() && nv[m] == deps@[k as int]@
                        ==> !(#[trigger] outcomes@[m] is Some && is_failure(outcomes@[m]->Some_0)),
            decreases names.len() - i,
        {
            if names[i] == deps[k] {
                match &outcomes[i] {
                    Some(o) => {
                        if is_failure_exec(o) {
                            let d = deps[k].clone();
                            proof {
                                assert(nv[i as int] == deps@[k as int]@);
                                assert(blocks(nv, outcomes@, d@));
                                assert(forall|k2: int|
                                    0 <= k2 < k ==> !blocks(nv, outcomes@, #[trigger] deps@[k2]@));
                                assert(exists|k1: int|
                                    0 <= k1 < deps.len() && deps@[k1]@ == d@ && blocks(nv, outcomes@, d@)
                                        && forall|k2: int|
                                        0 <= k2 < k1 ==> !blocks(nv, outcomes@, #[trigger] deps@[k2]@)) by {
                                    assert(0 <= k < deps.len() && deps@[k as int]@ == d@);
                                }
                            }
                            return Some(d);
                        }
                    },
                    None => {},
                }
            }
            i = i + 1;
        }
        proof {
            assert(!blocks(nv, outcomes@, deps@[k as int]@));
        }
        k = k + 1;
    }
    None
}

/// The installers of `order` that were selected, in the same order.
pub open spec fn kept(order: Seq<usize>, selected: Seq<bool>) -> Seq<usize>
    decreases order.len(),
{
    if order.len() == 0 {
        seq![]
    } else {
        let rest = kept(order.drop_last(), selected);
        let i = order.last();
        if i < selected.len() && selected[i as int] {
            rest.push(i)
        } else {
            rest
        }
    }
}

/// Keeps from a resolved order the installers the user selected (by
/// registration position), in resolved order.
pub fn selected_order(order: &Vec<usize>, selected: &Vec<bool>) -> (r: Vec<usize>)
    ensures
        r@ == kept(order@, selected@),
{
    let mut r: Vec<usize> = Vec::new();
    let mut p: usize = 0;
    while p < order.len()
        invariant
            p <= order.len(),
            r@ == kept(order@.take(p as int), selected@),
        decreases order.len() - p,
    {
        proof {
            assert(order@.take(p as int + 1).drop_last() == order@.take(p as int));
        }
        let i = order[p];
        if i < selected.len() && selected[i] {
            r.push(i);
        }
        p = p + 1;
    }
    proof {
        assert(order@.take(p as int) == order@);
    }
    r
}

/// The process exit code for a run: zero exactly when no installer failed
/// or was blocked.
pub fn exit_code(outcomes: &Vec<Outcome>) -> (r: i32)
    ensures
        r == 0 <==> forall|i: int| 0 <= i < outcomes.len() ==> !is_failure(#[trigger] outcomes@[i]),
        r == 0 || r == 1,
{
    let mut i: usize = 0;
    while i < outcomes.len()
        invariant
            i <= outcomes.len(),
            forall|m: int| 0 <= m < i ==> !is_failure(#[trigger] outcomes@[m]),
        decreases outcomes.len() - i,
    {
        if is_failure_exec(&outcomes[i]) {
            return 1;
        }
        i = i + 1;
    }
    0
}

/// The installers a run will take up, in the order it takes them up: the
/// resolved order restricted to the selected installers (by registration
/// position). When no order can be resolved the run takes up nothing and
/// the resolution error is returned.
pub fn plan_run<I: Installer>(registry: &InstallerRegistry<I>, selected: &Vec<bool>) -> (r: Result<
    Vec<usize>,
    DependencyError,
>)
    ensures
        match r {
            Ok(plan) => exists|o: Vec<usize>|
                is_resolve_result(names_of(registry.entries()), deps_of(registry.entries()), Ok(o))
                    && plan@ == kept(o@, selected@),
            Err(e) => is_resolve_result(
                names_of(registry.entries()),
                deps_of(registry.entries()),
                Err(e),
            ),
        },
{
    match registry.resolve_order() {
        Ok(order) => {
            let plan = selected_order(&order, selected);
            proof {
                assert(is_resolve_result(
                    names_of(registry.entries()),
                    deps_of(registry.entries()),
                    Ok(order),
                ));
            }
            Ok(plan)
        },
        Err(e) => Err(e),
    }
}

} // verus!
