//! The watchdog's decisions.
//!
//! The watchdog runs on a detached thread. It repeatedly reads the
//! termination flag; the first time it reads `true` it raises the diagnostic
//! signal, waits out a grace period and then forces the process to exit.
//! This module holds the decisions only: the caller performs each returned
//! [`Action`] and hands back the flag it read afterwards.
use vstd::prelude::*;

verus! {

/// Default time between two reads of the termination flag, in milliseconds.
pub const DEFAULT_POLL_INTERVAL_MS: u64 = 100;

/// Default time left to the diagnostic handler before exit, in milliseconds.
pub const DEFAULT_GRACE_PERIOD_MS: u64 = 10_000;

/// Status with which the process is forced to exit.
pub const CRASH_EXIT_STATUS: i32 = 1;

/// Startup constants of the watchdog.
#[derive(Clone, Copy, Debug, PartialEq, Eq, Structural)]
pub struct WatchdogConfig {
    pub poll_interval_ms: u64,
    pub grace_period_ms: u64,
    pub exit_status: i32,
}

impl WatchdogConfig {
    /// Polls every 100 ms, grants 10 s of grace and exits with status 1.
    pub fn standard() -> (r: WatchdogConfig)
        ensures
            r.poll_interval_ms == DEFAULT_POLL_INTERVAL_MS,
            r.grace_period_ms == DEFAULT_GRACE_PERIOD_MS,
            r.exit_status == CRASH_EXIT_STATUS,
            r.valid(),
    {
        WatchdogConfig {
            poll_interval_ms: DEFAULT_POLL_INTERVAL_MS,
            grace_period_ms: DEFAULT_GRACE_PERIOD_MS,
            exit_status: CRASH_EXIT_STATUS,
        }
    }

    /// A usable configuration: the watchdog actually waits between reads,
    /// and the forced exit reports failure.
    pub open spec fn valid(self) -> bool {
        self.poll_interval_ms > 0 && self.exit_status != 0
    }

    /// Builds a configuration; `None` when it would not be usable.
    pub fn new(poll_interval_ms: u64, grace_period_ms: u64, exit_status: i32) -> (r: Option<
        WatchdogConfig,
    >)
        ensures
            r == (if poll_interval_ms > 0 && exit_status != 0 {
                Some(
                    WatchdogConfig { poll_interval_ms, grace_period_ms, exit_status },
                )
            } else {
                None
            }),
    {
        if poll_interval_ms > 0 && exit_status != 0 {
            Some(WatchdogConfig { poll_interval_ms, grace_period_ms, exit_status })
        } else {
            None
        }
    }
}

/// Where the watchdog stands in the crash sequence.
#[derive(Clone, Copy, Debug, PartialEq, Eq, Structural)]
pub enum Phase {
    /// No termination request seen yet; the flag is read after each wait.
    Polling,
    /// The flag was read `true`; the diagnostic signal has been asked for.
    DiagnosticRaised,
    /// The grace period has been asked for; exit comes next.
    GraceElapsing,
    /// Exit has been asked for.
    Exited,
}

/// What the caller must do next.
#[derive(Clone, Copy, Debug, PartialEq, Eq, Structural)]
pub enum Action {
    /// Sleep this many milliseconds.
    Sleep(u64),
    /// Send the diagnostic signal to this process and report that a
    /// termination request arrived.
    RaiseDiagnostic,
    /// Terminate the process with this status.
    Exit(i32),
}

/// The watchdog's state.
#[derive(Clone, Copy, Debug, PartialEq, Eq, Structural)]
pub struct Watchdog {
    pub config: WatchdogConfig,
    pub phase: Phase,
}

/// One decision: the next phase and action, given the flag as just read.
pub open spec fn transition(config: WatchdogConfig, phase: Phase, flag: bool) -> (Phase, Action) {
    match phase {
        Phase::Polling => if flag {
            (Phase::DiagnosticRaised, Action::RaiseDiagnostic)
        } else {
            (Phase::Polling, Action::Sleep(config.poll_interval_ms))
        },
        Phase::DiagnosticRaised => (Phase::GraceElapsing, Action::Sleep(config.grace_period_ms)),
        Phase::GraceElapsing => (Phase::Exited, Action::Exit(config.exit_status)),
        Phase::Exited => (Phase::Exited, Action::Exit(config.exit_status)),
    }
}

impl Watchdog {
    /// A watchdog that has seen no termination request.
    pub fn new(config: WatchdogConfig) -> (r: Watchdog)
        ensures
            r.config == config,
            r.phase == Phase::Polling,
    {
        Watchdog { config, phase: Phase::Polling }
    }

    /// Takes the flag as read after the previous action and decides the
    /// next action.
    pub fn step(&mut self, flag: bool) -> (r: Action)
        ensures
            final(self).config == old(self).config,
            (final(self).phase, r) == transition(old(self).config, old(self).phase, flag),
    {
        let (phase, action) = match self.phase {
            Phase::Polling => if flag {
                (Phase::DiagnosticRaised, Action::RaiseDiagnostic)
            } else {
                (Phase::Polling, Action::Sleep(self.config.poll_interval_ms))
            },
            Phase::DiagnosticRaised => (
                Phase::GraceElapsing,
                Action::Sleep(self.config.grace_period_ms),
            ),
            Phase::GraceElapsing => (Phase::Exited, Action::Exit(self.config.exit_status)),
            Phase::Exited => (Phase::Exited, Action::Exit(self.config.exit_status)),
        };
        self.phase = phase;
        action
    }

    /// Whether a termination request has been seen.
    pub fn termination_requested(&self) -> (r: bool)
        ensures
            r == (self.phase != Phase::Polling),
    {
        !matches!(self.phase, Phase::Polling)
    }
}

/// The actions decided over a run in which the flag reads are `flags`.
pub open spec fn run_actions(config: WatchdogConfig, phase: Phase, flags: Seq<bool>) -> Seq<
    Action,
>
    decreases flags.len(),
{
    if flags.len() == 0 {
        Seq::empty()
    } else {
        let (next, action) = transition(config, phase, flags[0]);
        seq![action] + run_actions(config, next, flags.drop_first())
    }
}

/// The phase reached after a run in which the flag reads are `flags`.
pub open spec fn run_phase(config: WatchdogConfig, phase: Phase, flags: Seq<bool>) -> Phase
    decreases flags.len(),
{
    if flags.len() == 0 {
        phase
    } else {
        run_phase(config, transition(config, phase, flags[0]).0, flags.drop_first())
    }
}

/// How many times the diagnostic signal is raised among `actions`.
pub open spec fn raise_count(actions: Seq<Action>) -> nat
    decreases actions.len(),
{
    if actions.len() == 0 {
        0
    } else {
        (if actions[0] == Action::RaiseDiagnostic {
            1nat
        } else {
            0nat
        }) + raise_count(actions.drop_first())
    }
}

proof fn lemma_run_unfold(config: WatchdogConfig, phase: Phase, flags: Seq<bool>)
    requires
        flags.len() > 0,
    ensures
        run_actions(config, phase, flags)[0] == transition(config, phase, flags[0]).1,
        run_actions(config, phase, flags).drop_first() == run_actions(
            config,
            transition(config, phase, flags[0]).0,
            flags.drop_first(),
        ),
        run_actions(config, phase, flags).len() == flags.len(),
    decreases flags.len(),
{
    lemma_run_len(config, transition(config, phase, flags[0]).0, flags.drop_first());
    let (next, action) = transition(config, phase, flags[0]);
    assert((seq![action] + run_actions(config, next, flags.drop_first())).drop_first()
        =~= run_actions(config, next, flags.drop_first()));
}

proof fn lemma_run_len(config: WatchdogConfig, phase: Phase, flags: Seq<bool>)
    ensures
        run_actions(config, phase, flags).len() == flags.len(),
    decreases flags.len(),
{
    if flags.len() > 0 {
        lemma_run_len(config, transition(config, phase, flags[0]).0, flags.drop_first());
    }
}

/// The termination latch is one-shot: once the watchdog has seen a
/// termination request, no later flag read brings it back to polling.
pub proof fn lemma_request_is_latched(config: WatchdogConfig, phase: Phase, flags: Seq<bool>)
    requires
        phase != Phase::Polling,
    ensures
        run_phase(config, phase, flags) != Phase::Polling,
    decreases flags.len(),
{
    if flags.len() > 0 {
        lemma_request_is_latched(config, transition(config, phase, flags[0]).0, flags.drop_first());
    }
}

/// However many termination requests arrive, the diagnostic signal is
/// raised at most once; once a request has been seen, it is not raised again.
pub proof fn lemma_at_most_one_raise(config: WatchdogConfig, phase: Phase, flags: Seq<bool>)
    ensures
        raise_count(run_actions(config, phase, flags)) <= 1,
        phase != Phase::Polling ==> raise_count(run_actions(config, phase, flags)) == 0,
    decreases flags.len(),
{
    if flags.len() > 0 {
        let next = transition(config, phase, flags[0]).0;
        lemma_run_unfold(config, phase, flags);
        lemma_at_most_one_raise(config, next, flags.drop_first());
    }
}

/// A run from polling that reads the flag `true` at least once raises the
/// diagnostic signal exactly once.
pub proof fn lemma_request_raises_once(config: WatchdogConfig, flags: Seq<bool>, k: int)
    requires
        0 <= k < flags.len(),
        flags[k],
    ensures
        raise_count(run_actions(config, Phase::Polling, flags)) == 1,
    decreases k,
{
    lemma_run_unfold(config, Phase::Polling, flags);
    if flags[0] {
        lemma_at_most_one_raise(config, Phase::DiagnosticRaised, flags.drop_first());
    } else {
        lemma_request_raises_once(config, flags.drop_first(), k - 1);
    }
}

/// Once the diagnostic signal is raised, the watchdog waits one grace period
/// and then asks for exit on every later step, whatever it reads meanwhile:
/// the outcome of the capture has no say in termination.
pub proof fn lemma_exit_after_grace(config: WatchdogConfig, flags: Seq<bool>)
    requires
        flags.len() >= 1,
    ensures
        run_actions(config, Phase::DiagnosticRaised, flags)[0] == Action::Sleep(
            config.grace_period_ms,
        ),
        forall|i: int|
            1 <= i < flags.len() ==> #[trigger] run_actions(
                config,
                Phase::DiagnosticRaised,
                flags,
            )[i] == Action::Exit(config.exit_status),
{
    lemma_run_unfold(config, Phase::DiagnosticRaised, flags);
    lemma_exit_repeats(config, Phase::GraceElapsing, flags.drop_first());
    let acts = run_actions(config, Phase::DiagnosticRaised, flags);
    assert forall|i: int| 1 <= i < flags.len() implies #[trigger] acts[i] == Action::Exit(
        config.exit_status,
    ) by {
        assert(acts[i] == acts.drop_first()[i - 1]);
    }
}

proof fn lemma_exit_repeats(config: WatchdogConfig, phase: Phase, flags: Seq<bool>)
    requires
        phase == Phase::GraceElapsing || phase == Phase::Exited,
    ensures
        forall|i: int|
            0 <= i < flags.len() ==> #[trigger] run_actions(config, phase, flags)[i]
                == Action::Exit(config.exit_status),
    decreases flags.len(),
{
    if flags.len() > 0 {
        lemma_run_unfold(config, phase, flags);
        lemma_exit_repeats(config, Phase::Exited, flags.drop_first());
        let acts = run_actions(config, phase, flags);
        assert forall|i: int| 0 <= i < flags.len() implies #[trigger] acts[i] == Action::Exit(
            config.exit_status,
        ) by {
            if i > 0 {
                assert(acts[i] == acts.drop_first()[i - 1]);
            }
        }
    }
}

/// A termination request is acted on at the first read that sees it: up to
/// that read the watchdog only sleeps one polling interval at a time, then it
/// raises the diagnostic signal, sleeps one grace period and exits.
pub proof fn lemma_request_leads_to_exit(config: WatchdogConfig, flags: Seq<bool>, k: int)
    requires
        0 <= k,
        k + 3 <= flags.len(),
        flags[k],
        forall|i: int| 0 <= i < k ==> !flags[i],
    ensures
        forall|i: int|
            0 <= i < k ==> #[trigger] run_actions(config, Phase::Polling, flags)[i]
                == Action::Sleep(config.poll_interval_ms),
        run_actions(config, Phase::Polling, flags)[k] == Action::RaiseDiagnostic,
        run_actions(config, Phase::Polling, flags)[k + 1] == Action::Sleep(
            config.grace_period_ms,
        ),
        run_actions(config, Phase::Polling, flags)[k + 2] == Action::Exit(config.exit_status),
    decreases k,
{
    let acts = run_actions(config, Phase::Polling, flags);
    lemma_run_unfold(config, Phase::Polling, flags);
    if k == 0 {
        lemma_exit_after_grace(config, flags.drop_first());
        assert(acts[1] == acts.drop_first()[0]);
        assert(acts[2] == acts.drop_first()[1]);
    } else {
        let rest = flags.drop_first();
        assert forall|i: int| 0 <= i < k - 1 implies !rest[i] by {
            assert(rest[i] == flags[i + 1]);
        }
        lemma_request_leads_to_exit(config, rest, k - 1);
        assert forall|i: int| 0 <= i < k implies #[trigger] acts[i] == Action::Sleep(
            config.poll_interval_ms,
        ) by {
            if i > 0 {
                assert(acts[i] == acts.drop_first()[i - 1]);
            } else {
                assert(!flags[0]);
            }
        }
        assert(acts[k] == acts.drop_first()[k - 1]);
        assert(acts[k + 1] == acts.drop_first()[k]);
        assert(acts[k + 2] == acts.drop_first()[k + 1]);
    }
}

} // verus!
