//! Supervision of child processes: lifecycle states, the status table the UI
//! reads, and the restart policy (capped exponential backoff, a startup grace
//! window, and a one-shot fallback from a failing hardware encoder to x264).
//!
//! The policy is a pure state machine: the runtime feeds it what happened to
//! the child ([`Event`]) and performs what it answers ([`Command`]), reporting
//! the lifecycle [`State`] it asks for.

use vstd::prelude::*;

verus! {

/// Coarse lifecycle state of a supervised child, surfaced to the UI.
#[derive(Clone, Copy, Debug, PartialEq, Eq)]
pub enum State {
    Starting,
    Running,
    Restarting,
    Stopped,
}

impl State {
    /// Machine-readable status for the web UI / discovery endpoint.
    pub fn as_str(self) -> (r: &'static str)
        ensures
            r@ == state_name(self),
    {
        match self {
            State::Starting => "starting",
            State::Running => "running",
            State::Restarting => "restarting",
            State::Stopped => "stopped",
        }
    }

    /// Status glyph for tray menus: distinguished by shape, not colour.
    pub fn symbol(self) -> (r: &'static str)
        ensures
            r@ == state_symbol(self),
    {
        match self {
            State::Starting => "○",
            State::Running => "●",
            State::Restarting => "◐",
            State::Stopped => "✗",
        }
    }
}

pub open spec fn state_name(s: State) -> Seq<char> {
    match s {
        State::Starting => "starting"@,
        State::Running => "running"@,
        State::Restarting => "restarting"@,
        State::Stopped => "stopped"@,
    }
}

pub open spec fn state_symbol(s: State) -> Seq<char> {
    match s {
        State::Starting => "○"@,
        State::Running => "●"@,
        State::Restarting => "◐"@,
        State::Stopped => "✗"@,
    }
}

/// First delay before a relaunch, in seconds.
pub const BACKOFF_START_SECS: u64 = 1;
/// Longest delay between relaunches, in seconds.
pub const BACKOFF_MAX_SECS: u64 = 15;
/// A child up at least this long (seconds) is healthy: its backoff resets.
pub const HEALTHY_UPTIME_SECS: u64 = 30;
/// Grace window after a spawn (seconds) before a child counts as running.
pub const STARTUP_GRACE_SECS: u64 = 3;

/// Where the supervise loop of one child stands.
#[derive(Clone, Copy, Debug, PartialEq, Eq)]
pub enum Phase {
    /// At the top of the loop, about to launch unless a stop was requested.
    Ready,
    /// A spawn was asked for; its outcome is awaited.
    Launching,
    /// The child runs; `grace_over` once it has been reported running.
    Watching { grace_over: bool },
    /// Waiting out the backoff before the next launch.
    Waiting,
    /// Supervision ended; nothing more happens.
    Stopped,
}

/// What happened to the child, as observed by the runtime.
#[derive(Clone, Copy, Debug, PartialEq, Eq)]
pub enum Event {
    /// The loop reached its top; `stop_requested` is the shutdown flag.
    Begin { stop_requested: bool },
    /// The process could not be spawned.
    SpawnFailed,
    /// The process was spawned.
    Spawned,
    /// The process exited on its own after `uptime_secs` seconds.
    Exited { uptime_secs: u64 },
    /// The startup grace window elapsed with the process still alive.
    GraceElapsed,
    /// A stop was requested.
    StopRequested,
    /// The process's log reported a failing hardware encoder.
    EncoderFailed,
    /// The backoff delay elapsed.
    WaitElapsed,
}

/// What the runtime must do next.
#[derive(Clone, Copy, Debug, PartialEq, Eq)]
pub enum Command {
    /// Nothing: keep waiting for the next event.
    Nothing,
    /// Spawn the child; append to its log instead of truncating it when set.
    Launch { append_log: bool },
    /// Watch the running child: arm the grace timer and the encoder watch as told.
    Watch { grace_timer: bool, encoder_watch: bool },
    /// Sleep `secs` seconds (interrupted by a stop request).
    Wait { secs: u64 },
    /// Kill the child, then end supervision.
    KillAndFinish,
    /// Write the x264 config in place of the hardware one, then kill the child.
    FallBackAndKill,
    /// End supervision.
    Finish,
}

/// The answer to one event: a lifecycle state to publish, if any, and a command.
#[derive(Clone, Copy, Debug, PartialEq, Eq)]
pub struct Step {
    pub report: Option<State>,
    pub command: Command,
}

/// The restart policy of one supervised child.
#[derive(Clone, Copy, Debug, PartialEq, Eq)]
pub struct Supervisor {
    pub phase: Phase,
    /// Current backoff, in seconds.
    pub backoff_secs: u64,
    /// The next launch keeps the previous log (set after an encoder fallback).
    pub keep_log: bool,
    /// A hardware-encoder fallback is still available for this child.
    pub fallback_armed: bool,
    /// Report `Running` only after the startup grace window (else at spawn).
    pub grace: bool,
}

/// The policy's answer to `e` in state `s`: the next state and the step.
pub open spec fn step_spec(s: Supervisor, e: Event) -> (Supervisor, Step) {
    let none = Step { report: None, command: Command::Nothing };
    match (s.phase, e) {
        (Phase::Ready, Event::Begin { stop_requested }) =>
            if stop_requested {
                (Supervisor { phase: Phase::Stopped, ..s },
                 Step { report: Some(State::Stopped), command: Command::Finish })
            } else {
                (Supervisor { phase: Phase::Launching, keep_log: false, ..s },
                 Step { report: Some(State::Starting), command: Command::Launch { append_log: s.keep_log } })
            },
        (Phase::Launching, Event::SpawnFailed) =>
            (Supervisor { phase: Phase::Waiting, ..s },
             Step { report: Some(State::Restarting), command: Command::Wait { secs: s.backoff_secs } }),
        (Phase::Launching, Event::Spawned) =>
            (Supervisor { phase: Phase::Watching { grace_over: !s.grace }, ..s },
             Step {
                report: if s.grace { None } else { Some(State::Running) },
                command: Command::Watch { grace_timer: s.grace, encoder_watch: s.fallback_armed },
             }),
        (Phase::Watching { grace_over }, Event::Exited { uptime_secs }) => {
            let b = if uptime_secs >= HEALTHY_UPTIME_SECS { BACKOFF_START_SECS } else { s.backoff_secs };
            (Supervisor { phase: Phase::Waiting, backoff_secs: b, ..s },
             Step { report: Some(State::Restarting), command: Command::Wait { secs: b } })
        },
        (Phase::Watching { grace_over }, Event::GraceElapsed) =>
            if grace_over {
                (s, none)
            } else {
                (Supervisor { phase: Phase::Watching { grace_over: true }, ..s },
                 Step { report: Some(State::Running), command: Command::Nothing })
            },
        (Phase::Watching { grace_over }, Event::StopRequested) =>
            (Supervisor { phase: Phase::Stopped, ..s },
             Step { report: Some(State::Stopped), command: Command::KillAndFinish }),
        (Phase::Watching { grace_over }, Event::EncoderFailed) =>
            if s.fallback_armed {
                (Supervisor {
                    phase: Phase::Ready,
                    backoff_secs: BACKOFF_START_SECS,
                    keep_log: true,
                    fallback_armed: false,
                    ..s
                 },
                 Step { report: None, command: Command::FallBackAndKill })
            } else {
                (s, none)
            },
        (Phase::Waiting, Event::WaitElapsed) => {
            let doubled = 2 * s.backoff_secs;
            let b = if doubled > BACKOFF_MAX_SECS { BACKOFF_MAX_SECS } else { doubled as u64 };
            (Supervisor { phase: Phase::Ready, backoff_secs: b, ..s }, none)
        },
        (Phase::Waiting, Event::StopRequested) =>
            (Supervisor { phase: Phase::Stopped, ..s },
             Step { report: Some(State::Stopped), command: Command::Finish }),
        _ => (s, none),
    }
}

/// The backoff always lies between its start and its cap.
pub open spec fn backoff_ok(s: Supervisor) -> bool {
    BACKOFF_START_SECS <= s.backoff_secs <= BACKOFF_MAX_SECS
}

impl Supervisor {
    /// A fresh policy. `grace`: report running only after the startup grace
    /// window; `fallback`: the child runs a hardware encoder with an x264
    /// config to fall back to.
    pub fn new(grace: bool, fallback: bool) -> (r: Supervisor)
        ensures
            r == (Supervisor {
                phase: Phase::Ready,
                backoff_secs: BACKOFF_START_SECS,
                keep_log: false,
                fallback_armed: fallback,
                grace,
            }),
            backoff_ok(r),
    {
        Supervisor { phase: Phase::Ready, backoff_secs: BACKOFF_START_SECS, keep_log: false, fallback_armed: fallback, grace }
    }

    /// Feed one event to the policy.
    pub fn step(&mut self, e: Event) -> (r: Step)
        requires
            backoff_ok(*old(self)),
        ensures
            (*final(self), r) == step_spec(*old(self), e),
            backoff_ok(*final(self)),
    {
        let none = Step { report: None, command: Command::Nothing };
        match (self.phase, e) {
            (Phase::Ready, Event::Begin { stop_requested }) => {
                if stop_requested {
                    self.phase = Phase::Stopped;
                    Step { report: Some(State::Stopped), command: Command::Finish }
                } else {
                    let append_log = self.keep_log;
                    self.phase = Phase::Launching;
                    self.keep_log = false;
                    Step { report: Some(State::Starting), command: Command::Launch { append_log } }
                }
            },
            (Phase::Launching, Event::SpawnFailed) => {
                self.phase = Phase::Waiting;
                Step { report: Some(State::Restarting), command: Command::Wait { secs: self.backoff_secs } }
            },
            (Phase::Launching, Event::Spawned) => {
                self.phase = Phase::Watching { grace_over: !self.grace };
                Step {
                    report: if self.grace { None } else { Some(State::Running) },
                    command: Command::Watch { grace_timer: self.grace, encoder_watch: self.fallback_armed },
                }
            },
            (Phase::Watching { grace_over: _ }, Event::Exited { uptime_secs }) => {
                if uptime_secs >= HEALTHY_UPTIME_SECS {
                    self.backoff_secs = BACKOFF_START_SECS;
                }
                self.phase = Phase::Waiting;
                Step { report: Some(State::Restarting), command: Command::Wait { secs: self.backoff_secs } }
            },
            (Phase::Watching { grace_over }, Event::GraceElapsed) => {
                if grace_over {
                    none
                } else {
                    self.phase = Phase::Watching { grace_over: true };
                    Step { report: Some(State::Running), command: Command::Nothing }
                }
            },
            (Phase::Watching { grace_over: _ }, Event::StopRequested) => {
                self.phase = Phase::Stopped;
                Step { report: Some(State::Stopped), command: Command::KillAndFinish }
            },
            (Phase::Watching { grace_over: _ }, Event::EncoderFailed) => {
                if self.fallback_armed {
                    self.phase = Phase::Ready;
                    self.backoff_secs = BACKOFF_START_SECS;
                    self.keep_log = true;
                    self.fallback_armed = false;
                    Step { report: None, command: Command::FallBackAndKill }
                } else {
                    none
                }
            },
            (Phase::Waiting, Event::WaitElapsed) => {
                let doubled = 2 * self.backoff_secs;
                self.backoff_secs = if doubled > BACKOFF_MAX_SECS { BACKOFF_MAX_SECS } else { doubled };
                self.phase = Phase::Ready;
                none
            },
            (Phase::Waiting, Event::StopRequested) => {
                self.phase = Phase::Stopped;
                Step { report: Some(State::Stopped), command: Command::Finish }
            },
            _ => none,
        }
    }
}

/// Every state the policy moves to keeps the backoff within its bounds.
pub proof fn lemma_backoff_stays_bounded(s: Supervisor, e: Event)
    requires
        backoff_ok(s),
    ensures
        backoff_ok(step_spec(s, e).0),
{
}

/// Supervision that ended stays ended: no further event launches, waits for
/// or kills anything, or reports a state.
pub proof fn lemma_stopped_is_final(s: Supervisor, e: Event)
    requires
        s.phase == Phase::Stopped,
    ensures
        step_spec(s, e).0 == s,
        step_spec(s, e).1 == (Step { report: None, command: Command::Nothing }),
{
}

/// The x264 fallback fires at most once: it is only ever commanded while
/// armed, and firing it disarms the policy for good.
pub proof fn lemma_fallback_at_most_once(s: Supervisor, e: Event)
    ensures
        step_spec(s, e).1.command == Command::FallBackAndKill ==> s.fallback_armed && !step_spec(s, e).0.fallback_armed,
        !s.fallback_armed ==> !step_spec(s, e).0.fallback_armed,
{
}

/// With a grace window, `Running` is reported only when the window elapses
/// on a child that is still being watched, never at spawn time.
pub proof fn lemma_running_only_after_grace(s: Supervisor, e: Event)
    requires
        s.grace,
        step_spec(s, e).1.report == Some(State::Running),
    ensures
        e == Event::GraceElapsed,
        s.phase == (Phase::Watching { grace_over: false }),
{
}

/// A spawned child always gets to `Running`: without a grace window it is
/// reported at once; with one, the grace timer is armed at the spawn (and
/// only then), and its elapsing on the still-running child reports it. The
/// encoder watch is armed exactly while a fallback is available.
pub proof fn lemma_spawn_reaches_running(s: Supervisor)
    requires
        s.phase == Phase::Launching,
    ensures
        step_spec(s, Event::Spawned).1.command matches Command::Watch { grace_timer, encoder_watch }
            && grace_timer == s.grace && encoder_watch == s.fallback_armed,
        !s.grace ==> step_spec(s, Event::Spawned).1.report == Some(State::Running),
        s.grace ==> step_spec(s, Event::Spawned).1.report is None && step_spec(
            step_spec(s, Event::Spawned).0,
            Event::GraceElapsed,
        ).1.report == Some(State::Running),
{
}

/// Each relaunch after a wait doubles the delay, up to the cap; a child that
/// stayed up long enough restarts from the initial delay.
pub proof fn lemma_backoff_schedule(s: Supervisor, uptime_secs: u64)
    requires
        backoff_ok(s),
    ensures
        s.phase == Phase::Waiting ==> step_spec(s, Event::WaitElapsed).0.backoff_secs
            == if 2 * s.backoff_secs > BACKOFF_MAX_SECS { BACKOFF_MAX_SECS as int } else { 2 * s.backoff_secs },
        (s.phase matches Phase::Watching { .. }) && uptime_secs >= HEALTHY_UPTIME_SECS
            ==> step_spec(s, Event::Exited { uptime_secs }).1.command == (Command::Wait { secs: BACKOFF_START_SECS }),
{
}

/// The policy after it was fed `events`, in order.
pub open spec fn run_state(s: Supervisor, events: Seq<Event>) -> Supervisor
    decreases events.len(),
{
    if events.len() == 0 {
        s
    } else {
        step_spec(run_state(s, events.drop_last()), events.last()).0
    }
}

/// The policy's answer to the `i`-th of `events`, fed in order.
pub open spec fn run_step(s: Supervisor, events: Seq<Event>, i: int) -> Step {
    step_spec(run_state(s, events.take(i)), events[i]).1
}

/// The relaunch delay after `n` waits without a reset: 1, 2, 4, 8, then 15
/// seconds from then on.
pub open spec fn backoff_after(n: nat) -> u64
    decreases n,
{
    if n == 0 {
        BACKOFF_START_SECS
    } else {
        let d = 2 * backoff_after((n - 1) as nat);
        if d > BACKOFF_MAX_SECS { BACKOFF_MAX_SECS } else { d as u64 }
    }
}

/// How many backoff waits have elapsed in a run since the delay was last
/// reset: by a child that stayed up long enough, or by an encoder fallback.
pub open spec fn waits_since_reset(s: Supervisor, events: Seq<Event>) -> nat
    decreases events.len(),
{
    if events.len() == 0 {
        0
    } else {
        let before = run_state(s, events.drop_last());
        let n = waits_since_reset(s, events.drop_last());
        match (before.phase, events.last()) {
            (Phase::Waiting, Event::WaitElapsed) => n + 1,
            (Phase::Watching { .. }, Event::Exited { uptime_secs }) => if uptime_secs >= HEALTHY_UPTIME_SECS {
                0
            } else {
                n
            },
            (Phase::Watching { .. }, Event::EncoderFailed) => if before.fallback_armed { 0 } else { n },
            _ => n,
        }
    }
}

proof fn lemma_run_take(s: Supervisor, events: Seq<Event>, i: int)
    requires
        0 <= i < events.len(),
    ensures
        run_state(s, events.take(i + 1)) == step_spec(run_state(s, events.take(i)), events[i]).0,
        waits_since_reset(s, events.take(i + 1)) == ({
            let before = run_state(s, events.take(i));
            let n = waits_since_reset(s, events.take(i));
            match (before.phase, events[i]) {
                (Phase::Waiting, Event::WaitElapsed) => n + 1,
                (Phase::Watching { .. }, Event::Exited { uptime_secs }) => if uptime_secs >= HEALTHY_UPTIME_SECS {
                    0
                } else {
                    n
                },
                (Phase::Watching { .. }, Event::EncoderFailed) => if before.fallback_armed { 0 } else { n },
                _ => n,
            }
        }),
{
    assert(events.take(i + 1).drop_last() =~= events.take(i));
    assert(events.take(i + 1).last() == events[i]);
}

/// Whether the policy's grace setting is `grace` all along a run.
proof fn lemma_run_keeps_grace(s: Supervisor, events: Seq<Event>)
    ensures
        run_state(s, events).grace == s.grace,
    decreases events.len(),
{
    if events.len() > 0 {
        lemma_run_keeps_grace(s, events.drop_last());
    }
}

/// The relaunch delays of a whole run, from a fresh policy: after `n` waits
/// since the last reset the delay is 1, 2, 4, 8, then 15 seconds; a child
/// that stayed up for the healthy uptime, or an encoder fallback, starts it
/// over at 1. Every wait the policy commands is that delay.
pub proof fn lemma_run_backoff(s: Supervisor, events: Seq<Event>)
    requires
        s.backoff_secs == BACKOFF_START_SECS,
    ensures
        run_state(s, events).backoff_secs == backoff_after(waits_since_reset(s, events)),
        forall|i: int|
            0 <= i < events.len() ==> ((#[trigger] run_step(s, events, i)).command matches Command::Wait { secs }
                ==> secs == backoff_after(waits_since_reset(s, events.take(i + 1)))),
    decreases events.len(),
{
    if events.len() > 0 {
        let prefix = events.drop_last();
        lemma_run_backoff(s, prefix);
        let n = waits_since_reset(s, prefix);
        let before = run_state(s, prefix);
        assert(before.backoff_secs == backoff_after(n));
        if before.phase == Phase::Waiting && events.last() == Event::WaitElapsed {
            assert(backoff_after(n + 1) == {
                let d = 2 * backoff_after(n);
                if d > BACKOFF_MAX_SECS { BACKOFF_MAX_SECS } else { d as u64 }
            });
        }
        assert forall|i: int| 0 <= i < events.len() implies ((#[trigger] run_step(s, events, i)).command matches Command::Wait { secs }
            ==> secs == backoff_after(waits_since_reset(s, events.take(i + 1)))) by {
            lemma_run_take(s, events, i);
            if i < events.len() - 1 {
                assert(events.take(i) =~= prefix.take(i));
                assert(events.take(i + 1) =~= prefix.take(i + 1));
                assert(events[i] == prefix[i]);
                assert(run_step(s, events, i) == run_step(s, prefix, i));
            } else {
                assert(events.take(i) =~= prefix);
                assert(events.take(i + 1) =~= events);
            }
        }
    }
}

/// Once supervision has ended it stays ended: every later event is answered
/// with nothing, and the policy no longer changes.
pub proof fn lemma_run_stop_is_final(s: Supervisor, events: Seq<Event>, i: int, j: int)
    requires
        0 <= i <= j < events.len(),
        run_state(s, events.take(i)).phase == Phase::Stopped,
    ensures
        run_step(s, events, j) == (Step { report: None, command: Command::Nothing }),
        run_state(s, events.take(j + 1)) == run_state(s, events.take(i)),
    decreases j - i,
{
    if j > i {
        lemma_run_stop_is_final(s, events, i, j - 1);
    }
    lemma_run_take(s, events, j);
}

/// What a run reports: `Stopped` exactly when supervision ends, and so at
/// most once and last, with the running child killed when there is one
/// (`Starting`, `Running` and `Restarting` before that); with a grace window,
/// `Running` only when the window elapsed on a child still alive.
pub proof fn lemma_run_reports(s: Supervisor, events: Seq<Event>)
    ensures
        forall|i: int|
            0 <= i < events.len() ==> ((#[trigger] run_step(s, events, i)).report == Some(State::Stopped) <==> (
            run_state(s, events.take(i)).phase != Phase::Stopped && run_state(s, events.take(i + 1)).phase
                == Phase::Stopped)),
        forall|i: int|
            0 <= i < events.len() && (#[trigger] run_step(s, events, i)).report == Some(State::Stopped) ==> run_step(
                s,
                events,
                i,
            ).command == if run_state(s, events.take(i)).phase matches Phase::Watching { .. } {
                Command::KillAndFinish
            } else {
                Command::Finish
            },
        forall|i: int, j: int|
            0 <= i < j < events.len() && (#[trigger] run_step(s, events, i)).report == Some(State::Stopped)
                ==> (#[trigger] run_step(s, events, j)).report is None,
        s.grace ==> forall|i: int|
            0 <= i < events.len() && (#[trigger] run_step(s, events, i)).report == Some(State::Running) ==> events[i]
                == Event::GraceElapsed && run_state(s, events.take(i)).phase == (Phase::Watching { grace_over: false }),
{
    assert forall|i: int| 0 <= i < events.len() implies ((#[trigger] run_step(s, events, i)).report == Some(
        State::Stopped,
    ) <==> (run_state(s, events.take(i)).phase != Phase::Stopped && run_state(s, events.take(i + 1)).phase
        == Phase::Stopped)) by {
        lemma_run_take(s, events, i);
    }
    assert forall|i: int, j: int|
        0 <= i < j < events.len() && (#[trigger] run_step(s, events, i)).report == Some(State::Stopped) implies (
        #[trigger] run_step(s, events, j)).report is None by {
        lemma_run_take(s, events, i);
        lemma_run_stop_is_final(s, events, i + 1, j);
    }
    if s.grace {
        assert forall|i: int|
            0 <= i < events.len() && (#[trigger] run_step(s, events, i)).report == Some(State::Running) implies events[i]
            == Event::GraceElapsed && run_state(s, events.take(i)).phase == (Phase::Watching { grace_over: false }) by {
            lemma_run_keeps_grace(s, events.take(i));
        }
    }
}

} // verus!
