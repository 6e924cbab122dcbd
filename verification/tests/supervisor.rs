use kyberfrog::status::{state_of, Key, StatusTable};
use kyberfrog::supervisor::{Command, Event, Phase, State, Step, Supervisor};

#[test]
fn states_have_names_and_glyphs() {
    assert_eq!(State::Running.as_str(), "running");
    assert_eq!(State::Stopped.as_str(), "stopped");
    assert_eq!(State::Restarting.symbol(), "◐");
    assert_eq!(State::Starting.symbol(), "○");
}

#[test]
fn backoff_doubles_up_to_the_cap_and_resets_when_healthy() {
    let mut s = Supervisor::new(true, false);
    let mut delays = Vec::new();
    for _ in 0..6 {
        assert_eq!(s.step(Event::Begin { stop_requested: false }).command, Command::Launch { append_log: false });
        s.step(Event::Spawned);
        match s.step(Event::Exited { uptime_secs: 1 }).command {
            Command::Wait { secs } => delays.push(secs),
            other => panic!("unexpected {other:?}"),
        }
        s.step(Event::WaitElapsed);
    }
    assert_eq!(delays, vec![1, 2, 4, 8, 15, 15]);
    s.step(Event::Begin { stop_requested: false });
    s.step(Event::Spawned);
    assert_eq!(s.step(Event::Exited { uptime_secs: 30 }).command, Command::Wait { secs: 1 });
}

#[test]
fn running_is_reported_after_the_grace_window() {
    let mut s = Supervisor::new(true, false);
    s.step(Event::Begin { stop_requested: false });
    assert_eq!(s.step(Event::Spawned).report, None);
    assert_eq!(s.step(Event::GraceElapsed).report, Some(State::Running));
    let mut quick = Supervisor::new(false, false);
    quick.step(Event::Begin { stop_requested: false });
    assert_eq!(quick.step(Event::Spawned).report, Some(State::Running));
}

#[test]
fn encoder_fallback_fires_once_and_keeps_the_log() {
    let mut s = Supervisor::new(true, true);
    s.step(Event::Begin { stop_requested: false });
    s.step(Event::Spawned);
    assert_eq!(s.step(Event::EncoderFailed), Step { report: None, command: Command::FallBackAndKill });
    assert_eq!(s.step(Event::Begin { stop_requested: false }).command, Command::Launch { append_log: true });
    s.step(Event::Spawned);
    assert_eq!(s.step(Event::EncoderFailed).command, Command::Nothing);
}

#[test]
fn stop_ends_supervision_for_good() {
    let mut s = Supervisor::new(true, false);
    s.step(Event::Begin { stop_requested: false });
    s.step(Event::Spawned);
    assert_eq!(s.step(Event::StopRequested), Step { report: Some(State::Stopped), command: Command::KillAndFinish });
    assert_eq!(s.phase, Phase::Stopped);
    assert_eq!(s.step(Event::Begin { stop_requested: false }).command, Command::Nothing);
}

#[test]
fn status_reads_back_and_defaults_to_stopped() {
    let mut table = StatusTable::new();
    let tx = Key::Tx("x".to_string());
    let vw = Key::Vw("x".to_string());
    assert_eq!(state_of(&table, &tx), State::Stopped);
    table.set(&tx, State::Running);
    table.set(&vw, State::Starting);
    assert_eq!(state_of(&table, &tx), State::Running);
    assert_eq!(state_of(&table, &vw), State::Starting);
    table.set(&tx, State::Restarting);
    assert_eq!(state_of(&table, &tx), State::Restarting);
    table.remove(&tx);
    assert_eq!(state_of(&table, &tx), State::Stopped);
    assert_eq!(state_of(&table, &vw), State::Starting);
    assert_eq!(tx.tag(), "x");
}

#[test]
fn a_whole_run_waits_1_2_4_8_15_then_resets_and_stops_once() {
    let mut s = Supervisor::new(true, false);
    let mut waits = Vec::new();
    let mut reports = Vec::new();
    let feed = |s: &mut Supervisor, e: Event, waits: &mut Vec<u64>, reports: &mut Vec<State>| {
        let step = s.step(e);
        if let Command::Wait { secs } = step.command {
            waits.push(secs);
        }
        if let Some(r) = step.report {
            reports.push(r);
        }
        step
    };
    for _ in 0..6 {
        feed(&mut s, Event::Begin { stop_requested: false }, &mut waits, &mut reports);
        feed(&mut s, Event::SpawnFailed, &mut waits, &mut reports);
        feed(&mut s, Event::WaitElapsed, &mut waits, &mut reports);
    }
    assert_eq!(waits, [1, 2, 4, 8, 15, 15]);
    // A healthy run starts the delays over.
    feed(&mut s, Event::Begin { stop_requested: false }, &mut waits, &mut reports);
    feed(&mut s, Event::Spawned, &mut waits, &mut reports);
    feed(&mut s, Event::GraceElapsed, &mut waits, &mut reports);
    feed(&mut s, Event::Exited { uptime_secs: 45 }, &mut waits, &mut reports);
    assert_eq!(waits.last(), Some(&1));
    feed(&mut s, Event::StopRequested, &mut waits, &mut reports);
    let after = feed(&mut s, Event::Begin { stop_requested: false }, &mut waits, &mut reports);
    assert_eq!(after, Step { report: None, command: Command::Nothing });
    assert_eq!(s.phase, Phase::Stopped);
    assert_eq!(reports.iter().filter(|r| **r == State::Stopped).count(), 1);
    assert_eq!(reports.last(), Some(&State::Stopped));
    assert_eq!(reports.iter().filter(|r| **r == State::Running).count(), 1);
}
