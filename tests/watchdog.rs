use crash_capture::watchdog::{
    Action, Phase, Watchdog, WatchdogConfig, CRASH_EXIT_STATUS, DEFAULT_GRACE_PERIOD_MS,
    DEFAULT_POLL_INTERVAL_MS,
};

#[test]
fn standard_config_values() {
    let c = WatchdogConfig::standard();
    assert_eq!(c.poll_interval_ms, 100);
    assert_eq!(c.grace_period_ms, 10_000);
    assert_eq!(c.exit_status, 1);
    assert_eq!(DEFAULT_POLL_INTERVAL_MS, 100);
    assert_eq!(DEFAULT_GRACE_PERIOD_MS, 10_000);
    assert_eq!(CRASH_EXIT_STATUS, 1);
}

#[test]
fn config_rejects_zero_interval_and_zero_status() {
    assert_eq!(WatchdogConfig::new(0, 10, 1), None);
    assert_eq!(WatchdogConfig::new(50, 10, 0), None);
    let c = WatchdogConfig::new(50, 200, 3).unwrap();
    assert_eq!(c.poll_interval_ms, 50);
    assert_eq!(c.grace_period_ms, 200);
    assert_eq!(c.exit_status, 3);
}

#[test]
fn polls_while_flag_is_false() {
    let mut w = Watchdog::new(WatchdogConfig::standard());
    for _ in 0..5 {
        assert_eq!(w.step(false), Action::Sleep(100));
        assert_eq!(w.phase, Phase::Polling);
        assert!(!w.termination_requested());
    }
}

#[test]
fn interrupt_leads_to_raise_grace_and_exit() {
    let mut w = Watchdog::new(WatchdogConfig::standard());
    assert_eq!(w.step(false), Action::Sleep(100));
    // the interrupt handler has set the flag during that sleep
    assert_eq!(w.step(true), Action::RaiseDiagnostic);
    assert!(w.termination_requested());
    assert_eq!(w.step(true), Action::Sleep(10_000));
    assert_eq!(w.step(true), Action::Exit(1));
    assert_eq!(w.phase, Phase::Exited);
}

#[test]
fn exit_bound_is_one_poll_plus_grace() {
    let c = WatchdogConfig::new(100, 10_000, 1).unwrap();
    let mut w = Watchdog::new(c);
    // flag set right after a read: at most one polling sleep before it is seen
    let mut slept: u64 = 0;
    if let Action::Sleep(ms) = w.step(false) {
        slept += ms;
    }
    assert_eq!(w.step(true), Action::RaiseDiagnostic);
    if let Action::Sleep(ms) = w.step(true) {
        slept += ms;
    }
    assert_eq!(w.step(true), Action::Exit(1));
    assert_eq!(slept, 10_100);
}

#[test]
fn two_signals_raise_diagnostic_once() {
    let mut w = Watchdog::new(WatchdogConfig::standard());
    let reads = [false, true, true, true, true, true];
    let mut raises = 0;
    for r in reads {
        if w.step(r) == Action::RaiseDiagnostic {
            raises += 1;
        }
    }
    assert_eq!(raises, 1);
}

#[test]
fn latch_survives_false_reads() {
    let mut w = Watchdog::new(WatchdogConfig::standard());
    assert_eq!(w.step(true), Action::RaiseDiagnostic);
    // whatever the flag reads afterwards, the watchdog never polls again
    assert_eq!(w.step(false), Action::Sleep(10_000));
    assert!(w.termination_requested());
    assert_eq!(w.step(false), Action::Exit(1));
    assert_eq!(w.step(false), Action::Exit(1));
    assert_eq!(w.phase, Phase::Exited);
}

#[test]
fn exit_uses_configured_status() {
    let c = WatchdogConfig::new(5, 0, 42).unwrap();
    let mut w = Watchdog::new(c);
    assert_eq!(w.step(true), Action::RaiseDiagnostic);
    assert_eq!(w.step(false), Action::Sleep(0));
    assert_eq!(w.step(false), Action::Exit(42));
}
