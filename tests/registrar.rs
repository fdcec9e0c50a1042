use crash_capture::registrar::{
    plan_registrations, registration_plan, HandlerKind, Registration, RegistrationError,
};

const SIGINT: i32 = 2;
const SIGABRT: i32 = 6;
const SIGKILL: i32 = 9;
const SIGUSR2: i32 = 12;
const SIGTERM: i32 = 15;

#[test]
fn plan_puts_flag_handlers_first_and_diagnostic_last() {
    let plan = plan_registrations(&vec![SIGTERM, SIGINT, SIGABRT], SIGUSR2, &vec![]).unwrap();
    assert_eq!(
        plan,
        vec![
            Registration { signal: SIGTERM, kind: HandlerKind::FlagOnly },
            Registration { signal: SIGINT, kind: HandlerKind::FlagOnly },
            Registration { signal: SIGABRT, kind: HandlerKind::FlagOnly },
            Registration { signal: SIGUSR2, kind: HandlerKind::FullCapability },
        ]
    );
}

#[test]
fn plan_with_no_termination_signals() {
    let plan = plan_registrations(&vec![], SIGUSR2, &vec![SIGKILL]).unwrap();
    assert_eq!(plan, vec![Registration { signal: SIGUSR2, kind: HandlerKind::FullCapability }]);
}

#[test]
fn repeated_termination_signal_is_refused() {
    let r = plan_registrations(&vec![SIGTERM, SIGINT, SIGTERM], SIGUSR2, &vec![]);
    assert_eq!(r, Err(RegistrationError::Duplicate(SIGTERM)));
}

#[test]
fn diagnostic_signal_colliding_with_termination_is_refused() {
    let r = plan_registrations(&vec![SIGTERM, SIGINT], SIGINT, &vec![]);
    assert_eq!(r, Err(RegistrationError::Duplicate(SIGINT)));
}

#[test]
fn forbidden_signal_is_refused() {
    let r = plan_registrations(&vec![SIGTERM, SIGKILL], SIGUSR2, &vec![SIGKILL, 19]);
    assert_eq!(r, Err(RegistrationError::Forbidden(SIGKILL)));
}

#[test]
fn first_problem_in_order_wins() {
    // the duplicate at position 1 comes before the forbidden one at position 2
    let r = plan_registrations(&vec![SIGINT, SIGINT, SIGKILL], SIGUSR2, &vec![SIGKILL]);
    assert_eq!(r, Err(RegistrationError::Duplicate(SIGINT)));
    // a forbidden signal is reported as forbidden even when it also repeats
    let r = plan_registrations(&vec![SIGKILL, SIGKILL], SIGUSR2, &vec![SIGKILL]);
    assert_eq!(r, Err(RegistrationError::Forbidden(SIGKILL)));
}

#[test]
fn platform_plan_accepts_standard_signals() {
    let plan = registration_plan(&vec![SIGTERM, SIGINT, SIGABRT], SIGUSR2).unwrap();
    assert_eq!(plan.len(), 4);
    assert_eq!(plan[3], Registration { signal: SIGUSR2, kind: HandlerKind::FullCapability });
}

#[test]
fn platform_plan_refuses_sigkill() {
    let r = registration_plan(&vec![SIGTERM], SIGKILL);
    assert_eq!(r, Err(RegistrationError::Forbidden(SIGKILL)));
    let r = registration_plan(&vec![19], SIGUSR2);
    assert_eq!(r, Err(RegistrationError::Forbidden(19)));
}
