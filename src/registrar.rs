//! Which handler goes on which signal.
//!
//! Termination-class signals get a flag-only handler, which does nothing but
//! store `true` into the termination flag: the one thing that is safe in a
//! raw signal-handler context. The diagnostic signal, which only the
//! watchdog raises, gets the full-capability handler that captures the stack
//! and writes the report.
use vstd::prelude::*;

verus! {

/// The capability a handler is allowed.
#[derive(Clone, Copy, Debug, PartialEq, Eq, Structural)]
pub enum HandlerKind {
    /// May only store into the termination flag.
    FlagOnly,
    /// May allocate, do file I/O and walk the stack.
    FullCapability,
}

/// One handler to install.
#[derive(Clone, Copy, Debug, PartialEq, Eq, Structural)]
pub struct Registration {
    pub signal: i32,
    pub kind: HandlerKind,
}

/// Why a handler could not be installed.
#[derive(Clone, Copy, Debug, PartialEq, Eq, Structural)]
pub enum RegistrationError {
    /// The signal is one that may not be given a handler.
    Forbidden(i32),
    /// The signal was already given a handler earlier in the plan.
    Duplicate(i32),
    /// The operating system refused the handler.
    Rejected(i32),
}

/// All signals of a plan, termination class first, the diagnostic last.
pub open spec fn plan_signals(termination: Seq<i32>, diagnostic: i32) -> Seq<i32> {
    termination.push(diagnostic)
}

/// What is wrong with the `i`th signal, if anything. A forbidden signal is
/// reported as such even when it also repeats an earlier one.
pub open spec fn problem_at(sigs: Seq<i32>, forbidden: Seq<i32>, i: int) -> Option<
    RegistrationError,
> {
    if forbidden.contains(sigs[i]) {
        Some(RegistrationError::Forbidden(sigs[i]))
    } else if sigs.take(i).contains(sigs[i]) {
        Some(RegistrationError::Duplicate(sigs[i]))
    } else {
        None
    }
}

/// The registrations of a sound plan.
pub open spec fn plan_of(termination: Seq<i32>, diagnostic: i32) -> Seq<Registration> {
    Seq::new(termination.len(), |i: int| Registration { signal: termination[i], kind: HandlerKind::FlagOnly }).push(
        Registration { signal: diagnostic, kind: HandlerKind::FullCapability },
    )
}

/// The problem of the first signal at or after position `i` that has one.
pub open spec fn first_problem(sigs: Seq<i32>, forbidden: Seq<i32>, i: int) -> Option<
    RegistrationError,
>
    decreases sigs.len() - i,
{
    if i < 0 || i >= sigs.len() {
        None
    } else if problem_at(sigs, forbidden, i) is Some {
        problem_at(sigs, forbidden, i)
    } else {
        first_problem(sigs, forbidden, i + 1)
    }
}

/// The outcome of planning: the problem of the first signal that has one,
/// else the registrations.
pub open spec fn planned(termination: Seq<i32>, diagnostic: i32, forbidden: Seq<i32>) -> Result<
    Seq<Registration>,
    RegistrationError,
> {
    match first_problem(plan_signals(termination, diagnostic), forbidden, 0) {
        Some(e) => Err(e),
        None => Ok(plan_of(termination, diagnostic)),
    }
}

/// An executable planning result agrees with its model.
pub open spec fn outcome_matches(
    r: Result<Vec<Registration>, RegistrationError>,
    model: Result<Seq<Registration>, RegistrationError>,
) -> bool {
    match r {
        Ok(plan) => model == Ok::<Seq<Registration>, RegistrationError>(plan@),
        Err(e) => model == Err::<Seq<Registration>, RegistrationError>(e),
    }
}

/// Relies on signal_hook::consts::FORBIDDEN: the signals that this
/// platform does not let a handler be installed for.
#[verifier::external_body]
fn forbidden_signals() -> (r: Vec<i32>) {
    signal_hook::consts::FORBIDDEN.to_vec()
}

/// Plans the handlers against the signals that may not be given one on
/// this platform; see [`plan_registrations`].
pub fn registration_plan(termination: &Vec<i32>, diagnostic: i32) -> (r: Result<
    Vec<Registration>,
    RegistrationError,
>)
    requires
        termination@.len() < usize::MAX,
    ensures
        exists|forbidden: Seq<i32>| outcome_matches(r, planned(termination@, diagnostic, forbidden)),
{
    let forbidden = forbidden_signals();
    let r = plan_registrations(termination, diagnostic, &forbidden);
    assert(outcome_matches(r, planned(termination@, diagnostic, forbidden@)));
    r
}

fn contains_signal(sigs: &Vec<i32>, end: usize, sig: i32) -> (r: bool)
    requires
        end <= sigs@.len(),
    ensures
        r == sigs@.take(end as int).contains(sig),
{
    let mut i: usize = 0;
    while i < end
        invariant
            end <= sigs@.len(),
            i <= end,
            forall|j: int| 0 <= j < i ==> sigs@[j] != sig,
        decreases end - i,
    {
        if sigs[i] == sig {
            assert(sigs@.take(end as int)[i as int] == sig);
            return true;
        }
        i = i + 1;
    }
    assert forall|j: int| 0 <= j < end implies sigs@.take(end as int)[j] != sig by {
        assert(sigs@.take(end as int)[j] == sigs@[j]);
    }
    false
}

/// Plans the handlers: a flag-only one for each termination signal, in the
/// order given, then the full-capability one for the diagnostic signal.
/// The plan fails at the first signal, in that order, that is in `forbidden`
/// or repeats an earlier one.
pub fn plan_registrations(termination: &Vec<i32>, diagnostic: i32, forbidden: &Vec<i32>) -> (r:
    Result<Vec<Registration>, RegistrationError>)
    requires
        termination@.len() < usize::MAX,
    ensures
        outcome_matches(r, planned(termination@, diagnostic, forbidden@)),
{
    let mut sigs: Vec<i32> = termination.clone();
    sigs.push(diagnostic);
    assert(sigs@ =~= plan_signals(termination@, diagnostic));
    let ghost all = plan_signals(termination@, diagnostic);
    let n = sigs.len();
    let mut i: usize = 0;
    while i < n
        invariant
            sigs@ == all,
            all == plan_signals(termination@, diagnostic),
            n == all.len(),
            i <= n,
            first_problem(all, forbidden@, 0) == first_problem(all, forbidden@, i as int),
        decreases n - i,
    {
        let sig = sigs[i];
        let bad: Option<RegistrationError> = if contains_signal(forbidden, forbidden.len(), sig) {
            Some(RegistrationError::Forbidden(sig))
        } else if contains_signal(&sigs, i, sig) {
            Some(RegistrationError::Duplicate(sig))
        } else {
            None
        };
        proof {
            assert(forbidden@.take(forbidden@.len() as int) =~= forbidden@);
            assert(bad == problem_at(all, forbidden@, i as int));
        }
        match bad {
            Some(e) => {
                assert(first_problem(all, forbidden@, i as int) == Some(e));
                return Err(e);
            },
            None => {},
        }
        i = i + 1;
    }
    let mut plan: Vec<Registration> = Vec::new();
    let m = termination.len();
    let mut t: usize = 0;
    while t < m
        invariant
            m == termination@.len(),
            t <= m,
            plan@.len() == t,
            forall|j: int|
                0 <= j < t ==> #[trigger] plan@[j] == (Registration {
                    signal: termination@[j],
                    kind: HandlerKind::FlagOnly,
                }),
        decreases m - t,
    {
        plan.push(Registration { signal: termination[t], kind: HandlerKind::FlagOnly });
        t = t + 1;
    }
    plan.push(Registration { signal: diagnostic, kind: HandlerKind::FullCapability });
    assert(plan@ =~= plan_of(termination@, diagnostic));
    Ok(plan)
}

} // verus!
