//! The steps to the daemon lock.

use causeway::daemon_lock::{lock_next, lock_path, LockProgress, LockStep, StepFact};

const STATE: &str = "/d/state/state.json";

fn refused(step: LockStep, fact: StepFact) -> String {
    match lock_next(STATE, step, fact) {
        LockProgress::Refused(message) => message,
        _ => panic!("the step was to be refused"),
    }
}

#[test]
fn every_step_leads_to_the_next_and_the_last_to_the_lock() {
    let mut step = LockStep::CreateDir;
    let mut steps = 1;
    loop {
        match lock_next(STATE, step, StepFact::Done) {
            LockProgress::Go(next) => {
                step = next;
                steps += 1;
            }
            LockProgress::Held => break,
            LockProgress::Refused(m) => panic!("refused: {m}"),
        }
    }
    assert_eq!(step, LockStep::Lock);
    assert_eq!(steps, 7);
    assert_eq!(lock_path(STATE), "/d/state/run/daemon.lock");
}

#[test]
fn a_held_lock_names_its_file() {
    assert_eq!(
        refused(LockStep::Lock, StepFact::Busy),
        "another CAUSEWAY daemon already owns /d/state/run/daemon.lock; stop that service or use its control socket"
    );
}

#[test]
fn symlinks_and_failures_are_refused_with_their_path() {
    assert_eq!(
        refused(LockStep::InspectDir, StepFact::WrongKind),
        "daemon run path /d/state/run must be a real directory, not a symlink or file"
    );
    assert_eq!(
        refused(LockStep::InspectFile, StepFact::WrongKind),
        "daemon lock path /d/state/run/daemon.lock is not a regular file"
    );
    let failed = |step| refused(step, StepFact::Failed("denied".to_string()));
    assert_eq!(
        failed(LockStep::CreateDir),
        "create daemon run dir /d/state/run: denied"
    );
    assert_eq!(
        failed(LockStep::InspectDir),
        "inspect daemon run dir /d/state/run: denied"
    );
    assert_eq!(
        failed(LockStep::SecureDir),
        "secure daemon run dir /d/state/run: denied"
    );
    assert_eq!(
        failed(LockStep::OpenFile),
        "open daemon lock /d/state/run/daemon.lock: denied"
    );
    assert_eq!(
        failed(LockStep::InspectFile),
        "inspect daemon lock /d/state/run/daemon.lock: denied"
    );
    assert_eq!(
        failed(LockStep::SecureFile),
        "secure daemon lock /d/state/run/daemon.lock: denied"
    );
    assert_eq!(
        failed(LockStep::Lock),
        "lock daemon state via /d/state/run/daemon.lock: denied"
    );
}
