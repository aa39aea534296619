//! Sole ownership of the daemon's mutable state: the steps to the lock, and
//! what is said where one of them fails.

use vstd::prelude::*;

use crate::config::{run_dir, run_dir_of};
use crate::digest::say;
use crate::paths::{join, joined};

verus! {

pub const LOCK_NAME: &'static str = "daemon.lock";

/// The lock file of a daemon with this state file. It is never removed: a
/// stable file keeps two processes from locking different ones.
pub fn lock_path(state_file: &str) -> (r: String)
    ensures
        r@ == joined(run_dir_of(state_file@), LOCK_NAME@),
{
    let dir = run_dir(state_file);
    join(dir.as_str(), LOCK_NAME)
}

/// The steps to the lock, in their order.
#[derive(Debug, Clone, Copy, PartialEq, Eq, Structural)]
pub enum LockStep {
    CreateDir,
    /// Look at the directory without following a symlink.
    InspectDir,
    /// Give the directory to its owner alone.
    SecureDir,
    /// Open the file without following a symlink.
    OpenFile,
    InspectFile,
    /// Give the file to its owner alone.
    SecureFile,
    /// Lock without waiting.
    Lock,
}

/// How a step went.
#[derive(Debug, PartialEq, Eq)]
pub enum StepFact<T = String> {
    Done,
    /// What was found is not a directory, or not a regular file.
    WrongKind,
    /// Another process holds the lock.
    Busy,
    Failed(T),
}

pub open spec fn fact_view(f: StepFact) -> StepFact<Seq<char>> {
    match f {
        StepFact::Done => StepFact::Done,
        StepFact::WrongKind => StepFact::WrongKind,
        StepFact::Busy => StepFact::Busy,
        StepFact::Failed(e) => StepFact::Failed(e@),
    }
}

#[derive(Debug, PartialEq, Eq)]
pub enum LockProgress<T = String> {
    Go(LockStep),
    Held,
    Refused(T),
}

pub open spec fn progress_view(f: LockProgress) -> LockProgress<Seq<char>> {
    match f {
        LockProgress::Go(s) => LockProgress::Go(s),
        LockProgress::Held => LockProgress::Held,
        LockProgress::Refused(e) => LockProgress::Refused(e@),
    }
}

pub open spec fn next_step(step: LockStep) -> LockProgress<Seq<char>> {
    match step {
        LockStep::CreateDir => LockProgress::Go(LockStep::InspectDir),
        LockStep::InspectDir => LockProgress::Go(LockStep::SecureDir),
        LockStep::SecureDir => LockProgress::Go(LockStep::OpenFile),
        LockStep::OpenFile => LockProgress::Go(LockStep::InspectFile),
        LockStep::InspectFile => LockProgress::Go(LockStep::SecureFile),
        LockStep::SecureFile => LockProgress::Go(LockStep::Lock),
        LockStep::Lock => LockProgress::Held,
    }
}

/// Does the step concern the directory?
pub open spec fn about_dir(step: LockStep) -> bool {
    step is CreateDir || step is InspectDir || step is SecureDir
}

pub open spec fn step_words(step: LockStep) -> Seq<char> {
    match step {
        LockStep::CreateDir => "create daemon run dir "@,
        LockStep::InspectDir => "inspect daemon run dir "@,
        LockStep::SecureDir => "secure daemon run dir "@,
        LockStep::OpenFile => "open daemon lock "@,
        LockStep::InspectFile => "inspect daemon lock "@,
        LockStep::SecureFile => "secure daemon lock "@,
        LockStep::Lock => "lock daemon state via "@,
    }
}

pub open spec fn step_path(state_file: Seq<char>, step: LockStep) -> Seq<char> {
    if about_dir(step) {
        run_dir_of(state_file)
    } else {
        joined(run_dir_of(state_file), LOCK_NAME@)
    }
}

/// The lock is held once every step has been done; whatever else a step meets
/// refuses the daemon.
pub open spec fn lock_progress(
    state_file: Seq<char>,
    step: LockStep,
    fact: StepFact<Seq<char>>,
) -> LockProgress<Seq<char>> {
    let path = step_path(state_file, step);
    match fact {
        StepFact::Done => next_step(step),
        StepFact::Failed(e) => LockProgress::Refused(step_words(step) + path + ": "@ + e),
        StepFact::WrongKind => LockProgress::Refused(
            if about_dir(step) {
                "daemon run path "@ + path
                    + " must be a real directory, not a symlink or file"@
            } else {
                "daemon lock path "@ + path + " is not a regular file"@
            },
        ),
        StepFact::Busy => LockProgress::Refused(
            "another CAUSEWAY daemon already owns "@ + path
                + "; stop that service or use its control socket"@,
        ),
    }
}

/// What follows a step towards the lock.
pub fn lock_next(state_file: &str, step: LockStep, fact: StepFact) -> (r: LockProgress)
    ensures
        progress_view(r) == lock_progress(state_file@, step, fact_view(fact)),
{
    let in_dir = match step {
        LockStep::CreateDir => true,
        LockStep::InspectDir => true,
        LockStep::SecureDir => true,
        _ => false,
    };
    let path = if in_dir {
        run_dir(state_file)
    } else {
        lock_path(state_file)
    };
    match fact {
        StepFact::Done => match step {
            LockStep::CreateDir => LockProgress::Go(LockStep::InspectDir),
            LockStep::InspectDir => LockProgress::Go(LockStep::SecureDir),
            LockStep::SecureDir => LockProgress::Go(LockStep::OpenFile),
            LockStep::OpenFile => LockProgress::Go(LockStep::InspectFile),
            LockStep::InspectFile => LockProgress::Go(LockStep::SecureFile),
            LockStep::SecureFile => LockProgress::Go(LockStep::Lock),
            LockStep::Lock => LockProgress::Held,
        },
        StepFact::Failed(e) => {
            let mut s = (match step {
                LockStep::CreateDir => "create daemon run dir ",
                LockStep::InspectDir => "inspect daemon run dir ",
                LockStep::SecureDir => "secure daemon run dir ",
                LockStep::OpenFile => "open daemon lock ",
                LockStep::InspectFile => "inspect daemon lock ",
                LockStep::SecureFile => "secure daemon lock ",
                LockStep::Lock => "lock daemon state via ",
            }).to_string();
            say(&mut s, path.as_str());
            say(&mut s, ": ");
            say(&mut s, e.as_str());
            LockProgress::Refused(s)
        },
        StepFact::WrongKind => if in_dir {
            let mut s = "daemon run path ".to_string();
            say(&mut s, path.as_str());
            say(&mut s, " must be a real directory, not a symlink or file");
            LockProgress::Refused(s)
        } else {
            let mut s = "daemon lock path ".to_string();
            say(&mut s, path.as_str());
            say(&mut s, " is not a regular file");
            LockProgress::Refused(s)
        },
        StepFact::Busy => {
            let mut s = "another CAUSEWAY daemon already owns ".to_string();
            say(&mut s, path.as_str());
            say(&mut s, "; stop that service or use its control socket");
            LockProgress::Refused(s)
        },
    }
}

/// The steps to the lock, by number.
pub open spec fn lock_step(n: nat) -> LockStep {
    if n == 0 {
        LockStep::CreateDir
    } else if n == 1 {
        LockStep::InspectDir
    } else if n == 2 {
        LockStep::SecureDir
    } else if n == 3 {
        LockStep::OpenFile
    } else if n == 4 {
        LockStep::InspectFile
    } else if n == 5 {
        LockStep::SecureFile
    } else {
        LockStep::Lock
    }
}

/// The lock is held after seven steps that all succeeded, and only then: the
/// directory is made, looked at and secured before the file is, and whatever
/// goes wrong ends in a refusal.
pub proof fn law_lock_is_held_after_every_step(
    state_file: Seq<char>,
    n: nat,
    step: LockStep,
    fact: StepFact<Seq<char>>,
)
    requires
        n < 7,
    ensures
        n < 6 ==> lock_progress(state_file, lock_step(n), StepFact::Done) == LockProgress::<
            Seq<char>,
        >::Go(lock_step(n + 1)),
        lock_progress(state_file, step, fact) is Held <==> step == LockStep::Lock && fact is Done,
        lock_progress(state_file, step, fact) is Refused <==> !(fact is Done),
{
}

/// A step is refused in words that name its path: the run directory for the
/// first three, the lock file for the others.
pub proof fn law_lock_refusals_name_the_path(
    state_file: Seq<char>,
    n: nat,
    detail: Seq<char>,
)
    requires
        n < 7,
    ensures
        lock_progress(state_file, lock_step(n), StepFact::Failed(detail)) == LockProgress::Refused(
            step_words(lock_step(n)) + (if n < 3 {
                run_dir_of(state_file)
            } else {
                joined(run_dir_of(state_file), "daemon.lock"@)
            }) + ": "@ + detail,
        ),
{
}

} // verus!
