//! Back-off of automatic recovery: the pause doubles with every failed
//! attempt, up to a cap.

use vstd::prelude::*;

verus! {

/// Times are milliseconds on a monotonic clock.
pub const AUTO_RECOVERY_INITIAL_BACKOFF: u64 = 60000;

pub const AUTO_RECOVERY_MAX_BACKOFF: u64 = 900000;

#[derive(Debug, Clone, Copy, PartialEq, Eq, Structural)]
pub struct AutoRecoveryBackoff {
    pub consecutive_failures: u32,
    pub retry_not_before: Option<u64>,
}

/// No failure on record.
pub open spec fn fresh_backoff() -> AutoRecoveryBackoff {
    AutoRecoveryBackoff { consecutive_failures: 0, retry_not_before: None }
}

impl Default for AutoRecoveryBackoff {
    fn default() -> (r: Self)
        ensures
            r == fresh_backoff(),
    {
        AutoRecoveryBackoff { consecutive_failures: 0, retry_not_before: None }
    }
}

/// The pause after so many failures in a row.
pub open spec fn backoff_delay(failures: nat) -> nat
    decreases failures,
{
    if failures <= 1 {
        AUTO_RECOVERY_INITIAL_BACKOFF as nat
    } else {
        let twice = 2 * backoff_delay((failures - 1) as nat);
        if twice < AUTO_RECOVERY_MAX_BACKOFF {
            twice
        } else {
            AUTO_RECOVERY_MAX_BACKOFF as nat
        }
    }
}

/// The pause never shrinks from one failure to the next, starts at the
/// initial value and never exceeds the cap.
pub proof fn law_backoff_grows_to_cap(failures: nat)
    ensures
        AUTO_RECOVERY_INITIAL_BACKOFF <= backoff_delay(failures) <= AUTO_RECOVERY_MAX_BACKOFF,
        backoff_delay(failures) <= backoff_delay(failures + 1),
        failures >= 5 ==> backoff_delay(failures) == AUTO_RECOVERY_MAX_BACKOFF,
    decreases failures,
{
    if failures > 1 {
        law_backoff_grows_to_cap((failures - 1) as nat);
        reveal_with_fuel(backoff_delay, 6);
    } else {
        reveal_with_fuel(backoff_delay, 3);
    }
}

proof fn lemma_capped_stays(a: nat, b: nat)
    requires
        1 <= a <= b,
        backoff_delay(a) == AUTO_RECOVERY_MAX_BACKOFF,
    ensures
        backoff_delay(b) == AUTO_RECOVERY_MAX_BACKOFF,
    decreases b - a,
{
    if a < b {
        assert(backoff_delay(a + 1) == AUTO_RECOVERY_MAX_BACKOFF);
        lemma_capped_stays(a + 1, b);
    }
}

pub open spec fn one_more(n: u32) -> u32 {
    if n == u32::MAX {
        n
    } else {
        (n + 1) as u32
    }
}

pub open spec fn ready(b: AutoRecoveryBackoff, now: u64) -> bool {
    b.retry_not_before is None || now >= b.retry_not_before->0
}

/// How long until the next attempt may start.
pub open spec fn retry_in(b: AutoRecoveryBackoff, now: u64) -> nat {
    if ready(b, now) {
        0
    } else {
        (b.retry_not_before->0 - now) as nat
    }
}

/// A failed attempt counts, and the next one waits.
pub open spec fn after_failure(b: AutoRecoveryBackoff, now: u64) -> AutoRecoveryBackoff {
    let n = one_more(b.consecutive_failures);
    AutoRecoveryBackoff {
        consecutive_failures: n,
        retry_not_before: Some((now + backoff_delay(n as nat)) as u64),
    }
}

impl AutoRecoveryBackoff {
    pub fn is_ready_at(&self, now: u64) -> (r: bool)
        ensures
            r == ready(*self, now),
    {
        match self.retry_not_before {
            None => true,
            Some(deadline) => now >= deadline,
        }
    }

    pub fn remaining_at(&self, now: u64) -> (r: u64)
        ensures
            r == retry_in(*self, now),
    {
        match self.retry_not_before {
            None => 0,
            Some(deadline) => if now >= deadline {
                0
            } else {
                deadline - now
            },
        }
    }

    /// Note a failed attempt; gives the pause before the next one.
    pub fn record_failure_at(&mut self, now: u64) -> (delay: u64)
        requires
            now + AUTO_RECOVERY_MAX_BACKOFF <= u64::MAX,
        ensures
            *final(self) == after_failure(*old(self), now),
            delay == backoff_delay(one_more(old(self).consecutive_failures) as nat),
    {
        if self.consecutive_failures < u32::MAX {
            self.consecutive_failures = self.consecutive_failures + 1;
        }
        let n: u32 = self.consecutive_failures;
        let mut delay: u64 = AUTO_RECOVERY_INITIAL_BACKOFF;
        let mut doublings: u32 = n - 1;
        while doublings > 0 && delay < AUTO_RECOVERY_MAX_BACKOFF
            invariant
                doublings < n,
                delay == backoff_delay((n - doublings) as nat),
                AUTO_RECOVERY_INITIAL_BACKOFF <= delay <= AUTO_RECOVERY_MAX_BACKOFF,
            decreases doublings,
        {
            let twice: u64 = delay * 2;
            delay = if twice < AUTO_RECOVERY_MAX_BACKOFF {
                twice
            } else {
                AUTO_RECOVERY_MAX_BACKOFF
            };
            doublings = doublings - 1;
        }
        proof {
            if doublings > 0 {
                lemma_capped_stays((n - doublings) as nat, n as nat);
            }
        }
        self.retry_not_before = Some(now + delay);
        delay
    }

    /// A published path ends the streak.
    pub fn reset(&mut self)
        ensures
            *final(self) == fresh_backoff(),
    {
        self.consecutive_failures = 0;
        self.retry_not_before = None;
    }
}

/// After a failure no attempt starts before the pause is over, and one may
/// start as soon as it is.
pub proof fn law_backoff_holds_and_ends(b: AutoRecoveryBackoff, now: u64, later: u64)
    requires
        now + AUTO_RECOVERY_MAX_BACKOFF <= u64::MAX,
    ensures
        ready(after_failure(b, now), later) == (later >= now + backoff_delay(
            one_more(b.consecutive_failures) as nat,
        )),
        !ready(after_failure(b, now), now),
        ready(fresh_backoff(), later),
{
    law_backoff_grows_to_cap(one_more(b.consecutive_failures) as nat);
}

/// The pause in milliseconds by the number of failures in a row: one minute,
/// doubled by every further failure, and never more than a quarter of an hour.
pub proof fn law_backoff_doubles_from_a_minute(failures: nat)
    ensures
        failures <= 1 ==> backoff_delay(failures) == 60_000,
        failures == 2 ==> backoff_delay(failures) == 120_000,
        failures == 3 ==> backoff_delay(failures) == 240_000,
        failures == 4 ==> backoff_delay(failures) == 480_000,
        failures >= 5 ==> backoff_delay(failures) == 900_000,
        1 <= failures <= 4 ==> backoff_delay(failures + 1) == if 2 * backoff_delay(failures)
            < 900_000 {
            2 * backoff_delay(failures)
        } else {
            900_000
        },
{
    reveal_with_fuel(backoff_delay, 7);
    law_backoff_grows_to_cap(failures);
}

/// The pause after a series of failures at these times.
pub open spec fn after_failures(b: AutoRecoveryBackoff, times: Seq<u64>) -> AutoRecoveryBackoff
    decreases times.len(),
{
    if times.len() == 0 {
        b
    } else {
        after_failure(after_failures(b, times.drop_last()), times.last())
    }
}

/// After a series of failures from a fresh start, the next attempt waits for
/// the pause that belongs to their number, counted from the last of them; and
/// how long it still has to wait is what is left of that.
pub proof fn law_pause_counts_the_failures(times: Seq<u64>, now: u64)
    requires
        0 < times.len() <= u32::MAX,
        times.last() + 900_000 <= u64::MAX,
    ensures
        ({
            let b = after_failures(fresh_backoff(), times);
            let end = times.last() + backoff_delay(times.len());
            &&& b.consecutive_failures == times.len()
            &&& ready(b, now) == (now >= end)
            &&& now < end ==> retry_in(b, now) == end - now
            &&& now >= end ==> retry_in(b, now) == 0
        }),
{
    lemma_failures_counted(times.drop_last());
    law_backoff_grows_to_cap(times.len());
}

proof fn lemma_failures_counted(times: Seq<u64>)
    requires
        times.len() <= u32::MAX,
    ensures
        after_failures(fresh_backoff(), times).consecutive_failures == times.len(),
    decreases times.len(),
{
    if times.len() > 0 {
        lemma_failures_counted(times.drop_last());
    }
}

} // verus!
