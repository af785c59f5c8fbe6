//! Bounded-attempt retry with a fixed delay between attempts.
//!
//! Every fallible remote operation is wrapped in the same discipline: try up
//! to `max_attempts` times, sleeping `delay_secs` between attempts, returning
//! the first success or giving up after the last failure. The decision after
//! each failure is [`RetryPolicy::on_failure`]; the whole run over a known
//! sequence of attempt outcomes is [`run_retry`], whose result is pinned by
//! the spec-level [`spec_retry_from`].

use vstd::prelude::*;

verus! {

/// How often to try and how long to sleep between tries. No backoff, no
/// jitter: the delay is fixed by design.
#[derive(Clone, Copy, PartialEq, Eq, Structural, Debug)]
pub struct RetryPolicy {
    /// Total number of attempts, counting the first one. At least 1.
    pub max_attempts: u32,
    /// Seconds slept between two attempts.
    pub delay_secs: u64,
}

impl RetryPolicy {
    /// At least one attempt, and a delay small enough that the total sleep of
    /// a full run fits in a `u64`.
    pub open spec fn wf(&self) -> bool {
        &&& 1 <= self.max_attempts
        &&& self.delay_secs <= 0xffff_ffff
    }
}

/// What to do after one more failed attempt.
#[derive(Clone, Copy, PartialEq, Eq, Structural, Debug)]
pub enum RetryStep {
    /// Sleep this long, then try again.
    Retry { sleep_secs: u64 },
    /// The policy is exhausted after this many attempts; surface the failure.
    GiveUp { attempts: u32 },
}

/// Outcome of a whole retry run.
pub enum RetryResult<T> {
    /// Some attempt succeeded: its value, how many attempts failed before it,
    /// and the total time slept (all of it before the success).
    Succeeded { value: T, failures: u32, slept_secs: u64 },
    /// Every attempt failed.
    Exhausted { attempts: u32, slept_secs: u64 },
}

impl RetryPolicy {
    /// Decides the step after a failure: retry (after the fixed delay) unless
    /// this failure was the last allowed attempt.
    pub fn on_failure(&self, failures: u32) -> (r: RetryStep)
        requires
            self.wf(),
            failures < self.max_attempts,
        ensures
            r == if failures + 1 == self.max_attempts {
                RetryStep::GiveUp { attempts: self.max_attempts }
            } else {
                RetryStep::Retry { sleep_secs: self.delay_secs }
            },
    {
        if failures + 1 == self.max_attempts {
            RetryStep::GiveUp { attempts: self.max_attempts }
        } else {
            RetryStep::Retry { sleep_secs: self.delay_secs }
        }
    }
}

/// The retry run, starting with `failures` attempts already failed, over a
/// script that gives each attempt's outcome: `outcomes[k]` is `Some(value)`
/// when attempt `k` (counting from 0) would succeed with `value`.
pub open spec fn spec_retry_from<T>(
    policy: RetryPolicy,
    outcomes: Seq<Option<T>>,
    failures: int,
) -> RetryResult<T>
    recommends
        policy.wf(),
        outcomes.len() >= policy.max_attempts,
        0 <= failures < policy.max_attempts,
    decreases policy.max_attempts - failures,
{
    if failures < 0 || failures >= policy.max_attempts {
        RetryResult::Exhausted { attempts: policy.max_attempts, slept_secs: 0 }
    } else {
        match outcomes[failures] {
            Some(value) => RetryResult::Succeeded {
                value,
                failures: failures as u32,
                slept_secs: (failures * policy.delay_secs) as u64,
            },
            None => {
                if failures + 1 == policy.max_attempts {
                    RetryResult::Exhausted {
                        attempts: policy.max_attempts,
                        slept_secs: ((policy.max_attempts - 1) * policy.delay_secs) as u64,
                    }
                } else {
                    spec_retry_from(policy, outcomes, failures + 1)
                }
            },
        }
    }
}

/// Multiplies two values that both fit in 32 bits, so the product fits in 64.
fn mul_u32_bounded(a: u64, b: u64) -> (r: u64)
    requires
        a <= 0xffff_ffff,
        b <= 0xffff_ffff,
    ensures
        r == a * b,
{
    proof {
        assert(a * b <= 0xffff_ffff * 0xffff_ffff) by (nonlinear_arith)
            requires
                a <= 0xffff_ffff,
                b <= 0xffff_ffff,
        ;
    }
    a * b
}

/// Runs the policy over a script of attempt outcomes and reports what
/// happened: the first success, with the count of failures before it and the
/// total sleep, or exhaustion after every attempt failed.
pub fn run_retry<T: Copy>(policy: &RetryPolicy, outcomes: &Vec<Option<T>>) -> (r: RetryResult<T>)
    requires
        policy.wf(),
        outcomes.len() >= policy.max_attempts,
    ensures
        r == spec_retry_from(*policy, outcomes@, 0),
{
    let mut failures: u32 = 0;
    loop
        invariant
            policy.wf(),
            outcomes.len() >= policy.max_attempts,
            0 <= failures < policy.max_attempts,
            spec_retry_from(*policy, outcomes@, 0) == spec_retry_from(
                *policy,
                outcomes@,
                failures as int,
            ),
        decreases policy.max_attempts - failures,
    {
        match outcomes[failures as usize] {
            Some(value) => {
                let slept_secs: u64 = mul_u32_bounded(failures as u64, policy.delay_secs);
                return RetryResult::Succeeded { value, failures, slept_secs };
            },
            None => {
                match policy.on_failure(failures) {
                    RetryStep::GiveUp { attempts } => {
                        let slept_secs: u64 = mul_u32_bounded(
                            (attempts - 1) as u64,
                            policy.delay_secs,
                        );
                        return RetryResult::Exhausted { attempts, slept_secs };
                    },
                    RetryStep::Retry { .. } => {
                        failures = failures + 1;
                    },
                }
            },
        }
    }
}

/// Law: an operation failing on every attempt exhausts the policy after
/// exactly `max_attempts` attempts, having slept `(max_attempts - 1)` times
/// the fixed delay.
pub proof fn lemma_retry_exhaustion<T>(policy: RetryPolicy, outcomes: Seq<Option<T>>)
    requires
        policy.wf(),
        outcomes.len() >= policy.max_attempts,
        forall|k: int| 0 <= k < policy.max_attempts ==> (outcomes[k] is None),
    ensures
        spec_retry_from(policy, outcomes, 0) == (RetryResult::<T>::Exhausted {
            attempts: policy.max_attempts,
            slept_secs: ((policy.max_attempts - 1) * policy.delay_secs) as u64,
        }),
{
    lemma_retry_exhaustion_from(policy, outcomes, 0);
}

proof fn lemma_retry_exhaustion_from<T>(
    policy: RetryPolicy,
    outcomes: Seq<Option<T>>,
    failures: int,
)
    requires
        policy.wf(),
        outcomes.len() >= policy.max_attempts,
        0 <= failures < policy.max_attempts,
        forall|k: int| 0 <= k < policy.max_attempts ==> (outcomes[k] is None),
    ensures
        spec_retry_from(policy, outcomes, failures) == (RetryResult::<T>::Exhausted {
            attempts: policy.max_attempts,
            slept_secs: ((policy.max_attempts - 1) * policy.delay_secs) as u64,
        }),
    decreases policy.max_attempts - failures,
{
    if failures + 1 < policy.max_attempts {
        lemma_retry_exhaustion_from(policy, outcomes, failures + 1);
    }
}

/// Law: an operation failing `k` times and then succeeding returns the
/// success value after exactly `k` retries, having slept `k` times the fixed
/// delay.
pub proof fn lemma_retry_success<T>(policy: RetryPolicy, outcomes: Seq<Option<T>>, k: int)
    requires
        policy.wf(),
        outcomes.len() >= policy.max_attempts,
        0 <= k < policy.max_attempts,
        (outcomes[k] is Some),
        forall|j: int| 0 <= j < k ==> (outcomes[j] is None),
    ensures
        spec_retry_from(policy, outcomes, 0) == (RetryResult::Succeeded {
            value: outcomes[k]->Some_0,
            failures: k as u32,
            slept_secs: (k * policy.delay_secs) as u64,
        }),
{
    lemma_retry_success_from(policy, outcomes, k, 0);
}

proof fn lemma_retry_success_from<T>(
    policy: RetryPolicy,
    outcomes: Seq<Option<T>>,
    k: int,
    failures: int,
)
    requires
        policy.wf(),
        outcomes.len() >= policy.max_attempts,
        0 <= failures <= k < policy.max_attempts,
        (outcomes[k] is Some),
        forall|j: int| 0 <= j < k ==> (outcomes[j] is None),
    ensures
        spec_retry_from(policy, outcomes, failures) == (RetryResult::Succeeded {
            value: outcomes[k]->Some_0,
            failures: k as u32,
            slept_secs: (k * policy.delay_secs) as u64,
        }),
    decreases policy.max_attempts - failures,
{
    if failures < k {
        lemma_retry_success_from(policy, outcomes, k, failures + 1);
    }
}

} // verus!
