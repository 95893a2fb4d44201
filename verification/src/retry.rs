//! Retrying a request: which outcomes of an attempt are worth another
//! attempt, how many are made, and how long to wait before each.

use vstd::prelude::*;

verus! {

/// The number of retries of a request, unless the configuration says
/// otherwise.
pub const DEFAULT_RETRIES: u32 = 3;

/// The wait before the first retry, in milliseconds, unless the
/// configuration says otherwise.
pub const DEFAULT_BASE_DELAY_MS: u64 = 250;

/// How one attempt at a request ended.
#[derive(Clone, Copy, Debug, PartialEq, Eq, Structural)]
pub enum Attempt {
    /// An answer came, with this status.
    Answered(u16),
    /// No connection could be made, or it broke.
    ConnectionFailed,
    /// No answer came in time.
    TimedOut,
    /// What came is no answer at all.
    Malformed,
}

/// What to do after an attempt.
#[derive(Clone, Copy, Debug, PartialEq, Eq, Structural)]
pub enum Decision {
    /// Take the attempt's outcome as the outcome of the request.
    Stop,
    /// Wait this many milliseconds, then try again.
    RetryAfter(u64),
}

/// Whether another attempt may end otherwise: the connection failed, the
/// answer did not come in time, the server failed, or it asked to slow down.
pub open spec fn is_transient(attempt: Attempt) -> bool {
    match attempt {
        Attempt::Answered(status) => status == 429 || (500 <= status && status <= 599),
        Attempt::ConnectionFailed => true,
        Attempt::TimedOut => true,
        Attempt::Malformed => false,
    }
}

/// Two to the power of `n`.
pub open spec fn pow2(n: nat) -> nat
    decreases n,
{
    if n == 0 {
        1
    } else {
        2 * pow2((n - 1) as nat)
    }
}

/// The wait before retry number `retry`, counted from zero: the base delay
/// doubled once for every retry before it, and no more than fits.
pub open spec fn backoff(base: u64, retry: nat) -> int {
    if base * pow2(retry) <= u64::MAX {
        base * pow2(retry)
    } else {
        u64::MAX as int
    }
}

/// How a request is retried.
#[derive(Clone, Copy, Debug, PartialEq, Eq, Structural)]
pub struct RetryPolicy {
    /// The most retries of one request.
    pub max_retries: u32,
    /// The wait before the first retry, in milliseconds.
    pub base_delay_ms: u64,
}

/// The retries of one request so far.
#[derive(Clone, Copy, Debug, PartialEq, Eq, Structural)]
pub struct Retry {
    pub policy: RetryPolicy,
    /// The number of retries that were decided on.
    pub made: u32,
}

/// What follows an attempt after `made` retries.
pub open spec fn decision_after(policy: RetryPolicy, made: nat, attempt: Attempt) -> Decision {
    if is_transient(attempt) && made < policy.max_retries {
        Decision::RetryAfter(backoff(policy.base_delay_ms, made) as u64)
    } else {
        Decision::Stop
    }
}

/// The number of attempts that are made when the attempts, as long as they
/// are made, end as `outcomes` says from `from` on, after `made` retries.
/// Where `outcomes` ends before the request does, the attempts it covers
/// are counted.
pub open spec fn attempts_made(policy: RetryPolicy, outcomes: Seq<Attempt>, made: nat) -> nat
    decreases outcomes.len(),
{
    if outcomes.len() == 0 {
        0
    } else if decision_after(policy, made, outcomes[0]) is Stop {
        1
    } else {
        1 + attempts_made(policy, outcomes.skip(1), made + 1)
    }
}

/// The outcome of a request whose attempts end as `outcomes` says: that of
/// the last attempt made, if `outcomes` covers it.
pub open spec fn request_outcome(policy: RetryPolicy, outcomes: Seq<Attempt>) -> Option<Attempt> {
    let n = attempts_made(policy, outcomes, 0);
    if n > 0 && decision_after(policy, (n - 1) as nat, outcomes[n - 1]) is Stop {
        Some(outcomes[n - 1])
    } else {
        None
    }
}

impl RetryPolicy {
    /// Three retries, the first after a quarter of a second.
    pub fn standard() -> (policy: RetryPolicy)
        ensures
            policy == (RetryPolicy { max_retries: DEFAULT_RETRIES, base_delay_ms: DEFAULT_BASE_DELAY_MS }),
    {
        RetryPolicy { max_retries: DEFAULT_RETRIES, base_delay_ms: DEFAULT_BASE_DELAY_MS }
    }

    /// The wait before retry number `retry`, counted from zero.
    pub fn delay_before(&self, retry: u32) -> (delay: u64)
        ensures
            delay == backoff(self.base_delay_ms, retry as nat),
    {
        let mut delay: u64 = self.base_delay_ms;
        let mut i: u32 = 0;
        assert(pow2(0) == 1);
        assert(self.base_delay_ms * pow2(0) == self.base_delay_ms);
        while i < retry
            invariant
                i <= retry,
                delay == backoff(self.base_delay_ms, i as nat),
            decreases retry - i,
        {
            proof {
                let base = self.base_delay_ms as int;
                let before = pow2(i as nat) as int;
                assert(pow2((i + 1) as nat) == 2 * pow2(i as nat));
                assert(base * (2 * before) == 2 * (base * before)) by (nonlinear_arith);
                assert(0 <= base * before) by (nonlinear_arith)
                    requires
                        0 <= base,
                        0 <= before,
                ;
            }
            delay = if delay > u64::MAX / 2 {
                u64::MAX
            } else {
                delay * 2
            };
            i += 1;
        }
        delay
    }

    /// The retries of a request of which nothing was tried yet.
    pub fn start(&self) -> (retry: Retry)
        ensures
            retry == (Retry { policy: *self, made: 0 }),
    {
        Retry { policy: *self, made: 0 }
    }
}

/// Whether another attempt may end otherwise than `attempt` did.
pub fn transient(attempt: Attempt) -> (worth: bool)
    ensures
        worth == is_transient(attempt),
{
    match attempt {
        Attempt::Answered(status) => status == 429 || (500 <= status && status <= 599),
        Attempt::ConnectionFailed => true,
        Attempt::TimedOut => true,
        Attempt::Malformed => false,
    }
}

impl Retry {
    /// Takes the outcome of an attempt and says whether to stop or to try
    /// again, and after which wait. A transient outcome is retried until the
    /// policy's retries are used up; any other outcome stops at once.
    pub fn after(self, attempt: Attempt) -> (next: (Retry, Decision))
        ensures
            next.1 == decision_after(self.policy, self.made as nat, attempt),
            next.0.policy == self.policy,
            next.0.made == if next.1 is Stop {
                self.made as int
            } else {
                self.made + 1
            },
    {
        if transient(attempt) && self.made < self.policy.max_retries {
            let delay = self.policy.delay_before(self.made);
            (Retry { policy: self.policy, made: self.made + 1 }, Decision::RetryAfter(delay))
        } else {
            (self, Decision::Stop)
        }
    }
}

/// The waits never get shorter from one retry to the next.
pub proof fn law_waits_never_shrink(base: u64, earlier: nat, later: nat)
    requires
        earlier <= later,
    ensures
        backoff(base, earlier) <= backoff(base, later),
    decreases later - earlier,
{
    if earlier < later {
        law_waits_never_shrink(base, earlier, (later - 1) as nat);
        let b = base as int;
        let p = pow2((later - 1) as nat) as int;
        assert(pow2(later) == 2 * pow2((later - 1) as nat));
        assert(b * (2 * p) == 2 * (b * p)) by (nonlinear_arith);
        assert(0 <= b * p) by (nonlinear_arith)
            requires
                0 <= b,
                0 <= p,
        ;
    }
}

/// A request is attempted once more than it is retried, at most, and as
/// long as attempts remain, an attempt that is not the last one made ended
/// transiently.
pub proof fn law_attempts_are_bounded(policy: RetryPolicy, outcomes: Seq<Attempt>, made: nat)
    requires
        made <= policy.max_retries,
    ensures
        attempts_made(policy, outcomes, made) <= policy.max_retries - made + 1,
        attempts_made(policy, outcomes, made) <= outcomes.len(),
        forall|i: int|
            0 <= i < attempts_made(policy, outcomes, made) - 1 ==> is_transient(#[trigger] outcomes[i]),
    decreases outcomes.len(),
{
    if outcomes.len() > 0 && !(decision_after(policy, made, outcomes[0]) is Stop) {
        let rest = outcomes.skip(1);
        law_attempts_are_bounded(policy, rest, made + 1);
        assert forall|i: int| 0 <= i < attempts_made(policy, outcomes, made) - 1 implies is_transient(
            #[trigger] outcomes[i],
        ) by {
            if i > 0 {
                assert(rest[i - 1] == outcomes[i]);
            }
        }
    }
}

/// A request whose first attempts all end transiently and whose attempt
/// number `k`, counted from zero, does not, ends with that attempt's outcome,
/// provided `k` retries are allowed.
pub proof fn law_transient_failures_are_retried(policy: RetryPolicy, outcomes: Seq<Attempt>, k: int)
    requires
        0 <= k < outcomes.len(),
        k <= policy.max_retries,
        forall|i: int| 0 <= i < k ==> is_transient(#[trigger] outcomes[i]),
        !is_transient(outcomes[k]),
    ensures
        request_outcome(policy, outcomes) == Some(outcomes[k]),
{
    lemma_attempts_count(policy, outcomes, 0, k);
}

/// A request whose attempts all end transiently is given up after one
/// attempt more than retries are allowed, with the outcome of that attempt.
pub proof fn law_gives_up_when_retries_are_used_up(policy: RetryPolicy, outcomes: Seq<Attempt>)
    requires
        outcomes.len() > policy.max_retries,
        forall|i: int| 0 <= i <= policy.max_retries ==> is_transient(#[trigger] outcomes[i]),
    ensures
        request_outcome(policy, outcomes) == Some(outcomes[policy.max_retries as int]),
        attempts_made(policy, outcomes, 0) == policy.max_retries + 1,
{
    lemma_attempts_count(policy, outcomes, 0, policy.max_retries as int);
}

/// Counts the attempts up to the first one that stops the request.
proof fn lemma_attempts_count(policy: RetryPolicy, outcomes: Seq<Attempt>, made: nat, k: int)
    requires
        0 <= k < outcomes.len(),
        made + k <= policy.max_retries,
        forall|i: int| 0 <= i < k ==> is_transient(#[trigger] outcomes[i]),
        !is_transient(outcomes[k]) || made + k == policy.max_retries,
    ensures
        attempts_made(policy, outcomes, made) == k + 1,
        decision_after(policy, (made + k) as nat, outcomes[k]) is Stop,
    decreases k,
{
    if k > 0 {
        let rest = outcomes.skip(1);
        assert(is_transient(outcomes[0]));
        assert forall|i: int| 0 <= i < k - 1 implies is_transient(#[trigger] rest[i]) by {
            assert(rest[i] == outcomes[i + 1]);
        }
        assert(rest[k - 1] == outcomes[k]);
        lemma_attempts_count(policy, rest, made + 1, k - 1);
    }
}

} // verus!
