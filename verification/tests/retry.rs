use update_check::retry::{transient, Attempt, Decision, Retry, RetryPolicy};

/// Makes a request whose attempts end as `outcomes` says, and gives the
/// outcome it ends with, the number of attempts, and the waits between them.
fn request(policy: RetryPolicy, outcomes: &[Attempt]) -> (Attempt, usize, Vec<u64>) {
    let mut retry: Retry = policy.start();
    let mut waits = Vec::new();
    for (made, outcome) in outcomes.iter().enumerate() {
        let (next, decision) = retry.after(*outcome);
        retry = next;
        match decision {
            Decision::Stop => return (*outcome, made + 1, waits),
            Decision::RetryAfter(wait) => waits.push(wait),
        }
    }
    panic!("the request wants more attempts than {}", outcomes.len());
}

#[test]
fn standard_policy_retries_three_times() {
    let policy = RetryPolicy::standard();
    assert_eq!(policy.max_retries, 3);
    assert_eq!(policy.base_delay_ms, 250);
}

#[test]
fn two_failures_then_success_succeeds() {
    let outcomes = [Attempt::Answered(503), Attempt::TimedOut, Attempt::Answered(200)];
    let (last, attempts, waits) = request(RetryPolicy::standard(), &outcomes);
    assert_eq!(last, Attempt::Answered(200));
    assert_eq!(attempts, 3);
    assert_eq!(waits, vec![250, 500]);
}

#[test]
fn three_failures_then_success_succeeds() {
    let outcomes = [
        Attempt::ConnectionFailed,
        Attempt::Answered(429),
        Attempt::Answered(500),
        Attempt::Answered(204),
    ];
    let (last, attempts, waits) = request(RetryPolicy::standard(), &outcomes);
    assert_eq!(last, Attempt::Answered(204));
    assert_eq!(attempts, 4);
    assert_eq!(waits, vec![250, 500, 1000]);
}

#[test]
fn four_failures_are_reported() {
    let outcomes = [
        Attempt::Answered(503),
        Attempt::Answered(503),
        Attempt::Answered(503),
        Attempt::Answered(502),
        Attempt::Answered(200),
    ];
    let (last, attempts, waits) = request(RetryPolicy::standard(), &outcomes);
    assert_eq!(last, Attempt::Answered(502));
    assert_eq!(attempts, 4);
    assert_eq!(waits, vec![250, 500, 1000]);
    assert!(waits.windows(2).all(|pair| pair[0] <= pair[1]));
}

#[test]
fn a_failure_that_will_not_pass_is_not_retried() {
    for outcome in [Attempt::Answered(404), Attempt::Answered(401), Attempt::Malformed] {
        let (last, attempts, waits) = request(RetryPolicy::standard(), &[outcome, Attempt::Answered(200)]);
        assert_eq!(last, outcome);
        assert_eq!(attempts, 1);
        assert!(waits.is_empty());
    }
}

#[test]
fn which_outcomes_are_transient() {
    assert!(transient(Attempt::ConnectionFailed));
    assert!(transient(Attempt::TimedOut));
    assert!(transient(Attempt::Answered(429)));
    assert!(transient(Attempt::Answered(500)));
    assert!(transient(Attempt::Answered(599)));
    assert!(!transient(Attempt::Answered(600)));
    assert!(!transient(Attempt::Answered(499)));
    assert!(!transient(Attempt::Answered(200)));
    assert!(!transient(Attempt::Answered(400)));
    assert!(!transient(Attempt::Malformed));
}

#[test]
fn waits_double_and_never_shrink() {
    let policy = RetryPolicy { max_retries: 70, base_delay_ms: 3 };
    assert_eq!(policy.delay_before(0), 3);
    assert_eq!(policy.delay_before(1), 6);
    assert_eq!(policy.delay_before(2), 12);
    assert_eq!(policy.delay_before(10), 3072);
    let mut last = 0;
    for retry in 0..70 {
        let wait = policy.delay_before(retry);
        assert!(wait >= last);
        last = wait;
    }
}

#[test]
fn waits_stop_at_the_largest_number() {
    let policy = RetryPolicy { max_retries: 100, base_delay_ms: 1 };
    assert_eq!(policy.delay_before(63), 1u64 << 63);
    assert_eq!(policy.delay_before(64), u64::MAX);
    assert_eq!(policy.delay_before(99), u64::MAX);
    let policy = RetryPolicy { max_retries: 100, base_delay_ms: u64::MAX };
    assert_eq!(policy.delay_before(0), u64::MAX);
    assert_eq!(policy.delay_before(1), u64::MAX);
}

#[test]
fn no_wait_without_a_base_delay() {
    let policy = RetryPolicy { max_retries: 3, base_delay_ms: 0 };
    assert_eq!(policy.delay_before(0), 0);
    assert_eq!(policy.delay_before(3), 0);
}

#[test]
fn a_policy_without_retries_stops_at_once() {
    let policy = RetryPolicy { max_retries: 0, base_delay_ms: 250 };
    let (last, attempts, waits) = request(policy, &[Attempt::TimedOut]);
    assert_eq!(last, Attempt::TimedOut);
    assert_eq!(attempts, 1);
    assert!(waits.is_empty());
}

#[test]
fn retries_are_counted() {
    let retry = RetryPolicy::standard().start();
    assert_eq!(retry.made, 0);
    let (retry, decision) = retry.after(Attempt::TimedOut);
    assert_eq!(decision, Decision::RetryAfter(250));
    assert_eq!(retry.made, 1);
    let (retry, decision) = retry.after(Attempt::Answered(200));
    assert_eq!(decision, Decision::Stop);
    assert_eq!(retry.made, 1);
}
