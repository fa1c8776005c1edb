use lambda_router::bridge::BridgeError;
use lambda_router::engine::EngineHandle;
use lambda_router::retry::{Ending, Invocation, RetryPolicy, Step, SubmitOutcome};

/// Drives an invocation against a scripted engine; returns the final state,
/// the number of submissions made and the total delay asked for.
fn drive(handle: &EngineHandle, policy: RetryPolicy, malformed: bool, script: impl Fn(u32) -> SubmitOutcome) -> (Invocation, u32, u64) {
    let (mut inv, mut step) = handle.begin_invocation(policy, malformed);
    let mut submissions: u32 = 0;
    let mut delay: u64 = 0;
    while let Step::Submit { delay: d } = step {
        delay += d;
        let outcome = script(submissions);
        submissions += 1;
        step = inv.advance(outcome);
    }
    (inv, submissions, delay)
}

fn subprocess() -> EngineHandle {
    EngineHandle::subprocess("http://127.0.0.1:4000/".to_string())
}

#[test]
fn recovers_after_k_unavailable() {
    for k in [0u32, 1, 7, 499] {
        let (inv, n, waited) = drive(&subprocess(), RetryPolicy::standard(), false, |i| {
            if i < k { SubmitOutcome::Unavailable } else { SubmitOutcome::Replied }
        });
        assert_eq!(inv.ending, Ending::Replied);
        assert_eq!(n, k + 1);
        assert_eq!(inv.attempts, k + 1);
        assert_eq!(waited, 10 * k as u64);
        assert_eq!(inv.waited, 10 * k as u64);
        assert_eq!(inv.failure(), None);
    }
}

#[test]
fn gives_up_after_exactly_the_budget() {
    let (inv, n, waited) = drive(&subprocess(), RetryPolicy::standard(), false, |_| SubmitOutcome::Unavailable);
    assert_eq!(n, 500);
    assert_eq!(inv.attempts, 500);
    assert_eq!(waited, 4990);
    assert_eq!(inv.failure(), Some(BridgeError::EngineUnavailable));
}

#[test]
fn finished_invocation_ignores_further_outcomes() {
    let (mut inv, _, _) = drive(&subprocess(), RetryPolicy::standard(), false, |_| SubmitOutcome::Unavailable);
    assert_eq!(inv.advance(SubmitOutcome::Unavailable), Step::Finish);
    assert_eq!(inv.attempts, 500);
    assert_eq!(inv.ending, Ending::Unavailable);
}

#[test]
fn other_failures_are_not_retried() {
    let (inv, n, _) = drive(&subprocess(), RetryPolicy::standard(), false, |_| SubmitOutcome::Failed);
    assert_eq!(n, 1);
    assert_eq!(inv.failure(), Some(BridgeError::EngineError));
}

#[test]
fn malformed_payload_is_never_submitted() {
    let (inv, n, _) = drive(&subprocess(), RetryPolicy::standard(), true, |_| panic!("submitted"));
    assert_eq!(n, 0);
    assert_eq!(inv.attempts, 0);
    assert_eq!(inv.failure(), Some(BridgeError::MalformedPayload));
}

#[test]
fn in_process_engine_is_not_retried() {
    let mut h = EngineHandle::in_process();
    assert!(!h.accepts_submissions());
    h.mark_ready();
    assert_eq!(h, EngineHandle::InProcess { ready: true });
    assert!(h.accepts_submissions());
    let (inv, n, _) = drive(&h, RetryPolicy::standard(), false, |_| SubmitOutcome::Unavailable);
    assert_eq!(n, 1);
    assert_eq!(inv.failure(), Some(BridgeError::EngineUnavailable));
}

#[test]
fn subprocess_handle_is_always_probed() {
    let mut h = subprocess();
    assert!(h.retries_unavailable());
    assert!(h.accepts_submissions());
    h.mark_ready();
    assert_eq!(h, subprocess());
}

#[test]
fn custom_policy_budget() {
    let p = RetryPolicy::new(3, 25).unwrap();
    let (inv, n, waited) = drive(&subprocess(), p, false, |_| SubmitOutcome::Unavailable);
    assert_eq!((n, waited), (3, 50));
    assert_eq!(inv.ending, Ending::Unavailable);
}

#[test]
fn policy_bounds() {
    assert_eq!(RetryPolicy::new(0, 10), None);
    assert_eq!(RetryPolicy::new(2, u64::MAX), None);
    assert_eq!(RetryPolicy::new(1, u64::MAX), Some(RetryPolicy { max_attempts: 1, interval: u64::MAX }));
    let s = RetryPolicy::standard();
    assert_eq!((s.max_attempts, s.interval), (500, 10));
}
