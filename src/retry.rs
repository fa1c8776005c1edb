//! The decisions of one invocation: after each submission to the engine,
//! submit again after a wait, or finish. The caller submits and waits.
use vstd::prelude::*;

verus! {

/// How often, and how far apart, submissions to an engine that cannot be
/// reached yet are retried.
#[derive(Clone, Copy, Debug, PartialEq, Eq, Structural)]
pub struct RetryPolicy {
    /// Submissions in all, the first one included.
    pub max_attempts: u32,
    /// Time units to wait before each retry.
    pub interval: u64,
}

impl RetryPolicy {
    /// At least one attempt, and the longest total wait fits in a `u64`.
    pub open spec fn wf(self) -> bool {
        &&& self.max_attempts >= 1
        &&& self.max_attempts as int * self.interval as int <= u64::MAX
    }

    /// Five hundred attempts, ten time units apart.
    pub fn standard() -> (r: RetryPolicy)
        ensures
            r.max_attempts == 500,
            r.interval == 10,
            r.wf(),
    {
        RetryPolicy { max_attempts: 500, interval: 10 }
    }

    /// A policy with the given budget, if it is well formed.
    pub fn new(max_attempts: u32, interval: u64) -> (r: Option<RetryPolicy>)
        ensures
            r is Some <==> (max_attempts >= 1 && max_attempts as int * interval as int
                <= u64::MAX),
            r is Some ==> r->0.max_attempts == max_attempts && r->0.interval == interval,
    {
        if max_attempts == 0 {
            return None;
        }
        if interval > u64::MAX / (max_attempts as u64) {
            proof {
                let m = max_attempts as int;
                let q = u64::MAX as int / m;
                assert(interval as int >= q + 1);
                assert(m * (interval as int) >= m * (q + 1)) by (nonlinear_arith)
                    requires
                        interval as int >= q + 1,
                        m >= 1,
                ;
                assert(m * (q + 1) > u64::MAX) by (nonlinear_arith)
                    requires
                        q == u64::MAX as int / m,
                        m >= 1,
                ;
            }
            return None;
        }
        proof {
            let m = max_attempts as int;
            let q = u64::MAX as int / m;
            assert(m * (interval as int) <= m * q) by (nonlinear_arith)
                requires
                    interval as int <= q,
                    m >= 1,
            ;
            assert(m * q <= u64::MAX) by (nonlinear_arith)
                requires
                    q == u64::MAX as int / m,
                    m >= 1,
            ;
        }
        Some(RetryPolicy { max_attempts, interval })
    }
}

/// What one submission to the engine came to.
#[derive(Clone, Copy, Debug, PartialEq, Eq, Structural)]
pub enum SubmitOutcome {
    /// The engine replied.
    Replied,
    /// The engine could not be reached yet.
    Unavailable,
    /// The engine failed otherwise.
    Failed,
}

/// How an invocation stands.
#[derive(Clone, Copy, Debug, PartialEq, Eq, Structural)]
pub enum Ending {
    /// A submission is owed.
    Pending,
    /// The engine replied; its reply is to be shaped.
    Replied,
    /// The engine could not be reached within the attempt budget.
    Unavailable,
    /// The engine failed otherwise.
    Failed,
    /// The payload was malformed, and nothing was submitted.
    Malformed,
}

/// What the caller is to do next.
#[derive(Clone, Copy, Debug, PartialEq, Eq, Structural)]
pub enum Step {
    /// Wait `delay` time units, then submit the request.
    Submit { delay: u64 },
    /// Stop: the invocation has its ending.
    Finish,
}

/// The state of one invocation.
#[derive(Clone, Copy, Debug, PartialEq, Eq, Structural)]
pub struct Invocation {
    pub policy: RetryPolicy,
    /// Whether an unreachable engine is retried: so for a subprocess engine only.
    pub retry_unavailable: bool,
    /// Submissions asked for so far.
    pub attempts: u32,
    /// Time units of waiting asked for so far.
    pub waited: u64,
    pub ending: Ending,
}

impl Invocation {
    /// The counters agree with the policy: every submission but the first came
    /// after one interval of waiting.
    pub open spec fn wf(self) -> bool {
        &&& self.policy.wf()
        &&& self.attempts <= self.policy.max_attempts
        &&& self.ending == Ending::Malformed ==> self.attempts == 0 && self.waited == 0
        &&& self.ending != Ending::Malformed ==> self.attempts >= 1 && self.waited as int == (
        self.attempts - 1) as int * self.policy.interval as int
    }
}

/// The invocation as it starts: nothing submitted when the payload was
/// malformed, else the first submission owed.
pub open spec fn started(policy: RetryPolicy, retry_unavailable: bool, malformed: bool) -> Invocation {
    Invocation {
        policy,
        retry_unavailable,
        attempts: if malformed {
            0
        } else {
            1
        },
        waited: 0,
        ending: if malformed {
            Ending::Malformed
        } else {
            Ending::Pending
        },
    }
}

/// The invocation after a submission came to `o`. A finished invocation does
/// not change. An unreachable engine is retried while the policy allows it and
/// the invocation retries; every other outcome finishes it.
pub open spec fn advanced(inv: Invocation, o: SubmitOutcome) -> Invocation {
    if inv.ending != Ending::Pending {
        inv
    } else {
        match o {
            SubmitOutcome::Replied => Invocation { ending: Ending::Replied, ..inv },
            SubmitOutcome::Failed => Invocation { ending: Ending::Failed, ..inv },
            SubmitOutcome::Unavailable => if inv.retry_unavailable && inv.attempts
                < inv.policy.max_attempts {
                Invocation {
                    attempts: (inv.attempts + 1) as u32,
                    waited: (inv.waited + inv.policy.interval) as u64,
                    ..inv
                }
            } else {
                Invocation { ending: Ending::Unavailable, ..inv }
            },
        }
    }
}

/// The step that an invocation asks for: a submission after one interval while
/// it is pending, else none.
pub open spec fn next_step(inv: Invocation) -> Step {
    if inv.ending == Ending::Pending {
        Step::Submit { delay: inv.policy.interval }
    } else {
        Step::Finish
    }
}

/// The invocation after the submissions came to `outcomes`, in order.
pub open spec fn driven(inv: Invocation, outcomes: Seq<SubmitOutcome>) -> Invocation
    decreases outcomes.len(),
{
    if outcomes.len() == 0 {
        inv
    } else {
        driven(advanced(inv, outcomes[0]), outcomes.skip(1))
    }
}

/// `n` submissions that found the engine unreachable.
pub open spec fn unavailable_run(n: nat) -> Seq<SubmitOutcome> {
    Seq::new(n, |i: int| SubmitOutcome::Unavailable)
}

impl Invocation {
    /// Starts an invocation for a decoded (or malformed) payload. A malformed
    /// payload finishes it at once, with no submission.
    pub fn begin(policy: RetryPolicy, retry_unavailable: bool, malformed: bool) -> (r: (
        Invocation,
        Step,
    ))
        requires
            policy.wf(),
        ensures
            r.0 == started(policy, retry_unavailable, malformed),
            r.0.wf(),
            r.1 == if malformed {
                Step::Finish
            } else {
                Step::Submit { delay: 0 }
            },
    {
        if malformed {
            (
                Invocation {
                    policy,
                    retry_unavailable,
                    attempts: 0,
                    waited: 0,
                    ending: Ending::Malformed,
                },
                Step::Finish,
            )
        } else {
            (
                Invocation { policy, retry_unavailable, attempts: 1, waited: 0, ending: Ending::Pending },
                Step::Submit { delay: 0 },
            )
        }
    }

    /// Takes in what the last submission came to and says what to do next.
    pub fn advance(&mut self, o: SubmitOutcome) -> (s: Step)
        requires
            old(self).wf(),
        ensures
            *final(self) == advanced(*old(self), o),
            final(self).wf(),
            s == next_step(*final(self)),
    {
        if self.ending != Ending::Pending {
            return Step::Finish;
        }
        match o {
            SubmitOutcome::Replied => {
                self.ending = Ending::Replied;
                Step::Finish
            },
            SubmitOutcome::Failed => {
                self.ending = Ending::Failed;
                Step::Finish
            },
            SubmitOutcome::Unavailable => {
                if self.retry_unavailable && self.attempts < self.policy.max_attempts {
                    proof {
                        let a = self.attempts as int;
                        let m = self.policy.max_attempts as int;
                        let iv = self.policy.interval as int;
                        assert(a * iv <= m * iv) by (nonlinear_arith)
                            requires
                                a <= m,
                                iv >= 0,
                        ;
                        assert((a - 1) * iv + iv == a * iv) by (nonlinear_arith);
                    }
                    self.attempts = self.attempts + 1;
                    self.waited = self.waited + self.policy.interval;
                    Step::Submit { delay: self.policy.interval }
                } else {
                    self.ending = Ending::Unavailable;
                    Step::Finish
                }
            },
        }
    }

    /// The error that the invocation ends with, if it ends with one; `None` while
    /// it is pending or once the engine has replied.
    pub fn failure(&self) -> (r: Option<crate::bridge::BridgeError>)
        ensures
            r == match self.ending {
                Ending::Unavailable => Some(crate::bridge::BridgeError::EngineUnavailable),
                Ending::Failed => Some(crate::bridge::BridgeError::EngineError),
                Ending::Malformed => Some(crate::bridge::BridgeError::MalformedPayload),
                _ => None::<crate::bridge::BridgeError>,
            },
    {
        match self.ending {
            Ending::Unavailable => Some(crate::bridge::BridgeError::EngineUnavailable),
            Ending::Failed => Some(crate::bridge::BridgeError::EngineError),
            Ending::Malformed => Some(crate::bridge::BridgeError::MalformedPayload),
            _ => None,
        }
    }
}

/// A finished invocation stays as it is, whatever further outcomes come.
pub proof fn lemma_finished_is_final(inv: Invocation, outcomes: Seq<SubmitOutcome>)
    requires
        inv.ending != Ending::Pending,
    ensures
        driven(inv, outcomes) == inv,
    decreases outcomes.len(),
{
    if outcomes.len() > 0 {
        lemma_finished_is_final(inv, outcomes.skip(1));
    }
}

proof fn lemma_unavailable_prefix(inv: Invocation, j: nat, tail: Seq<SubmitOutcome>)
    requires
        inv.wf(),
        inv.ending == Ending::Pending,
        inv.retry_unavailable,
        inv.attempts + j <= inv.policy.max_attempts,
    ensures
        driven(inv, unavailable_run(j) + tail) == driven(
            Invocation {
                attempts: (inv.attempts + j) as u32,
                waited: (inv.waited + j * inv.policy.interval) as u64,
                ..inv
            },
            tail,
        ),
    decreases j,
{
    let s = unavailable_run(j) + tail;
    if j == 0 {
        assert(s =~= tail);
        assert(j * inv.policy.interval == 0) by (nonlinear_arith)
            requires
                j == 0,
        ;
        assert(Invocation {
            attempts: (inv.attempts + j) as u32,
            waited: (inv.waited + j * inv.policy.interval) as u64,
            ..inv
        } == inv);
    } else {
        let next = advanced(inv, SubmitOutcome::Unavailable);
        assert(s[0] == SubmitOutcome::Unavailable);
        assert(s.skip(1) =~= unavailable_run((j - 1) as nat) + tail);
        let a = inv.attempts as int;
        let iv = inv.policy.interval as int;
        let m = inv.policy.max_attempts as int;
        assert(a * iv <= m * iv) by (nonlinear_arith)
            requires
                a <= m,
                iv >= 0,
        ;
        assert((a - 1) * iv + iv == a * iv) by (nonlinear_arith);
        assert(next.wf());
        lemma_unavailable_prefix(next, (j - 1) as nat, tail);
        assert((j - 1) * iv + iv == j * iv) by (nonlinear_arith);
    }
}

/// An engine that is unreachable for the first `k` submissions, `k` below the
/// attempt budget, and replies to the next: the invocation ends with the reply
/// after exactly `k + 1` submissions and `k` intervals of waiting.
pub proof fn lemma_recovers_after_unavailable(
    policy: RetryPolicy,
    k: nat,
    rest: Seq<SubmitOutcome>,
)
    requires
        policy.wf(),
        k < policy.max_attempts,
    ensures
        ({
            let inv = driven(
                started(policy, true, false),
                unavailable_run(k) + seq![SubmitOutcome::Replied] + rest,
            );
            &&& inv.ending == Ending::Replied
            &&& inv.attempts == k + 1
            &&& inv.waited == k * policy.interval
        }),
{
    let inv0 = started(policy, true, false);
    let tail = seq![SubmitOutcome::Replied] + rest;
    assert(unavailable_run(k) + seq![SubmitOutcome::Replied] + rest =~= unavailable_run(k) + tail);
    lemma_unavailable_prefix(inv0, k, tail);
    let mid = Invocation {
        attempts: (inv0.attempts + k) as u32,
        waited: (inv0.waited + k * policy.interval) as u64,
        ..inv0
    };
    assert(k * policy.interval <= policy.max_attempts * policy.interval) by (nonlinear_arith)
        requires
            k < policy.max_attempts,
    ;
    assert(tail[0] == SubmitOutcome::Replied);
    let fin = advanced(mid, SubmitOutcome::Replied);
    lemma_finished_is_final(fin, tail.skip(1));
}

/// An engine that is never reachable: the invocation ends with it unreachable
/// after exactly as many submissions as the budget allows, never more, however
/// many further outcomes come.
pub proof fn lemma_gives_up_when_unavailable(policy: RetryPolicy, n: nat)
    requires
        policy.wf(),
        n >= policy.max_attempts,
    ensures
        ({
            let inv = driven(started(policy, true, false), unavailable_run(n));
            &&& inv.ending == Ending::Unavailable
            &&& inv.attempts == policy.max_attempts
        }),
{
    let inv0 = started(policy, true, false);
    let j = (policy.max_attempts - 1) as nat;
    let tail = unavailable_run((n - j) as nat);
    assert(unavailable_run(n) =~= unavailable_run(j) + tail);
    lemma_unavailable_prefix(inv0, j, tail);
    let mid = Invocation {
        attempts: (inv0.attempts + j) as u32,
        waited: (inv0.waited + j * policy.interval) as u64,
        ..inv0
    };
    assert(tail[0] == SubmitOutcome::Unavailable);
    let fin = advanced(mid, SubmitOutcome::Unavailable);
    assert(fin.ending == Ending::Unavailable);
    lemma_finished_is_final(fin, tail.skip(1));
}

/// A malformed payload is never submitted: the invocation is finished from the
/// start, with no submission, whatever outcomes come.
pub proof fn lemma_malformed_never_submitted(
    policy: RetryPolicy,
    retry_unavailable: bool,
    outcomes: Seq<SubmitOutcome>,
)
    ensures
        driven(started(policy, retry_unavailable, true), outcomes).attempts == 0,
        driven(started(policy, retry_unavailable, true), outcomes).ending == Ending::Malformed,
{
    lemma_finished_is_final(started(policy, retry_unavailable, true), outcomes);
}

} // verus!
