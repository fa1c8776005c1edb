//! The handle on the request engine: a subprocess reached at a local endpoint,
//! or a pipeline held in this process.
use vstd::prelude::*;

use crate::retry::{started, Invocation, RetryPolicy, Step};

verus! {

/// Which engine the bridge talks to.
#[derive(Debug, PartialEq, Eq)]
pub enum EngineHandle {
    /// A child process serving at `endpoint`; each submission finds out for itself
    /// whether it is up yet.
    Subprocess { endpoint: String },
    /// A pipeline in this process; `ready` turns true once, before serving, and
    /// stays true.
    InProcess { ready: bool },
}

impl EngineHandle {
    /// A handle on a child process serving at `endpoint`.
    pub fn subprocess(endpoint: String) -> (r: EngineHandle)
        ensures
            r matches EngineHandle::Subprocess { endpoint: e } && e@ == endpoint@,
    {
        EngineHandle::Subprocess { endpoint }
    }

    /// A handle on an in-process pipeline that has not reported ready yet.
    pub fn in_process() -> (r: EngineHandle)
        ensures
            r == (EngineHandle::InProcess { ready: false }),
    {
        EngineHandle::InProcess { ready: false }
    }

    /// Only a subprocess engine can be found not yet reachable, so only its
    /// submissions are retried.
    pub fn retries_unavailable(&self) -> (r: bool)
        ensures
            r == self is Subprocess,
    {
        match self {
            EngineHandle::Subprocess { .. } => true,
            EngineHandle::InProcess { .. } => false,
        }
    }

    /// Records that the in-process pipeline reported ready. A subprocess handle
    /// is left as it is.
    pub fn mark_ready(&mut self)
        ensures
            *old(self) is InProcess ==> *final(self) == (EngineHandle::InProcess { ready: true }),
            *old(self) is Subprocess ==> *final(self) == *old(self),
    {
        if let EngineHandle::InProcess { .. } = self {
            *self = EngineHandle::InProcess { ready: true };
        }
    }

    /// Whether submissions may be made: always for a subprocess, which is probed
    /// by each submission; for a pipeline, once it reported ready.
    pub fn accepts_submissions(&self) -> (r: bool)
        ensures
            r == match self {
                EngineHandle::Subprocess { .. } => true,
                EngineHandle::InProcess { ready } => *ready,
            },
    {
        match self {
            EngineHandle::Subprocess { .. } => true,
            EngineHandle::InProcess { ready } => *ready,
        }
    }

    /// Starts an invocation against this engine, retrying an unreachable engine
    /// only where it is a subprocess.
    pub fn begin_invocation(&self, policy: RetryPolicy, malformed: bool) -> (r: (Invocation, Step))
        requires
            policy.wf(),
        ensures
            r.0 == started(policy, self is Subprocess, malformed),
            r.0.wf(),
            r.1 == if malformed {
                Step::Finish
            } else {
                Step::Submit { delay: 0 }
            },
    {
        Invocation::begin(policy, self.retries_unavailable(), malformed)
    }
}

} // verus!
