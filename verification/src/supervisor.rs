//! Restarting agents that ended.

use crate::types::AgentId;
use vstd::arithmetic::power2::{lemma2_to64, lemma_pow2_strictly_increases, pow2};
use vstd::prelude::*;

verus! {

/// When an agent that ended is started again.
#[derive(Debug, Clone, Copy, PartialEq, Eq, Structural)]
pub enum RestartPolicy {
    Always,
    OnFailure,
    Never,
}

impl Default for RestartPolicy {
    fn default() -> (r: RestartPolicy)
        ensures
            r == RestartPolicy::OnFailure,
    {
        RestartPolicy::OnFailure
    }
}

/// How agents are restarted.
#[derive(Debug, Clone, Copy, PartialEq, Eq, Structural)]
pub struct SupervisorConfig {
    pub restart_policy: RestartPolicy,
    pub max_restarts: u32,
    pub restart_backoff_ms: u64,
}

impl Default for SupervisorConfig {
    fn default() -> (r: SupervisorConfig)
        ensures
            r == (SupervisorConfig {
                restart_policy: RestartPolicy::OnFailure,
                max_restarts: 3,
                restart_backoff_ms: 1000,
            }),
    {
        SupervisorConfig {
            restart_policy: RestartPolicy::OnFailure,
            max_restarts: 3,
            restart_backoff_ms: 1000,
        }
    }
}

/// After this many restarts the wait grows no further.
pub const BACKOFF_STEPS: u32 = 5;

/// An agent that is restarted when it ends.
#[derive(Debug, Clone, Copy, PartialEq, Eq, Structural)]
pub struct SupervisedAgent {
    pub agent_id: AgentId,
    pub config: SupervisorConfig,
    pub restart_count: u32,
}

/// How many doublings the wait after `restarts` restarts has seen.
pub open spec fn backoff_steps(restarts: u32) -> nat {
    if restarts < BACKOFF_STEPS {
        restarts as nat
    } else {
        BACKOFF_STEPS as nat
    }
}

/// The wait in milliseconds before the next restart.
pub open spec fn backoff(base: u64, restarts: u32) -> nat {
    base as nat * pow2(backoff_steps(restarts))
}

impl SupervisedAgent {
    /// An agent that was not restarted yet.
    pub fn new(agent_id: AgentId, config: SupervisorConfig) -> (r: SupervisedAgent)
        ensures
            r == (SupervisedAgent { agent_id, config, restart_count: 0 }),
    {
        SupervisedAgent { agent_id, config, restart_count: 0 }
    }

    /// Whether the agent, which has just ended, is started again.
    pub open spec fn restarts(&self, was_error: bool) -> bool {
        self.restart_count < self.config.max_restarts && match self.config.restart_policy {
            RestartPolicy::Always => true,
            RestartPolicy::OnFailure => was_error,
            RestartPolicy::Never => false,
        }
    }

    /// Whether the agent, which has just ended, is started again.
    pub fn should_restart(&self, was_error: bool) -> (r: bool)
        ensures
            r == self.restarts(was_error),
    {
        if self.restart_count >= self.config.max_restarts {
            return false;
        }
        match self.config.restart_policy {
            RestartPolicy::Always => true,
            RestartPolicy::OnFailure => was_error,
            RestartPolicy::Never => false,
        }
    }

    /// Counts a restart.
    pub fn record_restart(&mut self)
        requires
            old(self).restart_count < u32::MAX,
        ensures
            *final(self) == (SupervisedAgent {
                restart_count: (old(self).restart_count + 1) as u32,
                ..*old(self)
            }),
    {
        self.restart_count = self.restart_count + 1;
    }

    /// The wait before the next restart, in milliseconds. It doubles with each
    /// restart, for the first few.
    pub fn backoff_ms(&self) -> (r: u64)
        requires
            backoff(self.config.restart_backoff_ms, self.restart_count) <= u64::MAX,
        ensures
            r == backoff(self.config.restart_backoff_ms, self.restart_count),
    {
        let steps: u32 = if self.restart_count < BACKOFF_STEPS {
            self.restart_count
        } else {
            BACKOFF_STEPS
        };
        proof {
            lemma2_to64();
        }
        let factor: u64 = match steps {
            0 => 1,
            1 => 2,
            2 => 4,
            3 => 8,
            4 => 16,
            _ => 32,
        };
        assert(factor == pow2(steps as nat));
        self.config.restart_backoff_ms * factor
    }
}

/// An agent that was restarted as often as it may be is not restarted again,
/// whatever its policy.
pub proof fn law_restarts_are_bounded(agent: SupervisedAgent, was_error: bool)
    requires
        agent.restart_count >= agent.config.max_restarts,
    ensures
        !agent.restarts(was_error),
{
}

/// The wait never gets shorter from one restart to a later one.
pub proof fn law_backoff_never_shrinks(base: u64, m: u32, n: u32)
    requires
        m <= n,
    ensures
        backoff(base, m) <= backoff(base, n),
{
    let a = backoff_steps(m);
    let b = backoff_steps(n);
    if a < b {
        lemma_pow2_strictly_increases(a, b);
    }
    assert(base as nat * pow2(a) <= base as nat * pow2(b)) by (nonlinear_arith)
        requires
            pow2(a) <= pow2(b),
    ;
}

/// The wait begins at what was set and doubles with every restart, five times.
pub proof fn law_backoff_doubles(base: u64, n: u32)
    ensures
        backoff(base, 0) == base,
        n < 5 ==> backoff(base, (n + 1) as u32) == 2 * backoff(base, n),
        n >= 5 ==> backoff(base, n) == 32 * base,
{
    lemma2_to64();
    assert(backoff(base, 0) == base * 1);
    if n < 5 {
        assert(pow2((n + 1) as nat) == 2 * pow2(n as nat)) by {
            lemma2_to64();
            assert(n == 0 || n == 1 || n == 2 || n == 3 || n == 4);
        }
        let p = pow2(n as nat);
        assert(base as nat * (2 * p) == 2 * (base as nat * p)) by (nonlinear_arith);
    } else {
        assert(backoff(base, n) == base as nat * 32);
    }
}

/// An agent is started again as its policy says, as long as it has restarts
/// left.
pub proof fn law_policy_is_kept(agent: SupervisedAgent)
    ensures
        agent.restart_count < agent.config.max_restarts ==> {
            &&& agent.config.restart_policy is Always ==> agent.restarts(true) && agent.restarts(
                false,
            )
            &&& agent.config.restart_policy is OnFailure ==> agent.restarts(true)
                && !agent.restarts(false)
        },
        agent.config.restart_policy is Never ==> !agent.restarts(true) && !agent.restarts(false),
{
}

} // verus!
