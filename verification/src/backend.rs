//! Running agents in the process of the runtime.

use crate::error::{CoreError, CoreErrorView};
use crate::types::AgentId;
use vstd::prelude::*;
use vstd::string::*;

verus! {

/// What this backend is called.
pub const BACKEND_KIND: &'static str = "in_process";

/// What is at hand when an agent is to be started.
#[derive(Debug, Clone, Copy, PartialEq, Eq, Structural)]
pub struct LaunchFacts {
    /// There is a model to talk to.
    pub has_model: bool,
    /// The agent is registered.
    pub registered: bool,
    /// Nobody reads its messages yet.
    pub messages_free: bool,
    /// Nobody reads its commands yet.
    pub commands_free: bool,
}

/// Why an agent cannot be started.
pub open spec fn launch_error(agent_id: AgentId, facts: LaunchFacts) -> Option<CoreErrorView> {
    if !facts.has_model {
        Some(CoreErrorView::Ipc("InProcessBackend::launch: no LLM client configured"@))
    } else if !facts.registered {
        Some(CoreErrorView::AgentNotFound(agent_id))
    } else if !facts.messages_free {
        Some(CoreErrorView::Ipc("message_rx already taken"@))
    } else if !facts.commands_free {
        Some(CoreErrorView::Ipc("command_rx already taken"@))
    } else {
        None
    }
}

/// Lets an agent be started, if all is there that it needs.
pub fn check_launch(agent_id: AgentId, facts: LaunchFacts) -> (r: Result<(), CoreError>)
    ensures
        match r {
            Ok(_) => launch_error(agent_id, facts) is None,
            Err(e) => launch_error(agent_id, facts) == Some(e@),
        },
{
    if !facts.has_model {
        return Err(
            CoreError::Ipc("InProcessBackend::launch: no LLM client configured".to_owned()),
        );
    }
    if !facts.registered {
        return Err(CoreError::AgentNotFound(agent_id));
    }
    if !facts.messages_free {
        return Err(CoreError::Ipc("message_rx already taken".to_owned()));
    }
    if !facts.commands_free {
        return Err(CoreError::Ipc("command_rx already taken".to_owned()));
    }
    Ok(())
}

/// The model that sums up the conversation of an agent: the one that its
/// manifest asks for, or else the one that the backend is set up with.
pub fn summarization_model(wanted: Option<&str>, default_model: &str) -> (r: String)
    ensures
        r@ == (match wanted {
            Some(m) => m@,
            None => default_model@,
        }),
{
    match wanted {
        Some(m) => m.to_owned(),
        None => default_model.to_owned(),
    }
}

/// How an agent is doing.
#[derive(Debug)]
pub enum BackendHealth {
    Healthy,
    Exited(i32),
    Unknown(String),
}

/// How an agent is doing. `watched` tells whether its task is finished, if the
/// backend still watches it; `held` the same of the task that the caller
/// holds.
pub fn health(watched: Option<bool>, held: Option<bool>) -> (r: BackendHealth)
    ensures
        match watched {
            Some(true) => r == BackendHealth::Exited(0),
            Some(false) => r is Healthy,
            None => if held == Some(true) {
                r == BackendHealth::Exited(0)
            } else {
                r is Unknown && r->Unknown_0@ == "no tracking entry"@
            },
        },
{
    match watched {
        Some(finished) => if finished {
            BackendHealth::Exited(0)
        } else {
            BackendHealth::Healthy
        },
        None => match held {
            Some(true) => BackendHealth::Exited(0),
            _ => BackendHealth::Unknown("no tracking entry".to_owned()),
        },
    }
}

/// Whose task to end when an agent is to be stopped.
#[derive(Debug, Clone, Copy, PartialEq, Eq, Structural)]
pub enum StopTarget {
    /// The one that the backend watches, which it watches no longer.
    Watched,
    /// The one that the caller holds.
    Held,
    /// None: the agent is gone already.
    Nothing,
}

/// Whose task to end when an agent is to be stopped. Stopping an agent twice
/// does no harm.
pub fn stop_target(watched: bool, held: bool) -> (r: StopTarget)
    ensures
        r == (if watched {
            StopTarget::Watched
        } else if held {
            StopTarget::Held
        } else {
            StopTarget::Nothing
        }),
{
    if watched {
        StopTarget::Watched
    } else if held {
        StopTarget::Held
    } else {
        StopTarget::Nothing
    }
}

/// An agent is launched exactly where there is a model to talk to, the agent is
/// known, and nobody else reads what is for it; the first that is missing is
/// what is said.
pub proof fn law_what_a_launch_needs(agent_id: AgentId, facts: LaunchFacts)
    ensures
        launch_error(agent_id, facts) is None <==> facts.has_model && facts.registered
            && facts.messages_free && facts.commands_free,
        facts.has_model && !facts.registered ==> launch_error(agent_id, facts) == Some(
            CoreErrorView::AgentNotFound(agent_id),
        ),
        !facts.has_model ==> launch_error(agent_id, facts) is Some && launch_error(
            agent_id,
            facts,
        )->0 is Ipc,
{
}

} // verus!
