//! Agents as the runtime runs them, and the states they go through.

use crate::error::{CoreError, CoreErrorView};
use crate::json::{object_view, Json, JsonView};
use crate::text::{copy_texts, views};
use crate::types::AgentId;
use vstd::prelude::*;

verus! {

/// The state of an agent.
#[derive(Debug, Clone, Copy, PartialEq, Eq, Structural)]
pub enum AgentState {
    Starting,
    Running,
    Paused,
    Stopping,
    Stopped,
}

impl AgentState {
    /// The steps that an agent can take.
    pub open spec fn may_become(self, target: AgentState) -> bool {
        match self {
            AgentState::Starting => target == AgentState::Running || target == AgentState::Stopped,
            AgentState::Running => target == AgentState::Paused || target == AgentState::Stopping,
            AgentState::Paused => target == AgentState::Running || target == AgentState::Stopping,
            AgentState::Stopping => target == AgentState::Stopped,
            AgentState::Stopped => false,
        }
    }

    /// Whether an agent can go from this state to `target`.
    pub fn can_transition_to(&self, target: AgentState) -> (r: bool)
        ensures
            r == self.may_become(target),
    {
        match self {
            AgentState::Starting => target == AgentState::Running || target == AgentState::Stopped,
            AgentState::Running => target == AgentState::Paused || target == AgentState::Stopping,
            AgentState::Paused => target == AgentState::Running || target == AgentState::Stopping,
            AgentState::Stopping => target == AgentState::Stopped,
            AgentState::Stopped => false,
        }
    }

    /// The name of the state.
    pub open spec fn name_view(self) -> Seq<char> {
        match self {
            AgentState::Starting => "starting"@,
            AgentState::Running => "running"@,
            AgentState::Paused => "paused"@,
            AgentState::Stopping => "stopping"@,
            AgentState::Stopped => "stopped"@,
        }
    }

    /// The name of the state.
    pub fn name(&self) -> (r: &'static str)
        ensures
            r@ == self.name_view(),
    {
        match self {
            AgentState::Starting => "starting",
            AgentState::Running => "running",
            AgentState::Paused => "paused",
            AgentState::Stopping => "stopping",
            AgentState::Stopped => "stopped",
        }
    }
}

/// The states that an agent can reach from `from` in `n` steps or fewer.
pub open spec fn reaches(from: AgentState, to: AgentState, n: nat) -> bool
    decreases n,
{
    from == to || (n > 0 && exists|mid: AgentState| #[trigger]
        from.may_become(mid) && reaches(mid, to, (n - 1) as nat))
}

/// A stopped agent stays stopped.
pub proof fn law_stopped_is_final(to: AgentState, n: nat)
    requires
        reaches(AgentState::Stopped, to, n),
    ensures
        to == AgentState::Stopped,
{
}

/// Whatever state an agent is in, it can be brought to a stop.
pub proof fn law_every_agent_can_stop(from: AgentState)
    ensures
        reaches(from, AgentState::Stopped, 3),
{
    reveal_with_fuel(reaches, 4);
    if from == AgentState::Starting {
        assert(from.may_become(AgentState::Stopped));
    } else if from == AgentState::Running || from == AgentState::Paused {
        assert(from.may_become(AgentState::Stopping));
        assert(AgentState::Stopping.may_become(AgentState::Stopped));
        assert(reaches(AgentState::Stopping, AgentState::Stopped, 2));
    } else if from == AgentState::Stopping {
        assert(from.may_become(AgentState::Stopped));
    }
}

/// What an agent can be told to do.
#[derive(Debug, Clone, Copy, PartialEq, Eq, Structural)]
pub enum AgentCommand {
    Pause,
    Resume,
    Stop,
}

/// How long an agent lives.
#[derive(Debug, Clone, Copy, PartialEq, Eq, Structural)]
pub enum Lifecycle {
    /// For one task.
    OnDemand,
    /// Until it is stopped, with a history of its messages.
    Persistent,
}

/// A capability as a manifest declares it.
#[derive(Debug)]
pub enum CapabilityDeclaration {
    Simple(String),
    WithParams { params: Vec<(String, Json)> },
}

/// What a declaration holds.
pub enum CapabilityDeclarationView {
    Simple(Seq<char>),
    WithParams { params: Seq<(Seq<char>, JsonView)> },
}

impl View for CapabilityDeclaration {
    type V = CapabilityDeclarationView;

    open spec fn view(&self) -> CapabilityDeclarationView {
        match self {
            CapabilityDeclaration::Simple(s) => CapabilityDeclarationView::Simple(s@),
            CapabilityDeclaration::WithParams { params } => {
                CapabilityDeclarationView::WithParams { params: object_view(params@) }
            },
        }
    }
}

/// What an agent is made from.
#[derive(Debug)]
pub struct AgentManifest {
    pub name: String,
    pub model: String,
    pub system_prompt: String,
    pub lifecycle: Lifecycle,
    pub capabilities: Vec<CapabilityDeclaration>,
    /// The tools that a human has to approve each time.
    pub approval_required: Vec<String>,
}

/// What a manifest holds.
pub struct AgentManifestView {
    pub name: Seq<char>,
    pub model: Seq<char>,
    pub system_prompt: Seq<char>,
    pub lifecycle: Lifecycle,
    pub capabilities: Seq<CapabilityDeclarationView>,
    pub approval_required: Seq<Seq<char>>,
}

/// What a list of declarations holds.
pub open spec fn declarations_view(s: Seq<CapabilityDeclaration>) -> Seq<
    CapabilityDeclarationView,
> {
    s.map_values(|d: CapabilityDeclaration| d@)
}

impl View for AgentManifest {
    type V = AgentManifestView;

    open spec fn view(&self) -> AgentManifestView {
        AgentManifestView {
            name: self.name@,
            model: self.model@,
            system_prompt: self.system_prompt@,
            lifecycle: self.lifecycle,
            capabilities: declarations_view(self.capabilities@),
            approval_required: views(self.approval_required@),
        }
    }
}

/// A copy of the fields of an object.
pub fn copy_fields(v: &Vec<(String, Json)>) -> (r: Vec<(String, Json)>)
    ensures
        object_view(r@) == object_view(v@),
{
    let mut out: Vec<(String, Json)> = Vec::new();
    let mut i: usize = 0;
    while i < v.len()
        invariant
            0 <= i <= v@.len(),
            object_view(out@) == object_view(v@.take(i as int)),
        decreases v@.len() - i,
    {
        let ghost before = out@;
        out.push((v[i].0.clone(), v[i].1.copy()));
        assert(out@.drop_last() =~= before);
        assert(v@.take(i + 1).drop_last() =~= v@.take(i as int));
        i += 1;
    }
    assert(v@.take(i as int) =~= v@);
    out
}

impl AgentManifest {
    /// A copy of the manifest.
    pub fn copy(&self) -> (r: AgentManifest)
        ensures
            r@ == self@,
    {
        let mut caps: Vec<CapabilityDeclaration> = Vec::new();
        let mut i: usize = 0;
        let ghost all = declarations_view(self.capabilities@);
        while i < self.capabilities.len()
            invariant
                0 <= i <= self.capabilities@.len(),
                all == declarations_view(self.capabilities@),
                declarations_view(caps@) == all.take(i as int),
            decreases self.capabilities@.len() - i,
        {
            let ghost before = declarations_view(caps@);
            let one = match &self.capabilities[i] {
                CapabilityDeclaration::Simple(s) => CapabilityDeclaration::Simple(s.clone()),
                CapabilityDeclaration::WithParams { params } => CapabilityDeclaration::WithParams {
                    params: copy_fields(params),
                },
            };
            assert(one@ == all[i as int]);
            caps.push(one);
            assert(declarations_view(caps@) =~= before.push(all[i as int]));
            assert(all.take(i + 1) =~= all.take(i as int).push(all[i as int]));
            i += 1;
        }
        assert(all.take(i as int) =~= all);
        AgentManifest {
            name: self.name.clone(),
            model: self.model.clone(),
            system_prompt: self.system_prompt.clone(),
            lifecycle: self.lifecycle,
            capabilities: caps,
            approval_required: copy_texts(&self.approval_required),
        }
    }
}

/// An agent that the runtime runs.
#[derive(Debug)]
pub struct AgentProcess {
    pub id: AgentId,
    pub manifest: AgentManifest,
    pub state: AgentState,
    /// The handles of the capabilities that the agent holds.
    pub capabilities: Vec<u64>,
    /// Whether the identity outlives the process.
    pub persistent_identity: bool,
    /// How many agents stand between this one and the top.
    pub depth: u32,
    /// The agent that spawned this one.
    pub parent_agent: Option<AgentId>,
}

/// What an agent holds.
pub struct AgentProcessView {
    pub id: AgentId,
    pub manifest: AgentManifestView,
    pub state: AgentState,
    pub capabilities: Seq<u64>,
    pub persistent_identity: bool,
    pub depth: u32,
    pub parent_agent: Option<AgentId>,
}

impl View for AgentProcess {
    type V = AgentProcessView;

    open spec fn view(&self) -> AgentProcessView {
        AgentProcessView {
            id: self.id,
            manifest: self.manifest@,
            state: self.state,
            capabilities: self.capabilities@,
            persistent_identity: self.persistent_identity,
            depth: self.depth,
            parent_agent: self.parent_agent,
        }
    }
}

/// A summary of an agent.
#[derive(Debug)]
pub struct AgentInfo {
    pub id: AgentId,
    pub name: String,
    pub model: String,
    pub state: AgentState,
    pub capability_count: usize,
}

/// What a summary holds.
pub struct AgentInfoView {
    pub id: AgentId,
    pub name: Seq<char>,
    pub model: Seq<char>,
    pub state: AgentState,
    pub capability_count: nat,
}

impl View for AgentInfo {
    type V = AgentInfoView;

    open spec fn view(&self) -> AgentInfoView {
        AgentInfoView {
            id: self.id,
            name: self.name@,
            model: self.model@,
            state: self.state,
            capability_count: self.capability_count as nat,
        }
    }
}

/// The summary of an agent.
pub open spec fn summary(p: AgentProcessView) -> AgentInfoView {
    AgentInfoView {
        id: p.id,
        name: p.manifest.name,
        model: p.manifest.model,
        state: p.state,
        capability_count: p.capabilities.len(),
    }
}

impl AgentProcess {
    /// A new agent, about to start.
    pub fn new(id: AgentId, manifest: AgentManifest, capabilities: Vec<u64>) -> (r: AgentProcess)
        ensures
            r.id == id,
            r.manifest == manifest,
            r.state == AgentState::Starting,
            r.capabilities == capabilities,
            !r.persistent_identity,
            r.depth == 0,
            r.parent_agent is None,
    {
        AgentProcess {
            id,
            manifest,
            state: AgentState::Starting,
            capabilities,
            persistent_identity: false,
            depth: 0,
            parent_agent: None,
        }
    }

    /// A copy of the agent.
    pub fn copy(&self) -> (r: AgentProcess)
        ensures
            r@ == self@,
    {
        let handles = self.capabilities.clone();
        assert(handles@ =~= self.capabilities@);
        AgentProcess {
            id: self.id,
            manifest: self.manifest.copy(),
            state: self.state,
            capabilities: handles,
            persistent_identity: self.persistent_identity,
            depth: self.depth,
            parent_agent: self.parent_agent,
        }
    }

    /// Goes to the state `target`, where that is a possible step.
    pub fn transition_to(&mut self, target: AgentState) -> (r: Result<(), CoreError>)
        ensures
            old(self).state.may_become(target) ==> r is Ok && *final(self) == (AgentProcess {
                state: target,
                ..*old(self)
            }),
            !old(self).state.may_become(target) ==> {
                &&& r is Err
                &&& r->Err_0@ == CoreErrorView::InvalidStateTransition {
                    from: old(self).state,
                    to: target,
                }
                &&& *final(self) == *old(self)
            },
    {
        if self.state.can_transition_to(target) {
            self.state = target;
            Ok(())
        } else {
            Err(CoreError::InvalidStateTransition { from: self.state, to: target })
        }
    }

    /// Whether the agent holds a capability: whether any of its handles was
    /// found to permit what is asked. `permits` gives, for each handle, what
    /// the keeper of the capabilities says of it.
    pub fn has_capability(&self, permits: &Vec<bool>) -> (r: bool)
        requires
            permits@.len() == self.capabilities@.len(),
        ensures
            r == exists|i: int| 0 <= i < permits@.len() && #[trigger] permits@[i],
    {
        let mut i: usize = 0;
        while i < permits.len()
            invariant
                0 <= i <= permits@.len(),
                forall|k: int| 0 <= k < i ==> !#[trigger] permits@[k],
            decreases permits@.len() - i,
        {
            if permits[i] {
                return true;
            }
            i += 1;
        }
        false
    }

    /// The summary of the agent.
    pub fn info(&self) -> (r: AgentInfo)
        ensures
            r@ == summary(self@),
    {
        AgentInfo {
            id: self.id,
            name: self.manifest.name.clone(),
            model: self.manifest.model.clone(),
            state: self.state,
            capability_count: self.capabilities.len(),
        }
    }
}

/// An agent starts before it runs, runs and pauses by turns, and stops in two
/// steps; it can also stop before it has started. Nothing else happens to it.
pub proof fn law_states_in_their_order(from: AgentState, to: AgentState)
    ensures
        from.may_become(to) <==> {
            ||| from is Starting && to is Running
            ||| from is Starting && to is Stopped
            ||| from is Running && to is Paused
            ||| from is Paused && to is Running
            ||| (from is Running || from is Paused) && to is Stopping
            ||| from is Stopping && to is Stopped
        },
        !from.may_become(from),
{
}

/// States have names of their own.
pub proof fn law_state_names_differ(a: AgentState, b: AgentState)
    requires
        a.name_view() == b.name_view(),
    ensures
        a == b,
{
    reveal_strlit("starting");
    reveal_strlit("running");
    reveal_strlit("paused");
    reveal_strlit("stopping");
    reveal_strlit("stopped");
    assert("starting"@.len() == 8 && "starting"@[2] == 'a');
    assert("running"@.len() == 7 && "running"@[0] == 'r');
    assert("paused"@.len() == 6);
    assert("stopping"@.len() == 8 && "stopping"@[2] == 'o');
    assert("stopped"@.len() == 7 && "stopped"@[0] == 's');
}

/// What is told of an agent is what it is.
pub proof fn law_summary_tells_of_the_agent(p: AgentProcessView)
    ensures
        summary(p).id == p.id,
        summary(p).name == p.manifest.name,
        summary(p).model == p.manifest.model,
        summary(p).state == p.state,
        summary(p).capability_count == p.capabilities.len(),
{
}

} // verus!
