//! What an agent may be allowed to do.

use crate::json::{Json, JsonView};
use crate::text::{copy_texts, views};
use vstd::prelude::*;

verus! {

/// A permission that an agent can hold.
#[derive(Debug)]
pub enum Capability {
    WebSearch,
    FileRead { path_glob: String },
    FileWrite { path_glob: String },
    ToolInvoke { tool_name: String },
    SpawnChild { allowed_agents: Vec<String> },
    MessageSend { target_agents: Vec<String> },
    NetworkAccess { hosts: Vec<String> },
    CargoRun { workspace: String },
    GitCommit { workspace: String },
    Custom { name: String, params: Json },
}

/// What a permission says.
pub enum CapabilityView {
    WebSearch,
    FileRead { path_glob: Seq<char> },
    FileWrite { path_glob: Seq<char> },
    ToolInvoke { tool_name: Seq<char> },
    SpawnChild { allowed_agents: Seq<Seq<char>> },
    MessageSend { target_agents: Seq<Seq<char>> },
    NetworkAccess { hosts: Seq<Seq<char>> },
    CargoRun { workspace: Seq<char> },
    GitCommit { workspace: Seq<char> },
    Custom { name: Seq<char>, params: JsonView },
}

impl View for Capability {
    type V = CapabilityView;

    open spec fn view(&self) -> CapabilityView {
        match self {
            Capability::WebSearch => CapabilityView::WebSearch,
            Capability::FileRead { path_glob } => CapabilityView::FileRead {
                path_glob: path_glob@,
            },
            Capability::FileWrite { path_glob } => CapabilityView::FileWrite {
                path_glob: path_glob@,
            },
            Capability::ToolInvoke { tool_name } => CapabilityView::ToolInvoke {
                tool_name: tool_name@,
            },
            Capability::SpawnChild { allowed_agents } => CapabilityView::SpawnChild {
                allowed_agents: views(allowed_agents@),
            },
            Capability::MessageSend { target_agents } => CapabilityView::MessageSend {
                target_agents: views(target_agents@),
            },
            Capability::NetworkAccess { hosts } => CapabilityView::NetworkAccess {
                hosts: views(hosts@),
            },
            Capability::CargoRun { workspace } => CapabilityView::CargoRun {
                workspace: workspace@,
            },
            Capability::GitCommit { workspace } => CapabilityView::GitCommit {
                workspace: workspace@,
            },
            Capability::Custom { name, params } => CapabilityView::Custom {
                name: name@,
                params: params@,
            },
        }
    }
}

impl Capability {
    /// A copy of the permission.
    pub fn copy(&self) -> (r: Capability)
        ensures
            r@ == self@,
    {
        match self {
            Capability::WebSearch => Capability::WebSearch,
            Capability::FileRead { path_glob } => Capability::FileRead {
                path_glob: path_glob.clone(),
            },
            Capability::FileWrite { path_glob } => Capability::FileWrite {
                path_glob: path_glob.clone(),
            },
            Capability::ToolInvoke { tool_name } => Capability::ToolInvoke {
                tool_name: tool_name.clone(),
            },
            Capability::SpawnChild { allowed_agents } => Capability::SpawnChild {
                allowed_agents: copy_texts(allowed_agents),
            },
            Capability::MessageSend { target_agents } => Capability::MessageSend {
                target_agents: copy_texts(target_agents),
            },
            Capability::NetworkAccess { hosts } => Capability::NetworkAccess {
                hosts: copy_texts(hosts),
            },
            Capability::CargoRun { workspace } => Capability::CargoRun {
                workspace: workspace.clone(),
            },
            Capability::GitCommit { workspace } => Capability::GitCommit {
                workspace: workspace.clone(),
            },
            Capability::Custom { name, params } => Capability::Custom {
                name: name.clone(),
                params: params.copy(),
            },
        }
    }
}

} // verus!
