//! The error of the runtime.

use crate::capability::{Capability, CapabilityView};
use crate::process::AgentState;
use crate::types::{AgentId, Span};
use vstd::prelude::*;

verus! {

/// What went wrong.
#[derive(Debug)]
pub enum CoreError {
    /// A manifest or a tool's input is not as it has to be.
    InvalidManifest(String),
    /// A value does not have the declared shape.
    SchemaValidation(String),
    /// An agent lacks a permission.
    CapabilityDenied { agent_id: AgentId, capability: Capability, reason: String },
    /// There is no such agent.
    AgentNotFound(AgentId),
    /// There is no such tool.
    ToolNotFound(String),
    /// An agent cannot go from one state to the other.
    InvalidStateTransition { from: AgentState, to: AgentState },
    /// Something outside the runtime failed.
    Ipc(String),
    /// Something took too long.
    Timeout(Span),
}

/// What an error says.
pub enum CoreErrorView {
    InvalidManifest(Seq<char>),
    SchemaValidation(Seq<char>),
    CapabilityDenied { agent_id: AgentId, capability: CapabilityView, reason: Seq<char> },
    AgentNotFound(AgentId),
    ToolNotFound(Seq<char>),
    InvalidStateTransition { from: AgentState, to: AgentState },
    Ipc(Seq<char>),
    Timeout(Span),
}

impl View for CoreError {
    type V = CoreErrorView;

    open spec fn view(&self) -> CoreErrorView {
        match self {
            CoreError::InvalidManifest(m) => CoreErrorView::InvalidManifest(m@),
            CoreError::SchemaValidation(m) => CoreErrorView::SchemaValidation(m@),
            CoreError::CapabilityDenied { agent_id, capability, reason } => {
                CoreErrorView::CapabilityDenied {
                    agent_id: *agent_id,
                    capability: capability@,
                    reason: reason@,
                }
            },
            CoreError::AgentNotFound(id) => CoreErrorView::AgentNotFound(*id),
            CoreError::ToolNotFound(m) => CoreErrorView::ToolNotFound(m@),
            CoreError::InvalidStateTransition { from, to } => {
                CoreErrorView::InvalidStateTransition { from: *from, to: *to }
            },
            CoreError::Ipc(m) => CoreErrorView::Ipc(m@),
            CoreError::Timeout(d) => CoreErrorView::Timeout(*d),
        }
    }
}

/// The words of an error that has any.
pub open spec fn error_words(e: CoreErrorView) -> Seq<char> {
    match e {
        CoreErrorView::InvalidManifest(m) => m,
        CoreErrorView::SchemaValidation(m) => m,
        CoreErrorView::CapabilityDenied { agent_id, capability, reason } => reason,
        CoreErrorView::AgentNotFound(id) => "agent not found"@,
        CoreErrorView::ToolNotFound(m) => m,
        CoreErrorView::InvalidStateTransition { from, to } => "invalid state transition"@,
        CoreErrorView::Ipc(m) => m,
        CoreErrorView::Timeout(d) => "timed out"@,
    }
}

impl CoreError {
    /// The error in words.
    pub fn message(&self) -> (r: String)
        ensures
            r@ == error_words(self@),
    {
        match self {
            CoreError::InvalidManifest(m) => m.clone(),
            CoreError::SchemaValidation(m) => m.clone(),
            CoreError::CapabilityDenied { reason, .. } => reason.clone(),
            CoreError::AgentNotFound(_) => "agent not found".to_owned(),
            CoreError::ToolNotFound(m) => m.clone(),
            CoreError::InvalidStateTransition { .. } => "invalid state transition".to_owned(),
            CoreError::Ipc(m) => m.clone(),
            CoreError::Timeout(_) => "timed out".to_owned(),
        }
    }
}

/// What was said when something went wrong is what is told of it.
pub proof fn law_words_are_kept(m: Seq<char>, agent_id: AgentId, capability: CapabilityView)
    ensures
        error_words(CoreErrorView::InvalidManifest(m)) == m,
        error_words(CoreErrorView::SchemaValidation(m)) == m,
        error_words(CoreErrorView::ToolNotFound(m)) == m,
        error_words(CoreErrorView::Ipc(m)) == m,
        error_words((CoreErrorView::CapabilityDenied { agent_id, capability, reason: m })) == m,
{
}

} // verus!
