//! Events that the runtime puts on record.

use crate::capability::{Capability, CapabilityView};
use crate::types::AgentId;
use vstd::prelude::*;

verus! {

/// Where a tool runs.
#[derive(Debug, Clone, Copy, PartialEq, Eq, Structural)]
pub enum ToolExecutionSurface {
    /// In the daemon's own process.
    Daemon,
    /// In the confined worker of the agent.
    Worker,
}

/// The text in an option.
pub open spec fn text_option(o: Option<String>) -> Option<Seq<char>> {
    match o {
        Some(s) => Some(s@),
        None => None,
    }
}

/// Why an agent was stopped.
#[derive(Debug, Clone, Copy, PartialEq, Eq, Structural)]
pub enum AgentStopReason {
    /// Somebody asked for it.
    UserRequested,
}

/// What happened.
#[derive(Debug)]
#[allow(inconsistent_fields)]
pub enum AuditEventKind {
    AgentSpawned { manifest_name: String },
    AgentStopped { reason: AgentStopReason },
    CapabilityGranted { capability: Capability },
    CapabilityRevoked { token_id: u128, capability: String },
    CapabilityDenied { capability: Capability, reason: String },
    SubtaskStarted { subtask_id: String, role: String },
    SubtaskCompleted { subtask_id: String, success: bool },
    SubtaskTtlExpired { subtask_id: String, reason: String },
    PlanProduced { subtask_count: u32, replans_used: u32 },
    PlanReplanned { reason: String },
    AgentLoopStarted { lifecycle: String },
    AgentLoopStopped { reason: String, messages_processed: u64 },
    AgentMessageReceived { trace_id: u128, method: String },
    AgentExecutionCompleted { stop_reason: String, total_iterations: u32 },
    HumanApprovalGranted,
    HumanApprovalDenied { reason: String },
    UsageReported { input_tokens: u64, output_tokens: u64 },
    ToolInvoked { tool: String, input_hash: String, args_preview: Option<String>, execution_surface: ToolExecutionSurface },
    ToolResult { tool: String, success: bool, result_preview: Option<String> },
    ToolRepeat { tool: String, input_hash: String, attempt_count: u32 },
    ToolRepeatGuardFired { agent_id: AgentId, tool: String, attempt_count: u32 },
    MemoryStored { memory_id: u128, category: String, content_hash: String },
    MemoryQueried { query_hash: String, results_count: usize },
}

/// What an event says.
#[allow(inconsistent_fields)]
pub enum AuditEventKindView {
    AgentSpawned { manifest_name: Seq<char> },
    AgentStopped { reason: AgentStopReason },
    CapabilityGranted { capability: CapabilityView },
    CapabilityRevoked { token_id: u128, capability: Seq<char> },
    CapabilityDenied { capability: CapabilityView, reason: Seq<char> },
    SubtaskStarted { subtask_id: Seq<char>, role: Seq<char> },
    SubtaskCompleted { subtask_id: Seq<char>, success: bool },
    SubtaskTtlExpired { subtask_id: Seq<char>, reason: Seq<char> },
    PlanProduced { subtask_count: u32, replans_used: u32 },
    PlanReplanned { reason: Seq<char> },
    AgentLoopStarted { lifecycle: Seq<char> },
    AgentLoopStopped { reason: Seq<char>, messages_processed: u64 },
    AgentMessageReceived { trace_id: u128, method: Seq<char> },
    AgentExecutionCompleted { stop_reason: Seq<char>, total_iterations: u32 },
    HumanApprovalGranted,
    HumanApprovalDenied { reason: Seq<char> },
    UsageReported { input_tokens: u64, output_tokens: u64 },
    ToolInvoked { tool: Seq<char>, input_hash: Seq<char>, args_preview: Option<Seq<char>>, execution_surface: ToolExecutionSurface },
    ToolResult { tool: Seq<char>, success: bool, result_preview: Option<Seq<char>> },
    ToolRepeat { tool: Seq<char>, input_hash: Seq<char>, attempt_count: u32 },
    ToolRepeatGuardFired { agent_id: AgentId, tool: Seq<char>, attempt_count: u32 },
    MemoryStored { memory_id: u128, category: Seq<char>, content_hash: Seq<char> },
    MemoryQueried { query_hash: Seq<char>, results_count: usize },
}

impl View for AuditEventKind {
    type V = AuditEventKindView;

    open spec fn view(&self) -> AuditEventKindView {
        match self {
            AuditEventKind::AgentSpawned { manifest_name } => AuditEventKindView::AgentSpawned {
                manifest_name: manifest_name@,
            },
            AuditEventKind::AgentStopped { reason } => AuditEventKindView::AgentStopped {
                reason: *reason,
            },
            AuditEventKind::CapabilityGranted { capability } => AuditEventKindView::CapabilityGranted {
                capability: capability@,
            },
            AuditEventKind::CapabilityRevoked { token_id, capability } => AuditEventKindView::CapabilityRevoked {
                token_id: *token_id,
                capability: capability@,
            },
            AuditEventKind::CapabilityDenied { capability, reason } => AuditEventKindView::CapabilityDenied {
                capability: capability@,
                reason: reason@,
            },
            AuditEventKind::SubtaskStarted { subtask_id, role } => AuditEventKindView::SubtaskStarted {
                subtask_id: subtask_id@,
                role: role@,
            },
            AuditEventKind::SubtaskCompleted { subtask_id, success } => AuditEventKindView::SubtaskCompleted {
                subtask_id: subtask_id@,
                success: *success,
            },
            AuditEventKind::SubtaskTtlExpired { subtask_id, reason } => AuditEventKindView::SubtaskTtlExpired {
                subtask_id: subtask_id@,
                reason: reason@,
            },
            AuditEventKind::PlanProduced { subtask_count, replans_used } => AuditEventKindView::PlanProduced {
                subtask_count: *subtask_count,
                replans_used: *replans_used,
            },
            AuditEventKind::PlanReplanned { reason } => AuditEventKindView::PlanReplanned {
                reason: reason@,
            },
            AuditEventKind::AgentLoopStarted { lifecycle } => AuditEventKindView::AgentLoopStarted {
                lifecycle: lifecycle@,
            },
            AuditEventKind::AgentLoopStopped { reason, messages_processed } => AuditEventKindView::AgentLoopStopped {
                reason: reason@,
                messages_processed: *messages_processed,
            },
            AuditEventKind::AgentMessageReceived { trace_id, method } => AuditEventKindView::AgentMessageReceived {
                trace_id: *trace_id,
                method: method@,
            },
            AuditEventKind::AgentExecutionCompleted { stop_reason, total_iterations } => AuditEventKindView::AgentExecutionCompleted {
                stop_reason: stop_reason@,
                total_iterations: *total_iterations,
            },
            AuditEventKind::HumanApprovalGranted => AuditEventKindView::HumanApprovalGranted,
            AuditEventKind::HumanApprovalDenied { reason } => AuditEventKindView::HumanApprovalDenied {
                reason: reason@,
            },
            AuditEventKind::UsageReported { input_tokens, output_tokens } => AuditEventKindView::UsageReported {
                input_tokens: *input_tokens,
                output_tokens: *output_tokens,
            },
            AuditEventKind::ToolInvoked { tool, input_hash, args_preview, execution_surface } => AuditEventKindView::ToolInvoked {
                tool: tool@,
                input_hash: input_hash@,
                args_preview: text_option(*args_preview),
                execution_surface: *execution_surface,
            },
            AuditEventKind::ToolResult { tool, success, result_preview } => AuditEventKindView::ToolResult {
                tool: tool@,
                success: *success,
                result_preview: text_option(*result_preview),
            },
            AuditEventKind::ToolRepeat { tool, input_hash, attempt_count } => AuditEventKindView::ToolRepeat {
                tool: tool@,
                input_hash: input_hash@,
                attempt_count: *attempt_count,
            },
            AuditEventKind::ToolRepeatGuardFired { agent_id, tool, attempt_count } => AuditEventKindView::ToolRepeatGuardFired {
                agent_id: *agent_id,
                tool: tool@,
                attempt_count: *attempt_count,
            },
            AuditEventKind::MemoryStored { memory_id, category, content_hash } => AuditEventKindView::MemoryStored {
                memory_id: *memory_id,
                category: category@,
                content_hash: content_hash@,
            },
            AuditEventKind::MemoryQueried { query_hash, results_count } => AuditEventKindView::MemoryQueried {
                query_hash: query_hash@,
                results_count: *results_count,
            },
        }
    }
}

/// An event and the agent that it concerns.
#[derive(Debug)]
pub struct AuditEvent {
    pub agent_id: AgentId,
    pub event: AuditEventKind,
}

impl AuditEvent {
    /// The event `event` of the agent `agent_id`.
    pub fn new(agent_id: AgentId, event: AuditEventKind) -> (r: AuditEvent)
        ensures
            r.agent_id == agent_id,
            r.event == event,
    {
        AuditEvent { agent_id, event }
    }
}

/// What a list of events says.
pub open spec fn events_view(s: Seq<AuditEvent>) -> Seq<(AgentId, AuditEventKindView)> {
    s.map_values(|e: AuditEvent| (e.agent_id, e.event@))
}

} // verus!
