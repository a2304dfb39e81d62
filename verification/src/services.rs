//! What the runtime does for its agents: calling tools with the consent of a
//! human, passing messages on, keeping track of what they use.

use crate::audit::{AuditEvent, AuditEventKind, AuditEventKindView};
use crate::capability::{Capability, CapabilityView};
use crate::error::{CoreError, CoreErrorView};
use crate::ids::{hyphenated, uuid_fault, uuid_from_json, uuid_value};
use crate::json::{field, text_of, Json, JsonView};
use crate::process::AgentManifestView;
use crate::registry::{AgentRegistry, TokenUsage};
use crate::text::{contains_text, has_text, views};
use crate::text_laws::{law_four_parts, law_text_holds_its_parts};
use crate::tools::access::{any_permits, permitted, require};
use crate::tools::definition::{entry, fields_view, object, text, ToolDefinition, ToolDefinitionView};
use crate::types::{AgentId, Span};
use vstd::prelude::*;
use vstd::string::*;

verus! {

/// What a human is asked.
#[derive(Debug)]
pub struct ApprovalRequest {
    pub agent_id: AgentId,
    pub agent_name: String,
    pub description: String,
    pub tool: Option<String>,
    pub input: Option<Json>,
}

/// What the human said.
#[derive(Debug)]
pub enum ApprovalResult {
    Approved,
    Denied { reason: String },
    Timeout,
}

/// What a human is asked before a tool is called.
pub open spec fn tool_question(agent_name: Seq<char>, tool: Seq<char>) -> Seq<char> {
    "Agent '"@ + agent_name + "' wants to invoke tool '"@ + tool + "'"@
}

/// Whether a human has to approve a call of a tool.
pub open spec fn needs_approval(manifest: AgentManifestView, tool: Seq<char>) -> bool {
    manifest.approval_required.contains(tool)
}

/// What a human is to be asked before an agent calls a tool, if anything: an
/// agent that is not known asks nobody.
pub fn approval_for(registry: &AgentRegistry, agent_id: AgentId, tool: &str, input: &Json) -> (r:
    Option<ApprovalRequest>)
    ensures
        match r {
            Some(q) => {
                let m = registry.agents()[agent_id.uuid].manifest@;
                &&& registry.agents().dom().contains(agent_id.uuid)
                &&& needs_approval(m, tool@)
                &&& q.agent_id == agent_id
                &&& q.agent_name@ == m.name
                &&& q.description@ == tool_question(m.name, tool@)
                &&& q.tool is Some
                &&& q.tool->0@ == tool@
                &&& q.input is Some
                &&& q.input->0@ == input@
            },
            None => !(registry.agents().dom().contains(agent_id.uuid) && needs_approval(
                registry.agents()[agent_id.uuid].manifest@,
                tool@,
            )),
        },
{
    match registry.get_manifest(agent_id) {
        Ok(m) => {
            if !has_text(&m.approval_required, tool) {
                return None;
            }
            let mut description = "Agent '".to_owned();
            description.append(m.name.as_str());
            description.append("' wants to invoke tool '");
            description.append(tool);
            description.append("'");
            Some(
                ApprovalRequest {
                    agent_id,
                    agent_name: m.name,
                    description,
                    tool: Some(tool.to_owned()),
                    input: Some(input.copy()),
                },
            )
        },
        Err(_) => None,
    }
}

/// What comes of the answer of a human: what to record, and whether the tool
/// may be called.
pub fn settle_approval(agent_id: AgentId, tool: &str, answer: &ApprovalResult) -> (r: (
    Option<AuditEvent>,
    Result<(), CoreError>,
))
    ensures
        match *answer {
            ApprovalResult::Approved => {
                &&& r.0 is Some
                &&& r.0->0.agent_id == agent_id
                &&& r.0->0.event@ == AuditEventKindView::HumanApprovalGranted
                &&& r.1 is Ok
            },
            ApprovalResult::Denied { reason } => {
                &&& r.0 is Some
                &&& r.0->0.agent_id == agent_id
                &&& r.0->0.event@ == (AuditEventKindView::HumanApprovalDenied { reason: reason@ })
                &&& r.1 is Err
                &&& r.1->Err_0@ == (CoreErrorView::CapabilityDenied {
                    agent_id,
                    capability: CapabilityView::ToolInvoke { tool_name: tool@ },
                    reason: "human denied: "@ + reason@,
                })
            },
            ApprovalResult::Timeout => {
                &&& r.0 is None
                &&& r.1 is Err
                &&& r.1->Err_0@ == (CoreErrorView::CapabilityDenied {
                    agent_id,
                    capability: CapabilityView::ToolInvoke { tool_name: tool@ },
                    reason: "approval timed out"@,
                })
            },
        },
{
    match answer {
        ApprovalResult::Approved => (
            Some(AuditEvent::new(agent_id, AuditEventKind::HumanApprovalGranted)),
            Ok(()),
        ),
        ApprovalResult::Denied { reason } => {
            let event = AuditEvent::new(
                agent_id,
                AuditEventKind::HumanApprovalDenied { reason: reason.clone() },
            );
            let mut why = "human denied: ".to_owned();
            why.append(reason.as_str());
            (
                Some(event),
                Err(
                    CoreError::CapabilityDenied {
                        agent_id,
                        capability: Capability::ToolInvoke { tool_name: tool.to_owned() },
                        reason: why,
                    },
                ),
            )
        },
        ApprovalResult::Timeout => (
            None,
            Err(
                CoreError::CapabilityDenied {
                    agent_id,
                    capability: Capability::ToolInvoke { tool_name: tool.to_owned() },
                    reason: "approval timed out".to_owned(),
                },
            ),
        ),
    }
}

/// What a human is asked on behalf of an agent in its own words.
pub fn approval_request(registry: &AgentRegistry, agent_id: AgentId, description: String) -> (r:
    ApprovalRequest)
    ensures
        r.agent_id == agent_id,
        r.agent_name@ == (if registry.agents().dom().contains(agent_id.uuid) {
            registry.agents()[agent_id.uuid].manifest@.name
        } else {
            "unknown"@
        }),
        r.description == description,
        r.tool is None,
        r.input is None,
{
    let agent_name = match registry.get_manifest(agent_id) {
        Ok(m) => m.name,
        Err(_) => "unknown".to_owned(),
    };
    ApprovalRequest { agent_id, agent_name, description, tool: None, input: None }
}

/// A message to another agent.
#[derive(Debug)]
pub struct OutgoingMessage {
    pub recipient: AgentId,
    pub method: String,
    pub params: Json,
}

/// The method that a message asks for.
pub open spec fn message_method(message: JsonView) -> Seq<char> {
    match text_of(field(message, "method"@)) {
        Some(m) => m,
        None => "notify"@,
    }
}

/// What a message is sent with.
pub open spec fn message_params(message: JsonView) -> JsonView {
    match field(message, "params"@) {
        Some(p) => p,
        None => JsonView::Object(Seq::empty()),
    }
}

/// A message to the agent whose identity was read, or else the words for what
/// is wrong with it.
pub fn address(message: &Json, recipient: Result<u128, String>) -> (r: Result<
    OutgoingMessage,
    CoreError,
>)
    ensures
        match recipient {
            Ok(id) => {
                &&& r is Ok
                &&& r->Ok_0.recipient == (AgentId { uuid: id })
                &&& r->Ok_0.method@ == message_method(message@)
                &&& r->Ok_0.params@ == message_params(message@)
            },
            Err(fault) => r is Err && (r->Err_0)@ == CoreErrorView::Ipc(
                "invalid recipient: "@ + fault@,
            ),
        },
{
    match recipient {
        Err(fault) => {
            let mut m = "invalid recipient: ".to_owned();
            m.append(fault.as_str());
            Err(CoreError::Ipc(m))
        },
        Ok(id) => {
            let method = match message.get_str("method") {
                Some(t) => t.clone(),
                None => "notify".to_owned(),
            };
            let params = match message.get("params") {
                Some(p) => p.copy(),
                None => empty_object(),
            };
            Ok(OutgoingMessage { recipient: AgentId { uuid: id }, method, params })
        },
    }
}

/// An object without fields.
fn empty_object() -> (r: Json)
    ensures
        r@ == JsonView::Object(Seq::empty()),
{
    let none: Vec<(String, Json)> = Vec::new();
    assert(fields_view(none@) =~= Seq::<(Seq<char>, JsonView)>::empty());
    object(none)
}

/// The message that an agent asks to send.
pub fn parse_message(message: &Json) -> (r: Result<OutgoingMessage, CoreError>)
    ensures
        match text_of(field(message@, "recipient"@)) {
            None => r is Err && (r->Err_0)@ == CoreErrorView::Ipc(
                "missing 'recipient' in message"@,
            ),
            Some(name) => match uuid_value(name) {
                None => r is Err && (r->Err_0)@ == CoreErrorView::Ipc(
                    "invalid recipient: "@ + uuid_fault(name),
                ),
                Some(id) => {
                    &&& r is Ok
                    &&& r->Ok_0.recipient == (AgentId { uuid: id })
                    &&& r->Ok_0.method@ == message_method(message@)
                    &&& r->Ok_0.params@ == message_params(message@)
                },
            },
        },
{
    match message.get_str("recipient") {
        None => Err(CoreError::Ipc("missing 'recipient' in message".to_owned())),
        Some(name) => address(message, uuid_from_json(name.as_str())),
    }
}

/// What is answered once a message is on its way.
pub fn delivered() -> (r: Json)
    ensures
        r@ == JsonView::Object(seq![("status"@, JsonView::Text("delivered"@))]),
{
    let mut f: Vec<(String, Json)> = Vec::new();
    f.push(entry("status", text("delivered")));
    assert(fields_view(f@) =~= seq![("status"@, JsonView::Text("delivered"@))]);
    object(f)
}

/// Keeps track of what an agent used: what to charge its budget with, if it
/// has one, and what to record.
pub fn report_usage(registry: &AgentRegistry, agent_id: AgentId, usage: TokenUsage, budgeted: bool) -> (r:
    Result<(Option<u64>, AuditEvent), CoreError>)
    requires
        usage.input_tokens + usage.output_tokens <= u64::MAX,
    ensures
        match r {
            Ok((charge, event)) => {
                &&& registry.agents().dom().contains(agent_id.uuid)
                &&& charge == (if budgeted && usage.input_tokens + usage.output_tokens > 0 {
                    Some((usage.input_tokens + usage.output_tokens) as u64)
                } else {
                    None
                })
                &&& event.agent_id == agent_id
                &&& event.event@ == (AuditEventKindView::UsageReported {
                    input_tokens: usage.input_tokens,
                    output_tokens: usage.output_tokens,
                })
            },
            Err(e) => !registry.agents().dom().contains(agent_id.uuid) && e@
                == CoreErrorView::AgentNotFound(agent_id),
        },
{
    let input_tokens: u64 = usage.input_tokens;
    let output_tokens: u64 = usage.output_tokens;
    match registry.track_token_usage(agent_id, usage, budgeted) {
        Ok(charge) => Ok(
            (
                charge,
                AuditEvent::new(
                    agent_id,
                    AuditEventKind::UsageReported { input_tokens, output_tokens },
                ),
            ),
        ),
        Err(e) => Err(e),
    }
}

/// The tools that an agent may call, in their order: `permits` tells of each
/// tool and each of the agent's capabilities whether it permits the tool.
pub open spec fn callable(
    tools: Seq<ToolDefinitionView>,
    permits: Seq<Vec<bool>>,
    n: int,
) -> Seq<ToolDefinitionView>
    decreases n,
{
    if n <= 0 {
        Seq::empty()
    } else if permitted(permits[n - 1]@) {
        callable(tools, permits, n - 1).push(tools[n - 1])
    } else {
        callable(tools, permits, n - 1)
    }
}

/// What a list of tools says.
pub open spec fn definitions_view(s: Seq<ToolDefinition>) -> Seq<ToolDefinitionView> {
    s.map_values(|t: ToolDefinition| t@)
}

/// The tools that an agent may call.
pub fn list_tools(tools: &Vec<ToolDefinition>, permits: &Vec<Vec<bool>>) -> (r: Vec<ToolDefinition>)
    requires
        permits@.len() == tools@.len(),
    ensures
        definitions_view(r@) == callable(
            definitions_view(tools@),
            permits@,
            tools@.len() as int,
        ),
{
    let ghost all = definitions_view(tools@);
    let mut out: Vec<ToolDefinition> = Vec::new();
    let mut i: usize = 0;
    assert(definitions_view(out@) =~= Seq::<ToolDefinitionView>::empty());
    while i < tools.len()
        invariant
            all == definitions_view(tools@),
            permits@.len() == tools@.len(),
            0 <= i <= tools@.len(),
            definitions_view(out@) == callable(all, permits@, i as int),
        decreases tools@.len() - i,
    {
        let ghost before = definitions_view(out@);
        assert(all[i as int] == tools@[i as int]@);
        if any_permits(&permits[i]) {
            out.push(tools[i].copy());
            assert(definitions_view(out@) =~= before.push(all[i as int]));
        }
        i += 1;
    }
    out
}

/// Lets an agent send another a message and wait for the answer.
pub fn authorize_send(agent_id: AgentId, recipient: AgentId, permits: &Vec<bool>) -> (r: Result<
    (),
    CoreError,
>)
    ensures
        match r {
            Ok(_) => permitted(permits@),
            Err(e) => !permitted(permits@) && e@ == (CoreErrorView::CapabilityDenied {
                agent_id,
                capability: CapabilityView::MessageSend {
                    target_agents: seq![hyphenated(recipient.uuid)],
                },
                reason: "send_and_wait not permitted"@,
            }),
        },
{
    let mut targets: Vec<String> = Vec::new();
    targets.push(recipient.to_text());
    assert(views(targets@) =~= seq![hyphenated(recipient.uuid)]);
    let send = Capability::MessageSend { target_agents: targets };
    proof {
        reveal_strlit("");
        assert("send_and_wait not permitted"@ + ""@ =~= "send_and_wait not permitted"@);
    }
    require(agent_id, permits, send, "send_and_wait not permitted", "")
}

/// What came back to an agent that waited.
#[derive(Debug)]
pub enum Awaited {
    /// An answer, with a result or the words of an error, or neither.
    Answer { result: Option<Json>, error: Option<String> },
    /// Nobody is there to answer any more.
    Dropped,
    /// Nothing, for so long.
    TimedOut(Span),
}

/// What an agent that waited gets. What was waited for is no longer waited for
/// only where it came: everything else has to be taken back.
pub fn awaited(reply: Awaited) -> (r: Result<Json, CoreError>)
    ensures
        match reply {
            Awaited::Answer { result: Some(v), .. } => r == Ok::<Json, CoreError>(v),
            Awaited::Answer { result: None, error: Some(m) } => r is Err && (r->Err_0)@
                == CoreErrorView::Ipc(m@),
            Awaited::Answer { result: None, error: None } => r is Ok && (r->Ok_0)@
                == JsonView::Object(Seq::empty()),
            Awaited::Dropped => r is Err && (r->Err_0)@ == CoreErrorView::Ipc(
                "responder dropped"@,
            ),
            Awaited::TimedOut(d) => r is Err && (r->Err_0)@ == CoreErrorView::Timeout(d),
        },
{
    match reply {
        Awaited::Answer { result, error } => match result {
            Some(v) => Ok(v),
            None => match error {
                Some(m) => Err(CoreError::Ipc(m)),
                None => Ok(empty_object()),
            },
        },
        Awaited::Dropped => Err(CoreError::Ipc("responder dropped".to_owned())),
        Awaited::TimedOut(d) => Err(CoreError::Timeout(d)),
    }
}

/// A tool can be called by an agent exactly where one of its capabilities
/// permits that, and those that can be are listed in their order.
pub proof fn law_callable_are_those_permitted(
    tools: Seq<ToolDefinitionView>,
    permits: Seq<Vec<bool>>,
    m: int,
    n: int,
)
    requires
        0 <= m <= n <= tools.len() == permits.len(),
    ensures
        callable(tools, permits, n) == callable(tools, permits, m) + callable(
            tools.skip(m),
            permits.skip(m),
            n - m,
        ),
        n == m + 1 && (exists|k: int|
            0 <= k < permits[m]@.len() && #[trigger] permits[m]@[k]) ==> callable(tools, permits, n)
            == callable(tools, permits, m).push(tools[m]),
        n == m + 1 && (forall|k: int|
            0 <= k < permits[m]@.len() ==> !#[trigger] permits[m]@[k]) ==> callable(
            tools,
            permits,
            n,
        ) == callable(tools, permits, m),
    decreases n,
{
    if m < n {
        law_callable_are_those_permitted(tools, permits, m, n - 1);
        assert(tools.skip(m)[n - 1 - m] == tools[n - 1]);
        assert(permits.skip(m)[n - 1 - m] == permits[n - 1]);
    }
    assert(callable(tools, permits, n) =~= callable(tools, permits, m) + callable(
        tools.skip(m),
        permits.skip(m),
        n - m,
    ));
}

/// A human is asked about exactly the tools that the manifest names, and is
/// told who wants to call what.
pub proof fn law_humans_are_asked(
    manifest: AgentManifestView,
    agent_name: Seq<char>,
    tool: Seq<char>,
    i: int,
)
    ensures
        0 <= i < manifest.approval_required.len() ==> needs_approval(
            manifest,
            manifest.approval_required[i],
        ),
        (forall|k: int|
            0 <= k < manifest.approval_required.len() ==> #[trigger] manifest.approval_required[k]
                != tool) ==> !needs_approval(manifest, tool),
        contains_text(tool_question(agent_name, tool), agent_name),
        contains_text(tool_question(agent_name, tool), tool),
{
    let a = "Agent '"@;
    let b = "' wants to invoke tool '"@;
    law_four_parts(a, agent_name, b, tool);
    law_text_holds_its_parts(a + agent_name + b + tool, "'"@, agent_name);
    law_text_holds_its_parts(a + agent_name + b + tool, "'"@, tool);
}

/// A message goes out with the method and the parameters that it names; where
/// it names none it is a notice, and has none.
pub proof fn law_messages_go_out_as_given(message: JsonView, m: Seq<char>, p: JsonView)
    ensures
        field(message, "method"@) == Some(JsonView::Text(m)) ==> message_method(message) == m,
        field(message, "method"@) is None ==> message_method(message) == "notify"@,
        field(message, "params"@) == Some(p) ==> message_params(message) == p,
        field(message, "params"@) is None ==> message_params(message) == JsonView::Object(
            Seq::empty(),
        ),
{
}

} // verus!
