//! The table of running agents.

use crate::audit::{
    events_view, AgentStopReason, AuditEvent, AuditEventKind, AuditEventKindView,
};
use crate::capability::{Capability, CapabilityView};
use crate::error::{CoreError, CoreErrorView};
use crate::ids::hyphenated;
use crate::json::{lemma_object_view, object_view, text_of, Json, JsonView};
use crate::process::{
    declarations_view, summary, AgentInfo, AgentManifest, AgentManifestView, AgentProcess,
    AgentState, CapabilityDeclaration, CapabilityDeclarationView, Lifecycle,
};
use crate::table::lookup;
use crate::text::{
    begins_with, char_position, contains_text, decimal, decimal_text, from_range, is_space, joined,
    lemma_char_position, same, split, split_pieces, strip_prefix, to_chars, trim, trimmed, views,
};
use crate::text_laws::{
    law_joined_by_parts, law_leading_space_is_left_out, law_nothing_to_trim, law_parts_occur,
    law_trimmed_is_the_middle, law_white_space,
};
use crate::types::AgentId;
use dashmap::DashMap;
use vstd::prelude::*;
use vstd::string::*;

verus! {

/// The deepest that agents may spawn agents.
pub const MAX_SPAWN_DEPTH: u32 = 5;

/// How many agents a registry takes where nothing else is said.
pub const DEFAULT_MAX_AGENTS: usize = 100;

/// Brackets at the ends of a list.
pub open spec fn is_bracket(c: char) -> bool {
    c == '[' || c == ']'
}

/// `s` without the brackets at its start.
pub open spec fn unbracketed_start(s: Seq<char>) -> Seq<char>
    decreases s.len(),
{
    if s.len() > 0 && is_bracket(s[0]) {
        unbracketed_start(s.skip(1))
    } else {
        s
    }
}

/// `s` without the brackets at its end.
pub open spec fn unbracketed_end(s: Seq<char>) -> Seq<char>
    decreases s.len(),
{
    if s.len() > 0 && is_bracket(s.last()) {
        unbracketed_end(s.drop_last())
    } else {
        s
    }
}

/// The names in a list: what stands between the commas, without white space
/// round it, where anything does.
pub open spec fn listed_names(s: Seq<char>) -> Seq<Seq<char>> {
    split_pieces(unbracketed_end(unbracketed_start(s)), ',').map_values(
        |p: Seq<char>| trimmed(p),
    ).filter(|p: Seq<char>| p.len() > 0)
}

/// The fields without the one that gives the name.
pub open spec fn nameless(params: Seq<(Seq<char>, JsonView)>) -> Seq<(Seq<char>, JsonView)> {
    params.filter(|p: (Seq<char>, JsonView)| p.0 != "name"@)
}

/// The capability that a declaration means, if it means any.
pub open spec fn declared(decl: CapabilityDeclarationView) -> Option<CapabilityView> {
    match decl {
        CapabilityDeclarationView::Simple(text) => {
            let s = trimmed(text);
            let after = |p: Seq<char>| s.skip(p.len() as int);
            if s == "web_search"@ {
                Some(CapabilityView::WebSearch)
            } else if begins_with(s, "file_read:"@) {
                Some(CapabilityView::FileRead { path_glob: trimmed(after("file_read:"@)) })
            } else if begins_with(s, "file_write:"@) {
                Some(CapabilityView::FileWrite { path_glob: trimmed(after("file_write:"@)) })
            } else if begins_with(s, "tool:"@) {
                Some(CapabilityView::ToolInvoke { tool_name: trimmed(after("tool:"@)) })
            } else if begins_with(s, "spawn_child:"@) {
                Some(
                    CapabilityView::SpawnChild {
                        allowed_agents: listed_names(trimmed(after("spawn_child:"@))),
                    },
                )
            } else {
                Some(CapabilityView::Custom { name: s, params: JsonView::Null })
            }
        },
        CapabilityDeclarationView::WithParams { params } => match text_of(
            lookup(params, "name"@),
        ) {
            Some(name) => Some(
                CapabilityView::Custom { name, params: JsonView::Object(nameless(params)) },
            ),
            None => None,
        },
    }
}

/// The names in a list.
fn list_names(s: &str) -> (r: Vec<String>)
    ensures
        views(r@) == listed_names(s@),
{
    let v = to_chars(s);
    let mut a: usize = 0;
    assert(v@.skip(0) =~= s@);
    while a < v.len() && (v[a] == '[' || v[a] == ']')
        invariant
            0 <= a <= v@.len(),
            v@ == s@,
            unbracketed_start(s@) == unbracketed_start(s@.skip(a as int)),
        decreases v@.len() - a,
    {
        assert(s@.skip(a as int).skip(1) =~= s@.skip(a + 1));
        a += 1;
    }
    let mut b: usize = v.len();
    assert(s@.skip(a as int) =~= s@.subrange(a as int, b as int));
    let ghost whole = unbracketed_end(unbracketed_start(s@));
    while b > a && (v[b - 1] == '[' || v[b - 1] == ']')
        invariant
            0 <= a <= b <= v@.len(),
            v@ == s@,
            whole == unbracketed_end(s@.subrange(a as int, b as int)),
        decreases b,
    {
        assert(s@.subrange(a as int, b as int).drop_last() =~= s@.subrange(a as int, b - 1));
        b -= 1;
    }
    let inner = from_range(&v, a, b);
    let pieces = split(inner.as_str(), ',');
    let ghost keep = |p: Seq<char>| p.len() > 0;
    let ghost cut = views(pieces@).map_values(|p: Seq<char>| trimmed(p));
    let mut out: Vec<String> = Vec::new();
    let mut i: usize = 0;
    proof {
        reveal(Seq::filter);
        assert(cut.take(0).filter(keep) =~= views(out@));
    }
    while i < pieces.len()
        invariant
            0 <= i <= pieces@.len(),
            keep == (|p: Seq<char>| p.len() > 0),
            cut == views(pieces@).map_values(|p: Seq<char>| trimmed(p)),
            views(out@) == cut.take(i as int).filter(keep),
        decreases pieces@.len() - i,
    {
        let name = trim(pieces[i].as_str());
        let ghost before = views(out@);
        assert(name@ == cut[i as int]);
        proof {
            assert(cut.take(i + 1) =~= cut.take(i as int).push(cut[i as int]));
            cut.take(i as int).lemma_filter_push(cut[i as int], keep);
        }
        if !name.as_str().is_empty() {
            out.push(name);
            assert(views(out@) =~= before.push(cut[i as int]));
        }
        i += 1;
    }
    assert(cut.take(i as int) =~= cut);
    out
}

/// The fields without the one that gives the name.
fn drop_name(params: &Vec<(String, Json)>) -> (r: Vec<(String, Json)>)
    ensures
        object_view(r@) == nameless(object_view(params@)),
{
    let ghost all = object_view(params@);
    let ghost keep = |p: (Seq<char>, JsonView)| p.0 != "name"@;
    let mut out: Vec<(String, Json)> = Vec::new();
    let mut i: usize = 0;
    proof {
        lemma_object_view(params@);
        reveal(Seq::filter);
        assert(all.take(0).filter(keep) =~= object_view(out@));
    }
    while i < params.len()
        invariant
            0 <= i <= params@.len(),
            keep == (|p: (Seq<char>, JsonView)| p.0 != "name"@),
            all.len() == params@.len(),
            forall|k: int|
                0 <= k < params@.len() ==> #[trigger] all[k] == (params@[k].0@, params@[k].1@),
            object_view(out@) == all.take(i as int).filter(keep),
        decreases params@.len() - i,
    {
        let ghost before = out@;
        assert(all[i as int] == (params@[i as int].0@, params@[i as int].1@));
        proof {
            assert(all.take(i + 1) =~= all.take(i as int).push(all[i as int]));
            all.take(i as int).lemma_filter_push(all[i as int], keep);
        }
        if !same(params[i].0.as_str(), "name") {
            out.push((params[i].0.clone(), params[i].1.copy()));
            assert(out@.drop_last() =~= before);
        }
        i += 1;
    }
    assert(all.take(i as int) =~= all);
    out
}

/// The capability that a declaration means, if it means any.
pub fn parse_capability_declaration(decl: &CapabilityDeclaration) -> (r: Option<Capability>)
    ensures
        match r {
            Some(c) => declared(decl@) == Some(c@),
            None => declared(decl@) is None,
        },
{
    match decl {
        CapabilityDeclaration::Simple(text) => {
            let s = trim(text.as_str());
            if same(s.as_str(), "web_search") {
                return Some(Capability::WebSearch);
            }
            if let Some(path) = strip_prefix(s.as_str(), "file_read:") {
                return Some(Capability::FileRead { path_glob: trim(path.as_str()) });
            }
            if let Some(path) = strip_prefix(s.as_str(), "file_write:") {
                return Some(Capability::FileWrite { path_glob: trim(path.as_str()) });
            }
            if let Some(tool) = strip_prefix(s.as_str(), "tool:") {
                return Some(Capability::ToolInvoke { tool_name: trim(tool.as_str()) });
            }
            if let Some(agents) = strip_prefix(s.as_str(), "spawn_child:") {
                let list = trim(agents.as_str());
                return Some(Capability::SpawnChild { allowed_agents: list_names(list.as_str()) });
            }
            Some(Capability::Custom { name: s, params: Json::Null })
        },
        CapabilityDeclaration::WithParams { params } => {
            let whole = Json::Object(crate::process::copy_fields(params));
            assert(whole@ == JsonView::Object(object_view(params@)));
            match whole.get_str("name") {
                Some(name) => Some(
                    Capability::Custom {
                        name: name.clone(),
                        params: Json::Object(drop_name(params)),
                    },
                ),
                None => None,
            }
        },
    }
}

/// The capabilities that the first `n` declarations mean.
pub open spec fn declared_among(decls: Seq<CapabilityDeclarationView>, n: int) -> Seq<
    CapabilityView,
>
    decreases n,
{
    if n <= 0 {
        Seq::empty()
    } else {
        match declared(decls[n - 1]) {
            Some(c) => declared_among(decls, n - 1).push(c),
            None => declared_among(decls, n - 1),
        }
    }
}

/// The capabilities that an agent is granted: those that its manifest
/// declares, and for one that persists that of sending to itself.
pub open spec fn granted_to(id: AgentId, m: AgentManifestView) -> Seq<CapabilityView> {
    let own = declared_among(m.capabilities, m.capabilities.len() as int);
    if m.lifecycle == Lifecycle::Persistent {
        own.push(CapabilityView::MessageSend { target_agents: seq![hyphenated(id.uuid)] })
    } else {
        own
    }
}

/// What a list of capabilities says.
pub open spec fn capabilities_view(s: Seq<Capability>) -> Seq<CapabilityView> {
    s.map_values(|c: Capability| c@)
}

/// What is put on record when an agent is granted capabilities: each of them,
/// in their order.
pub open spec fn grant_events(id: AgentId, granted: Seq<CapabilityView>) -> Seq<
    (AgentId, AuditEventKindView),
> {
    granted.map_values(
        |c: CapabilityView| (id, AuditEventKindView::CapabilityGranted { capability: c }),
    )
}

/// The capabilities that an agent is granted, and what goes on record of it.
pub fn issue_capabilities(id: AgentId, manifest: &AgentManifest) -> (r: (
    Vec<Capability>,
    Vec<AuditEvent>,
))
    ensures
        capabilities_view(r.0@) == granted_to(id, manifest@),
        events_view(r.1@) == grant_events(id, granted_to(id, manifest@)),
{
    let granted = list_capabilities(id, manifest);
    let ghost all = granted_to(id, manifest@);
    let ghost want = grant_events(id, all);
    let mut events: Vec<AuditEvent> = Vec::new();
    let mut i: usize = 0;
    assert(events_view(events@) =~= want.take(0));
    while i < granted.len()
        invariant
            0 <= i <= granted@.len(),
            all == capabilities_view(granted@),
            want == grant_events(id, all),
            events_view(events@) == want.take(i as int),
        decreases granted@.len() - i,
    {
        let ghost before = events_view(events@);
        assert(all[i as int] == granted@[i as int]@);
        let event = AuditEventKind::CapabilityGranted { capability: granted[i].copy() };
        assert((id, event@) == want[i as int]);
        events.push(AuditEvent::new(id, event));
        assert(events_view(events@) =~= before.push(want[i as int]));
        assert(want.take(i + 1) =~= want.take(i as int).push(want[i as int]));
        i += 1;
    }
    assert(want.take(i as int) =~= want);
    (granted, events)
}

/// The capabilities that an agent is granted.
fn list_capabilities(id: AgentId, manifest: &AgentManifest) -> (r: Vec<Capability>)
    ensures
        capabilities_view(r@) == granted_to(id, manifest@),
{
    let ghost decls = declarations_view(manifest.capabilities@);
    let mut out: Vec<Capability> = Vec::new();
    let mut i: usize = 0;
    assert(capabilities_view(out@) =~= Seq::<CapabilityView>::empty());
    while i < manifest.capabilities.len()
        invariant
            0 <= i <= manifest.capabilities@.len(),
            decls == declarations_view(manifest.capabilities@),
            capabilities_view(out@) == declared_among(decls, i as int),
        decreases manifest.capabilities@.len() - i,
    {
        let ghost before = capabilities_view(out@);
        assert(decls[i as int] == manifest.capabilities@[i as int]@);
        if let Some(c) = parse_capability_declaration(&manifest.capabilities[i]) {
            let ghost cv = c@;
            out.push(c);
            assert(capabilities_view(out@) =~= before.push(cv));
        }
        i += 1;
    }
    if manifest.lifecycle == Lifecycle::Persistent {
        let ghost before = capabilities_view(out@);
        let mut targets: Vec<String> = Vec::new();
        targets.push(id.to_text());
        assert(views(targets@) =~= seq![hyphenated(id.uuid)]);
        out.push(Capability::MessageSend { target_agents: targets });
        assert(capabilities_view(out@) =~= before.push(
            CapabilityView::MessageSend { target_agents: seq![hyphenated(id.uuid)] },
        ));
    }
    out
}

/// The agents in a map.
pub uninterp spec fn agents_of(m: DashMap<u128, AgentProcess>) -> Map<u128, AgentProcess>;

/// `DashMap::new`: nothing is in the map.
#[verifier::external_body]
fn new_agents() -> (m: DashMap<u128, AgentProcess>)
    ensures
        agents_of(m).dom() == Set::<u128>::empty(),
{
    DashMap::new()
}

/// `DashMap::contains_key`: whether something stands under the key.
#[verifier::external_body]
fn has_key(m: &DashMap<u128, AgentProcess>, key: u128) -> (r: bool)
    ensures
        r == agents_of(*m).dom().contains(key),
{
    m.contains_key(&key)
}

/// `DashMap::get`: a copy of the value under the key, if there is one.
#[verifier::external_body]
fn get_agent(m: &DashMap<u128, AgentProcess>, key: u128) -> (r: Option<AgentProcess>)
    ensures
        match r {
            Some(p) => agents_of(*m).dom().contains(key) && agents_of(*m)[key]@ == p@,
            None => !agents_of(*m).dom().contains(key),
        },
{
    m.get(&key).map(|e| e.copy())
}

/// `DashMap::insert`: the value stands under the key, whatever stood there
/// before; all else stays.
#[verifier::external_body]
fn put_agent(m: &mut DashMap<u128, AgentProcess>, key: u128, value: AgentProcess)
    ensures
        agents_of(*final(m)) == agents_of(*old(m)).insert(key, value),
{
    m.insert(key, value);
}

/// `DashMap::remove`: takes out what stands under the key; all else stays.
#[verifier::external_body]
fn take_agent(m: &mut DashMap<u128, AgentProcess>, key: u128) -> (r: Option<AgentProcess>)
    ensures
        agents_of(*final(m)) == agents_of(*old(m)).remove(key),
        match r {
            Some(p) => agents_of(*old(m)).dom().contains(key) && agents_of(*old(m))[key] == p,
            None => !agents_of(*old(m)).dom().contains(key),
        },
{
    m.remove(&key).map(|e| e.1)
}

/// `DashMap::len`: how many keys there are.
#[verifier::external_body]
fn count_agents(m: &DashMap<u128, AgentProcess>) -> (n: usize)
    ensures
        n == agents_of(*m).dom().len(),
{
    m.len()
}

/// `DashMap::iter`: the summary of each value in the map, one for each key, in
/// an order that is not told.
#[verifier::external_body]
fn list_agents(m: &DashMap<u128, AgentProcess>) -> (r: Vec<AgentInfo>)
    ensures
        exists|keys: Seq<u128>|
            #![trigger keys.to_set()]
            keys.no_duplicates() && keys.to_set() == agents_of(*m).dom() && keys.len() == r@.len()
                && forall|i: int|
                0 <= i < r@.len() ==> (#[trigger] r@[i])@ == summary(agents_of(*m)[keys[i]]@),
{
    m.iter().map(|e| e.value().info()).collect()
}

/// Whether a list has a pair.
fn has_pair(v: &Vec<(u64, u128)>, a: u64, b: u128) -> (r: bool)
    ensures
        r == v@.contains((a, b)),
{
    let mut j: usize = 0;
    while j < v.len()
        invariant
            0 <= j <= v@.len(),
            forall|k: int| 0 <= k < j ==> #[trigger] v@[k] != (a, b),
        decreases v@.len() - j,
    {
        if v[j].0 == a && v[j].1 == b {
            assert(v@[j as int] == (a, b));
            return true;
        }
        j += 1;
    }
    false
}

/// A place in the registry that was set aside for an agent.
#[derive(Debug)]
pub struct AgentSlot {
    committed: bool,
}

impl AgentSlot {
    /// Whether the place belongs to an agent by now.
    pub closed spec fn is_committed(&self) -> bool {
        self.committed
    }

    /// Gives the place to the agent that was put into the registry.
    pub fn commit(self) -> (r: AgentSlot)
        ensures
            r.is_committed(),
    {
        AgentSlot { committed: true }
    }
}

/// The running agents. No more are taken in than the limit says.
pub struct AgentRegistry {
    agents: DashMap<u128, AgentProcess>,
    active_count: usize,
    max_agents: usize,
}

/// How many tokens a call of the model used.
#[derive(Debug, Clone, Copy, PartialEq, Eq, Structural)]
pub struct TokenUsage {
    pub input_tokens: u64,
    pub output_tokens: u64,
}

impl AgentRegistry {
    /// The agents, by the values of their UUIDs.
    pub closed spec fn agents(&self) -> Map<u128, AgentProcess> {
        agents_of(self.agents)
    }

    /// How many places are taken or set aside.
    pub closed spec fn active(&self) -> nat {
        self.active_count as nat
    }

    /// How many agents there may be.
    pub closed spec fn limit(&self) -> nat {
        self.max_agents as nat
    }

    /// How many places are set aside for agents that are not there yet.
    pub open spec fn reserved(&self) -> int {
        self.active() - self.agents().dom().len()
    }

    /// Every agent has a place, no more places are given than there are, and
    /// each agent stands under its own id.
    pub open spec fn wf(&self) -> bool {
        &&& self.agents().dom().finite()
        &&& self.agents().dom().len() <= self.active() <= self.limit()
        &&& forall|k: u128|
            self.agents().dom().contains(k) ==> (#[trigger] self.agents()[k]).id.uuid == k
    }

    /// An empty registry with the usual limit.
    pub fn new() -> (r: AgentRegistry)
        ensures
            r.wf(),
            r.agents().dom() == Set::<u128>::empty(),
            r.active() == 0,
            r.limit() == DEFAULT_MAX_AGENTS,
    {
        AgentRegistry::new_with_limit(DEFAULT_MAX_AGENTS)
    }

    /// An empty registry that takes `max_agents` agents.
    pub fn new_with_limit(max_agents: usize) -> (r: AgentRegistry)
        ensures
            r.wf(),
            r.agents().dom() == Set::<u128>::empty(),
            r.active() == 0,
            r.limit() == max_agents,
    {
        AgentRegistry { agents: new_agents(), active_count: 0, max_agents }
    }

    /// The error where every place is taken.
    pub open spec fn full_error(&self) -> CoreErrorView {
        CoreErrorView::InvalidManifest(
            "agent limit exceeded: max "@ + decimal(self.limit()) + " agents"@,
        )
    }

    /// Sets a place aside for an agent.
    pub fn reserve_slot(&mut self) -> (r: Result<AgentSlot, CoreError>)
        requires
            old(self).wf(),
        ensures
            final(self).wf(),
            final(self).agents() == old(self).agents(),
            final(self).limit() == old(self).limit(),
            old(self).active() < old(self).limit() ==> r is Ok && !r->Ok_0.is_committed() && final(
                self).active() == old(self).active() + 1,
            old(self).active() >= old(self).limit() ==> {
                &&& r is Err
                &&& r->Err_0@ == old(self).full_error()
                &&& final(self).active() == old(self).active()
            },
    {
        if self.active_count >= self.max_agents {
            let mut m = "agent limit exceeded: max ".to_owned();
            let n = decimal_text(self.max_agents as u64);
            m.append(n.as_str());
            m.append(" agents");
            return Err(CoreError::InvalidManifest(m));
        }
        self.active_count = self.active_count + 1;
        Ok(AgentSlot { committed: false })
    }

    /// Gives a place back, unless it belongs to an agent by now.
    pub fn release_slot(&mut self, slot: AgentSlot)
        requires
            old(self).wf(),
            !slot.is_committed() ==> old(self).reserved() > 0,
        ensures
            final(self).wf(),
            final(self).agents() == old(self).agents(),
            final(self).limit() == old(self).limit(),
            final(self).active() == old(self).active() - (if slot.is_committed() {
                0int
            } else {
                1int
            }),
    {
        if !slot.committed {
            self.active_count = self.active_count - 1;
        }
    }

    /// Puts an agent under its id, where no agent stands yet.
    fn insert_agent(&mut self, process: AgentProcess) -> (r: Result<(), CoreError>)
        requires
            old(self).wf(),
            old(self).reserved() > 0,
        ensures
            final(self).wf(),
            final(self).active() == old(self).active(),
            final(self).limit() == old(self).limit(),
            old(self).agents().dom().contains(process.id.uuid) ==> {
                &&& r is Err
                &&& r->Err_0@ == duplicate_error(process.id)
                &&& final(self).agents() == old(self).agents()
            },
            !old(self).agents().dom().contains(process.id.uuid) ==> r is Ok && final(self).agents()
                == old(self).agents().insert(process.id.uuid, process),
    {
        let id = process.id;
        if has_key(&self.agents, id.uuid) {
            let mut m = "agent with id ".to_owned();
            let t = id.to_text();
            m.append(t.as_str());
            m.append(" already exists");
            return Err(CoreError::InvalidManifest(m));
        }
        put_agent(&mut self.agents, id.uuid, process);
        Ok(())
    }

    /// Takes an agent in, running, with the handles of its capabilities. Where
    /// the agent cannot be taken in, the registry stays as it was.
    fn install(&mut self, process: AgentProcess) -> (r: (
        Result<AgentId, CoreError>,
        Vec<AuditEvent>,
    ))
        requires
            old(self).wf(),
            process.state == AgentState::Starting,
        ensures
            final(self).wf(),
            final(self).limit() == old(self).limit(),
            installed(*old(self), *final(self), process, r.0, events_view(r.1@)),
    {
        let mut events: Vec<AuditEvent> = Vec::new();
        assert(events_view(events@) =~= Seq::<(AgentId, AuditEventKindView)>::empty());
        let slot = match self.reserve_slot() {
            Err(e) => {
                return (Err(e), events);
            },
            Ok(slot) => slot,
        };
        let id = process.id;
        let mut process = process;
        let name = process.manifest.name.clone();
        if let Err(e) = process.transition_to(AgentState::Running) {
            self.release_slot(slot);
            return (Err(e), events);
        }
        match self.insert_agent(process) {
            Err(e) => {
                self.release_slot(slot);
                (Err(e), events)
            },
            Ok(_) => {
                let event = AuditEventKind::AgentSpawned { manifest_name: name };
                events.push(AuditEvent::new(id, event));
                assert(events_view(events@) =~= seq![(id, event@)]);
                let kept = slot.commit();
                self.release_slot(kept);
                (Ok(id), events)
            },
        }
    }

    /// Takes in an agent with an identity of its own. `handles` are those of
    /// the capabilities that its manifest gives it.
    pub fn spawn(&mut self, manifest: AgentManifest, id: AgentId, handles: Vec<u64>) -> (r: (
        Result<AgentId, CoreError>,
        Vec<AuditEvent>,
    ))
        requires
            old(self).wf(),
        ensures
            final(self).wf(),
            final(self).limit() == old(self).limit(),
            installed(
                *old(self),
                *final(self),
                (AgentProcess {
                    id,
                    manifest,
                    state: AgentState::Starting,
                    capabilities: handles,
                    persistent_identity: false,
                    depth: 0,
                    parent_agent: None,
                }),
                r.0,
                events_view(r.1@),
            ),
    {
        self.install(AgentProcess::new(id, manifest, handles))
    }

    /// Takes in an agent whose identity outlives it.
    pub fn spawn_with_id(&mut self, manifest: AgentManifest, id: AgentId, handles: Vec<u64>) -> (r: (
        Result<AgentId, CoreError>,
        Vec<AuditEvent>,
    ))
        requires
            old(self).wf(),
        ensures
            final(self).wf(),
            final(self).limit() == old(self).limit(),
            installed(
                *old(self),
                *final(self),
                (AgentProcess {
                    id,
                    manifest,
                    state: AgentState::Starting,
                    capabilities: handles,
                    persistent_identity: true,
                    depth: 0,
                    parent_agent: None,
                }),
                r.0,
                events_view(r.1@),
            ),
    {
        let mut process = AgentProcess::new(id, manifest, handles);
        process.persistent_identity = true;
        self.install(process)
    }

    /// Takes in an agent that another one spawned, with capabilities that were
    /// narrowed down for it.
    pub fn spawn_with_token_handles(
        &mut self,
        id: AgentId,
        manifest: AgentManifest,
        capabilities: Vec<u64>,
        depth: u32,
        parent: Option<AgentId>,
    ) -> (r: (Result<AgentId, CoreError>, Vec<AuditEvent>))
        requires
            old(self).wf(),
        ensures
            final(self).wf(),
            final(self).limit() == old(self).limit(),
            depth > MAX_SPAWN_DEPTH ==> {
                &&& r.0 is Err
                &&& r.0->Err_0@ == CoreErrorView::InvalidManifest(
                    "spawn depth exceeded: max depth is 5"@,
                )
                &&& r.1@.len() == 0
                &&& final(self).agents() == old(self).agents()
                &&& final(self).active() == old(self).active()
            },
            depth <= MAX_SPAWN_DEPTH ==> installed(
                *old(self),
                *final(self),
                (AgentProcess {
                    id,
                    manifest,
                    state: AgentState::Starting,
                    capabilities,
                    persistent_identity: false,
                    depth,
                    parent_agent: parent,
                }),
                r.0,
                events_view(r.1@),
            ),
    {
        if depth > MAX_SPAWN_DEPTH {
            let events: Vec<AuditEvent> = Vec::new();
            return (
                Err(CoreError::InvalidManifest("spawn depth exceeded: max depth is 5".to_owned())),
                events,
            );
        }
        let mut process = AgentProcess::new(id, manifest, capabilities);
        process.depth = depth;
        process.parent_agent = parent;
        self.install(process)
    }

    /// Stops an agent and takes it out.
    pub fn stop_sync(&mut self, id: AgentId) -> (r: (Result<(), CoreError>, Vec<AuditEvent>))
        requires
            old(self).wf(),
        ensures
            final(self).wf(),
            final(self).limit() == old(self).limit(),
            stopped(*old(self), *final(self), id, r.0, events_view(r.1@)),
    {
        let mut events: Vec<AuditEvent> = Vec::new();
        assert(events_view(events@) =~= Seq::<(AgentId, AuditEventKindView)>::empty());
        let ghost before = self.agents();
        let mut process = match take_agent(&mut self.agents, id.uuid) {
            None => {
                assert(self.agents() =~= before);
                return (Err(CoreError::AgentNotFound(id)), events);
            },
            Some(p) => p,
        };
        if process.state != AgentState::Stopped {
            if let Err(e) = process.transition_to(AgentState::Stopping) {
                put_agent(&mut self.agents, id.uuid, process);
                assert(self.agents() =~= before);
                return (Err(e), events);
            }
            if let Err(e) = process.transition_to(AgentState::Stopped) {
                put_agent(&mut self.agents, id.uuid, process);
                return (Err(e), events);
            }
        }
        let event = AuditEventKind::AgentStopped { reason: AgentStopReason::UserRequested };
        events.push(AuditEvent::new(id, event));
        assert(events_view(events@) =~= seq![(id, event@)]);
        self.active_count = self.active_count - 1;
        (Ok(()), events)
    }

    /// Whether the identity of an agent outlives it.
    pub fn has_stable_identity(&self, id: AgentId) -> (r: Result<bool, CoreError>)
        ensures
            match r {
                Ok(b) => self.agents().dom().contains(id.uuid) && b
                    == self.agents()[id.uuid].persistent_identity,
                Err(e) => !self.agents().dom().contains(id.uuid) && e@
                    == CoreErrorView::AgentNotFound(id),
            },
    {
        match get_agent(&self.agents, id.uuid) {
            Some(p) => {
                assert(p@.persistent_identity == self.agents()[id.uuid]@.persistent_identity);
                Ok(p.persistent_identity)
            },
            None => Err(CoreError::AgentNotFound(id)),
        }
    }

    /// How many places are taken or set aside.
    pub fn active_count(&self) -> (n: usize)
        ensures
            n == self.active(),
    {
        self.active_count
    }

    /// How many agents there may be.
    pub fn max_agents(&self) -> (n: usize)
        ensures
            n == self.limit(),
    {
        self.max_agents
    }

    /// How many agents there are.
    pub fn count(&self) -> (n: usize)
        ensures
            n == self.agents().dom().len(),
    {
        count_agents(&self.agents)
    }

    /// The summary of an agent.
    pub fn get_info(&self, id: AgentId) -> (r: Result<AgentInfo, CoreError>)
        ensures
            match r {
                Ok(i) => self.agents().dom().contains(id.uuid) && i@ == summary(
                    self.agents()[id.uuid]@,
                ),
                Err(e) => !self.agents().dom().contains(id.uuid) && e@
                    == CoreErrorView::AgentNotFound(id),
            },
    {
        match get_agent(&self.agents, id.uuid) {
            Some(p) => Ok(p.info()),
            None => Err(CoreError::AgentNotFound(id)),
        }
    }

    /// The summaries of all the agents, in no particular order.
    pub fn list(&self) -> (r: Vec<AgentInfo>)
        ensures
            exists|keys: Seq<u128>|
                #![trigger keys.to_set()]
                keys.no_duplicates() && keys.to_set() == self.agents().dom() && keys.len()
                    == r@.len() && forall|i: int|
                    0 <= i < r@.len() ==> (#[trigger] r@[i])@ == summary(self.agents()[keys[i]]@),
    {
        list_agents(&self.agents)
    }

    /// Whether an agent holds a capability: `permits` tells for each of its
    /// handles whether that permits what is asked.
    pub fn check_capability(&self, id: AgentId, permits: &Vec<bool>) -> (r: Result<bool, CoreError>)
        requires
            self.agents().dom().contains(id.uuid) ==> permits@.len()
                == self.agents()[id.uuid].capabilities@.len(),
        ensures
            match r {
                Ok(b) => self.agents().dom().contains(id.uuid) && b == exists|i: int|
                    0 <= i < permits@.len() && #[trigger] permits@[i],
                Err(e) => !self.agents().dom().contains(id.uuid) && e@
                    == CoreErrorView::AgentNotFound(id),
            },
    {
        match get_agent(&self.agents, id.uuid) {
            Some(p) => {
                assert(p@.capabilities == self.agents()[id.uuid]@.capabilities);
                Ok(p.has_capability(permits))
            },
            None => Err(CoreError::AgentNotFound(id)),
        }
    }

    /// The handles of an agent's capabilities.
    pub fn get_token_handles(&self, id: AgentId) -> (r: Result<Vec<u64>, CoreError>)
        ensures
            match r {
                Ok(v) => self.agents().dom().contains(id.uuid) && v@
                    == self.agents()[id.uuid].capabilities@,
                Err(e) => !self.agents().dom().contains(id.uuid) && e@
                    == CoreErrorView::AgentNotFound(id),
            },
    {
        match get_agent(&self.agents, id.uuid) {
            Some(p) => {
                assert(p@.capabilities == self.agents()[id.uuid]@.capabilities);
                Ok(p.capabilities)
            },
            None => Err(CoreError::AgentNotFound(id)),
        }
    }

    /// The manifest of an agent.
    pub fn get_manifest(&self, id: AgentId) -> (r: Result<AgentManifest, CoreError>)
        ensures
            match r {
                Ok(m) => self.agents().dom().contains(id.uuid) && m@
                    == self.agents()[id.uuid].manifest@,
                Err(e) => !self.agents().dom().contains(id.uuid) && e@
                    == CoreErrorView::AgentNotFound(id),
            },
    {
        match get_agent(&self.agents, id.uuid) {
            Some(p) => {
                assert(p@.manifest == self.agents()[id.uuid]@.manifest);
                Ok(p.manifest)
            },
            None => Err(CoreError::AgentNotFound(id)),
        }
    }

    /// How many agents stand between an agent and the top.
    pub fn get_depth(&self, id: AgentId) -> (r: Result<u32, CoreError>)
        ensures
            match r {
                Ok(d) => self.agents().dom().contains(id.uuid) && d
                    == self.agents()[id.uuid].depth,
                Err(e) => !self.agents().dom().contains(id.uuid) && e@
                    == CoreErrorView::AgentNotFound(id),
            },
    {
        match get_agent(&self.agents, id.uuid) {
            Some(p) => {
                assert(p@.depth == self.agents()[id.uuid]@.depth);
                Ok(p.depth)
            },
            None => Err(CoreError::AgentNotFound(id)),
        }
    }

    /// Whether one of an agent's handles stands for the token. `tokens` gives
    /// the token of each handle that the keeper of the capabilities knows.
    pub fn holds_token(&self, id: AgentId, token_id: u128, tokens: &Vec<(u64, u128)>) -> (r: bool)
        ensures
            r == (self.agents().dom().contains(id.uuid) && exists|i: int|
                0 <= i < self.agents()[id.uuid].capabilities@.len() && tokens@.contains(
                    (#[trigger] self.agents()[id.uuid].capabilities@[i], token_id),
                )),
    {
        let p = match get_agent(&self.agents, id.uuid) {
            None => {
                return false;
            },
            Some(p) => p,
        };
        let ghost handles = self.agents()[id.uuid].capabilities@;
        assert(p@.capabilities == self.agents()[id.uuid]@.capabilities);
        let mut i: usize = 0;
        while i < p.capabilities.len()
            invariant
                self.agents().dom().contains(id.uuid),
                handles == self.agents()[id.uuid].capabilities@,
                handles == p.capabilities@,
                0 <= i <= handles.len(),
                forall|k: int|
                    0 <= k < i ==> !tokens@.contains((#[trigger] handles[k], token_id)),
            decreases handles.len() - i,
        {
            if has_pair(tokens, p.capabilities[i], token_id) {
                assert(tokens@.contains((handles[i as int], token_id)));
                return true;
            }
            i += 1;
        }
        false
    }

    /// What to charge to an agent's budget for a call of the model, if
    /// anything. `budgeted` tells whether the agent has a budget.
    pub fn track_token_usage(&self, id: AgentId, usage: TokenUsage, budgeted: bool) -> (r: Result<
        Option<u64>,
        CoreError,
    >)
        requires
            usage.input_tokens + usage.output_tokens <= u64::MAX,
        ensures
            match r {
                Ok(charge) => self.agents().dom().contains(id.uuid) && charge == (if budgeted
                    && usage.input_tokens + usage.output_tokens > 0 {
                    Some((usage.input_tokens + usage.output_tokens) as u64)
                } else {
                    None
                }),
                Err(e) => !self.agents().dom().contains(id.uuid) && e@
                    == CoreErrorView::AgentNotFound(id),
            },
    {
        if !has_key(&self.agents, id.uuid) {
            return Err(CoreError::AgentNotFound(id));
        }
        let total: u64 = usage.input_tokens + usage.output_tokens;
        if budgeted && total > 0 {
            Ok(Some(total))
        } else {
            Ok(None)
        }
    }
}

/// The error where an agent with the same id is there already.
pub open spec fn duplicate_error(id: AgentId) -> CoreErrorView {
    CoreErrorView::InvalidManifest("agent with id "@ + hyphenated(id.uuid) + " already exists"@)
}

/// What taking in an agent does: it is refused where every place is taken or
/// its id is, and then nothing changes; else it is there, running, and that is
/// put on record.
pub open spec fn installed(
    before: AgentRegistry,
    after: AgentRegistry,
    process: AgentProcess,
    r: Result<AgentId, CoreError>,
    events: Seq<(AgentId, AuditEventKindView)>,
) -> bool {
    if before.active() >= before.limit() {
        &&& r is Err
        &&& r->Err_0@ == before.full_error()
        &&& after.agents() == before.agents()
        &&& after.active() == before.active()
        &&& events.len() == 0
    } else if before.agents().dom().contains(process.id.uuid) {
        &&& r is Err
        &&& r->Err_0@ == duplicate_error(process.id)
        &&& after.agents() == before.agents()
        &&& after.active() == before.active()
        &&& events.len() == 0
    } else {
        &&& r is Ok
        &&& r->Ok_0 == process.id
        &&& after.agents() == before.agents().insert(
            process.id.uuid,
            AgentProcess { state: AgentState::Running, ..process },
        )
        &&& after.active() == before.active() + 1
        &&& events == seq![
            (
                process.id,
                AuditEventKindView::AgentSpawned { manifest_name: process.manifest.name@ },
            ),
        ]
    }
}

/// What stopping an agent does: it is refused where there is no such agent or
/// the agent cannot stop from its state, and then nothing changes; else the
/// agent is gone with its place, and that is put on record.
pub open spec fn stopped(
    before: AgentRegistry,
    after: AgentRegistry,
    id: AgentId,
    r: Result<(), CoreError>,
    events: Seq<(AgentId, AuditEventKindView)>,
) -> bool {
    if !before.agents().dom().contains(id.uuid) {
        &&& r is Err
        &&& r->Err_0@ == CoreErrorView::AgentNotFound(id)
        &&& after.agents() == before.agents()
        &&& after.active() == before.active()
        &&& events.len() == 0
    } else {
        let state = before.agents()[id.uuid].state;
        if state == AgentState::Stopped || state.may_become(AgentState::Stopping) {
            &&& r is Ok
            &&& after.agents() == before.agents().remove(id.uuid)
            &&& after.active() == before.active() - 1
            &&& events == seq![
                (
                    id,
                    AuditEventKindView::AgentStopped { reason: AgentStopReason::UserRequested },
                ),
            ]
        } else {
            &&& r is Err
            &&& r->Err_0@ == CoreErrorView::InvalidStateTransition {
                from: state,
                to: AgentState::Stopping,
            }
            &&& after.agents() == before.agents()
            &&& after.active() == before.active()
            &&& events.len() == 0
        }
    }
}

/// Spawning an agent and stopping it again leaves the registry as it was: the
/// same agents, and the same number of places taken.
pub proof fn law_spawn_then_stop_restores(
    before: AgentRegistry,
    middle: AgentRegistry,
    after: AgentRegistry,
    process: AgentProcess,
    spawned: Result<AgentId, CoreError>,
    spawn_events: Seq<(AgentId, AuditEventKindView)>,
    r: Result<(), CoreError>,
    stop_events: Seq<(AgentId, AuditEventKindView)>,
)
    requires
        installed(before, middle, process, spawned, spawn_events),
        spawned is Ok,
        stopped(middle, after, process.id, r, stop_events),
    ensures
        r is Ok,
        after.agents() == before.agents(),
        after.active() == before.active(),
{
    let running = AgentProcess { state: AgentState::Running, ..process };
    assert(middle.agents()[process.id.uuid] == running);
    assert(after.agents() =~= before.agents());
}

/// With no place set aside, the number of places taken is the number of
/// agents, and taking an agent in keeps it so.
pub proof fn law_count_follows_agents(
    before: AgentRegistry,
    after: AgentRegistry,
    process: AgentProcess,
    spawned: Result<AgentId, CoreError>,
    events: Seq<(AgentId, AuditEventKindView)>,
)
    requires
        before.wf(),
        before.reserved() == 0,
        installed(before, after, process, spawned, events),
    ensures
        after.reserved() == 0,
{
}

/// Stopping an agent keeps it so that the number of places taken is the number
/// of agents.
pub proof fn law_count_follows_stopped_agents(
    before: AgentRegistry,
    after: AgentRegistry,
    id: AgentId,
    r: Result<(), CoreError>,
    events: Seq<(AgentId, AuditEventKindView)>,
)
    requires
        before.wf(),
        before.reserved() == 0,
        stopped(before, after, id, r, events),
    ensures
        after.reserved() == 0,
{
}

/// What is put on record when a token was revoked.
pub fn revocation_events(agent_id: AgentId, token_id: u128, revoked: bool) -> (r: Vec<AuditEvent>)
    ensures
        events_view(r@) == if revoked {
            seq![
                (
                    agent_id,
                    AuditEventKindView::CapabilityRevoked { token_id, capability: "revoked"@ },
                ),
            ]
        } else {
            Seq::empty()
        },
{
    let mut events: Vec<AuditEvent> = Vec::new();
    if revoked {
        let event = AuditEventKind::CapabilityRevoked {
            token_id,
            capability: "revoked".to_owned(),
        };
        events.push(AuditEvent::new(agent_id, event));
        assert(events_view(events@) =~= seq![(agent_id, event@)]);
    } else {
        assert(events_view(events@) =~= Seq::<(AgentId, AuditEventKindView)>::empty());
    }
    events
}

/// What is put on record when all of an agent's tokens were revoked.
pub fn revoke_all_events(agent_id: AgentId, count: usize) -> (r: Vec<AuditEvent>)
    ensures
        events_view(r@) == if count > 0 {
            seq![
                (
                    agent_id,
                    AuditEventKindView::CapabilityRevoked {
                        token_id: 0,
                        capability: "all capabilities revoked"@,
                    },
                ),
            ]
        } else {
            Seq::empty()
        },
{
    let mut events: Vec<AuditEvent> = Vec::new();
    if count > 0 {
        let event = AuditEventKind::CapabilityRevoked {
            token_id: 0,
            capability: "all capabilities revoked".to_owned(),
        };
        events.push(AuditEvent::new(agent_id, event));
        assert(events_view(events@) =~= seq![(agent_id, event@)]);
    } else {
        assert(events_view(events@) =~= Seq::<(AgentId, AuditEventKindView)>::empty());
    }
    events
}

/// Whether a text can be the name of an agent in a list: it is not empty, has
/// no white space around it, and neither commas nor brackets in it.
pub open spec fn is_list_name(s: Seq<char>) -> bool {
    &&& s.len() > 0
    &&& !is_space(s[0])
    &&& !is_space(s.last())
    &&& forall|k: int| 0 <= k < s.len() ==> #[trigger] s[k] != ',' && s[k] != '[' && s[k] != ']'
}

/// A list of names is read as it was written, with brackets around it or
/// without.
#[verifier::rlimit(40)]
pub proof fn law_names_are_read_as_listed(names: Seq<Seq<char>>)
    requires
        names.len() > 0,
        forall|i: int| 0 <= i < names.len() ==> is_list_name(#[trigger] names[i]),
    ensures
        listed_names("["@ + joined(names, ", "@) + "]"@) == names,
        listed_names(joined(names, ", "@)) == names,
        listed_names(""@).len() == 0,
{
    reveal_strlit("[");
    reveal_strlit("]");
    reveal_strlit("");
    let all = joined(names, ", "@);
    lemma_outer_characters(names);
    let bracketed = "["@ + all + "]"@;
    assert(bracketed[0] == '[');
    assert(bracketed.skip(1) =~= all + "]"@);
    assert((all + "]"@)[0] == all[0]);
    assert(unbracketed_start(bracketed) == all + "]"@) by {
        reveal_with_fuel(unbracketed_start, 2);
    }
    assert((all + "]"@).last() == ']');
    assert((all + "]"@).drop_last() =~= all);
    assert(unbracketed_end(all + "]"@) == all) by {
        reveal_with_fuel(unbracketed_end, 2);
    }
    let none = Seq::<char>::empty();
    assert(none + all =~= all);
    lemma_listed(none, names);
    let texts = split_pieces(all, ',').map_values(|p: Seq<char>| trimmed(p));
    assert(texts == names);
    lemma_all_kept(names);
    assert(listed_names(all) == names);
    lemma_char_position(""@, ',', 0);
    assert(unbracketed_end(unbracketed_start(""@)) == ""@);
    assert(split_pieces(""@, ',') == seq![""@]);
    law_trimmed_is_the_middle(""@);
    let empty = seq![""@].map_values(|p: Seq<char>| trimmed(p));
    let full = |p: Seq<char>| p.len() > 0;
    assert(empty.len() == 1);
    assert(empty[0].len() == 0);
    assert(empty.filter(full).len() == 0) by {
        reveal(Seq::filter);
        reveal_with_fuel(Seq::filter, 2);
        assert(empty.drop_last() =~= Seq::<Seq<char>>::empty());
    }
}

proof fn lemma_outer_characters(names: Seq<Seq<char>>)
    requires
        names.len() > 0,
        forall|i: int| 0 <= i < names.len() ==> is_list_name(#[trigger] names[i]),
    ensures
        joined(names, ", "@).len() > 0,
        joined(names, ", "@)[0] == names[0][0],
        joined(names, ", "@).last() == names.last().last(),
        !is_bracket(names[0][0]),
        !is_bracket(names.last().last()),
    decreases names.len(),
{
    assert(is_list_name(names[0]));
    assert(is_list_name(names[names.len() - 1]));
    let last = names.last();
    assert(last[last.len() - 1] == last.last());
    if names.len() > 1 {
        let less = names.drop_last();
        assert forall|i: int| 0 <= i < less.len() implies is_list_name(#[trigger] less[i]) by {
            assert(less[i] == names[i]);
        }
        lemma_outer_characters(less);
        assert(less[0] == names[0]);
    }
}

#[verifier::rlimit(40)]
proof fn lemma_listed(lead: Seq<char>, names: Seq<Seq<char>>)
    requires
        lead.len() == 0 || lead == seq![' '],
        names.len() > 0,
        forall|i: int| 0 <= i < names.len() ==> is_list_name(#[trigger] names[i]),
    ensures
        split_pieces(lead + joined(names, ", "@), ',').map_values(|p: Seq<char>| trimmed(p))
            == names,
    decreases names.len(),
{
    reveal_strlit(", ");
    let plain = |p: Seq<char>| trimmed(p);
    let first = lead + names[0];
    assert(is_list_name(names[0]));
    lemma_padded_name(lead, names[0]);
    if names.len() == 1 {
        assert(joined(names, ", "@) == names[0]);
        lemma_char_position(first, ',', 0);
        assert(split_pieces(first, ',') == seq![first]);
        assert(seq![first].map_values(plain) =~= names);
    } else {
        let others = names.skip(1);
        assert(seq![names[0]] + others =~= names);
        law_joined_by_parts(seq![names[0]], others, ", "@, names[0]);
        let rest = seq![' '] + joined(others, ", "@);
        let s = lead + joined(names, ", "@);
        assert(s =~= first + seq![','] + rest);
        lemma_char_position(s, ',', 0);
        assert(s[first.len() as int] == ',');
        let k = char_position(s, ',', 0)->0;
        if k < first.len() {
            assert(s[k] == first[k]);
        }
        assert(s.take(k) =~= first);
        assert(s.skip(k + 1) =~= rest);
        assert forall|i: int| 0 <= i < others.len() implies is_list_name(#[trigger] others[i]) by {
            assert(others[i] == names[i + 1]);
        }
        lemma_listed(seq![' '], others);
        let pieces = split_pieces(rest, ',');
        assert(split_pieces(s, ',') == seq![first] + pieces);
        assert((seq![first] + pieces).map_values(plain) =~= seq![names[0]] + pieces.map_values(
            plain,
        ));
    }
}

proof fn lemma_padded_name(lead: Seq<char>, name: Seq<char>)
    requires
        lead.len() == 0 || lead == seq![' '],
        is_list_name(name),
    ensures
        trimmed(lead + name) == name,
        forall|k: int| 0 <= k < (lead + name).len() ==> #[trigger] (lead + name)[k] != ',',
{
    let s = lead + name;
    let n = lead.len() as int;
    if n == 0 {
        assert(s =~= name);
        law_nothing_to_trim(name);
    } else {
        law_leading_space_is_left_out(name);
    }
    assert forall|k: int| 0 <= k < s.len() implies #[trigger] s[k] != ',' by {
        if k >= n {
            assert(s[k] == name[k - n]);
        }
    }
}

proof fn lemma_all_kept(names: Seq<Seq<char>>)
    requires
        forall|i: int| 0 <= i < names.len() ==> (#[trigger] names[i]).len() > 0,
    ensures
        names.filter(|p: Seq<char>| p.len() > 0) == names,
    decreases names.len(),
{
    reveal(Seq::filter);
    if names.len() > 0 {
        let less = names.drop_last();
        assert forall|i: int| 0 <= i < less.len() implies (#[trigger] less[i]).len() > 0 by {
            assert(less[i] == names[i]);
        }
        lemma_all_kept(less);
        assert(names[names.len() - 1].len() > 0);
        assert(less.push(names.last()) =~= names);
    }
}

/// A declaration grants what it names: a file, a tool, children or the web by
/// its first word, and anything else under its own name.
#[verifier::rlimit(40)]
pub proof fn law_declarations_grant_what_they_name(what: Seq<char>, other: Seq<char>)
    requires
        what.len() > 0,
        !is_space(what[0]),
        !is_space(what.last()),
        other.len() > 0,
        !is_space(other[0]),
        !is_space(other.last()),
        other != "web_search"@,
        !begins_with(other, "file_read:"@),
        !begins_with(other, "file_write:"@),
        !begins_with(other, "tool:"@),
        !begins_with(other, "spawn_child:"@),
    ensures
        declared(CapabilityDeclarationView::Simple("web_search"@)) == Some(
            CapabilityView::WebSearch,
        ),
        declared(CapabilityDeclarationView::Simple("file_read:"@ + what)) == Some(
            (CapabilityView::FileRead { path_glob: what }),
        ),
        declared(CapabilityDeclarationView::Simple("file_write:"@ + what)) == Some(
            (CapabilityView::FileWrite { path_glob: what }),
        ),
        declared(CapabilityDeclarationView::Simple("tool:"@ + what)) == Some(
            (CapabilityView::ToolInvoke { tool_name: what }),
        ),
        declared(CapabilityDeclarationView::Simple("spawn_child:"@ + what)) == Some(
            (CapabilityView::SpawnChild { allowed_agents: listed_names(what) }),
        ),
        declared(CapabilityDeclarationView::Simple(other)) == Some(
            (CapabilityView::Custom { name: other, params: JsonView::Null }),
        ),
{
    reveal_strlit("web_search");
    reveal_strlit("file_read:");
    reveal_strlit("file_write:");
    reveal_strlit("tool:");
    reveal_strlit("spawn_child:");
    law_white_space('w');
    law_white_space('h');
    law_white_space('f');
    law_white_space('t');
    law_white_space('s');
    law_nothing_to_trim("web_search"@);
    law_nothing_to_trim(other);
    law_nothing_to_trim(what);
    lemma_declared_text("file_read:"@, what);
    lemma_declared_text("file_write:"@, what);
    lemma_declared_text("tool:"@, what);
    lemma_declared_text("spawn_child:"@, what);
    assert("file_read:"@[5] == 'r' && "file_write:"@[5] == 'w');
    lemma_other_word("file_write:"@, what, "file_read:"@, 5);
    lemma_other_word("tool:"@, what, "file_read:"@, 0);
    lemma_other_word("tool:"@, what, "file_write:"@, 0);
    lemma_other_word("spawn_child:"@, what, "file_read:"@, 0);
    lemma_other_word("spawn_child:"@, what, "file_write:"@, 0);
    lemma_other_word("spawn_child:"@, what, "tool:"@, 0);
    assert(("file_read:"@ + what)[0] == 'f' && "web_search"@[0] == 'w');
    assert(("file_write:"@ + what)[0] == 'f');
    assert(("tool:"@ + what)[0] == 't');
    assert(("spawn_child:"@ + what)[0] == 's');
}

proof fn lemma_declared_text(word: Seq<char>, what: Seq<char>)
    requires
        word.len() > 0,
        !is_space(word[0]),
        what.len() > 0,
        !is_space(what.last()),
    ensures
        trimmed(word + what) == word + what,
        begins_with(word + what, word),
        (word + what).skip(word.len() as int) == what,
{
    assert((word + what)[0] == word[0]);
    assert((word + what).last() == what.last());
    law_nothing_to_trim(word + what);
    law_parts_occur(word, what, Seq::empty());
    assert((word + what).skip(word.len() as int) =~= what);
}

proof fn lemma_other_word(word: Seq<char>, what: Seq<char>, other: Seq<char>, k: int)
    requires
        0 <= k < word.len(),
        k < other.len(),
        word[k] != other[k],
    ensures
        !begins_with(word + what, other),
{
    let s = word + what;
    if begins_with(s, other) {
        assert(s.subrange(0, other.len() as int)[k] == s[k]);
    }
}

/// A declaration with parameters grants under its name, with the others of its
/// parameters; one without a name grants nothing.
pub proof fn law_named_declarations_keep_their_parameters(
    params: Seq<(Seq<char>, JsonView)>,
    name: Seq<char>,
    p: (Seq<char>, JsonView),
)
    ensures
        lookup(params, "name"@) == Some(JsonView::Text(name)) ==> declared(
            (CapabilityDeclarationView::WithParams { params }),
        ) == Some(
            (CapabilityView::Custom { name, params: JsonView::Object(nameless(params)) }),
        ),
        lookup(params, "name"@) is None ==> declared(
            (CapabilityDeclarationView::WithParams { params }),
        ) is None,
        nameless(params).contains(p) <==> params.contains(p) && p.0 != "name"@,
{
    let keep = |p: (Seq<char>, JsonView)| p.0 != "name"@;
    if params.contains(p) && keep(p) {
        let i = choose|i: int| 0 <= i < params.len() && params[i] == p;
        params.lemma_filter_contains(keep, i);
    }
    if params.filter(keep).contains(p) {
        let i = choose|i: int| 0 <= i < params.filter(keep).len() && params.filter(keep)[i] == p;
        params.lemma_filter_pred(keep, i);
        params.lemma_filter_contains_rev(keep, p);
    }
}

/// An agent is granted what its manifest declares, in order, and a persistent
/// one may also write to itself; every grant is on record.
#[verifier::rlimit(40)]
pub proof fn law_manifest_is_what_is_granted(id: AgentId, m: AgentManifestView, i: int)
    ensures
        ({
            let n = m.capabilities.len() as int;
            let own = declared_among(m.capabilities, n);
            let all = granted_to(id, m);
            &&& m.lifecycle is OnDemand ==> all == own
            &&& m.lifecycle is Persistent ==> all == own + seq![
                CapabilityView::MessageSend { target_agents: seq![hyphenated(id.uuid)] },
            ]
            &&& 0 <= i < n ==> declared_among(m.capabilities, i + 1) == declared_among(
                m.capabilities,
                i,
            ) + (match declared(m.capabilities[i]) {
                Some(c) => seq![c],
                None => Seq::empty(),
            })
            &&& grant_events(id, all).len() == all.len()
            &&& 0 <= i < all.len() ==> grant_events(id, all)[i] == (
                id,
                AuditEventKindView::CapabilityGranted { capability: all[i] },
            )
        }),
{
    let n = m.capabilities.len() as int;
    let own = declared_among(m.capabilities, n);
    let send = CapabilityView::MessageSend { target_agents: seq![hyphenated(id.uuid)] };
    assert(own.push(send) =~= own + seq![send]);
    if 0 <= i < n {
        let before = declared_among(m.capabilities, i);
        match declared(m.capabilities[i]) {
            Some(c) => {
                assert(before.push(c) =~= before + seq![c]);
            },
            None => {
                assert(before =~= before + Seq::<CapabilityView>::empty());
            },
        }
    }
}

/// An agent is taken in exactly where there is room and nobody has its
/// identity; it runs then, as it was given, and all the others are left alone.
pub proof fn law_agent_is_taken_in(
    before: AgentRegistry,
    after: AgentRegistry,
    process: AgentProcess,
    r: Result<AgentId, CoreError>,
    events: Seq<(AgentId, AuditEventKindView)>,
    other: u128,
)
    requires
        installed(before, after, process, r, events),
    ensures
        r is Ok <==> before.active() < before.limit() && !before.agents().dom().contains(
            process.id.uuid,
        ),
        r is Ok ==> {
            &&& after.agents().dom().contains(process.id.uuid)
            &&& after.agents()[process.id.uuid].state is Running
            &&& after.agents()[process.id.uuid].id == process.id
            &&& after.agents()[process.id.uuid].manifest == process.manifest
            &&& after.agents()[process.id.uuid].capabilities == process.capabilities
            &&& after.agents()[process.id.uuid].depth == process.depth
            &&& after.agents()[process.id.uuid].parent_agent == process.parent_agent
            &&& events.len() == 1
            &&& events[0].0 == process.id
            &&& events[0].1 is AgentSpawned
        },
        other != process.id.uuid ==> (after.agents().dom().contains(other)
            <==> before.agents().dom().contains(other)),
        other != process.id.uuid && before.agents().dom().contains(other) ==> after.agents()[other]
            == before.agents()[other],
        r is Err ==> after.agents() == before.agents() && events.len() == 0,
{
}

/// An agent that is stopped is gone, and all the others are left alone; where
/// it cannot be stopped nothing changes.
pub proof fn law_stopped_agent_is_gone(
    before: AgentRegistry,
    after: AgentRegistry,
    id: AgentId,
    r: Result<(), CoreError>,
    events: Seq<(AgentId, AuditEventKindView)>,
    other: u128,
)
    requires
        stopped(before, after, id, r, events),
    ensures
        r is Ok ==> !after.agents().dom().contains(id.uuid) && events.len() == 1
            && events[0].1 is AgentStopped && events[0].0 == id,
        other != id.uuid ==> (after.agents().dom().contains(other)
            <==> before.agents().dom().contains(other)),
        other != id.uuid && before.agents().dom().contains(other) ==> after.agents()[other]
            == before.agents()[other],
        r is Err ==> after.agents() == before.agents() && events.len() == 0,
        before.agents().dom().contains(id.uuid) && (before.agents()[id.uuid].state is Running
            || before.agents()[id.uuid].state is Paused) ==> r is Ok,
        !before.agents().dom().contains(id.uuid) ==> r is Err && r->Err_0@
            == CoreErrorView::AgentNotFound(id),
{
}

/// What an agent is refused for names the limit, or the identity that is taken.
pub proof fn law_refusals_say_why(registry: AgentRegistry, id: AgentId)
    ensures
        registry.full_error() is InvalidManifest,
        contains_text(registry.full_error()->InvalidManifest_0, decimal(registry.limit())),
        duplicate_error(id) is InvalidManifest,
        contains_text(duplicate_error(id)->InvalidManifest_0, hyphenated(id.uuid)),
{
    law_parts_occur("agent limit exceeded: max "@, decimal(registry.limit()), " agents"@);
    law_parts_occur("agent with id "@, hyphenated(id.uuid), " already exists"@);
}

} // verus!
