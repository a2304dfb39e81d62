//! Storing, finding and deleting what an agent remembers.

use crate::audit::{AuditEvent, AuditEventKind, AuditEventKindView, ToolExecutionSurface};
use crate::clock::{rfc3339, rfc3339_text, Timestamp};
use crate::error::{CoreError, CoreErrorView};
use crate::ids::{hyphenated, read_uuid, uuid_value, write_uuid};
use crate::json::{
    array_view, field, lemma_array_view, text_of, unsigned_of, Json, JsonView,
};
use crate::text::{byte_len, byte_length, decimal, decimal_text, same, views};
use crate::tools::definition::{
    define, defined, entry, fields_view, object, optional_param, params_view, required_param, text,
    Param, ParamKind, ParamKindView, ParamView, ToolDefinition,
};
use crate::types::AgentId;
use sha2::Digest;
use vstd::prelude::*;
use vstd::string::*;

verus! {

/// The SHA-256 digest of a text in UTF-8, in hexadecimal.
pub uninterp spec fn sha256_text(t: Seq<char>) -> Seq<char>;

/// `sha2::Sha256::digest` of the bytes of a text, written in lower-case
/// hexadecimal: it depends on the text alone.
#[verifier::external_body]
fn sha256_hex(t: &str) -> (r: String)
    ensures
        r@ == sha256_text(t@),
{
    format!("{:x}", sha2::Sha256::digest(t.as_bytes()))
}

/// What kind of thing is remembered.
#[derive(Debug, Clone, Copy, PartialEq, Eq, Structural)]
pub enum MemoryCategory {
    Fact,
    Observation,
    Decision,
    Preference,
}

/// What a category is called.
pub open spec fn category_name(c: MemoryCategory) -> Seq<char> {
    match c {
        MemoryCategory::Fact => "fact"@,
        MemoryCategory::Observation => "observation"@,
        MemoryCategory::Decision => "decision"@,
        MemoryCategory::Preference => "preference"@,
    }
}

/// The category of a name.
pub open spec fn category_of(t: Seq<char>) -> Option<MemoryCategory> {
    if t == "fact"@ {
        Some(MemoryCategory::Fact)
    } else if t == "observation"@ {
        Some(MemoryCategory::Observation)
    } else if t == "decision"@ {
        Some(MemoryCategory::Decision)
    } else if t == "preference"@ {
        Some(MemoryCategory::Preference)
    } else {
        None
    }
}

impl MemoryCategory {
    /// What the category is called.
    pub fn name(&self) -> (r: &'static str)
        ensures
            r@ == category_name(*self),
    {
        match self {
            MemoryCategory::Fact => "fact",
            MemoryCategory::Observation => "observation",
            MemoryCategory::Decision => "decision",
            MemoryCategory::Preference => "preference",
        }
    }

    /// The category of a name.
    pub fn parse(t: &str) -> (r: Option<MemoryCategory>)
        ensures
            r == category_of(t@),
    {
        if same(t, "fact") {
            Some(MemoryCategory::Fact)
        } else if same(t, "observation") {
            Some(MemoryCategory::Observation)
        } else if same(t, "decision") {
            Some(MemoryCategory::Decision)
        } else if same(t, "preference") {
            Some(MemoryCategory::Preference)
        } else {
            None
        }
    }
}

/// Each category is read from the name that is written for it.
pub proof fn law_category_reads_back(c: MemoryCategory)
    ensures
        category_of(category_name(c)) == Some(c),
{
    reveal_strlit("fact");
    reveal_strlit("observation");
    reveal_strlit("decision");
    reveal_strlit("preference");
    assert("fact"@.len() == 4);
    assert("observation"@.len() == 11);
    assert("decision"@.len() == 8);
    assert("preference"@.len() == 10);
}

/// The names of the categories.
pub open spec fn category_names() -> Seq<Seq<char>> {
    seq!["fact"@, "observation"@, "decision"@, "preference"@]
}

/// The names of the categories.
fn list_categories() -> (r: Vec<String>)
    ensures
        views(r@) == category_names(),
{
    let mut v: Vec<String> = Vec::new();
    v.push("fact".to_owned());
    v.push("observation".to_owned());
    v.push("decision".to_owned());
    v.push("preference".to_owned());
    assert(views(v@) =~= category_names());
    v
}

/// The error where a parameter is missing or is no text.
pub open spec fn missing(name: Seq<char>) -> CoreErrorView {
    CoreErrorView::SchemaValidation("missing '"@ + name + "'"@)
}

/// The text of a parameter that has to be given.
fn needed(input: &Json, name: &str) -> (r: Result<String, CoreError>)
    ensures
        match r {
            Ok(t) => text_of(field(input@, name@)) == Some(t@),
            Err(e) => text_of(field(input@, name@)) is None && e@ == missing(name@),
        },
{
    match input.get_str(name) {
        Some(t) => Ok(t.clone()),
        None => {
            let mut m = "missing '".to_owned();
            m.append(name);
            m.append("'");
            Err(CoreError::SchemaValidation(m))
        },
    }
}

/// Stores what an agent is to remember.
#[derive(Debug)]
pub struct MemoryStoreTool {
    /// How much may be stored at a time, in bytes.
    pub max_content_bytes: usize,
}

/// A memory that is to be stored.
#[derive(Debug)]
pub struct StoreRequest {
    pub content: String,
    pub category: MemoryCategory,
    /// The memory in whose place it is to stand.
    pub replaces: Option<u128>,
}

/// Why a memory cannot be stored as it was given.
pub open spec fn store_error(input: JsonView, max_content_bytes: usize) -> Option<CoreErrorView> {
    let content = text_of(field(input, "content"@));
    let category = text_of(field(input, "category"@));
    if content is None {
        Some(missing("content"@))
    } else if category is None {
        Some(missing("category"@))
    } else if byte_len(content->0) > max_content_bytes {
        Some(
            CoreErrorView::SchemaValidation(
                "content too large: "@ + decimal(byte_len(content->0)) + " bytes exceeds max "@
                    + decimal(max_content_bytes as nat) + " bytes"@,
            ),
        )
    } else if category_of(category->0) is None {
        Some(CoreErrorView::SchemaValidation("invalid category: "@ + category->0))
    } else {
        None
    }
}

/// The memory that an input asks to replace, if it names one.
pub open spec fn replaced_memory(input: JsonView) -> Option<u128> {
    match text_of(field(input, "replaces"@)) {
        Some(t) => uuid_value(t),
        None => None,
    }
}

/// What the tool takes.
pub open spec fn store_params() -> Seq<ParamView> {
    seq![
        required_param("content"@, ParamKindView::Text, "The memory to store"@),
        required_param(
            "category"@,
            ParamKindView::OneOf(category_names()),
            "Memory category"@,
        ),
        optional_param(
            "replaces"@,
            ParamKindView::Text,
            "Optional: UUID of a memory this replaces"@,
        ),
    ]
}

/// What is said of a memory.
pub open spec fn memory_status(memory_id: Seq<char>, status: Seq<char>) -> JsonView {
    JsonView::Object(
        seq![("memory_id"@, JsonView::Text(memory_id)), ("status"@, JsonView::Text(status))],
    )
}

/// What is said of a memory.
fn status_json(memory_id: &str, status: &str) -> (r: Json)
    ensures
        r@ == memory_status(memory_id@, status@),
{
    let mut f: Vec<(String, Json)> = Vec::new();
    f.push(entry("memory_id", text(memory_id)));
    f.push(entry("status", text(status)));
    assert(fields_view(f@) =~= memory_status(memory_id@, status@)->Object_0);
    object(f)
}

impl MemoryStoreTool {
    /// A tool that stores at most `max_content_bytes` bytes at a time.
    pub fn new(max_content_bytes: usize) -> (r: MemoryStoreTool)
        ensures
            r.max_content_bytes == max_content_bytes,
    {
        MemoryStoreTool { max_content_bytes }
    }

    /// What the tool is.
    pub fn definition(&self) -> (r: ToolDefinition)
        ensures
            r@ == defined(
                "memory_store"@,
                "Store a fact, observation, decision, or preference for later retrieval."@,
                store_params(),
            ),
    {
        let mut params: Vec<Param> = Vec::new();
        params.push(Param::required("content", ParamKind::Text, "The memory to store"));
        params.push(
            Param::required("category", ParamKind::OneOf(list_categories()), "Memory category"),
        );
        params.push(
            Param::optional(
                "replaces",
                ParamKind::Text,
                "Optional: UUID of a memory this replaces",
            ),
        );
        assert(params_view(params@) =~= store_params());
        define(
            "memory_store",
            "Store a fact, observation, decision, or preference for later retrieval.",
            &params,
        )
    }

    /// The memory that an input asks to store.
    pub fn parse(&self, input: &Json) -> (r: Result<StoreRequest, CoreError>)
        ensures
            match r {
                Ok(q) => {
                    &&& store_error(input@, self.max_content_bytes) is None
                    &&& text_of(field(input@, "content"@)) == Some(q.content@)
                    &&& category_of(text_of(field(input@, "category"@))->0) == Some(q.category)
                    &&& q.replaces == replaced_memory(input@)
                },
                Err(e) => store_error(input@, self.max_content_bytes) == Some(e@),
            },
    {
        let content = match needed(input, "content") {
            Ok(t) => t,
            Err(e) => {
                return Err(e);
            },
        };
        let named = match needed(input, "category") {
            Ok(t) => t,
            Err(e) => {
                return Err(e);
            },
        };
        let size = byte_length(content.as_str());
        if size > self.max_content_bytes {
            let mut m = "content too large: ".to_owned();
            let a = decimal_text(size as u64);
            m.append(a.as_str());
            m.append(" bytes exceeds max ");
            let b = decimal_text(self.max_content_bytes as u64);
            m.append(b.as_str());
            m.append(" bytes");
            return Err(CoreError::SchemaValidation(m));
        }
        let category = match MemoryCategory::parse(named.as_str()) {
            Some(c) => c,
            None => {
                let mut m = "invalid category: ".to_owned();
                m.append(named.as_str());
                return Err(CoreError::SchemaValidation(m));
            },
        };
        let replaces = match input.get_str("replaces") {
            Some(t) => read_uuid(t.as_str()),
            None => None,
        };
        Ok(StoreRequest { content, category, replaces })
    }

    /// What to record and to answer once the memory is stored as `memory_id`.
    /// The record holds the digest of the memory, not the memory.
    pub fn stored(&self, agent_id: AgentId, request: &StoreRequest, memory_id: u128) -> (r: (
        AuditEvent,
        Json,
    ))
        ensures
            r.0.agent_id == agent_id,
            r.0.event@ == (AuditEventKindView::MemoryStored {
                memory_id,
                category: category_name(request.category),
                content_hash: sha256_text(request.content@),
            }),
            r.1@ == memory_status(hyphenated(memory_id), "stored"@),
    {
        let event = AuditEvent::new(
            agent_id,
            AuditEventKind::MemoryStored {
                memory_id,
                category: request.category.name().to_owned(),
                content_hash: sha256_hex(request.content.as_str()),
            },
        );
        let id = write_uuid(memory_id);
        (event, status_json(id.as_str(), "stored"))
    }
}

/// Finds what an agent remembers.
#[derive(Debug)]
pub struct MemoryQueryTool;

/// A question to the memory.
#[derive(Debug)]
pub struct QueryRequest {
    pub query: String,
    pub limit: usize,
    pub category: Option<MemoryCategory>,
}

/// A memory that was found.
#[derive(Debug)]
pub struct MemoryHit {
    pub id: u128,
    pub content: String,
    pub category: MemoryCategory,
    /// How well it fits, as a JSON number.
    pub relevance_score: Json,
    pub created_at: Timestamp,
}

/// How many memories an input asks for: one to twenty.
pub open spec fn wanted_limit(input: JsonView) -> int {
    match unsigned_of(field(input, "limit"@)) {
        Some(n) => if n < 1 {
            1
        } else if n > 20 {
            20
        } else {
            n as int
        },
        None => 5,
    }
}

/// Why a question cannot be asked as it was.
pub open spec fn query_error(input: JsonView) -> Option<CoreErrorView> {
    let category = text_of(field(input, "category"@));
    if text_of(field(input, "query"@)) is None {
        Some(missing("query"@))
    } else if category is Some && category_of(category->0) is None {
        Some(CoreErrorView::SchemaValidation("invalid category"@))
    } else {
        None
    }
}

/// A memory, as it is answered.
pub open spec fn hit_value(h: MemoryHit) -> JsonView {
    JsonView::Object(
        seq![
            ("memory_id"@, JsonView::Text(hyphenated(h.id))),
            ("content"@, JsonView::Text(h.content@)),
            ("category"@, JsonView::Text(category_name(h.category))),
            ("relevance_score"@, h.relevance_score@),
            ("created_at"@, JsonView::Text(rfc3339_text(h.created_at.secs, h.created_at.nanos))),
        ],
    )
}

/// What is answered to a question.
pub open spec fn query_answer(hits: Seq<MemoryHit>) -> JsonView {
    JsonView::Object(
        seq![
            ("results"@, JsonView::Array(hits.map_values(|h: MemoryHit| hit_value(h)))),
            ("count"@, JsonView::Unsigned(hits.len() as u64)),
        ],
    )
}

/// What the tool takes.
pub open spec fn query_params() -> Seq<ParamView> {
    seq![
        required_param("query"@, ParamKindView::Text, "What to search for"@),
        optional_param("limit"@, ParamKindView::Number, "Max results (1-20, default 5)"@),
        optional_param(
            "category"@,
            ParamKindView::OneOf(category_names()),
            "Optional category filter"@,
        ),
    ]
}

/// A memory, as it is answered.
fn hit_json(h: &MemoryHit) -> (r: Json)
    requires
        h.created_at.in_calendar(),
    ensures
        r@ == hit_value(*h),
{
    let mut f: Vec<(String, Json)> = Vec::new();
    f.push(entry("memory_id", Json::Text(write_uuid(h.id))));
    f.push(entry("content", text(h.content.as_str())));
    f.push(entry("category", text(h.category.name())));
    f.push(entry("relevance_score", h.relevance_score.copy()));
    f.push(entry("created_at", Json::Text(rfc3339(h.created_at))));
    assert(fields_view(f@) =~= hit_value(*h)->Object_0);
    object(f)
}

impl MemoryQueryTool {
    /// What the tool is.
    pub fn definition(&self) -> (r: ToolDefinition)
        ensures
            r@ == defined(
                "memory_query"@,
                "Search your stored memories by meaning. Returns the most relevant memories."@,
                query_params(),
            ),
    {
        let mut params: Vec<Param> = Vec::new();
        params.push(Param::required("query", ParamKind::Text, "What to search for"));
        params.push(Param::optional("limit", ParamKind::Number, "Max results (1-20, default 5)"));
        params.push(
            Param::optional(
                "category",
                ParamKind::OneOf(list_categories()),
                "Optional category filter",
            ),
        );
        assert(params_view(params@) =~= query_params());
        define(
            "memory_query",
            "Search your stored memories by meaning. Returns the most relevant memories.",
            &params,
        )
    }

    /// The question that an input asks.
    pub fn parse(&self, input: &Json) -> (r: Result<QueryRequest, CoreError>)
        ensures
            match r {
                Ok(q) => {
                    &&& query_error(input@) is None
                    &&& text_of(field(input@, "query"@)) == Some(q.query@)
                    &&& q.limit == wanted_limit(input@)
                    &&& q.category == (match text_of(field(input@, "category"@)) {
                        Some(t) => category_of(t),
                        None => None,
                    })
                },
                Err(e) => query_error(input@) == Some(e@),
            },
    {
        let query = match needed(input, "query") {
            Ok(t) => t,
            Err(e) => {
                return Err(e);
            },
        };
        let limit: usize = match input.get_u64("limit") {
            Some(n) => if n < 1 {
                1
            } else if n > 20 {
                20
            } else {
                n as usize
            },
            None => 5,
        };
        let category = match input.get_str("category") {
            Some(t) => match MemoryCategory::parse(t.as_str()) {
                Some(c) => Some(c),
                None => {
                    return Err(CoreError::SchemaValidation("invalid category".to_owned()));
                },
            },
            None => None,
        };
        Ok(QueryRequest { query, limit, category })
    }

    /// What to record and to answer once the memories are found. The record
    /// holds the digest of the question, not the question.
    pub fn found(&self, agent_id: AgentId, query: &str, hits: &Vec<MemoryHit>) -> (r: (
        AuditEvent,
        Json,
    ))
        requires
            forall|i: int|
                0 <= i < hits@.len() ==> (#[trigger] hits@[i]).created_at.in_calendar(),
        ensures
            r.0.agent_id == agent_id,
            r.0.event@ == (AuditEventKindView::MemoryQueried {
                query_hash: sha256_text(query@),
                results_count: hits@.len() as usize,
            }),
            r.1@ == query_answer(hits@),
    {
        let event = AuditEvent::new(
            agent_id,
            AuditEventKind::MemoryQueried {
                query_hash: sha256_hex(query),
                results_count: hits.len(),
            },
        );
        let ghost want = hits@.map_values(|h: MemoryHit| hit_value(h));
        let mut values: Vec<Json> = Vec::new();
        let mut i: usize = 0;
        while i < hits.len()
            invariant
                forall|i: int|
                    0 <= i < hits@.len() ==> (#[trigger] hits@[i]).created_at.in_calendar(),
                want == hits@.map_values(|h: MemoryHit| hit_value(h)),
                0 <= i <= hits@.len(),
                values@.len() == i,
                forall|k: int| 0 <= k < i ==> (#[trigger] values@[k])@ == want[k],
            decreases hits@.len() - i,
        {
            values.push(hit_json(&hits[i]));
            i += 1;
        }
        proof {
            lemma_array_view(values@);
            assert(array_view(values@) =~= want);
        }
        let mut f: Vec<(String, Json)> = Vec::new();
        f.push(entry("results", Json::Array(values)));
        f.push(entry("count", Json::Unsigned(hits.len() as u64)));
        assert(fields_view(f@) =~= query_answer(hits@)->Object_0);
        (event, object(f))
    }
}

/// Deletes what an agent remembers.
#[derive(Debug)]
pub struct MemoryDeleteTool;

/// Why a memory cannot be deleted as it was named.
pub open spec fn delete_error(input: JsonView) -> Option<CoreErrorView> {
    match text_of(field(input, "memory_id"@)) {
        None => Some(missing("memory_id"@)),
        Some(t) => if uuid_value(t) is None {
            Some(CoreErrorView::SchemaValidation("invalid UUID: "@ + t))
        } else {
            None
        },
    }
}

/// What the tool takes.
pub open spec fn delete_params() -> Seq<ParamView> {
    seq![required_param("memory_id"@, ParamKindView::Text, "UUID of the memory to delete"@)]
}

impl MemoryDeleteTool {
    /// What the tool is.
    pub fn definition(&self) -> (r: ToolDefinition)
        ensures
            r@ == defined(
                "memory_delete"@,
                "Delete a specific stored memory by ID."@,
                delete_params(),
            ),
    {
        let mut params: Vec<Param> = Vec::new();
        params.push(Param::required("memory_id", ParamKind::Text, "UUID of the memory to delete"));
        assert(params_view(params@) =~= delete_params());
        define("memory_delete", "Delete a specific stored memory by ID.", &params)
    }

    /// The memory that an input asks to delete: as it was named, and its
    /// identity.
    pub fn parse(&self, input: &Json) -> (r: Result<(String, u128), CoreError>)
        ensures
            match r {
                Ok((t, id)) => {
                    &&& text_of(field(input@, "memory_id"@)) == Some(t@)
                    &&& uuid_value(t@) == Some(id)
                },
                Err(e) => delete_error(input@) == Some(e@),
            },
    {
        let t = match needed(input, "memory_id") {
            Ok(t) => t,
            Err(e) => {
                return Err(e);
            },
        };
        let id = read_uuid(t.as_str());
        identified(t, id)
    }

    /// What to record and to answer once the memory is deleted.
    pub fn deleted(&self, agent_id: AgentId, memory_id: &str) -> (r: (AuditEvent, Json))
        ensures
            r.0.agent_id == agent_id,
            r.0.event@ == (AuditEventKindView::ToolInvoked {
                tool: "memory_delete"@,
                input_hash: memory_id@,
                args_preview: None,
                execution_surface: ToolExecutionSurface::Daemon,
            }),
            r.1@ == memory_status(memory_id@, "deleted"@),
    {
        let event = AuditEvent::new(
            agent_id,
            AuditEventKind::ToolInvoked {
                tool: "memory_delete".to_owned(),
                input_hash: memory_id.to_owned(),
                args_preview: None,
                execution_surface: ToolExecutionSurface::Daemon,
            },
        );
        (event, status_json(memory_id, "deleted"))
    }
}

/// A memory by its name and by what was read of it, or the error where
/// nothing could be read.
pub fn identified(name: String, id: Option<u128>) -> (r: Result<(String, u128), CoreError>)
    ensures
        match id {
            Some(n) => r == Ok::<(String, u128), CoreError>((name, n)),
            None => r is Err && (r->Err_0)@ == CoreErrorView::SchemaValidation(
                "invalid UUID: "@ + name@,
            ),
        },
{
    match id {
        Some(n) => Ok((name, n)),
        None => {
            let mut m = "invalid UUID: ".to_owned();
            m.append(name.as_str());
            Err(CoreError::SchemaValidation(m))
        },
    }
}

/// As many memories are looked for as were asked for, but at least one and at
/// most twenty, and five where nothing was said.
pub proof fn law_how_many_are_looked_for(input: JsonView, n: u64)
    ensures
        1 <= wanted_limit(input) <= 20,
        field(input, "limit"@) is None ==> wanted_limit(input) == 5,
        field(input, "limit"@) == Some(JsonView::Unsigned(n)) && 1 <= n <= 20 ==> wanted_limit(
            input,
        ) == n,
        field(input, "limit"@) == Some(JsonView::Unsigned(n)) && n > 20 ==> wanted_limit(input)
            == 20,
        field(input, "limit"@) == Some(JsonView::Unsigned(0)) ==> wanted_limit(input) == 1,
{
}

/// A memory is taken where it has a content that is not too large and one of
/// the four categories.
pub proof fn law_memories_that_are_taken(input: JsonView, max_content_bytes: usize)
    ensures
        store_error(input, max_content_bytes) is None <==> {
            &&& text_of(field(input, "content"@)) is Some
            &&& byte_len(text_of(field(input, "content"@))->0) <= max_content_bytes
            &&& {
                let c = text_of(field(input, "category"@));
                ||| c == Some("fact"@)
                ||| c == Some("observation"@)
                ||| c == Some("decision"@)
                ||| c == Some("preference"@)
            }
        },
{
}

/// A search is made where it says what for, and names a category that there is
/// where it names one; a deletion, where it names a memory by its identity.
pub proof fn law_searches_that_are_made(input: JsonView)
    ensures
        query_error(input) is None <==> text_of(field(input, "query"@)) is Some && (text_of(
            field(input, "category"@),
        ) is None || category_of(text_of(field(input, "category"@))->0) is Some),
        delete_error(input) is None <==> text_of(field(input, "memory_id"@)) is Some && uuid_value(
            text_of(field(input, "memory_id"@))->0,
        ) is Some,
        text_of(field(input, "replaces"@)) is None ==> replaced_memory(input) is None,
        text_of(field(input, "replaces"@)) is Some ==> replaced_memory(input) == uuid_value(
            text_of(field(input, "replaces"@))->0,
        ),
{
}

/// Every memory that was found is answered, in its order, with all that is
/// known of it.
pub proof fn law_every_memory_is_answered(hits: Seq<MemoryHit>, i: int)
    requires
        0 <= i < hits.len(),
    ensures
        ({
            let a = query_answer(hits)->Object_0;
            let all = a[0].1->Array_0;
            let h = all[i]->Object_0;
            &&& a[0] == ("results"@, JsonView::Array(all))
            &&& all.len() == hits.len()
            &&& a.contains(("count"@, JsonView::Unsigned(hits.len() as u64)))
            &&& h.contains(("memory_id"@, JsonView::Text(hyphenated(hits[i].id))))
            &&& h.contains(("content"@, JsonView::Text(hits[i].content@)))
            &&& h.contains(("category"@, JsonView::Text(category_name(hits[i].category))))
            &&& h.contains(("relevance_score"@, hits[i].relevance_score@))
            &&& h.contains(
                (
                    "created_at"@,
                    JsonView::Text(rfc3339_text(hits[i].created_at.secs, hits[i].created_at.nanos)),
                ),
            )
        }),
{
    let a = query_answer(hits)->Object_0;
    assert(a[1].0 == "count"@);
    let h = a[0].1->Array_0[i]->Object_0;
    assert(h[0].0 == "memory_id"@ && h[1].0 == "content"@ && h[2].0 == "category"@);
    assert(h[3].0 == "relevance_score"@ && h[4].0 == "created_at"@);
}

/// The answer to a change names the memory and what became of it.
pub proof fn law_answer_names_the_memory(memory_id: Seq<char>, status: Seq<char>)
    ensures
        memory_status(memory_id, status)->Object_0.contains(
            ("memory_id"@, JsonView::Text(memory_id)),
        ),
        memory_status(memory_id, status)->Object_0.contains(("status"@, JsonView::Text(status))),
{
    let a = memory_status(memory_id, status)->Object_0;
    assert(a[0].0 == "memory_id"@ && a[1].0 == "status"@);
}

/// What a tool says it needs, it needs: a request without it is refused, and
/// nothing else has to be given.
pub proof fn law_required_parameters_are_needed(input: JsonView, max_content_bytes: usize, i: int)
    ensures
        0 <= i < store_params().len() ==> {
            let p = store_params()[i];
            &&& p.required <==> p.name == "content"@ || p.name == "category"@
            &&& p.required && text_of(field(input, p.name)) is None ==> store_error(
                input,
                max_content_bytes,
            ) is Some
        },
        0 <= i < query_params().len() ==> {
            let p = query_params()[i];
            &&& p.required <==> p.name == "query"@
            &&& p.required && text_of(field(input, p.name)) is None ==> query_error(input) is Some
        },
        0 <= i < delete_params().len() ==> {
            let p = delete_params()[i];
            &&& p.required
            &&& text_of(field(input, p.name)) is None ==> delete_error(input) is Some
        },
{
    reveal_strlit("content");
    reveal_strlit("category");
    reveal_strlit("replaces");
    reveal_strlit("query");
    reveal_strlit("limit");
    assert("content"@.len() == 7 && "category"@.len() == 8 && "category"@[0] == 'c');
    assert("replaces"@.len() == 8 && "replaces"@[0] == 'r');
    assert("query"@.len() == 5 && "query"@[0] == 'q' && "limit"@.len() == 5 && "limit"@[0] == 'l');
}

/// The categories that are offered are those that are taken.
pub proof fn law_offered_categories_are_taken(t: Seq<char>)
    ensures
        category_names().contains(t) <==> category_of(t) is Some,
{
    let all = category_names();
    assert(all[0] == "fact"@ && all[1] == "observation"@);
    assert(all[2] == "decision"@ && all[3] == "preference"@);
}

} // verus!
