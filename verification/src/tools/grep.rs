//! Searching files.

use crate::audit::text_option;
use crate::capability::{Capability, CapabilityView};
use crate::error::{CoreError, CoreErrorView};
use crate::json::{
    array_view, elements_of, field, json_parse, lemma_array_view, read_json, text_of, unsigned_of, Json,
    JsonView,
};
use crate::text::{byte_len, byte_length, from_range, lines, same, text_lines, to_chars, views};
use crate::tools::access::{flag, flag_of, missing_param, permitted, require, required_text};
use crate::tools::definition::{
    define, defined, entry, fields_view, object, optional_param, params_view, required_param, text,
    Param, ParamKind, ParamKindView, ParamView, ToolDefinition,
};
use crate::tools::output::{cap_bytes, code_or_none, cut, exit_code, signed_decimal, signed_text};
use crate::types::AgentId;
use vstd::prelude::*;
use vstd::string::*;

verus! {

/// How many bytes of matches are answered at most, and how much output is taken
/// for complete.
pub const MAX_INLINE_BYTES: usize = 16_384;

/// How long a search may take, in seconds.
pub const DEFAULT_TIMEOUT_SECS: u64 = 30;

/// How many matches are answered at most.
pub const MAX_MATCHES: usize = 200;

/// How much of a matching line is answered, in bytes.
pub const MAX_LINE_BYTES: usize = 512;

/// Searches files for a pattern.
#[derive(Debug)]
pub struct GrepTool;

/// A search that was asked for.
#[derive(Debug)]
pub struct SearchRequest {
    pub pattern: String,
    pub path: String,
    pub glob: Option<String>,
    pub case_insensitive: bool,
}

/// Why a search cannot be asked for as it was.
pub open spec fn request_error(input: JsonView) -> Option<CoreErrorView> {
    if text_of(field(input, "pattern"@)) is None {
        Some(missing_param("pattern"@))
    } else if text_of(field(input, "path"@)) is None {
        Some(missing_param("path"@))
    } else {
        None
    }
}

/// How the search program is called.
pub open spec fn search_args(
    pattern: Seq<char>,
    path: Seq<char>,
    glob: Option<Seq<char>>,
    case_insensitive: bool,
) -> Seq<Seq<char>> {
    let case = if case_insensitive {
        seq!["-i"@]
    } else {
        Seq::empty()
    };
    let files = match glob {
        Some(g) => seq!["--glob"@, g],
        None => Seq::empty(),
    };
    seq!["--json"@] + case + files + seq!["--"@, pattern, path]
}

/// A text without the line feed that ends it.
pub open spec fn without_newline(s: Seq<char>) -> Seq<char> {
    if s.len() > 0 && s.last() == '\n' {
        s.drop_last()
    } else {
        s
    }
}

/// The text in the field `text` of the field `key`, or nothing.
pub open spec fn inner_text(data: JsonView, key: Seq<char>) -> Seq<char> {
    match field(data, key) {
        Some(inner) => match text_of(field(inner, "text"@)) {
            Some(t) => t,
            None => ""@,
        },
        None => ""@,
    }
}

/// A match, as it is answered, of what the search program says of it.
pub open spec fn match_value(data: JsonView) -> JsonView {
    JsonView::Object(
        seq![
            ("file"@, JsonView::Text(inner_text(data, "path"@))),
            (
                "line"@,
                JsonView::Unsigned(
                    match unsigned_of(field(data, "line_number"@)) {
                        Some(n) => n,
                        None => 0,
                    },
                ),
            ),
            (
                "text"@,
                JsonView::Text(
                    cut(without_newline(inner_text(data, "lines"@)), MAX_LINE_BYTES as nat),
                ),
            ),
        ],
    )
}

/// Whether what the search program says is a match.
pub open spec fn is_match(event: JsonView) -> bool {
    text_of(field(event, "type"@)) == Some("match"@)
}

/// How many matches the search program speaks of.
pub open spec fn match_count(events: Seq<JsonView>) -> nat
    decreases events.len(),
{
    if events.len() == 0 {
        0
    } else if is_match(events.last()) {
        match_count(events.drop_last()) + 1
    } else {
        match_count(events.drop_last())
    }
}

/// The matches that it tells about, as they are answered.
pub open spec fn found(events: Seq<JsonView>) -> Seq<JsonView>
    decreases events.len(),
{
    if events.len() == 0 {
        Seq::empty()
    } else {
        match field(events.last(), "data"@) {
            Some(data) => if is_match(events.last()) {
                found(events.drop_last()).push(match_value(data))
            } else {
                found(events.drop_last())
            },
            None => found(events.drop_last()),
        }
    }
}

/// How many bytes a text in a match is.
pub open spec fn shown_bytes(m: JsonView, key: Seq<char>) -> nat {
    match text_of(field(m, key)) {
        Some(t) => byte_len(t),
        None => 0,
    }
}

/// How many bytes some matches are: their lines, and the names of the files.
pub open spec fn inline_bytes(matches: Seq<JsonView>) -> nat
    decreases matches.len(),
{
    if matches.len() == 0 {
        0
    } else {
        inline_bytes(matches.drop_last()) + shown_bytes(matches.last(), "file"@) + shown_bytes(
            matches.last(),
            "text"@,
        )
    }
}

/// How many of the matches are answered: those at the start, up to the number
/// and the size that an answer may have.
pub open spec fn fitting(matches: Seq<JsonView>) -> nat
    decreases matches.len(),
{
    if matches.len() == 0 {
        0
    } else {
        let k = fitting(matches.drop_last());
        if k + 1 == matches.len() && k < MAX_MATCHES && inline_bytes(matches) <= MAX_INLINE_BYTES {
            k + 1
        } else {
            k
        }
    }
}

/// The matches that are answered.
pub open spec fn first_matches(events: Seq<JsonView>) -> Seq<JsonView> {
    found(events).take(fitting(found(events)) as int)
}

/// What the search program said line by line; what is no JSON is passed over.
pub open spec fn events_of(said: Seq<Seq<char>>) -> Seq<JsonView>
    decreases said.len(),
{
    if said.len() == 0 {
        Seq::empty()
    } else {
        match json_parse(said.last()) {
            Some(event) => events_of(said.drop_last()).push(event),
            None => events_of(said.drop_last()),
        }
    }
}

/// What is answered to a search.
pub open spec fn search_answer(
    pattern: Seq<char>,
    events: Seq<JsonView>,
    output_bytes: nat,
) -> JsonView {
    JsonView::Object(
        seq![
            ("pattern"@, JsonView::Text(pattern)),
            ("matches"@, JsonView::Array(first_matches(events))),
            ("total_matches"@, JsonView::Unsigned(first_matches(events).len() as u64)),
            (
                "truncated"@,
                JsonView::Bool(
                    match_count(events) > MAX_MATCHES || first_matches(events).len() < found(
                        events,
                    ).len() || output_bytes > MAX_INLINE_BYTES,
                ),
            ),
        ],
    )
}

proof fn lemma_fitting(matches: Seq<JsonView>)
    ensures
        fitting(matches) <= matches.len(),
        fitting(matches) <= MAX_MATCHES,
        inline_bytes(matches.take(fitting(matches) as int)) <= MAX_INLINE_BYTES,
        fitting(matches) < matches.len() ==> fitting(matches) == MAX_MATCHES || inline_bytes(
            matches.take(fitting(matches) as int + 1),
        ) > MAX_INLINE_BYTES,
    decreases matches.len(),
{
    if matches.len() > 0 {
        let before = matches.drop_last();
        lemma_fitting(before);
        let k = fitting(before);
        assert(matches.take(matches.len() as int) =~= matches);
        assert(before.take(k as int) =~= matches.take(k as int));
        if k < before.len() {
            assert(before.take(k as int + 1) =~= matches.take(k as int + 1));
        }
    } else {
        assert(matches.take(0) =~= matches);
    }
}

proof fn lemma_found_matches(events: Seq<JsonView>)
    ensures
        found(events).len() <= match_count(events),
    decreases events.len(),
{
    if events.len() > 0 {
        lemma_found_matches(events.drop_last());
    }
}

/// A search never answers with more matches than it may, nor with more bytes
/// of them, and with no fewer than fit: those left out begin with one for
/// which there was no room.
pub proof fn law_matches_are_bounded(events: Seq<JsonView>)
    ensures
        first_matches(events).len() <= MAX_MATCHES,
        first_matches(events).len() <= match_count(events),
        inline_bytes(first_matches(events)) <= MAX_INLINE_BYTES,
        first_matches(events) == found(events) || first_matches(events).len() == MAX_MATCHES
            || inline_bytes(found(events).take(first_matches(events).len() as int + 1))
            > MAX_INLINE_BYTES,
{
    lemma_fitting(found(events));
    lemma_found_matches(events);
    assert(found(events).take(found(events).len() as int) =~= found(events));
}

/// The texts of a match stand in it under their names.
proof fn lemma_match_texts(data: JsonView)
    ensures
        shown_bytes(match_value(data), "file"@) == byte_len(inner_text(data, "path"@)),
        shown_bytes(match_value(data), "text"@) == byte_len(
            cut(without_newline(inner_text(data, "lines"@)), MAX_LINE_BYTES as nat),
        ),
{
    reveal_strlit("file");
    reveal_strlit("line");
    reveal_strlit("text");
    let f = match_value(data)->Object_0;
    assert("file"@[0] == 'f' && "line"@[0] == 'l' && "text"@[0] == 't');
    assert(f[0].0 == "file"@ && f[1].0 == "line"@ && f[2].0 == "text"@);
    assert(f.skip(1)[0] == f[1]);
    assert(f.skip(1).skip(1)[0] == f[2]);
    reveal_with_fuel(crate::table::lookup, 4);
}

/// A text without the line feed that ends it.
fn strip_newline(s: &str) -> (r: String)
    ensures
        r@ == without_newline(s@),
{
    let v = to_chars(s);
    if v.len() > 0 && v[v.len() - 1] == '\n' {
        let r = from_range(&v, 0, v.len() - 1);
        assert(s@.subrange(0, s@.len() - 1) =~= s@.drop_last());
        r
    } else {
        s.to_owned()
    }
}

/// The text in the field `text` of the field `key`, or nothing.
fn read_inner(data: &Json, key: &str) -> (r: String)
    ensures
        r@ == inner_text(data@, key@),
{
    match data.get(key) {
        Some(inner) => match inner.get_str("text") {
            Some(t) => t.clone(),
            None => "".to_owned(),
        },
        None => "".to_owned(),
    }
}

/// A match, as it is answered, and how many bytes its texts are.
fn match_json(data: &Json) -> (r: (Json, u128))
    ensures
        r.0@ == match_value(data@),
        r.1 == shown_bytes(match_value(data@), "file"@) + shown_bytes(
            match_value(data@),
            "text"@,
        ),
{
    proof {
        lemma_match_texts(data@);
    }
    let file = read_inner(data, "path");
    let line: u64 = match data.get_u64("line_number") {
        Some(n) => n,
        None => 0,
    };
    let whole = read_inner(data, "lines");
    let stripped = strip_newline(whole.as_str());
    let shown = cap_bytes(stripped.as_str(), MAX_LINE_BYTES);
    let size: u128 = byte_length(file.as_str()) as u128 + byte_length(shown.as_str()) as u128;
    let mut f: Vec<(String, Json)> = Vec::new();
    f.push(entry("file", Json::Text(file)));
    f.push(entry("line", Json::Unsigned(line)));
    f.push(entry("text", Json::Text(shown)));
    assert(fields_view(f@) =~= match_value(data@)->Object_0);
    (object(f), size)
}

/// What is answered to a search, given what the search program said and how
/// much that was.
pub fn gather(pattern: &str, events: &Vec<Json>, output_bytes: usize) -> (r: Json)
    ensures
        r@ == search_answer(pattern@, array_view(events@), output_bytes as nat),
        elements_of(field(r@, "matches"@)) == Some(first_matches(array_view(events@))),
        inline_bytes(first_matches(array_view(events@))) <= MAX_INLINE_BYTES,
        first_matches(array_view(events@)).len() <= MAX_MATCHES,
{
    let ghost all = array_view(events@);
    proof {
        lemma_array_view(events@);
    }
    let mut matches: Vec<Json> = Vec::new();
    let mut total: usize = 0;
    let mut bytes: u128 = 0;
    let mut left_out: bool = false;
    let mut i: usize = 0;
    proof {
        lemma_array_view(matches@);
        assert(array_view(matches@) =~= first_matches(all.take(0)));
    }
    while i < events.len()
        invariant
            all == array_view(events@),
            all.len() == events@.len(),
            forall|k: int| 0 <= k < all.len() ==> #[trigger] all[k] == events@[k]@,
            0 <= i <= events@.len(),
            total <= i,
            total == match_count(all.take(i as int)),
            array_view(matches@) == first_matches(all.take(i as int)),
            matches@.len() == array_view(matches@).len(),
            matches@.len() == fitting(found(all.take(i as int))),
            bytes == inline_bytes(array_view(matches@)),
            bytes <= MAX_INLINE_BYTES,
            left_out == (matches@.len() < found(all.take(i as int)).len()),
            matches@.len() <= found(all.take(i as int)).len(),
        decreases events@.len() - i,
    {
        let ghost before = array_view(matches@);
        let ghost m0 = matches@;
        let ghost f0 = found(all.take(i as int));
        assert(all[i as int] == events@[i as int]@);
        assert(all.take(i + 1).drop_last() =~= all.take(i as int));
        assert(all.take(i + 1).last() == all[i as int]);
        let event = &events[i];
        let hit = match event.get_str("type") {
            Some(t) => same(t.as_str(), "match"),
            None => false,
        };
        if hit {
            total += 1;
            if let Some(data) = event.get("data") {
                let (one, size) = match_json(data);
                let ghost v = match_value(data@);
                proof {
                    assert(found(all.take(i + 1)) == f0.push(v));
                    assert(f0.push(v).drop_last() =~= f0);
                    if !left_out {
                        assert(f0.take(f0.len() as int) =~= f0);
                        assert(before == f0);
                    }
                    lemma_fitting(f0.push(v));
                    lemma_fitting(f0);
                }
                if !left_out && matches.len() < MAX_MATCHES && size <= MAX_INLINE_BYTES as u128
                    - bytes {
                    matches.push(one);
                    bytes = bytes + size;
                    proof {
                        lemma_array_view(m0);
                        lemma_array_view(matches@);
                        assert(array_view(matches@) =~= before.push(v));
                        assert(before.push(v).drop_last() =~= before);
                        assert(f0.push(v).take(f0.len() as int + 1) =~= f0.push(v));
                    }
                } else {
                    left_out = true;
                    assert(f0.push(v).take(matches@.len() as int) =~= f0.take(
                        matches@.len() as int,
                    ));
                }
            }
        }
        i += 1;
    }
    assert(all.take(i as int) =~= all);
    let count: u64 = matches.len() as u64;
    let truncated = total > MAX_MATCHES || left_out || output_bytes > MAX_INLINE_BYTES;
    let mut f: Vec<(String, Json)> = Vec::new();
    f.push(entry("pattern", text(pattern)));
    f.push(entry("matches", Json::Array(matches)));
    f.push(entry("total_matches", Json::Unsigned(count)));
    f.push(entry("truncated", Json::Bool(truncated)));
    assert(fields_view(f@) =~= search_answer(pattern@, all, output_bytes as nat)->Object_0);
    proof {
        lemma_fitting(found(all));
        lemma_answer_matches(pattern@, all, output_bytes as nat);
    }
    object(f)
}

/// The matches stand in the answer under their name.
proof fn lemma_answer_matches(pattern: Seq<char>, events: Seq<JsonView>, output_bytes: nat)
    ensures
        elements_of(field(search_answer(pattern, events, output_bytes), "matches"@)) == Some(
            first_matches(events),
        ),
{
    reveal_strlit("pattern");
    reveal_strlit("matches");
    let f = search_answer(pattern, events, output_bytes)->Object_0;
    assert("pattern"@[0] == 'p' && "matches"@[0] == 'm');
    assert(f[0].0 == "pattern"@ && f[1].0 == "matches"@);
    assert(f.skip(1)[0] == f[1]);
    reveal_with_fuel(crate::table::lookup, 3);
}

/// What the tool takes.
pub open spec fn search_params() -> Seq<ParamView> {
    seq![
        required_param("pattern"@, ParamKindView::Text, "Regex pattern (ripgrep syntax)"@),
        required_param("path"@, ParamKindView::Text, "Root directory or file to search"@),
        optional_param(
            "glob"@,
            ParamKindView::Text,
            "Optional file glob filter (e.g. \"*.rs\")"@,
        ),
        optional_param(
            "case_insensitive"@,
            ParamKindView::Flag,
            "Case-insensitive match (default: false)"@,
        ),
    ]
}

impl SearchRequest {
    /// How the search program is called.
    pub fn args(&self) -> (r: Vec<String>)
        ensures
            views(r@) == search_args(
                self.pattern@,
                self.path@,
                text_option(self.glob),
                self.case_insensitive,
            ),
    {
        let mut args: Vec<String> = Vec::new();
        args.push("--json".to_owned());
        if self.case_insensitive {
            args.push("-i".to_owned());
        }
        if let Some(g) = &self.glob {
            args.push("--glob".to_owned());
            args.push(g.clone());
        }
        args.push("--".to_owned());
        args.push(self.pattern.clone());
        args.push(self.path.clone());
        assert(views(args@) =~= search_args(
            self.pattern@,
            self.path@,
            text_option(self.glob),
            self.case_insensitive,
        ));
        args
    }
}

impl GrepTool {
    /// What the tool is.
    pub fn definition(&self) -> (r: ToolDefinition)
        ensures
            r@ == defined(
                "grep"@,
                "Search for a regex pattern in files under a directory. Uses ripgrep. Capped at 200 matches / 16 KB inline output. Requires FileRead capability for the target path."@,
                search_params(),
            ),
    {
        let mut params: Vec<Param> = Vec::new();
        params.push(Param::required("pattern", ParamKind::Text, "Regex pattern (ripgrep syntax)"));
        params.push(Param::required("path", ParamKind::Text, "Root directory or file to search"));
        params.push(
            Param::optional(
                "glob",
                ParamKind::Text,
                "Optional file glob filter (e.g. \"*.rs\")",
            ),
        );
        params.push(
            Param::optional(
                "case_insensitive",
                ParamKind::Flag,
                "Case-insensitive match (default: false)",
            ),
        );
        assert(params_view(params@) =~= search_params());
        define(
            "grep",
            "Search for a regex pattern in files under a directory. Uses ripgrep. Capped at 200 matches / 16 KB inline output. Requires FileRead capability for the target path.",
            &params,
        )
    }

    /// The search that an input asks for.
    pub fn parse(&self, input: &Json) -> (r: Result<SearchRequest, CoreError>)
        ensures
            match r {
                Ok(q) => {
                    &&& request_error(input@) is None
                    &&& text_of(field(input@, "pattern"@)) == Some(q.pattern@)
                    &&& text_of(field(input@, "path"@)) == Some(q.path@)
                    &&& match q.glob {
                        Some(g) => text_of(field(input@, "glob"@)) == Some(g@),
                        None => text_of(field(input@, "glob"@)) is None,
                    }
                    &&& q.case_insensitive == flag_of(input@, "case_insensitive"@)
                },
                Err(e) => request_error(input@) == Some(e@),
            },
    {
        let pattern = match required_text(input, "pattern") {
            Ok(t) => t,
            Err(e) => {
                return Err(e);
            },
        };
        let path = match required_text(input, "path") {
            Ok(t) => t,
            Err(e) => {
                return Err(e);
            },
        };
        let glob = match input.get_str("glob") {
            Some(g) => Some(g.clone()),
            None => None,
        };
        let case_insensitive = flag(input, "case_insensitive");
        Ok(SearchRequest { pattern, path, glob, case_insensitive })
    }

    /// Lets an agent search under a path, if it is there.
    pub fn authorize(
        &self,
        agent_id: AgentId,
        path: &str,
        permits: &Vec<bool>,
    ) -> (r: Result<(), CoreError>)
        ensures
            match r {
                Ok(_) => permitted(permits@),
                Err(e) => !permitted(permits@) && e@ == (CoreErrorView::CapabilityDenied {
                    agent_id,
                    capability: CapabilityView::FileRead { path_glob: path@ },
                    reason: "grep not permitted for path: "@ + path@,
                }),
            },
    {
        let read = Capability::FileRead { path_glob: path.to_owned() };
        require(agent_id, permits, read, "grep not permitted for path: ", path)
    }

    /// Refuses a path that is not there.
    pub fn check_path(&self, path: &str, exists: bool) -> (r: Result<(), CoreError>)
        ensures
            match r {
                Ok(_) => exists,
                Err(e) => !exists && e@ == CoreErrorView::Ipc("path does not exist: "@ + path@),
            },
    {
        if exists {
            return Ok(());
        }
        let mut m = "path does not exist: ".to_owned();
        m.append(path);
        Err(CoreError::Ipc(m))
    }

    /// What is answered once the search program has ended.
    pub fn answer(&self, pattern: &str, code: Option<i32>, stdout: &str, stderr: &str) -> (r:
        Result<Json, CoreError>)
        ensures
            match r {
                Ok(v) => code_or_none(code) < 2 && v@ == search_answer(
                    pattern@,
                    events_of(text_lines(stdout@)),
                    byte_len(stdout@),
                ),
                Err(e) => code_or_none(code) >= 2 && e@ == CoreErrorView::Ipc(
                    "rg error (exit "@ + signed_decimal(code_or_none(code)) + "): "@
                        + stderr@,
                ),
            },
    {
        let c = exit_code(code);
        if c >= 2 {
            let mut m = "rg error (exit ".to_owned();
            let n = signed_text(c);
            m.append(n.as_str());
            m.append("): ");
            m.append(stderr);
            return Err(CoreError::Ipc(m));
        }
        let said = lines(stdout);
        let ghost all = text_lines(stdout@);
        let mut events: Vec<Json> = Vec::new();
        let mut i: usize = 0;
        proof {
            lemma_array_view(events@);
            assert(array_view(events@) =~= events_of(all.take(0)));
        }
        while i < said.len()
            invariant
                all == text_lines(stdout@),
                views(said@) == all,
                0 <= i <= said@.len(),
                array_view(events@) == events_of(all.take(i as int)),
            decreases said@.len() - i,
        {
            let ghost e0 = events@;
            let ghost before = array_view(events@);
            assert(all[i as int] == said@[i as int]@);
            assert(all.take(i + 1).drop_last() =~= all.take(i as int));
            if let Some(event) = read_json(said[i].as_str()) {
                let ghost v = event@;
                events.push(event);
                proof {
                    lemma_array_view(e0);
                    lemma_array_view(events@);
                    assert(array_view(events@) =~= before.push(v));
                }
            }
            i += 1;
        }
        assert(all.take(i as int) =~= all);
        Ok(gather(pattern, &events, byte_length(stdout)))
    }
}

/// The search is asked for what is looked for and where, behind a mark that
/// keeps both from being read as options; the other arguments say how.
pub proof fn law_search_is_asked_for(
    pattern: Seq<char>,
    path: Seq<char>,
    glob: Option<Seq<char>>,
    case_insensitive: bool,
)
    ensures
        ({
            let args = search_args(pattern, path, glob, case_insensitive);
            let n = args.len() as int;
            &&& args[0] == "--json"@
            &&& args.skip(n - 3) == seq!["--"@, pattern, path]
            &&& case_insensitive ==> args[1] == "-i"@
            &&& glob is Some ==> args.subrange(n - 5, n - 3) == seq!["--glob"@, glob->0]
            &&& n == 4 + (if case_insensitive {
                1int
            } else {
                0
            }) + (if glob is Some {
                2int
            } else {
                0
            })
        }),
{
    let args = search_args(pattern, path, glob, case_insensitive);
    let n = args.len() as int;
    assert(args.skip(n - 3) =~= seq!["--"@, pattern, path]);
    if glob is Some {
        assert(args.subrange(n - 5, n - 3) =~= seq!["--glob"@, glob->0]);
    }
}

/// Every match that is reported is found, in the order of the reports, and
/// nothing that is no match is.
pub proof fn law_every_match_is_found(a: Seq<JsonView>, b: Seq<JsonView>, e: JsonView)
    ensures
        found(a + b) == found(a) + found(b),
        match_count(a + b) == match_count(a) + match_count(b),
        field(e, "type"@) == Some(JsonView::Text("match"@)) && field(e, "data"@) is Some ==> found(
            seq![e],
        ) == seq![match_value(field(e, "data"@)->0)],
        field(e, "type"@) == Some(JsonView::Text("match"@)) ==> match_count(seq![e]) == 1,
        field(e, "type"@) != Some(JsonView::Text("match"@)) ==> found(seq![e]).len() == 0
            && match_count(seq![e]) == 0,
    decreases b.len(),
{
    reveal_with_fuel(found, 2);
    reveal_with_fuel(match_count, 2);
    assert(seq![e].drop_last() =~= Seq::<JsonView>::empty());
    assert(seq![e].last() == e);
    if b.len() == 0 {
        assert(a + b =~= a);
        assert(found(a) + found(b) =~= found(a));
    } else {
        assert((a + b).drop_last() =~= a + b.drop_last());
        law_every_match_is_found(a, b.drop_last(), e);
        assert(found(a + b) =~= found(a) + found(b));
    }
}

/// A match is answered with its file, its line, and the text of that line
/// without its line feed, as far as it is shown.
pub proof fn law_answer_tells_of_the_match(data: JsonView, file: JsonView, lines: JsonView, n: u64)
    requires
        field(data, "path"@) == Some(file),
        field(file, "text"@) is Some,
        field(file, "text"@)->0 is Text,
        field(data, "lines"@) == Some(lines),
        field(lines, "text"@) is Some,
        field(lines, "text"@)->0 is Text,
        field(data, "line_number"@) == Some(JsonView::Unsigned(n)),
    ensures
        ({
            let a = match_value(data)->Object_0;
            &&& a.contains(("file"@, field(file, "text"@)->0))
            &&& a.contains(("line"@, JsonView::Unsigned(n)))
            &&& a.contains(
                (
                    "text"@,
                    JsonView::Text(
                        cut(without_newline(field(lines, "text"@)->0->Text_0), 512),
                    ),
                ),
            )
        }),
{
    let a = match_value(data)->Object_0;
    assert(a[0].0 == "file"@ && a[1].0 == "line"@ && a[2].0 == "text"@);
}

/// One line feed at the end is left out, and nothing else.
pub proof fn law_line_feed_is_left_out(s: Seq<char>)
    ensures
        without_newline(s.push('\n')) == s,
        s.len() == 0 || s.last() != '\n' ==> without_newline(s) == s,
{
    assert(s.push('\n').drop_last() =~= s);
}

/// Every line that is JSON is read, in its order, and every other is passed
/// over.
pub proof fn law_reports_are_read_line_by_line(
    a: Seq<Seq<char>>,
    b: Seq<Seq<char>>,
    line: Seq<char>,
)
    ensures
        events_of(a + b) == events_of(a) + events_of(b),
        events_of(seq![line]) == (match json_parse(line) {
            Some(event) => seq![event],
            None => Seq::empty(),
        }),
    decreases b.len(),
{
    reveal_with_fuel(events_of, 2);
    assert(seq![line].drop_last() =~= Seq::<Seq<char>>::empty());
    if b.len() == 0 {
        assert(a + b =~= a);
        assert(events_of(a) + events_of(b) =~= events_of(a));
    } else {
        assert((a + b).drop_last() =~= a + b.drop_last());
        law_reports_are_read_line_by_line(a, b.drop_last(), line);
        assert(events_of(a + b) =~= events_of(a) + events_of(b));
    }
}

/// The answer holds the first matches, as many as fit, and says where there
/// were more. Up to two hundred that fit are all shown.
pub proof fn law_answer_holds_the_first_matches(
    pattern: Seq<char>,
    events: Seq<JsonView>,
    output_bytes: nat,
)
    ensures
        ({
            let a = search_answer(pattern, events, output_bytes)->Object_0;
            let shown = first_matches(events);
            &&& a.contains(("pattern"@, JsonView::Text(pattern)))
            &&& a.contains(("matches"@, JsonView::Array(shown)))
            &&& a.contains(("total_matches"@, JsonView::Unsigned(shown.len() as u64)))
            &&& shown.len() <= found(events).len()
            &&& shown == found(events).take(shown.len() as int)
            &&& found(events).len() <= 200 && inline_bytes(found(events)) <= 16_384 ==> shown
                == found(events)
            &&& shown.len() < found(events).len() ==> a.contains(
                ("truncated"@, JsonView::Bool(true)),
            )
            &&& shown == found(events) && match_count(events) <= 200 && output_bytes <= 16_384
                ==> a.contains(("truncated"@, JsonView::Bool(false)))
        }),
{
    let a = search_answer(pattern, events, output_bytes)->Object_0;
    assert(a[0].0 == "pattern"@ && a[1].0 == "matches"@);
    assert(a[2].0 == "total_matches"@ && a[3].0 == "truncated"@);
    lemma_fitting(found(events));
    let shown = first_matches(events);
    assert(found(events).take(shown.len() as int) =~= shown);
    if found(events).len() <= 200 && inline_bytes(found(events)) <= 16_384 && shown.len()
        < found(events).len() {
        lemma_inline_bytes_grow(found(events), shown.len() as int + 1);
    }
    if shown.len() == found(events).len() {
        assert(shown =~= found(events));
    }
}

proof fn lemma_inline_bytes_grow(matches: Seq<JsonView>, k: int)
    requires
        0 <= k <= matches.len(),
    ensures
        inline_bytes(matches.take(k)) <= inline_bytes(matches),
    decreases matches.len(),
{
    if k == matches.len() {
        assert(matches.take(k) =~= matches);
    } else {
        lemma_inline_bytes_grow(matches.drop_last(), k);
        assert(matches.drop_last().take(k) =~= matches.take(k));
    }
}

/// A search that says what to look for and where is made.
pub proof fn law_search_requests_in_order(input: JsonView)
    ensures
        request_error(input) is None <==> text_of(field(input, "pattern"@)) is Some && text_of(
            field(input, "path"@),
        ) is Some,
{
}

/// What the tool says it needs, it needs: a request without it is refused, and
/// nothing else has to be given.
pub proof fn law_required_parameters_are_needed(input: JsonView, i: int)
    requires
        0 <= i < search_params().len(),
    ensures
        search_params()[i].required <==> (search_params()[i].name == "pattern"@ || search_params()[i].name == "path"@),
        search_params()[i].required && text_of(field(input, search_params()[i].name)) is None ==> request_error(
            input,
        ) is Some,
{
    reveal_strlit("pattern");
    reveal_strlit("path");
    reveal_strlit("glob");
    reveal_strlit("case_insensitive");
    assert("pattern"@.len() == 7 && "pattern"@[0] == 'p');
    assert("path"@.len() == 4 && "path"@[0] == 'p');
    assert("glob"@.len() == 4 && "glob"@[0] == 'g');
    assert("case_insensitive"@.len() == 16 && "case_insensitive"@[0] == 'c');
}

} // verus!
