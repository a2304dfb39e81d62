//! Writing a file.

use crate::capability::{Capability, CapabilityView};
use crate::error::{CoreError, CoreErrorView};
use crate::json::{field, text_of, Json, JsonView};
use crate::text::{byte_len, byte_length, decimal, decimal_text};
use crate::tools::access::{flag, flag_of, missing_param, permitted, require, required_text};
use crate::tools::definition::{
    define, defined, entry, fields_view, object, optional_param, params_view, required_param,
    Param, ParamKind, ParamKindView, ParamView, ToolDefinition,
};
use crate::tools::path_safe::{open_plan, opened, AccessMode};
use crate::types::AgentId;
use vstd::prelude::*;
use vstd::string::*;

verus! {

/// How much may be written at a time, in bytes.
pub const MAX_WRITE_BYTES: usize = 1_048_576;

/// Writes a file, or adds to it.
#[derive(Debug)]
pub struct FileWriteTool;

/// A write that was asked for.
#[derive(Debug)]
pub struct WriteRequest {
    pub path: String,
    pub content: String,
    pub append: bool,
}

/// Why a write cannot be asked for as it was.
pub open spec fn request_error(input: JsonView) -> Option<CoreErrorView> {
    let path = text_of(field(input, "path"@));
    let content = text_of(field(input, "content"@));
    if path is None {
        Some(missing_param("path"@))
    } else if content is None {
        Some(missing_param("content"@))
    } else if byte_len(content->0) > MAX_WRITE_BYTES {
        Some(
            CoreErrorView::Ipc(
                "content too large: "@ + decimal(byte_len(content->0)) + " bytes (max 1048576)"@,
            ),
        )
    } else {
        None
    }
}

/// What the tool takes.
pub open spec fn write_params() -> Seq<ParamView> {
    seq![
        required_param("path"@, ParamKindView::Text, "Absolute path to write to"@),
        required_param("content"@, ParamKindView::Text, "Content to write"@),
        optional_param(
            "append"@,
            ParamKindView::Flag,
            "Append instead of overwrite (default: false)"@,
        ),
    ]
}

/// How the file of a write is to be opened: so that it keeps what it holds, for
/// whether it may be written shows only once it is open.
pub open spec fn write_mode(append: bool) -> AccessMode {
    if append {
        AccessMode::WriteCreateAppend
    } else {
        AccessMode::WriteCreate
    }
}

/// What to do with the open file of a write that is allowed.
#[derive(Debug, Clone, Copy, PartialEq, Eq, Structural)]
pub struct AllowedWrite {
    /// Cut off what the file holds before the content is written.
    pub truncate: bool,
}

/// What a file holds after an allowed write of `content`, given what it held
/// when it was opened.
pub open spec fn held_after(
    allowed: AllowedWrite,
    append: bool,
    held: Seq<u8>,
    content: Seq<u8>,
) -> Seq<u8> {
    let kept = if allowed.truncate {
        Seq::empty()
    } else {
        held
    };
    if append {
        kept + content
    } else if kept.len() <= content.len() {
        content
    } else {
        content + kept.skip(content.len() as int)
    }
}

/// A write that is refused leaves the file as it was: all that was done with
/// the file until then is to open it.
pub proof fn law_refused_write_changes_nothing(append: bool, strict: bool, held: Seq<u8>)
    ensures
        opened(open_plan(write_mode(append), strict), held) == held,
{
}

/// A write that is allowed leaves the content in the file, and where it was to
/// be added, what was there before it.
pub proof fn law_allowed_write_is_made(
    append: bool,
    strict: bool,
    held: Seq<u8>,
    content: Seq<u8>,
)
    ensures
        held_after(
            AllowedWrite { truncate: !append },
            append,
            opened(open_plan(write_mode(append), strict), held),
            content,
        ) == (if append {
            held + content
        } else {
            content
        }),
{
}

impl WriteRequest {
    /// How the file is to be opened.
    pub fn mode(&self) -> (r: AccessMode)
        ensures
            r == write_mode(self.append),
    {
        if self.append {
            AccessMode::WriteCreateAppend
        } else {
            AccessMode::WriteCreate
        }
    }
}

impl FileWriteTool {
    /// What the tool is.
    pub fn definition(&self) -> (r: ToolDefinition)
        ensures
            r@ == defined(
                "file_write"@,
                "Write content to a file. Path must be allowed by capability tokens."@,
                write_params(),
            ),
    {
        let mut params: Vec<Param> = Vec::new();
        params.push(Param::required("path", ParamKind::Text, "Absolute path to write to"));
        params.push(Param::required("content", ParamKind::Text, "Content to write"));
        params.push(
            Param::optional(
                "append",
                ParamKind::Flag,
                "Append instead of overwrite (default: false)",
            ),
        );
        assert(params_view(params@) =~= write_params());
        define(
            "file_write",
            "Write content to a file. Path must be allowed by capability tokens.",
            &params,
        )
    }

    /// The write that an input asks for.
    pub fn parse(&self, input: &Json) -> (r: Result<WriteRequest, CoreError>)
        ensures
            match r {
                Ok(q) => {
                    &&& request_error(input@) is None
                    &&& text_of(field(input@, "path"@)) == Some(q.path@)
                    &&& text_of(field(input@, "content"@)) == Some(q.content@)
                    &&& q.append == flag_of(input@, "append"@)
                },
                Err(e) => request_error(input@) == Some(e@),
            },
    {
        let path = match required_text(input, "path") {
            Ok(t) => t,
            Err(e) => {
                return Err(e);
            },
        };
        let content = match required_text(input, "content") {
            Ok(t) => t,
            Err(e) => {
                return Err(e);
            },
        };
        let size = byte_length(content.as_str());
        if size > MAX_WRITE_BYTES {
            let mut m = "content too large: ".to_owned();
            let n = decimal_text(size as u64);
            m.append(n.as_str());
            m.append(" bytes (max 1048576)");
            return Err(CoreError::Ipc(m));
        }
        let append = flag(input, "append");
        Ok(WriteRequest { path, content, append })
    }

    /// Lets an agent write the file at `canonical`, which is open by now. Only
    /// where it is allowed is what the file holds cut off.
    pub fn authorize(
        &self,
        agent_id: AgentId,
        canonical: &str,
        permits: &Vec<bool>,
        request: &WriteRequest,
    ) -> (r: Result<AllowedWrite, CoreError>)
        ensures
            match r {
                Ok(allowed) => permitted(permits@) && allowed == (AllowedWrite {
                    truncate: !request.append,
                }),
                Err(e) => !permitted(permits@) && e@ == (CoreErrorView::CapabilityDenied {
                    agent_id,
                    capability: CapabilityView::FileWrite { path_glob: canonical@ },
                    reason: "file_write not permitted for path: "@ + canonical@,
                }),
            },
    {
        let write = Capability::FileWrite { path_glob: canonical.to_owned() };
        match require(agent_id, permits, write, "file_write not permitted for path: ", canonical) {
            Ok(_) => Ok(AllowedWrite { truncate: !request.append }),
            Err(e) => Err(e),
        }
    }

    /// What is answered to a write that was made.
    pub fn answer(&self, request: &WriteRequest) -> (r: Json)
        ensures
            r@ == JsonView::Object(
                seq![
                    ("bytes_written"@, JsonView::Unsigned(byte_len(request.content@) as u64)),
                ],
            ),
    {
        let size = byte_length(request.content.as_str());
        let mut f: Vec<(String, Json)> = Vec::new();
        f.push(entry("bytes_written", Json::Unsigned(size as u64)));
        assert(fields_view(f@) =~= seq![
            ("bytes_written"@, JsonView::Unsigned(byte_len(request.content@) as u64)),
        ]);
        object(f)
    }
}

/// A request is in order where it says what to write and where, and that is at
/// most a mebibyte.
pub proof fn law_write_requests_in_order(input: JsonView)
    ensures
        request_error(input) is None <==> {
            &&& text_of(field(input, "path"@)) is Some
            &&& text_of(field(input, "content"@)) is Some
            &&& byte_len(text_of(field(input, "content"@))->0) <= 1_048_576
        },
{
}

/// What is written stands in the file afterwards, whole: at its end where it
/// was added, and else at its start.
pub proof fn law_content_is_in_the_file(
    allowed: AllowedWrite,
    append: bool,
    held: Seq<u8>,
    content: Seq<u8>,
)
    ensures
        ({
            let after = held_after(allowed, append, held, content);
            &&& append ==> after.len() >= content.len() && after.skip(after.len() - content.len())
                == content
            &&& !append ==> after.len() >= content.len() && after.take(content.len() as int)
                == content
            &&& allowed.truncate ==> after == content
            &&& append && !allowed.truncate ==> after == held + content
        }),
{
    let after = held_after(allowed, append, held, content);
    if append {
        assert(after.skip(after.len() - content.len()) =~= content);
    } else {
        assert(after.take(content.len() as int) =~= content);
    }
    if allowed.truncate {
        assert(after =~= content);
    }
}

/// What the tool says it needs, it needs: a request without it is refused, and
/// nothing else has to be given.
pub proof fn law_required_parameters_are_needed(input: JsonView, i: int)
    requires
        0 <= i < write_params().len(),
    ensures
        write_params()[i].required <==> (write_params()[i].name == "path"@ || write_params()[i].name == "content"@),
        write_params()[i].required && text_of(field(input, write_params()[i].name)) is None ==> request_error(
            input,
        ) is Some,
{
    reveal_strlit("path");
    reveal_strlit("content");
    reveal_strlit("append");
    assert("path"@.len() == 4 && "path"@[0] == 'p');
    assert("content"@.len() == 7 && "content"@[0] == 'c');
    assert("append"@.len() == 6 && "append"@[0] == 'a');
}

} // verus!
