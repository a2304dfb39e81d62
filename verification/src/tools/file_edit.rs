//! Replacing a part of a file.

use crate::capability::{Capability, CapabilityView};
use crate::error::{CoreError, CoreErrorView};
use crate::json::{field, text_of, Json, JsonView};
use crate::text::{
    begins_with, byte_len, byte_length, contains_text, count_occurrences, decimal, decimal_text,
    occurrences, occurs_at, replace_all, replace_first, replaced, replaced_once,
};
use crate::text_laws::{
    law_nothing_to_replace, law_replacing_goes_from_the_left, law_what_occurs_is_counted,
};
use crate::tools::access::{flag, flag_of, missing_param, permitted, require, required_text};
use crate::tools::definition::{
    define, defined, entry, fields_view, object, optional_param, params_view, required_param, text,
    Param, ParamKind, ParamKindView, ParamView, ToolDefinition,
};
use crate::tools::path_safe::AccessMode;
use crate::types::AgentId;
use vstd::prelude::*;
use vstd::string::*;

verus! {

/// How large either text of an edit may be, in bytes.
pub const MAX_EDIT_STRING_BYTES: usize = 65_536;

/// How large a file may be to be edited, in bytes.
pub const MAX_FILE_BYTES: u64 = 1_048_576;

/// Replaces a part of a file that occurs in it once, or all of its
/// occurrences.
#[derive(Debug)]
pub struct FileEditTool;

/// An edit that was asked for.
#[derive(Debug)]
pub struct EditRequest {
    pub path: String,
    pub old_string: String,
    pub new_string: String,
    pub replace_all: bool,
}

/// An edit that can be made.
#[derive(Debug)]
pub struct Edit {
    /// What the file is to hold.
    pub content: String,
    /// What to answer once it does.
    pub answer: Json,
}

/// Why an edit cannot be asked for as it was.
pub open spec fn request_error(input: JsonView) -> Option<CoreErrorView> {
    let path = text_of(field(input, "path"@));
    let old_string = text_of(field(input, "old_string"@));
    let new_string = text_of(field(input, "new_string"@));
    if path is None {
        Some(missing_param("path"@))
    } else if old_string is None {
        Some(missing_param("old_string"@))
    } else if new_string is None {
        Some(missing_param("new_string"@))
    } else if old_string->0.len() == 0 {
        Some(CoreErrorView::InvalidManifest("old_string must be non-empty"@))
    } else if byte_len(old_string->0) > MAX_EDIT_STRING_BYTES || byte_len(new_string->0)
        > MAX_EDIT_STRING_BYTES {
        Some(CoreErrorView::Ipc("edit string too large: max 65536 bytes per side"@))
    } else {
        None
    }
}

/// Why a file cannot be edited.
pub open spec fn file_error(path: Seq<char>, is_file: bool, len: u64) -> Option<CoreErrorView> {
    if !is_file {
        Some(CoreErrorView::Ipc(path + " is not a regular file"@))
    } else if len > MAX_FILE_BYTES {
        Some(
            CoreErrorView::Ipc(
                "file too large to edit in-place: "@ + decimal(len as nat)
                    + " bytes (max 1048576). Use file_write for total rewrite."@,
            ),
        )
    } else {
        None
    }
}

/// Why an edit cannot be made in a file with this content.
pub open spec fn edit_error(
    path: Seq<char>,
    original: Seq<char>,
    old_string: Seq<char>,
    every: bool,
) -> Option<CoreErrorView> {
    let n = occurrences(original, old_string);
    if n == 0 {
        Some(CoreErrorView::Ipc("old_string not found in "@ + path))
    } else if n > 1 && !every {
        Some(
            CoreErrorView::Ipc(
                "old_string matches "@ + decimal(n) + " times in "@ + path
                    + "; refusing ambiguous edit. Pass replace_all=true to replace all, or extend old_string with more context to make it unique."@,
            ),
        )
    } else {
        None
    }
}

/// What a file holds after an edit.
pub open spec fn edited(
    original: Seq<char>,
    old_string: Seq<char>,
    new_string: Seq<char>,
    every: bool,
) -> Seq<char> {
    if every {
        replaced(original, old_string, new_string)
    } else {
        replaced_once(original, old_string, new_string)
    }
}

/// What is answered to an edit that was made.
pub open spec fn edit_answer(
    path: Seq<char>,
    replacements: nat,
    bytes_before: u64,
    bytes_after: nat,
) -> JsonView {
    JsonView::Object(
        seq![
            ("path"@, JsonView::Text(path)),
            ("replacements"@, JsonView::Unsigned(replacements as u64)),
            ("bytes_before"@, JsonView::Unsigned(bytes_before)),
            ("bytes_after"@, JsonView::Unsigned(bytes_after as u64)),
        ],
    )
}

/// How often `needle` is found in `haystack` from the left without overlap;
/// nothing is found nowhere.
pub fn count_non_overlapping(haystack: &str, needle: &str) -> (n: usize)
    ensures
        n == occurrences(haystack@, needle@),
{
    if needle.is_empty() {
        return 0;
    }
    count_occurrences(haystack, needle)
}

/// What the tool takes.
pub open spec fn edit_params() -> Seq<ParamView> {
    seq![
        required_param(
            "path"@,
            ParamKindView::Text,
            "Absolute path to the file to edit"@,
        ),
        required_param(
            "old_string"@,
            ParamKindView::Text,
            "Exact substring to replace. Must appear in the file. Must be unique unless replace_all is true."@,
        ),
        required_param(
            "new_string"@,
            ParamKindView::Text,
            "Replacement text. May be empty (deletes old_string)."@,
        ),
        optional_param(
            "replace_all"@,
            ParamKindView::Flag,
            "If true, replace every occurrence. Default: false."@,
        ),
    ]
}

impl FileEditTool {
    /// What the tool is.
    pub fn definition(&self) -> (r: ToolDefinition)
        ensures
            r@ == defined(
                "file_edit"@,
                "Surgically replace a unique substring in a file. Requires FileRead + FileWrite capability for the path. If `old_string` matches more than once, the call is refused unless `replace_all: true`. Use this for small edits; use `file_write` to create new files or do total rewrites."@,
                edit_params(),
            ),
    {
        let mut params: Vec<Param> = Vec::new();
        params.push(Param::required("path", ParamKind::Text, "Absolute path to the file to edit"));
        params.push(
            Param::required(
                "old_string",
                ParamKind::Text,
                "Exact substring to replace. Must appear in the file. Must be unique unless replace_all is true.",
            ),
        );
        params.push(
            Param::required(
                "new_string",
                ParamKind::Text,
                "Replacement text. May be empty (deletes old_string).",
            ),
        );
        params.push(
            Param::optional(
                "replace_all",
                ParamKind::Flag,
                "If true, replace every occurrence. Default: false.",
            ),
        );
        assert(params_view(params@) =~= edit_params());
        define(
            "file_edit",
            "Surgically replace a unique substring in a file. Requires FileRead + FileWrite capability for the path. If `old_string` matches more than once, the call is refused unless `replace_all: true`. Use this for small edits; use `file_write` to create new files or do total rewrites.",
            &params,
        )
    }

    /// The edit that an input asks for.
    pub fn parse(&self, input: &Json) -> (r: Result<EditRequest, CoreError>)
        ensures
            match r {
                Ok(q) => {
                    &&& request_error(input@) is None
                    &&& text_of(field(input@, "path"@)) == Some(q.path@)
                    &&& text_of(field(input@, "old_string"@)) == Some(q.old_string@)
                    &&& text_of(field(input@, "new_string"@)) == Some(q.new_string@)
                    &&& q.replace_all == flag_of(input@, "replace_all"@)
                },
                Err(e) => request_error(input@) == Some(e@),
            },
    {
        let path = match required_text(input, "path") {
            Ok(t) => t,
            Err(e) => {
                return Err(e);
            },
        };
        let old_string = match required_text(input, "old_string") {
            Ok(t) => t,
            Err(e) => {
                return Err(e);
            },
        };
        let new_string = match required_text(input, "new_string") {
            Ok(t) => t,
            Err(e) => {
                return Err(e);
            },
        };
        let replace_all = flag(input, "replace_all");
        if old_string.as_str().is_empty() {
            return Err(CoreError::InvalidManifest("old_string must be non-empty".to_owned()));
        }
        if byte_length(old_string.as_str()) > MAX_EDIT_STRING_BYTES || byte_length(
            new_string.as_str(),
        ) > MAX_EDIT_STRING_BYTES {
            return Err(
                CoreError::Ipc("edit string too large: max 65536 bytes per side".to_owned()),
            );
        }
        Ok(EditRequest { path, old_string, new_string, replace_all })
    }

    /// How the file is to be opened: one that is not there is not created.
    pub fn mode(&self) -> (r: AccessMode)
        ensures
            r == AccessMode::ReadWrite,
    {
        AccessMode::ReadWrite
    }

    /// Lets an agent edit the file at `canonical`: it has to be allowed to
    /// read it and to write it.
    pub fn authorize(
        &self,
        agent_id: AgentId,
        canonical: &str,
        read_permits: &Vec<bool>,
        write_permits: &Vec<bool>,
    ) -> (r: Result<(), CoreError>)
        ensures
            match r {
                Ok(_) => permitted(read_permits@) && permitted(write_permits@),
                Err(e) => if !permitted(read_permits@) {
                    e@ == (CoreErrorView::CapabilityDenied {
                        agent_id,
                        capability: CapabilityView::FileRead { path_glob: canonical@ },
                        reason: "file_edit needs file_read for path: "@ + canonical@,
                    })
                } else {
                    !permitted(write_permits@) && e@ == (CoreErrorView::CapabilityDenied {
                        agent_id,
                        capability: CapabilityView::FileWrite { path_glob: canonical@ },
                        reason: "file_edit needs file_write for path: "@ + canonical@,
                    })
                },
            },
    {
        let read = Capability::FileRead { path_glob: canonical.to_owned() };
        match require(
            agent_id,
            read_permits,
            read,
            "file_edit needs file_read for path: ",
            canonical,
        ) {
            Ok(_) => {},
            Err(e) => {
                return Err(e);
            },
        }
        let write = Capability::FileWrite { path_glob: canonical.to_owned() };
        require(
            agent_id,
            write_permits,
            write,
            "file_edit needs file_write for path: ",
            canonical,
        )
    }

    /// Refuses what is no file, or too large to edit.
    pub fn check_file(&self, canonical: &str, is_file: bool, len: u64) -> (r: Result<
        (),
        CoreError,
    >)
        ensures
            match r {
                Ok(_) => file_error(canonical@, is_file, len) is None,
                Err(e) => file_error(canonical@, is_file, len) == Some(e@),
            },
    {
        if !is_file {
            let mut m = canonical.to_owned();
            m.append(" is not a regular file");
            return Err(CoreError::Ipc(m));
        }
        if len > MAX_FILE_BYTES {
            let mut m = "file too large to edit in-place: ".to_owned();
            let n = decimal_text(len);
            m.append(n.as_str());
            m.append(" bytes (max 1048576). Use file_write for total rewrite.");
            return Err(CoreError::Ipc(m));
        }
        Ok(())
    }

    /// Makes an edit in what a file holds.
    pub fn apply(
        &self,
        request: &EditRequest,
        canonical: &str,
        original: &str,
        bytes_before: u64,
    ) -> (r: Result<Edit, CoreError>)
        requires
            request.old_string@.len() > 0,
        ensures
            match r {
                Ok(edit) => {
                    &&& edit_error(
                        canonical@,
                        original@,
                        request.old_string@,
                        request.replace_all,
                    ) is None
                    &&& edit.content@ == edited(
                        original@,
                        request.old_string@,
                        request.new_string@,
                        request.replace_all,
                    )
                    &&& edit.answer@ == edit_answer(
                        canonical@,
                        if request.replace_all {
                            occurrences(original@, request.old_string@)
                        } else {
                            1
                        },
                        bytes_before,
                        byte_len(edit.content@),
                    )
                },
                Err(e) => edit_error(
                    canonical@,
                    original@,
                    request.old_string@,
                    request.replace_all,
                ) == Some(e@),
            },
    {
        let found = count_non_overlapping(original, request.old_string.as_str());
        if found == 0 {
            let mut m = "old_string not found in ".to_owned();
            m.append(canonical);
            return Err(CoreError::Ipc(m));
        }
        if found > 1 && !request.replace_all {
            let mut m = "old_string matches ".to_owned();
            let n = decimal_text(found as u64);
            m.append(n.as_str());
            m.append(" times in ");
            m.append(canonical);
            m.append("; refusing ambiguous edit. Pass replace_all=true to replace all, or extend old_string with more context to make it unique.");
            return Err(CoreError::Ipc(m));
        }
        let content = if request.replace_all {
            replace_all(original, request.old_string.as_str(), request.new_string.as_str())
        } else {
            replace_first(original, request.old_string.as_str(), request.new_string.as_str())
        };
        let replacements: usize = if request.replace_all {
            found
        } else {
            1
        };
        let after = byte_length(content.as_str());
        let mut f: Vec<(String, Json)> = Vec::new();
        f.push(entry("path", text(canonical)));
        f.push(entry("replacements", Json::Unsigned(replacements as u64)));
        f.push(entry("bytes_before", Json::Unsigned(bytes_before)));
        f.push(entry("bytes_after", Json::Unsigned(after as u64)));
        assert(fields_view(f@) =~= edit_answer(
            canonical@,
            replacements as nat,
            bytes_before,
            after as nat,
        )->Object_0);
        Ok(Edit { content, answer: object(f) })
    }
}

/// The count that is reported is the count that is replaced: each of the
/// occurrences gives way to the new text, and nothing else changes.
pub proof fn law_count_is_what_is_replaced(
    s: Seq<char>,
    old_string: Seq<char>,
    new_string: Seq<char>,
)
    requires
        old_string.len() > 0,
    ensures
        replaced(s, old_string, new_string).len() == s.len() + occurrences(s, old_string) * (
        new_string.len() - old_string.len()),
        occurrences(s, old_string) == 0 ==> replaced(s, old_string, new_string) == s,
    decreases s.len(),
{
    if s.len() > 0 {
        if begins_with(s, old_string) {
            let rest = s.skip(old_string.len() as int);
            law_count_is_what_is_replaced(rest, old_string, new_string);
            let n = occurrences(rest, old_string) as int;
            let d: int = new_string.len() - old_string.len();
            assert((1 + n) * d == d + n * d) by (nonlinear_arith);
        } else {
            law_count_is_what_is_replaced(s.skip(1), old_string, new_string);
            assert(seq![s[0]] + s.skip(1) =~= s);
        }
    } else {
        let d: int = new_string.len() - old_string.len();
        assert(0 * d == 0) by (nonlinear_arith);
    }
}

/// Where a text occurs once, replacing it and replacing all of its
/// occurrences are the same.
pub proof fn law_unique_edit_is_not_ambiguous(
    s: Seq<char>,
    old_string: Seq<char>,
    new_string: Seq<char>,
)
    requires
        old_string.len() > 0,
        occurrences(s, old_string) == 1,
    ensures
        replaced_once(s, old_string, new_string) == replaced(s, old_string, new_string),
    decreases s.len(),
{
    if s.len() > 0 {
        if begins_with(s, old_string) {
            law_count_is_what_is_replaced(
                s.skip(old_string.len() as int),
                old_string,
                new_string,
            );
        } else {
            law_unique_edit_is_not_ambiguous(s.skip(1), old_string, new_string);
        }
    }
}

/// An edit is refused exactly where what is to be replaced is not there, or is
/// there more than once and not all are meant.
pub proof fn law_edits_that_are_refused(
    path: Seq<char>,
    original: Seq<char>,
    old_string: Seq<char>,
    every: bool,
)
    requires
        old_string.len() > 0,
    ensures
        !contains_text(original, old_string) ==> edit_error(path, original, old_string, every)
            is Some,
        contains_text(original, old_string) && every ==> edit_error(
            path,
            original,
            old_string,
            every,
        ) is None,
        contains_text(original, old_string) && !every ==> (edit_error(
            path,
            original,
            old_string,
            every,
        ) is None <==> occurrences(original, old_string) == 1),
{
    if contains_text(original, old_string) {
        law_what_occurs_is_counted(original, old_string);
    } else {
        law_nothing_to_replace(original, old_string, Seq::empty());
    }
}

/// An edit puts the new text where the old one first stands and keeps what is
/// before it; behind it, the rest is kept too, or edited likewise where all are
/// meant.
pub proof fn law_edit_changes_what_was_asked(
    before: Seq<char>,
    old_string: Seq<char>,
    rest: Seq<char>,
    new_string: Seq<char>,
)
    requires
        old_string.len() > 0,
        forall|i: int|
            i < before.len() ==> !#[trigger] occurs_at(before + old_string + rest, old_string, i),
    ensures
        edited(before + old_string + rest, old_string, new_string, false) == before + new_string
            + rest,
        edited(before + old_string + rest, old_string, new_string, true) == before + new_string
            + edited(rest, old_string, new_string, true),
        !contains_text(rest, old_string) ==> edited(rest, old_string, new_string, true) == rest,
{
    law_replacing_goes_from_the_left(before, old_string, rest, new_string);
    if !contains_text(rest, old_string) {
        law_nothing_to_replace(rest, old_string, new_string);
    }
}

/// A request is in order where all three texts are given, the old one is not
/// empty, and neither is too large.
pub proof fn law_edit_requests_in_order(input: JsonView)
    ensures
        request_error(input) is None <==> {
            &&& text_of(field(input, "path"@)) is Some
            &&& text_of(field(input, "old_string"@)) is Some
            &&& text_of(field(input, "new_string"@)) is Some
            &&& text_of(field(input, "old_string"@))->0.len() > 0
            &&& byte_len(text_of(field(input, "old_string"@))->0) <= 65_536
            &&& byte_len(text_of(field(input, "new_string"@))->0) <= 65_536
        },
{
}

/// A regular file of at most a mebibyte is edited, and nothing else.
pub proof fn law_files_that_are_edited(path: Seq<char>, is_file: bool, len: u64)
    ensures
        file_error(path, is_file, len) is None <==> is_file && len <= 1_048_576,
{
}

/// The answer tells what was edited, how often, and how large it was and is.
pub proof fn law_answer_tells_of_the_edit(path: Seq<char>, n: u64, before: u64, after: u64)
    ensures
        ({
            let a = edit_answer(path, n as nat, before, after as nat)->Object_0;
            &&& a.contains(("path"@, JsonView::Text(path)))
            &&& a.contains(("replacements"@, JsonView::Unsigned(n)))
            &&& a.contains(("bytes_before"@, JsonView::Unsigned(before)))
            &&& a.contains(("bytes_after"@, JsonView::Unsigned(after)))
        }),
{
    let a = edit_answer(path, n as nat, before, after as nat)->Object_0;
    assert(a[0].0 == "path"@ && a[1].0 == "replacements"@);
    assert(a[2].0 == "bytes_before"@ && a[3].0 == "bytes_after"@);
}

/// What the tool says it needs, it needs: a request without it is refused, and
/// nothing else has to be given.
pub proof fn law_required_parameters_are_needed(input: JsonView, i: int)
    requires
        0 <= i < edit_params().len(),
    ensures
        edit_params()[i].required <==> (edit_params()[i].name == "path"@ || edit_params()[i].name == "old_string"@ || edit_params()[i].name == "new_string"@),
        edit_params()[i].required && text_of(field(input, edit_params()[i].name)) is None ==> request_error(
            input,
        ) is Some,
{
    reveal_strlit("path");
    reveal_strlit("old_string");
    reveal_strlit("new_string");
    reveal_strlit("replace_all");
    assert("path"@.len() == 4 && "path"@[0] == 'p');
    assert("old_string"@.len() == 10 && "old_string"@[0] == 'o');
    assert("new_string"@.len() == 10 && "new_string"@[0] == 'n');
    assert("replace_all"@.len() == 11 && "replace_all"@[0] == 'r');
}

} // verus!
