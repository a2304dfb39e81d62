//! Running `cargo`.

use crate::capability::{Capability, CapabilityView};
use crate::error::{CoreError, CoreErrorView};
use crate::json::{field, text_of, texts_among, Json, JsonView};
use crate::text::{byte_len, byte_length, copy_texts, same, views};
use crate::tools::access::{missing_param, permitted, require, required_text, texts, texts_of};
use crate::tools::definition::{
    define, defined, entry, fields_view, object, optional_param, params_view, required_param, text,
    Param, ParamKind, ParamKindView, ParamView, ToolDefinition,
};
use crate::tools::git_commit::ProgramOutput;
use crate::tools::output::{cap_bytes, code_or_none, cut, exit_code, signed_json, signed_value};
use crate::types::AgentId;
use vstd::prelude::*;
use vstd::string::*;

verus! {

/// How long a run may take, in seconds.
pub const DEFAULT_TIMEOUT_SECS: u64 = 240;

/// How much of each output is answered, in bytes.
pub const MAX_INLINE_OUTPUT: usize = 8_192;

/// Runs `cargo` in a workspace.
#[derive(Debug)]
pub struct CargoRunTool;

/// A run that was asked for.
#[derive(Debug)]
pub struct CargoRequest {
    pub workspace: String,
    pub subcommand: String,
    pub args: Vec<String>,
}

/// Whether a subcommand may be run.
pub open spec fn is_allowed(subcommand: Seq<char>) -> bool {
    subcommand == "check"@ || subcommand == "test"@ || subcommand == "clippy"@ || subcommand
        == "fmt"@
}

/// Why a run cannot be asked for as it was.
pub open spec fn request_error(input: JsonView) -> Option<CoreErrorView> {
    let subcommand = text_of(field(input, "subcommand"@));
    if text_of(field(input, "workspace"@)) is None {
        Some(missing_param("workspace"@))
    } else if subcommand is None {
        Some(missing_param("subcommand"@))
    } else if !is_allowed(subcommand->0) {
        Some(
            CoreErrorView::InvalidManifest(
                "cargo subcommand '"@ + subcommand->0
                    + "' not allowed; allowlist: check, test, clippy, fmt"@,
            ),
        )
    } else {
        None
    }
}

/// The arguments that an input asks for: none, where it does not say.
pub open spec fn wanted_args(input: JsonView) -> Seq<Seq<char>> {
    match texts_of(input, "args"@) {
        Some(v) => v,
        None => Seq::empty(),
    }
}

/// What is answered once `cargo` has ended.
pub open spec fn run_answer(subcommand: Seq<char>, out: ProgramOutput, duration_ms: u64) -> JsonView {
    JsonView::Object(
        seq![
            ("subcommand"@, JsonView::Text(subcommand)),
            ("exit_code"@, signed_value(code_or_none(out.code))),
            ("success"@, JsonView::Bool(out.success)),
            ("duration_ms"@, JsonView::Unsigned(duration_ms)),
            ("stdout"@, JsonView::Text(cut(out.stdout@, MAX_INLINE_OUTPUT as nat))),
            ("stderr"@, JsonView::Text(cut(out.stderr@, MAX_INLINE_OUTPUT as nat))),
            ("stdout_truncated"@, JsonView::Bool(byte_len(out.stdout@) > MAX_INLINE_OUTPUT)),
            ("stderr_truncated"@, JsonView::Bool(byte_len(out.stderr@) > MAX_INLINE_OUTPUT)),
        ],
    )
}

/// What the tool takes.
pub open spec fn run_params() -> Seq<ParamView> {
    seq![
        required_param(
            "workspace"@,
            ParamKindView::Text,
            "Absolute path to the crate/workspace root (dir containing Cargo.toml)"@,
        ),
        required_param(
            "subcommand"@,
            ParamKindView::OneOf(seq!["check"@, "test"@, "clippy"@, "fmt"@]),
            "Cargo subcommand to run"@,
        ),
        optional_param(
            "args"@,
            ParamKindView::Texts,
            "Extra args passed to cargo after the subcommand (optional)"@,
        ),
    ]
}

/// The subcommands that may be run.
fn allowed_subcommands() -> (r: Vec<String>)
    ensures
        views(r@) == seq!["check"@, "test"@, "clippy"@, "fmt"@],
{
    let mut v: Vec<String> = Vec::new();
    v.push("check".to_owned());
    v.push("test".to_owned());
    v.push("clippy".to_owned());
    v.push("fmt".to_owned());
    assert(views(v@) =~= seq!["check"@, "test"@, "clippy"@, "fmt"@]);
    v
}

/// How `cargo` is called: the subcommand, and the arguments behind it.
pub open spec fn cargo_args(subcommand: Seq<char>, args: Seq<Seq<char>>) -> Seq<Seq<char>> {
    seq![subcommand] + args
}

impl CargoRequest {
    /// How `cargo` is called.
    pub fn command_line(&self) -> (r: Vec<String>)
        ensures
            views(r@) == cargo_args(self.subcommand@, views(self.args@)),
    {
        let mut line: Vec<String> = Vec::new();
        line.push(self.subcommand.clone());
        let mut more = copy_texts(&self.args);
        let ghost added = views(more@);
        line.append(&mut more);
        assert(views(line@) =~= seq![self.subcommand@] + added);
        line
    }
}

impl CargoRunTool {
    /// What the tool is.
    pub fn definition(&self) -> (r: ToolDefinition)
        ensures
            r@ == defined(
                "cargo_run"@,
                "Run `cargo <subcommand>` in a workspace. Subcommand must be one of: check, test, clippy, fmt. Workspace must match a granted CargoRun capability."@,
                run_params(),
            ),
    {
        let mut params: Vec<Param> = Vec::new();
        params.push(
            Param::required(
                "workspace",
                ParamKind::Text,
                "Absolute path to the crate/workspace root (dir containing Cargo.toml)",
            ),
        );
        params.push(
            Param::required(
                "subcommand",
                ParamKind::OneOf(allowed_subcommands()),
                "Cargo subcommand to run",
            ),
        );
        params.push(
            Param::optional(
                "args",
                ParamKind::Texts,
                "Extra args passed to cargo after the subcommand (optional)",
            ),
        );
        assert(params_view(params@) =~= run_params());
        define(
            "cargo_run",
            "Run `cargo <subcommand>` in a workspace. Subcommand must be one of: check, test, clippy, fmt. Workspace must match a granted CargoRun capability.",
            &params,
        )
    }

    /// The run that an input asks for.
    pub fn parse(&self, input: &Json) -> (r: Result<CargoRequest, CoreError>)
        ensures
            match r {
                Ok(q) => {
                    &&& request_error(input@) is None
                    &&& text_of(field(input@, "workspace"@)) == Some(q.workspace@)
                    &&& text_of(field(input@, "subcommand"@)) == Some(q.subcommand@)
                    &&& is_allowed(q.subcommand@)
                    &&& views(q.args@) == wanted_args(input@)
                },
                Err(e) => request_error(input@) == Some(e@),
            },
    {
        let workspace = match required_text(input, "workspace") {
            Ok(t) => t,
            Err(e) => {
                return Err(e);
            },
        };
        let subcommand = match required_text(input, "subcommand") {
            Ok(t) => t,
            Err(e) => {
                return Err(e);
            },
        };
        let s = subcommand.as_str();
        if !(same(s, "check") || same(s, "test") || same(s, "clippy") || same(s, "fmt")) {
            let mut m = "cargo subcommand '".to_owned();
            m.append(s);
            m.append("' not allowed; allowlist: check, test, clippy, fmt");
            return Err(CoreError::InvalidManifest(m));
        }
        let args: Vec<String> = match texts(input, "args") {
            Some(v) => v,
            None => {
                let none: Vec<String> = Vec::new();
                assert(views(none@) =~= Seq::<Seq<char>>::empty());
                none
            },
        };
        Ok(CargoRequest { workspace, subcommand, args })
    }

    /// Lets an agent run `cargo` in a workspace.
    pub fn authorize(&self, agent_id: AgentId, workspace: &str, permits: &Vec<bool>) -> (r: Result<
        (),
        CoreError,
    >)
        ensures
            match r {
                Ok(_) => permitted(permits@),
                Err(e) => !permitted(permits@) && e@ == (CoreErrorView::CapabilityDenied {
                    agent_id,
                    capability: CapabilityView::CargoRun { workspace: workspace@ },
                    reason: "cargo_run not permitted for workspace: "@ + workspace@,
                }),
            },
    {
        let run = Capability::CargoRun { workspace: workspace.to_owned() };
        require(agent_id, permits, run, "cargo_run not permitted for workspace: ", workspace)
    }

    /// Refuses a workspace that is none.
    pub fn check_workspace(&self, workspace: &str, has_manifest: bool) -> (r: Result<
        (),
        CoreError,
    >)
        ensures
            match r {
                Ok(_) => has_manifest,
                Err(e) => !has_manifest && e@ == CoreErrorView::Ipc(
                    "workspace '"@ + workspace@ + "' has no Cargo.toml"@,
                ),
            },
    {
        if has_manifest {
            return Ok(());
        }
        let mut m = "workspace '".to_owned();
        m.append(workspace);
        m.append("' has no Cargo.toml");
        Err(CoreError::Ipc(m))
    }

    /// What is answered once `cargo` has ended.
    pub fn answer(&self, subcommand: &str, out: &ProgramOutput, duration_ms: u64) -> (r: Json)
        ensures
            r@ == run_answer(subcommand@, *out, duration_ms),
    {
        let long_out = byte_length(out.stdout.as_str()) > MAX_INLINE_OUTPUT;
        let long_err = byte_length(out.stderr.as_str()) > MAX_INLINE_OUTPUT;
        let mut f: Vec<(String, Json)> = Vec::new();
        f.push(entry("subcommand", text(subcommand)));
        f.push(entry("exit_code", signed_json(exit_code(out.code))));
        f.push(entry("success", Json::Bool(out.success)));
        f.push(entry("duration_ms", Json::Unsigned(duration_ms)));
        f.push(entry("stdout", Json::Text(cap_bytes(out.stdout.as_str(), MAX_INLINE_OUTPUT))));
        f.push(entry("stderr", Json::Text(cap_bytes(out.stderr.as_str(), MAX_INLINE_OUTPUT))));
        f.push(entry("stdout_truncated", Json::Bool(long_out)));
        f.push(entry("stderr_truncated", Json::Bool(long_err)));
        assert(fields_view(f@) =~= run_answer(subcommand@, *out, duration_ms)->Object_0);
        object(f)
    }
}

/// The command line is the subcommand and behind it every argument that was
/// asked for, in their order.
pub proof fn law_arguments_follow_the_subcommand(
    subcommand: Seq<char>,
    args: Seq<Seq<char>>,
    input: JsonView,
    given: Seq<JsonView>,
)
    ensures
        cargo_args(subcommand, args)[0] == subcommand,
        cargo_args(subcommand, args).skip(1) == args,
        field(input, "args"@) == Some(JsonView::Array(given)) ==> wanted_args(input) == texts_among(
            given,
        ),
        field(input, "args"@) is None ==> wanted_args(input).len() == 0,
{
    assert(cargo_args(subcommand, args).skip(1) =~= args);
}

/// Only what checks, tests, lints or formats is run: any other subcommand is
/// refused, and so is a request without one or without a workspace.
pub proof fn law_other_subcommands_are_refused(input: JsonView)
    ensures
        request_error(input) is None <==> {
            &&& text_of(field(input, "workspace"@)) is Some
            &&& {
                ||| text_of(field(input, "subcommand"@)) == Some("check"@)
                ||| text_of(field(input, "subcommand"@)) == Some("test"@)
                ||| text_of(field(input, "subcommand"@)) == Some("clippy"@)
                ||| text_of(field(input, "subcommand"@)) == Some("fmt"@)
            }
        },
{
}

/// The answer tells what was run, how it ended, and what it wrote, as far as
/// that is answered.
pub proof fn law_answer_tells_of_the_run(
    subcommand: Seq<char>,
    out: ProgramOutput,
    duration_ms: u64,
)
    ensures
        ({
            let a = run_answer(subcommand, out, duration_ms)->Object_0;
            &&& a.contains(("subcommand"@, JsonView::Text(subcommand)))
            &&& a.contains(("exit_code"@, signed_value(code_or_none(out.code))))
            &&& a.contains(("success"@, JsonView::Bool(out.success)))
            &&& a.contains(("duration_ms"@, JsonView::Unsigned(duration_ms)))
            &&& a.contains(("stdout"@, JsonView::Text(cut(out.stdout@, 8_192))))
            &&& a.contains(("stderr"@, JsonView::Text(cut(out.stderr@, 8_192))))
            &&& a.contains(("stdout_truncated"@, JsonView::Bool(byte_len(out.stdout@) > 8_192)))
            &&& a.contains(("stderr_truncated"@, JsonView::Bool(byte_len(out.stderr@) > 8_192)))
        }),
{
    let a = run_answer(subcommand, out, duration_ms)->Object_0;
    assert(a[0].0 == "subcommand"@ && a[1].0 == "exit_code"@ && a[2].0 == "success"@);
    assert(a[3].0 == "duration_ms"@ && a[4].0 == "stdout"@ && a[5].0 == "stderr"@);
    assert(a[6].0 == "stdout_truncated"@ && a[7].0 == "stderr_truncated"@);
}

/// What the tool says it needs, it needs: a request without it is refused, and
/// nothing else has to be given.
pub proof fn law_required_parameters_are_needed(input: JsonView, i: int)
    requires
        0 <= i < run_params().len(),
    ensures
        run_params()[i].required <==> (run_params()[i].name == "workspace"@ || run_params()[i].name == "subcommand"@),
        run_params()[i].required && text_of(field(input, run_params()[i].name)) is None ==> request_error(
            input,
        ) is Some,
{
    reveal_strlit("workspace");
    reveal_strlit("subcommand");
    reveal_strlit("args");
    assert("workspace"@.len() == 9 && "workspace"@[0] == 'w');
    assert("subcommand"@.len() == 10 && "subcommand"@[0] == 's');
    assert("args"@.len() == 4 && "args"@[0] == 'a');
}

} // verus!
