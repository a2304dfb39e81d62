//! Committing to a repository.

use crate::audit::text_option;
use crate::capability::{Capability, CapabilityView};
use crate::error::{CoreError, CoreErrorView};
use crate::json::{field, text_of, texts_among, Json, JsonView};
use crate::text::{
    begins_with, byte_len, byte_length, contains, contains_text, lossy_text, read_lossy,
    starts_with, trim, trimmed, views,
};
use crate::tools::access::{missing_param, permitted, require, required_text, texts, texts_of};
use crate::tools::definition::{
    define, defined, entry, fields_view, object, optional_param, params_view, required_param, Param,
    ParamKind, ParamKindView, ParamView, ToolDefinition,
};
use crate::tools::output::{
    cap_bytes, code_or_none, cut, exit_code, signed_decimal, signed_json, signed_text, signed_value,
};
use crate::types::AgentId;
use vstd::prelude::*;
use vstd::string::*;

verus! {

/// How long each step may take, in seconds.
pub const DEFAULT_TIMEOUT_SECS: u64 = 60;

/// How much of each output is answered, in bytes.
pub const MAX_INLINE_OUTPUT: usize = 2_048;

/// Adds files to a repository and commits them.
#[derive(Debug)]
pub struct GitCommitTool;

/// A commit that was asked for.
#[derive(Debug)]
pub struct CommitRequest {
    pub workspace: String,
    pub message: String,
    pub paths: Vec<String>,
}

/// How a program ended.
#[derive(Debug)]
pub struct ProgramOutput {
    /// Whether it went well.
    pub success: bool,
    pub code: Option<i32>,
    pub stdout: String,
    pub stderr: String,
}

impl ProgramOutput {
    /// How a program ended, given the bytes that it wrote.
    pub fn of_bytes(success: bool, code: Option<i32>, stdout: &Vec<u8>, stderr: &Vec<u8>) -> (r:
        ProgramOutput)
        ensures
            r.success == success,
            r.code == code,
            r.stdout@ == lossy_text(stdout@),
            r.stderr@ == lossy_text(stderr@),
    {
        ProgramOutput { success, code, stdout: read_lossy(stdout), stderr: read_lossy(stderr) }
    }
}

/// Why a commit cannot be asked for as it was.
pub open spec fn request_error(input: JsonView) -> Option<CoreErrorView> {
    let message = text_of(field(input, "message"@));
    if text_of(field(input, "workspace"@)) is None {
        Some(missing_param("workspace"@))
    } else if message is None {
        Some(missing_param("message"@))
    } else if begins_with(message->0, "-"@) {
        Some(CoreErrorView::InvalidManifest("commit message must not start with '-'"@))
    } else {
        None
    }
}

/// The paths that an input asks to add: all, where it does not say.
pub open spec fn wanted_paths(input: JsonView) -> Seq<Seq<char>> {
    match texts_of(input, "paths"@) {
        Some(v) => v,
        None => seq!["."@],
    }
}

/// A step of the tool. There is no other that it takes.
#[derive(Debug, Clone, Copy, PartialEq, Eq, Structural)]
pub enum GitStep {
    Add,
    Commit,
    /// Asks which commit is the last.
    Head,
}

/// How `git` is called for a step.
pub open spec fn step_args(
    step: GitStep,
    workspace: Seq<char>,
    message: Seq<char>,
    paths: Seq<Seq<char>>,
) -> Seq<Seq<char>> {
    let at = seq!["-C"@, workspace];
    match step {
        GitStep::Add => at + seq!["add"@] + paths,
        GitStep::Commit => at + seq!["commit"@, "-m"@, message],
        GitStep::Head => at + seq!["rev-parse"@, "HEAD"@],
    }
}

/// Nothing but adding, committing and asking for the last commit is ever done:
/// these are the only words in the place of the subcommand.
pub proof fn law_only_these_subcommands(
    step: GitStep,
    workspace: Seq<char>,
    message: Seq<char>,
    paths: Seq<Seq<char>>,
)
    ensures
        step_args(step, workspace, message, paths)[2] == "add"@ || step_args(
            step,
            workspace,
            message,
            paths,
        )[2] == "commit"@ || step_args(step, workspace, message, paths)[2] == "rev-parse"@,
{
}

/// Whether `git` said that there was nothing to commit.
pub open spec fn nothing_to_commit(out: ProgramOutput) -> bool {
    contains_text(out.stderr@, "nothing to commit"@) || contains_text(
        out.stdout@,
        "nothing to commit"@,
    )
}

/// What is answered once `git commit` has ended.
pub open spec fn commit_answer(
    out: ProgramOutput,
    duration_ms: u64,
    sha: Option<Seq<char>>,
) -> JsonView {
    JsonView::Object(
        seq![
            ("exit_code"@, signed_value(code_or_none(out.code))),
            ("success"@, JsonView::Bool(out.success || nothing_to_commit(out))),
            ("duration_ms"@, JsonView::Unsigned(duration_ms)),
            ("stdout"@, JsonView::Text(cut(out.stdout@, MAX_INLINE_OUTPUT as nat))),
            ("stderr"@, JsonView::Text(cut(out.stderr@, MAX_INLINE_OUTPUT as nat))),
            ("stdout_truncated"@, JsonView::Bool(byte_len(out.stdout@) > MAX_INLINE_OUTPUT)),
            ("stderr_truncated"@, JsonView::Bool(byte_len(out.stderr@) > MAX_INLINE_OUTPUT)),
            (
                "commit_sha"@,
                match sha {
                    Some(s) => JsonView::Text(s),
                    None => JsonView::Null,
                },
            ),
            ("nothing_to_commit"@, JsonView::Bool(nothing_to_commit(out))),
        ],
    )
}

/// What the tool takes.
pub open spec fn commit_params() -> Seq<ParamView> {
    seq![
        required_param(
            "workspace"@,
            ParamKindView::Text,
            "Absolute path to the git repository root (directory containing .git/)"@,
        ),
        required_param(
            "message"@,
            ParamKindView::Text,
            "Commit message (must not start with '-')"@,
        ),
        optional_param(
            "paths"@,
            ParamKindView::TextsOr(seq!["."@]),
            "Paths to add (optional, default [\".\"])"@,
        ),
    ]
}

/// The one path that stands for all.
fn everything() -> (r: Vec<String>)
    ensures
        views(r@) == seq!["."@],
{
    let mut v: Vec<String> = Vec::new();
    v.push(".".to_owned());
    assert(views(v@) =~= seq!["."@]);
    v
}

impl CommitRequest {
    /// How `git` is called for a step.
    pub fn args(&self, step: GitStep) -> (r: Vec<String>)
        ensures
            views(r@) == step_args(step, self.workspace@, self.message@, views(self.paths@)),
    {
        let mut args: Vec<String> = Vec::new();
        args.push("-C".to_owned());
        args.push(self.workspace.clone());
        match step {
            GitStep::Add => {
                args.push("add".to_owned());
                let ghost start = views(args@);
                let ghost all = views(self.paths@);
                let mut i: usize = 0;
                assert(start + all.take(0) =~= start);
                while i < self.paths.len()
                    invariant
                        0 <= i <= self.paths@.len(),
                        all == views(self.paths@),
                        views(args@) == start + all.take(i as int),
                    decreases self.paths@.len() - i,
                {
                    let ghost before = views(args@);
                    args.push(self.paths[i].clone());
                    assert(views(args@) =~= before.push(all[i as int]));
                    assert(start + all.take(i + 1) =~= (start + all.take(i as int)).push(
                        all[i as int],
                    ));
                    i += 1;
                }
                assert(all.take(i as int) =~= all);
                assert(start =~= seq!["-C"@, self.workspace@] + seq!["add"@]);
            },
            GitStep::Commit => {
                args.push("commit".to_owned());
                args.push("-m".to_owned());
                args.push(self.message.clone());
            },
            GitStep::Head => {
                args.push("rev-parse".to_owned());
                args.push("HEAD".to_owned());
            },
        }
        assert(views(args@) =~= step_args(
            step,
            self.workspace@,
            self.message@,
            views(self.paths@),
        ));
        args
    }
}

impl GitCommitTool {
    /// What the tool is.
    pub fn definition(&self) -> (r: ToolDefinition)
        ensures
            r@ == defined(
                "git_commit"@,
                "Run `git add` + `git commit` in a workspace. Workspace must match a granted GitCommit capability. The tool rejects anything else. The subcommand allowlist (add, commit) is enforced tool-side."@,
                commit_params(),
            ),
    {
        let mut params: Vec<Param> = Vec::new();
        params.push(
            Param::required(
                "workspace",
                ParamKind::Text,
                "Absolute path to the git repository root (directory containing .git/)",
            ),
        );
        params.push(
            Param::required(
                "message",
                ParamKind::Text,
                "Commit message (must not start with '-')",
            ),
        );
        params.push(
            Param::optional(
                "paths",
                ParamKind::TextsOr(everything()),
                "Paths to add (optional, default [\".\"])",
            ),
        );
        assert(params_view(params@) =~= commit_params());
        define(
            "git_commit",
            "Run `git add` + `git commit` in a workspace. Workspace must match a granted GitCommit capability. The tool rejects anything else. The subcommand allowlist (add, commit) is enforced tool-side.",
            &params,
        )
    }

    /// The commit that an input asks for.
    pub fn parse(&self, input: &Json) -> (r: Result<CommitRequest, CoreError>)
        ensures
            match r {
                Ok(q) => {
                    &&& request_error(input@) is None
                    &&& text_of(field(input@, "workspace"@)) == Some(q.workspace@)
                    &&& text_of(field(input@, "message"@)) == Some(q.message@)
                    &&& views(q.paths@) == wanted_paths(input@)
                },
                Err(e) => request_error(input@) == Some(e@),
            },
    {
        let workspace = match required_text(input, "workspace") {
            Ok(t) => t,
            Err(e) => {
                return Err(e);
            },
        };
        let message = match required_text(input, "message") {
            Ok(t) => t,
            Err(e) => {
                return Err(e);
            },
        };
        if starts_with(message.as_str(), "-") {
            return Err(
                CoreError::InvalidManifest("commit message must not start with '-'".to_owned()),
            );
        }
        let paths = match texts(input, "paths") {
            Some(v) => v,
            None => everything(),
        };
        Ok(CommitRequest { workspace, message, paths })
    }

    /// Lets an agent commit in a workspace.
    pub fn authorize(&self, agent_id: AgentId, workspace: &str, permits: &Vec<bool>) -> (r: Result<
        (),
        CoreError,
    >)
        ensures
            match r {
                Ok(_) => permitted(permits@),
                Err(e) => !permitted(permits@) && e@ == (CoreErrorView::CapabilityDenied {
                    agent_id,
                    capability: CapabilityView::GitCommit { workspace: workspace@ },
                    reason: "git_commit not permitted for workspace: "@ + workspace@,
                }),
            },
    {
        let commit = Capability::GitCommit { workspace: workspace.to_owned() };
        require(agent_id, permits, commit, "git_commit not permitted for workspace: ", workspace)
    }

    /// Refuses a workspace that is no repository.
    pub fn check_workspace(&self, workspace: &str, is_repository: bool) -> (r: Result<
        (),
        CoreError,
    >)
        ensures
            match r {
                Ok(_) => is_repository,
                Err(e) => !is_repository && e@ == CoreErrorView::Ipc(
                    "workspace '"@ + workspace@
                        + "' is not a git repository (no .git directory)"@,
                ),
            },
    {
        if is_repository {
            return Ok(());
        }
        let mut m = "workspace '".to_owned();
        m.append(workspace);
        m.append("' is not a git repository (no .git directory)");
        Err(CoreError::Ipc(m))
    }

    /// Refuses to go on where `git add` failed.
    pub fn check_added(&self, out: &ProgramOutput) -> (r: Result<(), CoreError>)
        ensures
            match r {
                Ok(_) => out.success,
                Err(e) => !out.success && e@ == CoreErrorView::Ipc(
                    "git add failed with exit code "@ + signed_decimal(code_or_none(out.code))
                        + ": "@ + out.stderr@,
                ),
            },
    {
        if out.success {
            return Ok(());
        }
        let mut m = "git add failed with exit code ".to_owned();
        let n = signed_text(exit_code(out.code));
        m.append(n.as_str());
        m.append(": ");
        m.append(out.stderr.as_str());
        Err(CoreError::Ipc(m))
    }

    /// Whether there is a new commit to ask for.
    pub fn committed(&self, out: &ProgramOutput) -> (r: bool)
        ensures
            r == (out.success && !nothing_to_commit(*out)),
    {
        out.success && !contains(out.stderr.as_str(), "nothing to commit") && !contains(
            out.stdout.as_str(),
            "nothing to commit",
        )
    }

    /// The last commit, of what `git rev-parse` said.
    pub fn head_of(&self, out: &ProgramOutput) -> (r: Result<String, CoreError>)
        ensures
            match r {
                Ok(sha) => out.success && sha@ == trimmed(out.stdout@) && sha@.len() > 0,
                Err(e) => if !out.success {
                    e@ == CoreErrorView::Ipc("git rev-parse HEAD failed: "@ + out.stderr@)
                } else {
                    trimmed(out.stdout@).len() == 0 && e@ == CoreErrorView::Ipc(
                        "empty commit SHA returned"@,
                    )
                },
            },
    {
        if !out.success {
            let mut m = "git rev-parse HEAD failed: ".to_owned();
            m.append(out.stderr.as_str());
            return Err(CoreError::Ipc(m));
        }
        let sha = trim(out.stdout.as_str());
        if sha.as_str().is_empty() {
            return Err(CoreError::Ipc("empty commit SHA returned".to_owned()));
        }
        Ok(sha)
    }

    /// What is answered once `git commit` has ended; `sha` is the new commit,
    /// if there is one and it is known.
    pub fn answer(&self, out: &ProgramOutput, duration_ms: u64, sha: Option<String>) -> (r: Json)
        ensures
            r@ == commit_answer(*out, duration_ms, text_option(sha)),
    {
        let ghost shown = text_option(sha);
        let nothing = contains(out.stderr.as_str(), "nothing to commit") || contains(
            out.stdout.as_str(),
            "nothing to commit",
        );
        let long_out = byte_length(out.stdout.as_str()) > MAX_INLINE_OUTPUT;
        let long_err = byte_length(out.stderr.as_str()) > MAX_INLINE_OUTPUT;
        let mut f: Vec<(String, Json)> = Vec::new();
        f.push(entry("exit_code", signed_json(exit_code(out.code))));
        f.push(entry("success", Json::Bool(out.success || nothing)));
        f.push(entry("duration_ms", Json::Unsigned(duration_ms)));
        f.push(entry("stdout", Json::Text(cap_bytes(out.stdout.as_str(), MAX_INLINE_OUTPUT))));
        f.push(entry("stderr", Json::Text(cap_bytes(out.stderr.as_str(), MAX_INLINE_OUTPUT))));
        f.push(entry("stdout_truncated", Json::Bool(long_out)));
        f.push(entry("stderr_truncated", Json::Bool(long_err)));
        let commit = match sha {
            Some(s) => Json::Text(s),
            None => Json::Null,
        };
        f.push(entry("commit_sha", commit));
        f.push(entry("nothing_to_commit", Json::Bool(nothing)));
        assert(fields_view(f@) =~= commit_answer(*out, duration_ms, shown)->Object_0);
        object(f)
    }
}

/// What is asked for is what is handed over: every step works in the workspace,
/// adding takes every path and no other, in their order, and committing takes
/// the message as one argument.
pub proof fn law_arguments_are_handed_over(
    workspace: Seq<char>,
    message: Seq<char>,
    paths: Seq<Seq<char>>,
    step: GitStep,
)
    ensures
        step_args(step, workspace, message, paths)[0] == "-C"@,
        step_args(step, workspace, message, paths)[1] == workspace,
        step_args(GitStep::Add, workspace, message, paths)[2] == "add"@,
        step_args(GitStep::Add, workspace, message, paths).skip(3) == paths,
        step_args(GitStep::Commit, workspace, message, paths).skip(2) == seq![
            "commit"@,
            "-m"@,
            message,
        ],
        step_args(GitStep::Head, workspace, message, paths).skip(2) == seq![
            "rev-parse"@,
            "HEAD"@,
        ],
{
    assert(step_args(GitStep::Add, workspace, message, paths).skip(3) =~= paths);
    assert(step_args(GitStep::Commit, workspace, message, paths).skip(2) =~= seq![
        "commit"@,
        "-m"@,
        message,
    ]);
    assert(step_args(GitStep::Head, workspace, message, paths).skip(2) =~= seq![
        "rev-parse"@,
        "HEAD"@,
    ]);
}

/// The paths are those that are named; where none is, everything is added.
pub proof fn law_named_paths_are_added(input: JsonView, names: Seq<JsonView>)
    ensures
        field(input, "paths"@) is None ==> wanted_paths(input) == seq!["."@],
        field(input, "paths"@) == Some(JsonView::Array(names)) ==> wanted_paths(input)
            == texts_among(names),
{
}

/// A request is refused exactly where the workspace or the message is missing,
/// or the message would be read as an option.
pub proof fn law_requests_that_are_refused(input: JsonView)
    ensures
        request_error(input) is None <==> (field(input, "workspace"@) is Some && field(
            input,
            "workspace"@,
        )->0 is Text && field(input, "message"@) is Some && field(input, "message"@)->0 is Text
            && !begins_with(field(input, "message"@)->0->Text_0, "-"@)),
{
}

/// The answer tells how the commit went: it is a success too where there was
/// nothing to commit, both outputs are given as far as they are answered, and
/// the commit is named where it was made.
pub proof fn law_answer_tells_of_the_commit(
    out: ProgramOutput,
    duration_ms: u64,
    sha: Option<Seq<char>>,
)
    ensures
        ({
            let a = commit_answer(out, duration_ms, sha)->Object_0;
            let nothing = contains_text(out.stdout@, "nothing to commit"@) || contains_text(
                out.stderr@,
                "nothing to commit"@,
            );
            &&& a.contains(("success"@, JsonView::Bool(out.success || nothing)))
            &&& a.contains(("nothing_to_commit"@, JsonView::Bool(nothing)))
            &&& a.contains(("duration_ms"@, JsonView::Unsigned(duration_ms)))
            &&& a.contains(("stdout"@, JsonView::Text(cut(out.stdout@, 2_048))))
            &&& a.contains(("stderr"@, JsonView::Text(cut(out.stderr@, 2_048))))
            &&& a.contains(("stdout_truncated"@, JsonView::Bool(byte_len(out.stdout@) > 2_048)))
            &&& a.contains(("stderr_truncated"@, JsonView::Bool(byte_len(out.stderr@) > 2_048)))
            &&& a.contains(("exit_code"@, signed_value(code_or_none(out.code))))
            &&& sha is Some ==> a.contains(("commit_sha"@, JsonView::Text(sha->0)))
            &&& sha is None ==> a.contains(("commit_sha"@, JsonView::Null))
        }),
{
    let a = commit_answer(out, duration_ms, sha)->Object_0;
    assert(a[0].0 == "exit_code"@ && a[1].0 == "success"@ && a[2].0 == "duration_ms"@);
    assert(a[3].0 == "stdout"@ && a[4].0 == "stderr"@ && a[5].0 == "stdout_truncated"@);
    assert(a[6].0 == "stderr_truncated"@ && a[7].0 == "commit_sha"@);
    assert(a[8].0 == "nothing_to_commit"@);
}

/// What the tool says it needs, it needs: a request without it is refused, and
/// nothing else has to be given.
pub proof fn law_required_parameters_are_needed(input: JsonView, i: int)
    requires
        0 <= i < commit_params().len(),
    ensures
        commit_params()[i].required <==> (commit_params()[i].name == "workspace"@ || commit_params()[i].name == "message"@),
        commit_params()[i].required && text_of(field(input, commit_params()[i].name)) is None ==> request_error(
            input,
        ) is Some,
{
    reveal_strlit("workspace");
    reveal_strlit("message");
    reveal_strlit("paths");
    assert("workspace"@.len() == 9 && "workspace"@[0] == 'w');
    assert("message"@.len() == 7 && "message"@[0] == 'm');
    assert("paths"@.len() == 5 && "paths"@[0] == 'p');
}

} // verus!
