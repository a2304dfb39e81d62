//! Where tools run.

use crate::audit::ToolExecutionSurface;
use crate::text::same;
use vstd::prelude::*;

verus! {

/// Whether a tool runs in the daemon whatever the backend is.
pub open spec fn is_daemon_side(tool: Seq<char>) -> bool {
    tool == "web_fetch"@ || tool == "cargo_run"@ || tool == "git_commit"@
}

/// Where a tool runs under a backend: in the worker where agents are confined
/// and the tool needs nothing from outside.
pub open spec fn routed(tool: Seq<char>, backend_kind: Seq<char>) -> ToolExecutionSurface {
    if backend_kind == "namespaced"@ && !is_daemon_side(tool) {
        ToolExecutionSurface::Worker
    } else {
        ToolExecutionSurface::Daemon
    }
}

/// Where a tool runs under a backend.
pub fn route_for(tool: &str, backend_kind: &str) -> (r: ToolExecutionSurface)
    ensures
        r == routed(tool@, backend_kind@),
{
    let daemon_side = same(tool, "web_fetch") || same(tool, "cargo_run") || same(
        tool,
        "git_commit",
    );
    if same(backend_kind, "namespaced") && !daemon_side {
        ToolExecutionSurface::Worker
    } else {
        ToolExecutionSurface::Daemon
    }
}

/// Only in a namespace does a worker run tools, and there all but the three
/// that need what it has not.
pub proof fn law_where_tools_run(tool: Seq<char>, kind: Seq<char>)
    ensures
        routed(tool, kind) == ToolExecutionSurface::Worker <==> kind == "namespaced"@ && tool
            != "web_fetch"@ && tool != "cargo_run"@ && tool != "git_commit"@,
        routed(tool, kind) == ToolExecutionSurface::Daemon || routed(tool, kind)
            == ToolExecutionSurface::Worker,
{
}

} // verus!
