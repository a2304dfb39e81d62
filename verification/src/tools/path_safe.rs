//! Opening files so that no link leads elsewhere.
//!
//! The file system is asked to refuse links anywhere in the path; where it
//! does not know how, it is asked again to refuse one at the end. What to ask
//! for and what to make of a refusal is decided here.

use crate::error::{CoreError, CoreErrorView};
use crate::text::{contains_text, ends_in};
use crate::text_laws::{law_four_parts, law_parts_occur, law_text_holds_its_parts};
use vstd::prelude::*;
use vstd::string::*;

verus! {

/// What a file is opened for.
#[derive(Debug, Clone, Copy, PartialEq, Eq, Structural)]
pub enum AccessMode {
    /// To read it.
    Read,
    /// To write it anew; it is created where it is not there.
    WriteCreateTrunc,
    /// To write it, with what it holds left in it for the time being; it is
    /// created where it is not there.
    WriteCreate,
    /// To add to it; it is created where it is not there.
    WriteCreateAppend,
    /// To read and then write it, where it is there.
    ReadWrite,
    /// To read and then write it; it is created where it is not there.
    ReadWriteCreate,
    /// To learn of it only.
    PathOnly,
    /// To list a directory.
    ReadDir,
}

/// How a file is to be opened.
#[derive(Debug, Clone, Copy, PartialEq, Eq, Structural)]
pub struct OpenPlan {
    pub read: bool,
    pub write: bool,
    pub create: bool,
    pub truncate: bool,
    pub append: bool,
    pub path_only: bool,
    pub directory: bool,
    /// Refuse a link at the end of the path.
    pub no_follow: bool,
    /// Refuse a link anywhere in the path.
    pub no_links: bool,
    pub close_on_exec: bool,
}

/// How a file is to be opened for a mode; `strict` asks to refuse links
/// anywhere in the path.
pub open spec fn open_plan(mode: AccessMode, strict: bool) -> OpenPlan {
    OpenPlan {
        read: mode is Read || mode is ReadWrite || mode is ReadWriteCreate || mode is ReadDir,
        write: mode is WriteCreate || mode is WriteCreateTrunc || mode is WriteCreateAppend
            || mode is ReadWrite || mode is ReadWriteCreate,
        create: mode is WriteCreate || mode is WriteCreateTrunc || mode is WriteCreateAppend
            || mode is ReadWriteCreate,
        truncate: mode is WriteCreateTrunc,
        append: mode is WriteCreateAppend,
        path_only: mode is PathOnly,
        directory: mode is ReadDir,
        no_follow: !strict,
        no_links: strict,
        close_on_exec: true,
    }
}

/// How a file is to be opened for a mode.
pub fn plan_open(mode: AccessMode, strict: bool) -> (r: OpenPlan)
    ensures
        r == open_plan(mode, strict),
{
    let mut plan = OpenPlan {
        read: false,
        write: false,
        create: false,
        truncate: false,
        append: false,
        path_only: false,
        directory: false,
        no_follow: !strict,
        no_links: strict,
        close_on_exec: true,
    };
    match mode {
        AccessMode::Read => {
            plan.read = true;
        },
        AccessMode::WriteCreateTrunc => {
            plan.write = true;
            plan.create = true;
            plan.truncate = true;
        },
        AccessMode::WriteCreate => {
            plan.write = true;
            plan.create = true;
        },
        AccessMode::ReadWrite => {
            plan.read = true;
            plan.write = true;
        },
        AccessMode::WriteCreateAppend => {
            plan.write = true;
            plan.create = true;
            plan.append = true;
        },
        AccessMode::ReadWriteCreate => {
            plan.read = true;
            plan.write = true;
            plan.create = true;
        },
        AccessMode::PathOnly => {
            plan.path_only = true;
        },
        AccessMode::ReadDir => {
            plan.read = true;
            plan.directory = true;
        },
    }
    plan
}

/// However a file is opened, a link at the end of its path is refused, and
/// what is only to be read is neither created nor changed.
pub proof fn law_links_are_refused(mode: AccessMode, strict: bool)
    ensures
        open_plan(mode, strict).no_follow || open_plan(mode, strict).no_links,
        !open_plan(mode, strict).write ==> !open_plan(mode, strict).create && !open_plan(
            mode,
            strict,
        ).truncate && !open_plan(mode, strict).append,
{
}

/// What a file holds once it is opened, given what it held before.
pub open spec fn opened(plan: OpenPlan, held: Seq<u8>) -> Seq<u8> {
    if plan.truncate {
        Seq::empty()
    } else {
        held
    }
}

/// Opening a file changes nothing in it, unless it is to be written anew at
/// once.
pub proof fn law_opening_keeps_the_file(mode: AccessMode, strict: bool, held: Seq<u8>)
    requires
        mode != AccessMode::WriteCreateTrunc,
    ensures
        opened(open_plan(mode, strict), held) == held,
{
}

/// Why the file system did not open a file.
#[derive(Debug)]
pub enum OpenFailure {
    /// The call is not known.
    NotImplemented,
    /// The call is not allowed.
    NotPermitted,
    /// There is a link in the way.
    Link,
    NotFound,
    AccessDenied,
    Other(String),
}

/// What to do where links anywhere were to be refused and the file was not
/// opened.
#[derive(Debug)]
pub enum AfterStrict {
    /// Ask again, to refuse a link at the end of the path.
    AskAgain,
    Fail(CoreError),
}

/// What is said of a file that was not opened, whichever way was tried.
pub open spec fn open_error(
    path: Seq<char>,
    failure: OpenFailure,
    link: Seq<char>,
    call: Seq<char>,
) -> CoreErrorView {
    CoreErrorView::Ipc(
        match failure {
            OpenFailure::Link => link,
            OpenFailure::NotFound => "file not found: "@ + path,
            OpenFailure::AccessDenied => "permission denied: "@ + path,
            OpenFailure::NotImplemented => call + "("@ + path
                + ") failed: ENOSYS: Function not implemented"@,
            OpenFailure::NotPermitted => call + "("@ + path
                + ") failed: EPERM: Operation not permitted"@,
            OpenFailure::Other(e) => call + "("@ + path + ") failed: "@ + e@,
        },
    )
}

/// What is said of a file that was not opened.
fn failure_error(path: &str, failure: &OpenFailure, link: String, call: &str) -> (r: CoreError)
    ensures
        r@ == open_error(path@, *failure, link@, call@),
{
    match failure {
        OpenFailure::Link => CoreError::Ipc(link),
        OpenFailure::NotFound => {
            let mut m = "file not found: ".to_owned();
            m.append(path);
            CoreError::Ipc(m)
        },
        OpenFailure::AccessDenied => {
            let mut m = "permission denied: ".to_owned();
            m.append(path);
            CoreError::Ipc(m)
        },
        OpenFailure::NotImplemented => {
            let mut m = call.to_owned();
            m.append("(");
            m.append(path);
            m.append(") failed: ENOSYS: Function not implemented");
            CoreError::Ipc(m)
        },
        OpenFailure::NotPermitted => {
            let mut m = call.to_owned();
            m.append("(");
            m.append(path);
            m.append(") failed: EPERM: Operation not permitted");
            CoreError::Ipc(m)
        },
        OpenFailure::Other(e) => {
            let mut m = call.to_owned();
            m.append("(");
            m.append(path);
            m.append(") failed: ");
            m.append(e.as_str());
            CoreError::Ipc(m)
        },
    }
}

/// What to do where links anywhere were to be refused and the file was not
/// opened.
pub fn after_strict(path: &str, failure: &OpenFailure) -> (r: AfterStrict)
    ensures
        match r {
            AfterStrict::AskAgain => failure is NotImplemented || failure is NotPermitted,
            AfterStrict::Fail(e) => !(failure is NotImplemented || failure is NotPermitted) && e@
                == open_error(
                path@,
                *failure,
                "refusing to open path containing symlink: "@ + path@
                    + " (RESOLVE_NO_SYMLINKS — capability TOCTOU guard)"@,
                "openat2"@,
            ),
        },
{
    match failure {
        OpenFailure::NotImplemented => AfterStrict::AskAgain,
        OpenFailure::NotPermitted => AfterStrict::AskAgain,
        _ => {
            let mut link = "refusing to open path containing symlink: ".to_owned();
            link.append(path);
            link.append(" (RESOLVE_NO_SYMLINKS — capability TOCTOU guard)");
            AfterStrict::Fail(failure_error(path, failure, link, "openat2"))
        },
    }
}

/// The error where a link at the end was to be refused and the file was not
/// opened.
pub fn after_plain(path: &str, failure: &OpenFailure) -> (r: CoreError)
    ensures
        r@ == open_error(
            path@,
            *failure,
            "refusing to open symlink at "@ + path@
                + ": O_NOFOLLOW (capability TOCTOU guard)"@,
            "open"@,
        ),
{
    let mut link = "refusing to open symlink at ".to_owned();
    link.append(path);
    link.append(": O_NOFOLLOW (capability TOCTOU guard)");
    failure_error(path, failure, link, "open")
}

/// A file is opened for what its mode says and for nothing more: to be read, to
/// be written, to be made where it is not there.
pub proof fn law_opened_for_what_is_meant(mode: AccessMode, strict: bool)
    ensures
        ({
            let p = open_plan(mode, strict);
            &&& mode is Read ==> p.read && !p.write && !p.create
            &&& mode is ReadDir ==> p.read && !p.write && p.directory
            &&& mode is PathOnly ==> !p.read && !p.write && p.path_only
            &&& mode is ReadWrite ==> p.read && p.write && !p.create
            &&& mode is ReadWriteCreate ==> p.read && p.write && p.create
            &&& mode is WriteCreate ==> !p.read && p.write && p.create && !p.append
            &&& mode is WriteCreateTrunc ==> !p.read && p.write && p.create && p.truncate
            &&& mode is WriteCreateAppend ==> !p.read && p.write && p.create && p.append
            &&& p.truncate ==> mode is WriteCreateTrunc
            &&& p.append ==> mode is WriteCreateAppend
            &&& p.path_only ==> mode is PathOnly
            &&& p.directory ==> mode is ReadDir
            &&& p.close_on_exec
            &&& strict ==> p.no_links
        }),
{
}

/// What went wrong names the file, unless it is a link.
pub proof fn law_failure_names_the_file(
    path: Seq<char>,
    failure: OpenFailure,
    link: Seq<char>,
    call: Seq<char>,
)
    ensures
        open_error(path, failure, link, call) is Ipc,
        failure is Link ==> open_error(path, failure, link, call)->Ipc_0 == link,
        !(failure is Link) ==> contains_text(open_error(path, failure, link, call)->Ipc_0, path),
        failure matches OpenFailure::Other(e) ==> ends_in(
            open_error(path, failure, link, call)->Ipc_0,
            e@,
        ),
{
    law_text_holds_its_parts("file not found: "@, path, path);
    law_text_holds_its_parts("permission denied: "@, path, path);
    law_four_parts(call, "("@, path, ") failed: ENOSYS: Function not implemented"@);
    law_four_parts(call, "("@, path, ") failed: EPERM: Operation not permitted"@);
    if let OpenFailure::Other(e) = failure {
        law_four_parts(call, "("@, path, ") failed: "@);
        law_text_holds_its_parts(call + "("@ + path + ") failed: "@, e@, path);
        law_parts_occur(call + "("@ + path + ") failed: "@, e@, Seq::empty());
    }
}

} // verus!
