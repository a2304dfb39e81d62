//! Reading several files.

use crate::error::{CoreError, CoreErrorView};
use crate::json::{
    array_view, collect_texts, elements_of, field, lemma_array_view, texts_among, Json, JsonView,
};
use crate::text::{decimal, decimal_text, views};
use crate::tools::access::{any_permits, permitted};
use crate::tools::definition::{
    define, defined, entry, fields_view, object, params_view, required_param, text, Param,
    ParamKind, ParamKindView, ParamView, ToolDefinition,
};
use vstd::prelude::*;
use vstd::string::*;

verus! {

/// How large each file may be, in bytes.
pub const MAX_READ_BYTES_PER_FILE: u64 = 1_048_576;

/// How many files may be asked for at a time.
pub const MAX_PATHS: usize = 16;

/// Reads several files; what fails of one does not fail the others.
#[derive(Debug)]
pub struct FileReadManyTool;

/// Why files cannot be asked for as they were.
pub open spec fn request_error(input: JsonView) -> Option<CoreErrorView> {
    match elements_of(field(input, "paths"@)) {
        None => Some(CoreErrorView::InvalidManifest("missing 'paths' array"@)),
        Some(paths) => if paths.len() == 0 {
            Some(CoreErrorView::InvalidManifest("'paths' array must not be empty"@))
        } else if paths.len() > MAX_PATHS {
            Some(
                CoreErrorView::InvalidManifest(
                    "too many paths: "@ + decimal(paths.len()) + " (max 16)"@,
                ),
            )
        } else if texts_among(paths).len() != paths.len() {
            Some(CoreErrorView::InvalidManifest("all 'paths' entries must be strings"@))
        } else {
            None
        },
    }
}

/// What is said of a file that was not read.
pub open spec fn failed_entry(path: Seq<char>, error: Seq<char>, reason: Seq<char>) -> JsonView {
    JsonView::Object(
        seq![
            ("path"@, JsonView::Text(path)),
            ("error"@, JsonView::Text(error)),
            ("reason"@, JsonView::Text(reason)),
        ],
    )
}

/// What is said of a file that is too large.
pub open spec fn large_entry(path: Seq<char>, len: u64) -> JsonView {
    JsonView::Object(
        seq![
            ("path"@, JsonView::Text(path)),
            ("error"@, JsonView::Text("too_large"@)),
            (
                "reason"@,
                JsonView::Text(
                    "file too large: "@ + decimal(len as nat) + " bytes (max 1048576)"@,
                ),
            ),
            ("size_bytes"@, JsonView::Unsigned(len)),
        ],
    )
}

/// What is said of a file that was read.
pub open spec fn content_entry(path: Seq<char>, content: Seq<char>, len: u64) -> JsonView {
    JsonView::Object(
        seq![
            ("path"@, JsonView::Text(path)),
            ("content"@, JsonView::Text(content)),
            ("size_bytes"@, JsonView::Unsigned(len)),
        ],
    )
}

/// What is said of a file that was not read.
fn failed(path: &str, error: &str, reason: String) -> (r: Json)
    ensures
        r@ == failed_entry(path@, error@, reason@),
{
    let ghost why = reason@;
    let mut f: Vec<(String, Json)> = Vec::new();
    f.push(entry("path", text(path)));
    f.push(entry("error", text(error)));
    f.push(entry("reason", Json::Text(reason)));
    assert(fields_view(f@) =~= failed_entry(path@, error@, why)->Object_0);
    object(f)
}

/// What is known of a file before it is read.
#[derive(Debug, Clone, Copy, PartialEq, Eq, Structural)]
pub struct FileFacts {
    pub is_file: bool,
    pub len: u64,
}

/// Whether each file has its result: as many results as files, each with its
/// own position among them.
pub open spec fn complete(results: Seq<(usize, Json)>) -> bool {
    &&& forall|k: int| 0 <= k < results.len() ==> (#[trigger] results[k]).0 < results.len()
    &&& forall|i: int|
        0 <= i < results.len() ==> #[trigger] result_of(results, i, 0) is Some
}

/// The result for the file at position `i`, from the `from`th result on.
pub open spec fn result_of(results: Seq<(usize, Json)>, i: int, from: int) -> Option<JsonView>
    decreases results.len() - from,
{
    if from < 0 || from >= results.len() {
        None
    } else if results[from].0 == i {
        Some(results[from].1@)
    } else {
        result_of(results, i, from + 1)
    }
}

/// What is answered: the results in the order of the files.
pub open spec fn many_answer(results: Seq<(usize, Json)>) -> JsonView {
    JsonView::Object(
        seq![
            (
                "files"@,
                JsonView::Array(
                    Seq::new(results.len(), |i: int| result_of(results, i, 0)->0),
                ),
            ),
            ("count"@, JsonView::Unsigned(results.len() as u64)),
        ],
    )
}

/// What the tool takes.
pub open spec fn many_params() -> Seq<ParamView> {
    seq![
        required_param(
            "paths"@,
            ParamKindView::Texts,
            "Absolute paths to read. Max 16 entries per call."@,
        ),
    ]
}

impl FileReadManyTool {
    /// What the tool is.
    pub fn definition(&self) -> (r: ToolDefinition)
        ensures
            r@ == defined(
                "file_read_many"@,
                "Read multiple files in parallel. Each path is capability-checked individually; per-file failures (not found, capability denied, too large, not a file) are returned as structured error entries alongside successes, so one bad path doesn't abort the batch. Use this when you know the 2-16 files you need upfront. Note: an internal task panic — a programming bug, not an expected per-file failure — aborts the entire batch with an error; do not use with untrusted file sources."@,
                many_params(),
            ),
    {
        let mut params: Vec<Param> = Vec::new();
        params.push(
            Param::required(
                "paths",
                ParamKind::Texts,
                "Absolute paths to read. Max 16 entries per call.",
            ),
        );
        assert(params_view(params@) =~= many_params());
        define(
            "file_read_many",
            "Read multiple files in parallel. Each path is capability-checked individually; per-file failures (not found, capability denied, too large, not a file) are returned as structured error entries alongside successes, so one bad path doesn't abort the batch. Use this when you know the 2-16 files you need upfront. Note: an internal task panic — a programming bug, not an expected per-file failure — aborts the entire batch with an error; do not use with untrusted file sources.",
            &params,
        )
    }

    /// The paths that an input asks for.
    pub fn parse(&self, input: &Json) -> (r: Result<Vec<String>, CoreError>)
        ensures
            match r {
                Ok(v) => {
                    &&& request_error(input@) is None
                    &&& views(v@) == texts_among(elements_of(field(input@, "paths"@))->0)
                    &&& 0 < v@.len() <= MAX_PATHS
                },
                Err(e) => request_error(input@) == Some(e@),
            },
    {
        match input.get_array("paths") {
            None => Err(CoreError::InvalidManifest("missing 'paths' array".to_owned())),
            Some(paths) => {
                proof {
                    lemma_array_view(paths@);
                }
                if paths.len() == 0 {
                    return Err(
                        CoreError::InvalidManifest("'paths' array must not be empty".to_owned()),
                    );
                }
                if paths.len() > MAX_PATHS {
                    let mut m = "too many paths: ".to_owned();
                    let n = decimal_text(paths.len() as u64);
                    m.append(n.as_str());
                    m.append(" (max 16)");
                    return Err(CoreError::InvalidManifest(m));
                }
                let texts = collect_texts(paths);
                assert(views(texts@).len() == texts@.len());
                if texts.len() != paths.len() {
                    return Err(
                        CoreError::InvalidManifest(
                            "all 'paths' entries must be strings".to_owned(),
                        ),
                    );
                }
                Ok(texts)
            },
        }
    }

    /// The result for a file that the agent may not read.
    pub fn denied(&self, path: &str, permits: &Vec<bool>) -> (r: Option<Json>)
        ensures
            match r {
                None => permitted(permits@),
                Some(v) => !permitted(permits@) && v@ == failed_entry(
                    path@,
                    "capability_denied"@,
                    "file_read not permitted for path: "@ + path@,
                ),
            },
    {
        if any_permits(permits) {
            return None;
        }
        let mut m = "file_read not permitted for path: ".to_owned();
        m.append(path);
        Some(failed(path, "capability_denied", m))
    }

    /// The result for a file that is not there, is no file or is too large;
    /// `facts` is what the file system said of it.
    pub fn refused(&self, path: &str, facts: &Result<FileFacts, String>) -> (r: Option<Json>)
        ensures
            match *facts {
                Err(e) => r is Some && (r->0)@ == failed_entry(
                    path@,
                    "not_found"@,
                    "file not found: "@ + e@,
                ),
                Ok(f) => if !f.is_file {
                    r is Some && (r->0)@ == failed_entry(
                        path@,
                        "not_a_file"@,
                        path@ + " is not a regular file"@,
                    )
                } else if f.len > MAX_READ_BYTES_PER_FILE {
                    r is Some && (r->0)@ == large_entry(path@, f.len)
                } else {
                    r is None
                },
            },
    {
        match facts {
            Err(e) => {
                let mut m = "file not found: ".to_owned();
                m.append(e.as_str());
                Some(failed(path, "not_found", m))
            },
            Ok(known) => {
                if !known.is_file {
                    let mut m = path.to_owned();
                    m.append(" is not a regular file");
                    return Some(failed(path, "not_a_file", m));
                }
                if known.len > MAX_READ_BYTES_PER_FILE {
                    let mut m = "file too large: ".to_owned();
                    let n = decimal_text(known.len);
                    m.append(n.as_str());
                    m.append(" bytes (max 1048576)");
                    let mut f: Vec<(String, Json)> = Vec::new();
                    f.push(entry("path", text(path)));
                    f.push(entry("error", text("too_large")));
                    f.push(entry("reason", Json::Text(m)));
                    f.push(entry("size_bytes", Json::Unsigned(known.len)));
                    assert(fields_view(f@) =~= large_entry(path@, known.len)->Object_0);
                    return Some(object(f));
                }
                None
            },
        }
    }

    /// The result for a file that was to be read.
    pub fn entry(&self, path: &str, content: Result<String, String>, len: u64) -> (r: Json)
        ensures
            r@ == (match content {
                Ok(t) => content_entry(path@, t@, len),
                Err(e) => failed_entry(path@, "read_failed"@, "failed to read file: "@ + e@),
            }),
    {
        match content {
            Ok(t) => {
                let ghost held = t@;
                let mut f: Vec<(String, Json)> = Vec::new();
                f.push(entry("path", text(path)));
                f.push(entry("content", Json::Text(t)));
                f.push(entry("size_bytes", Json::Unsigned(len)));
                assert(fields_view(f@) =~= content_entry(path@, held, len)->Object_0);
                object(f)
            },
            Err(e) => {
                let mut m = "failed to read file: ".to_owned();
                m.append(e.as_str());
                failed(path, "read_failed", m)
            },
        }
    }

    /// What is answered, given the results as they came, each with the
    /// position of its file.
    pub fn answer(&self, results: &Vec<(usize, Json)>) -> (r: Json)
        requires
            complete(results@),
        ensures
            r@ == many_answer(results@),
    {
        let ghost all = results@;
        let ghost want = Seq::new(all.len(), |i: int| result_of(all, i, 0)->0);
        let mut files: Vec<Json> = Vec::new();
        let mut i: usize = 0;
        while i < results.len()
            invariant
                all == results@,
                complete(all),
                want == Seq::new(all.len(), |i: int| result_of(all, i, 0)->0),
                0 <= i <= all.len(),
                files@.len() == i,
                forall|k: int| 0 <= k < i ==> (#[trigger] files@[k])@ == want[k],
            decreases all.len() - i,
        {
            assert(result_of(all, i as int, 0) is Some);
            let mut k: usize = 0;
            while k < results.len() && results[k].0 != i
                invariant
                    all == results@,
                    0 <= i < all.len(),
                    0 <= k <= all.len(),
                    result_of(all, i as int, 0) == result_of(all, i as int, k as int),
                decreases all.len() - k,
            {
                k += 1;
            }
            assert(k < all.len());
            files.push(results[k].1.copy());
            i += 1;
        }
        proof {
            lemma_array_view(files@);
            assert(array_view(files@) =~= want);
        }
        let mut f: Vec<(String, Json)> = Vec::new();
        f.push(entry("files", Json::Array(files)));
        f.push(entry("count", Json::Unsigned(results.len() as u64)));
        assert(fields_view(f@) =~= many_answer(all)->Object_0);
        object(f)
    }
}

/// Answers come in the order of the paths, whatever order the files were read
/// in, and all of them come.
pub proof fn law_answers_come_in_order(results: Seq<(usize, Json)>, k: int)
    requires
        0 <= k < results.len(),
        results.len() <= u64::MAX,
        forall|a: int, b: int|
            0 <= a < b < results.len() ==> (#[trigger] results[a]).0 != (#[trigger] results[b]).0,
        forall|a: int| 0 <= a < results.len() ==> (#[trigger] results[a]).0 < results.len(),
    ensures
        ({
            let a = many_answer(results)->Object_0;
            &&& a[0].0 == "files"@
            &&& a[0].1->Array_0.len() == results.len()
            &&& a[0].1->Array_0[results[k].0 as int] == results[k].1@
            &&& a.contains(("count"@, JsonView::Unsigned(results.len() as u64)))
        }),
{
    lemma_result_is(results, k, 0);
    let a = many_answer(results)->Object_0;
    assert(a[1].0 == "count"@);
}

proof fn lemma_result_is(results: Seq<(usize, Json)>, k: int, from: int)
    requires
        0 <= from <= k < results.len(),
        forall|a: int, b: int|
            0 <= a < b < results.len() ==> (#[trigger] results[a]).0 != (#[trigger] results[b]).0,
    ensures
        result_of(results, results[k].0 as int, from) == Some(results[k].1@),
    decreases k - from,
{
    if from < k {
        assert(results[from].0 != results[k].0);
        lemma_result_is(results, k, from + 1);
    }
}

/// A request is in order where it names at least one path and at most sixteen,
/// and nothing else.
pub proof fn law_requests_for_many_files(input: JsonView, paths: Seq<JsonView>)
    requires
        field(input, "paths"@) == Some(JsonView::Array(paths)),
    ensures
        request_error(input) is None <==> 1 <= paths.len() <= 16 && forall|i: int|
            0 <= i < paths.len() ==> (#[trigger] paths[i]) is Text,
{
    lemma_all_are_texts(paths);
}

#[verifier::rlimit(40)]
proof fn lemma_all_are_texts(s: Seq<JsonView>)
    ensures
        texts_among(s).len() <= s.len(),
        texts_among(s).len() == s.len() <==> forall|i: int|
            0 <= i < s.len() ==> (#[trigger] s[i]) is Text,
    decreases s.len(),
{
    if s.len() > 0 {
        lemma_all_are_texts(s.drop_last());
        if forall|i: int| 0 <= i < s.drop_last().len() ==> (#[trigger] s.drop_last()[i]) is Text {
            assert forall|i: int| 0 <= i < s.len() && s.last() is Text implies (
            #[trigger] s[i]) is Text by {
                if i < s.len() - 1 {
                    assert(s.drop_last()[i] is Text);
                }
            }
        }
        if forall|i: int| 0 <= i < s.len() ==> (#[trigger] s[i]) is Text {
            assert(s[s.len() - 1] is Text);
            assert forall|i: int| 0 <= i < s.drop_last().len() implies (
            #[trigger] s.drop_last()[i]) is Text by {
                assert(s[i] is Text);
            }
        }
    }
}

/// The answer for a file names it and holds what it holds, or says why it was
/// not read.
pub proof fn law_answer_for_a_file(
    path: Seq<char>,
    content: Seq<char>,
    error: Seq<char>,
    reason: Seq<char>,
    len: u64,
)
    ensures
        content_entry(path, content, len)->Object_0.contains(("path"@, JsonView::Text(path))),
        content_entry(path, content, len)->Object_0.contains(("content"@, JsonView::Text(content))),
        content_entry(path, content, len)->Object_0.contains(
            ("size_bytes"@, JsonView::Unsigned(len)),
        ),
        failed_entry(path, error, reason)->Object_0.contains(("path"@, JsonView::Text(path))),
        failed_entry(path, error, reason)->Object_0.contains(("error"@, JsonView::Text(error))),
        failed_entry(path, error, reason)->Object_0.contains(("reason"@, JsonView::Text(reason))),
        large_entry(path, len)->Object_0.contains(("path"@, JsonView::Text(path))),
        large_entry(path, len)->Object_0.contains(("error"@, JsonView::Text("too_large"@))),
        large_entry(path, len)->Object_0.contains(("size_bytes"@, JsonView::Unsigned(len))),
{
    let c = content_entry(path, content, len)->Object_0;
    assert(c[0].0 == "path"@ && c[1].0 == "content"@ && c[2].0 == "size_bytes"@);
    let f = failed_entry(path, error, reason)->Object_0;
    assert(f[0].0 == "path"@ && f[1].0 == "error"@ && f[2].0 == "reason"@);
    let l = large_entry(path, len)->Object_0;
    assert(l[0].0 == "path"@ && l[1].0 == "error"@ && l[3].0 == "size_bytes"@);
}

/// What the tool says it needs, it needs.
pub proof fn law_required_parameters_are_needed(input: JsonView, i: int)
    requires
        0 <= i < many_params().len(),
    ensures
        many_params()[i].required,
        field(input, many_params()[i].name) is None ==> request_error(input) is Some,
{
}

} // verus!
