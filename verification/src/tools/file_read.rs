//! Reading a file by lines.

use crate::capability::{Capability, CapabilityView};
use crate::error::{CoreError, CoreErrorView};
use crate::json::{field, text_of, unsigned_of, Json, JsonView};
use crate::text::{
    char_position, contains_text, decimal, decimal_text, ends_in, is_digit, lemma_char_position,
    lines, split_pieces, text_lines, views,
};
use crate::text_laws::{law_numbers_are_written_in_decimal, law_parts_occur, law_put_together};
use crate::tools::access::{missing_param, permitted, require, required_text};
use crate::tools::definition::{
    define, defined, entry, fields_view, object, optional_param, params_view, required_param,
    Param, ParamKind, ParamKindView, ParamView, ToolDefinition,
};
use crate::types::AgentId;
use vstd::prelude::*;
use vstd::string::*;

verus! {

/// How large a file may be to be read, in bytes.
pub const MAX_READ_BYTES: u64 = 1_048_576;

/// How many lines are read where nothing else is said.
pub const DEFAULT_LIMIT: u64 = 2000;

/// Reads a file, or some lines of it.
#[derive(Debug)]
pub struct FileReadTool;

/// A read that was asked for.
#[derive(Debug)]
pub struct ReadRequest {
    pub path: String,
    /// The first line, counted from one.
    pub offset: u64,
    /// How many lines at most.
    pub limit: u64,
}

/// The first line that an input asks for.
pub open spec fn wanted_offset(input: JsonView) -> u64 {
    match unsigned_of(field(input, "offset"@)) {
        Some(n) => if n >= 1 {
            n
        } else {
            1
        },
        None => 1,
    }
}

/// How many lines an input asks for.
pub open spec fn wanted_limit(input: JsonView) -> u64 {
    match unsigned_of(field(input, "limit"@)) {
        Some(n) => n,
        None => DEFAULT_LIMIT,
    }
}

/// Why a file cannot be read.
pub open spec fn file_error(path: Seq<char>, is_file: bool, len: u64) -> Option<CoreErrorView> {
    if !is_file {
        Some(CoreErrorView::Ipc(path + " is not a regular file"@))
    } else if len > MAX_READ_BYTES {
        Some(
            CoreErrorView::Ipc(
                "file too large: "@ + decimal(len as nat) + " bytes (max 1048576)"@,
            ),
        )
    } else {
        None
    }
}

/// Spaces.
pub open spec fn spaces(n: int) -> Seq<char>
    decreases n,
{
    if n <= 0 {
        Seq::empty()
    } else {
        spaces(n - 1).push(' ')
    }
}

/// A line with its number, which is set to the right in six columns.
pub open spec fn numbered_line(number: nat, line: Seq<char>) -> Seq<char> {
    spaces(6 - decimal(number).len()) + decimal(number) + "\t"@ + line + "\n"@
}

/// The lines from `start` up to `end` with their numbers, which begin with one
/// at the beginning of the file.
pub open spec fn numbered(all: Seq<Seq<char>>, start: int, end: int) -> Seq<char>
    decreases end - start,
{
    if start >= end {
        Seq::empty()
    } else {
        numbered(all, start, end - 1) + numbered_line(end as nat, all[end - 1])
    }
}

/// The lesser of two numbers.
pub open spec fn lesser(a: int, b: int) -> int {
    if a <= b {
        a
    } else {
        b
    }
}

/// Where in a file of `total` lines a read begins.
pub open spec fn first_line(offset: u64, total: nat) -> int {
    lesser(offset - 1, total as int)
}

/// Where in a file of `total` lines a read ends.
pub open spec fn last_line(offset: u64, limit: u64, total: nat) -> int {
    lesser(first_line(offset, total) + limit, total as int)
}

/// What is answered to a read.
pub open spec fn read_answer(
    raw: Seq<char>,
    size: u64,
    offset: u64,
    limit: u64,
) -> JsonView {
    let all = text_lines(raw);
    let start = first_line(offset, all.len());
    let end = last_line(offset, limit, all.len());
    JsonView::Object(
        seq![
            ("content"@, JsonView::Text(numbered(all, start, end))),
            ("size_bytes"@, JsonView::Unsigned(size)),
            ("total_lines"@, JsonView::Unsigned(all.len() as u64)),
            ("offset"@, JsonView::Unsigned(offset)),
            ("returned_lines"@, JsonView::Unsigned((end - start) as u64)),
            ("truncated"@, JsonView::Bool(end < all.len())),
        ],
    )
}

/// A line with its number.
fn number_line(number: u64, line: &str) -> (r: String)
    ensures
        r@ == numbered_line(number as nat, line@),
{
    let digits = decimal_text(number);
    let columns = digits.as_str().unicode_len();
    let mut out = String::new();
    let mut pad: usize = 0;
    while pad < 6 && pad + columns < 6
        invariant
            columns == decimal(number as nat).len(),
            pad <= 6,
            pad + columns <= 6 || pad == 0,
            out@ == spaces(pad as int),
        decreases 6 - pad,
    {
        out.push(' ');
        pad += 1;
    }
    assert(out@ == spaces(6 - columns));
    out.append(digits.as_str());
    out.append("\t");
    out.append(line);
    out.append("\n");
    out
}

/// What the tool takes.
pub open spec fn read_params() -> Seq<ParamView> {
    seq![
        required_param("path"@, ParamKindView::Text, "Absolute path to the file"@),
        optional_param(
            "offset"@,
            ParamKindView::Count,
            "1-indexed line number to start reading from (default: 1)"@,
        ),
        optional_param(
            "limit"@,
            ParamKindView::Count,
            "Max number of lines to return (default: 2000)"@,
        ),
    ]
}

impl FileReadTool {
    /// What the tool is.
    pub fn definition(&self) -> (r: ToolDefinition)
        ensures
            r@ == defined(
                "file_read"@,
                "Read a file's contents with optional line-range slicing. Returns content prefixed with 1-indexed line numbers (cat -n style) so edits can reference lines precisely. Default limit: 2000 lines. Path must be allowed by capability tokens."@,
                read_params(),
            ),
    {
        let mut params: Vec<Param> = Vec::new();
        params.push(Param::required("path", ParamKind::Text, "Absolute path to the file"));
        params.push(
            Param::optional(
                "offset",
                ParamKind::Count,
                "1-indexed line number to start reading from (default: 1)",
            ),
        );
        params.push(
            Param::optional(
                "limit",
                ParamKind::Count,
                "Max number of lines to return (default: 2000)",
            ),
        );
        assert(params_view(params@) =~= read_params());
        define(
            "file_read",
            "Read a file's contents with optional line-range slicing. Returns content prefixed with 1-indexed line numbers (cat -n style) so edits can reference lines precisely. Default limit: 2000 lines. Path must be allowed by capability tokens.",
            &params,
        )
    }

    /// The read that an input asks for.
    pub fn parse(&self, input: &Json) -> (r: Result<ReadRequest, CoreError>)
        ensures
            match r {
                Ok(q) => {
                    &&& text_of(field(input@, "path"@)) == Some(q.path@)
                    &&& q.offset == wanted_offset(input@)
                    &&& q.offset >= 1
                    &&& q.limit == wanted_limit(input@)
                },
                Err(e) => text_of(field(input@, "path"@)) is None && e@ == missing_param("path"@),
            },
    {
        let path = match required_text(input, "path") {
            Ok(t) => t,
            Err(e) => {
                return Err(e);
            },
        };
        let offset: u64 = match input.get_u64("offset") {
            Some(n) => if n >= 1 {
                n
            } else {
                1
            },
            None => 1,
        };
        let limit: u64 = match input.get_u64("limit") {
            Some(n) => n,
            None => DEFAULT_LIMIT,
        };
        Ok(ReadRequest { path, offset, limit })
    }

    /// Lets an agent read a file.
    pub fn authorize(&self, agent_id: AgentId, path: &str, permits: &Vec<bool>) -> (r: Result<
        (),
        CoreError,
    >)
        ensures
            match r {
                Ok(_) => permitted(permits@),
                Err(e) => !permitted(permits@) && e@ == (CoreErrorView::CapabilityDenied {
                    agent_id,
                    capability: CapabilityView::FileRead { path_glob: path@ },
                    reason: "file_read not permitted for path: "@ + path@,
                }),
            },
    {
        let read = Capability::FileRead { path_glob: path.to_owned() };
        require(agent_id, permits, read, "file_read not permitted for path: ", path)
    }

    /// Refuses what is no file, or too large to read.
    pub fn check_file(&self, path: &str, is_file: bool, len: u64) -> (r: Result<(), CoreError>)
        ensures
            match r {
                Ok(_) => file_error(path@, is_file, len) is None,
                Err(e) => file_error(path@, is_file, len) == Some(e@),
            },
    {
        if !is_file {
            let mut m = path.to_owned();
            m.append(" is not a regular file");
            return Err(CoreError::Ipc(m));
        }
        if len > MAX_READ_BYTES {
            let mut m = "file too large: ".to_owned();
            let n = decimal_text(len);
            m.append(n.as_str());
            m.append(" bytes (max 1048576)");
            return Err(CoreError::Ipc(m));
        }
        Ok(())
    }

    /// What is answered to a read of a file of `size` bytes that holds `raw`.
    pub fn answer(&self, request: &ReadRequest, raw: &str, size: u64) -> (r: Json)
        requires
            request.offset >= 1,
        ensures
            r@ == read_answer(raw@, size, request.offset, request.limit),
    {
        let all = lines(raw);
        let ghost a = text_lines(raw@);
        assert(all.len() == a.len());
        let total: usize = all.len();
        let start: usize = if request.offset - 1 <= total as u64 {
            (request.offset - 1) as usize
        } else {
            total
        };
        let end: usize = if request.limit <= (total - start) as u64 {
            start + request.limit as usize
        } else {
            total
        };
        let mut content = String::new();
        let mut i: usize = start;
        while i < end
            invariant
                start <= i <= end <= all.len(),
                a == text_lines(raw@),
                views(all@) == a,
                content@ == numbered(a, start as int, i as int),
            decreases end - i,
        {
            assert(a[i as int] == all@[i as int]@);
            let line = number_line(i as u64 + 1, all[i].as_str());
            content.append(line.as_str());
            i += 1;
        }
        let mut f: Vec<(String, Json)> = Vec::new();
        f.push(entry("content", Json::Text(content)));
        f.push(entry("size_bytes", Json::Unsigned(size)));
        f.push(entry("total_lines", Json::Unsigned(total as u64)));
        f.push(entry("offset", Json::Unsigned(request.offset)));
        f.push(entry("returned_lines", Json::Unsigned((end - start) as u64)));
        f.push(entry("truncated", Json::Bool(end < total)));
        assert(fields_view(f@) =~= read_answer(
            raw@,
            size,
            request.offset,
            request.limit,
        )->Object_0);
        object(f)
    }
}

/// A file read page by page reads as it does at once: where one read ends the
/// next goes on, with nothing lost, doubled or numbered otherwise.
pub proof fn law_pages_make_the_whole(all: Seq<Seq<char>>, start: int, middle: int, end: int)
    requires
        0 <= start <= middle <= end,
    ensures
        numbered(all, start, middle) + numbered(all, middle, end) == numbered(all, start, end),
    decreases end - middle,
{
    if middle < end {
        law_pages_make_the_whole(all, start, middle, end - 1);
        assert(numbered(all, start, middle) + numbered(all, middle, end) =~= numbered(
            all,
            start,
            end,
        ));
    } else {
        assert(numbered(all, start, middle) + numbered(all, middle, end) =~= numbered(
            all,
            start,
            end,
        ));
    }
}

/// Every line is shown whole, behind its number: the text shown for a line
/// ends in a tab, the line as it is and a line feed. For a number of at most
/// six digits that is behind a column of six and a tab.
pub proof fn law_line_is_shown_whole(number: nat, line: Seq<char>)
    ensures
        ends_in(numbered_line(number, line), "\t"@ + line + "\n"@),
        contains_text(numbered_line(number, line), decimal(number) + "\t"@),
        number < 1_000_000 ==> {
            let shown = numbered_line(number, line);
            &&& shown.skip(7) == line + "\n"@
            &&& shown[6] == '\t'
            &&& ends_in(shown.take(6), decimal(number))
            &&& forall|k: int|
                0 <= k < 6 - decimal(number).len() ==> #[trigger] shown[k] == ' '
        },
{
    reveal_strlit("\t");
    let pad = spaces(6 - decimal(number).len());
    let digits = decimal(number);
    lemma_shown_parts(pad, digits, line);
    if number < 1_000_000 {
        lemma_spaces(6 - decimal(number).len());
        lemma_six_digits(number);
        lemma_shown_columns(pad, digits, line);
    }
}

proof fn lemma_shown_parts(pad: Seq<char>, digits: Seq<char>, line: Seq<char>)
    ensures
        ends_in(pad + digits + "\t"@ + line + "\n"@, "\t"@ + line + "\n"@),
        contains_text(pad + digits + "\t"@ + line + "\n"@, digits + "\t"@),
{
    let start = pad + digits;
    law_put_together(start, "\t"@ + line, "\n"@);
    law_put_together(start, "\t"@, line);
    law_parts_occur(start, "\t"@ + line + "\n"@, Seq::empty());
    law_put_together(pad, digits, "\t"@);
    law_put_together(pad + (digits + "\t"@), line, "\n"@);
    law_parts_occur(pad, digits + "\t"@, line + "\n"@);
}

proof fn lemma_shown_columns(pad: Seq<char>, digits: Seq<char>, line: Seq<char>)
    requires
        pad.len() + digits.len() == 6,
        "\t"@.len() == 1,
    ensures
        (pad + digits + "\t"@ + line + "\n"@).skip(7) == line + "\n"@,
        (pad + digits + "\t"@ + line + "\n"@)[6] == "\t"@[0],
        ends_in((pad + digits + "\t"@ + line + "\n"@).take(6), digits),
        forall|k: int|
            0 <= k < pad.len() ==> #[trigger] (pad + digits + "\t"@ + line + "\n"@)[k] == pad[k],
{
    let shown = pad + digits + "\t"@ + line + "\n"@;
    assert(shown.skip(7) =~= line + "\n"@);
    assert(shown.take(6) =~= pad + digits);
    law_parts_occur(pad, digits, Seq::empty());
}

proof fn lemma_spaces(n: int)
    ensures
        spaces(n).len() == (if n > 0 {
            n
        } else {
            0
        }),
        forall|k: int| 0 <= k < spaces(n).len() ==> #[trigger] spaces(n)[k] == ' ',
    decreases n,
{
    if n > 0 {
        lemma_spaces(n - 1);
    }
}

proof fn lemma_six_digits(n: nat)
    requires
        n < 1_000_000,
    ensures
        1 <= decimal(n).len() <= 6,
{
    reveal_with_fuel(decimal, 7);
}

/// The file can be had back from what is shown of it: the shown text holds one
/// line for each, and each without the seven columns before it is the line as it
/// stands in the file.
#[verifier::rlimit(40)]
pub proof fn law_shown_lines_are_the_lines(all: Seq<Seq<char>>, start: int, end: int)
    requires
        0 <= start <= end <= all.len() < 1_000_000,
        forall|i: int, k: int|
            0 <= i < all.len() && 0 <= k < all[i].len() ==> #[trigger] all[i][k] != '\n',
    ensures
        ({
            let shown = split_pieces(numbered(all, start, end), '\n');
            &&& shown.len() == end - start + 1
            &&& shown[end - start] == Seq::<char>::empty()
            &&& forall|i: int|
                0 <= i < end - start ==> (#[trigger] shown[i]).skip(7) == all[start + i]
        }),
    decreases end - start,
{
    let shown = numbered(all, start, end);
    if start >= end {
        lemma_char_position(shown, '\n', 0);
    } else {
        let rest = numbered(all, start + 1, end);
        law_pages_make_the_whole(all, start, start + 1, end);
        reveal_with_fuel(numbered, 2);
        let first = numbered_line((start + 1) as nat, all[start]);
        assert(numbered(all, start, start + 1) =~= first);
        law_line_is_shown_whole((start + 1) as nat, all[start]);
        reveal_strlit("\t");
        reveal_strlit("\n");
        lemma_six_digits((start + 1) as nat);
        lemma_spaces(6 - decimal((start + 1) as nat).len());
        law_numbers_are_written_in_decimal((start + 1) as nat, 0);
        let line = first.drop_last();
        assert(first =~= line + seq!['\n']);
        assert(line =~= spaces(6 - decimal((start + 1) as nat).len()) + decimal(
            (start + 1) as nat,
        ) + "\t"@ + all[start]);
        assert forall|k: int| 0 <= k < line.len() implies #[trigger] line[k] != '\n' by {
            let pad = spaces(6 - decimal((start + 1) as nat).len());
            let digits = decimal((start + 1) as nat);
            if k < pad.len() {
                assert(line[k] == pad[k]);
            } else if k < 6 {
                assert(line[k] == digits[k - pad.len()]);
                assert(is_digit(digits[k - pad.len()]));
            } else if k > 6 {
                assert(line[k] == all[start][k - 7]);
            }
        }
        lemma_first_piece(line, rest);
        assert(shown =~= line + seq!['\n'] + rest);
        law_shown_lines_are_the_lines(all, start + 1, end);
        let pieces = split_pieces(shown, '\n');
        let others = split_pieces(rest, '\n');
        assert(pieces == seq![line] + others);
        assert(line.skip(7) =~= all[start]);
        assert forall|i: int| 0 <= i < end - start implies (#[trigger] pieces[i]).skip(7)
            == all[start + i] by {
            if i > 0 {
                assert(pieces[i] == others[i - 1]);
            }
        }
    }
}

proof fn lemma_first_piece(line: Seq<char>, rest: Seq<char>)
    requires
        forall|k: int| 0 <= k < line.len() ==> #[trigger] line[k] != '\n',
    ensures
        split_pieces(line + seq!['\n'] + rest, '\n') == seq![line] + split_pieces(rest, '\n'),
{
    let s = line + seq!['\n'] + rest;
    lemma_char_position(s, '\n', 0);
    assert(s[line.len() as int] == '\n');
    let i = char_position(s, '\n', 0)->0;
    if i < line.len() {
        assert(s[i] == line[i]);
    }
    assert(s.take(i) =~= line);
    assert(s.skip(i + 1) =~= rest);
}

/// A page begins at the line that is asked for and holds as many lines as are
/// asked for, as far as the file has them; what is left is told of.
pub proof fn law_page_is_what_is_asked_for(raw: Seq<char>, size: u64, offset: u64, limit: u64)
    requires
        offset >= 1,
        text_lines(raw).len() <= u64::MAX,
    ensures
        ({
            let all = text_lines(raw);
            let a = read_answer(raw, size, offset, limit)->Object_0;
            let start = offset - 1;
            &&& start + limit <= all.len() ==> {
                &&& a.contains(("content"@, JsonView::Text(numbered(all, start, start + limit))))
                &&& a.contains(("returned_lines"@, JsonView::Unsigned(limit)))
                &&& a.contains(("truncated"@, JsonView::Bool(start + limit < all.len())))
            }
            &&& start <= all.len() < start + limit ==> {
                &&& a.contains(
                    ("content"@, JsonView::Text(numbered(all, start, all.len() as int))),
                )
                &&& a.contains(
                    ("returned_lines"@, JsonView::Unsigned((all.len() - start) as u64)),
                )
                &&& a.contains(("truncated"@, JsonView::Bool(false)))
            }
            &&& start > all.len() ==> {
                &&& a.contains(("content"@, JsonView::Text(Seq::empty())))
                &&& a.contains(("returned_lines"@, JsonView::Unsigned(0)))
                &&& a.contains(("truncated"@, JsonView::Bool(false)))
            }
            &&& a.contains(("size_bytes"@, JsonView::Unsigned(size)))
            &&& a.contains(("total_lines"@, JsonView::Unsigned(all.len() as u64)))
            &&& a.contains(("offset"@, JsonView::Unsigned(offset)))
        }),
{
    let a = read_answer(raw, size, offset, limit)->Object_0;
    assert(a[0].0 == "content"@ && a[1].0 == "size_bytes"@ && a[2].0 == "total_lines"@);
    assert(a[3].0 == "offset"@ && a[4].0 == "returned_lines"@ && a[5].0 == "truncated"@);
}

/// Lines are counted from one, from the first where nothing or nothing sensible
/// is said, and two thousand are read where no number is given.
pub proof fn law_what_is_read_by_default(input: JsonView, n: u64)
    ensures
        field(input, "offset"@) is None ==> wanted_offset(input) == 1,
        field(input, "offset"@) == Some(JsonView::Unsigned(n)) ==> wanted_offset(input) == (if n
            == 0 {
            1
        } else {
            n
        }),
        field(input, "limit"@) is None ==> wanted_limit(input) == 2000,
        field(input, "limit"@) == Some(JsonView::Unsigned(n)) ==> wanted_limit(input) == n,
{
}

/// A regular file of at most a mebibyte is read, and nothing else.
pub proof fn law_files_that_are_read(path: Seq<char>, is_file: bool, len: u64)
    ensures
        file_error(path, is_file, len) is None <==> is_file && len <= 1_048_576,
{
}

/// The path has to be given, and nothing else.
pub proof fn law_only_the_path_is_needed(i: int)
    requires
        0 <= i < read_params().len(),
    ensures
        read_params()[i].required <==> read_params()[i].name == "path"@,
{
    reveal_strlit("path");
    reveal_strlit("offset");
    reveal_strlit("limit");
    assert("path"@.len() == 4 && "offset"@.len() == 6 && "limit"@.len() == 5);
}

} // verus!
