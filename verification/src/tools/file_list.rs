//! Listing a directory.

use crate::capability::{Capability, CapabilityView};
use crate::error::{CoreError, CoreErrorView};
use crate::json::{array_view, field, lemma_array_view, text_of, Json, JsonView};
use crate::text::{
    lemma_text_le_antisymmetric, lemma_text_le_total, lemma_text_le_transitive, same, text_le,
    text_leq,
};
use crate::tools::access::{missing_param, permitted, require, required_text};
use crate::tools::definition::{
    define, defined, entry, fields_view, object, params_view, required_param, text, Param,
    ParamKind, ParamKindView, ParamView, ToolDefinition,
};
use crate::types::AgentId;
use vstd::prelude::*;
use vstd::string::*;

verus! {

/// How many entries are listed at most.
pub const MAX_ENTRIES: usize = 500;

/// Lists what a directory holds.
#[derive(Debug)]
pub struct FileListTool;

/// What an entry of a directory is, as the file system says it.
#[derive(Debug, Clone, Copy, PartialEq, Eq, Structural)]
pub enum EntryKind {
    File,
    Dir,
    Symlink,
    Other,
}

/// What an entry is called by its kind: a file, a directory, or something
/// other, such as a link.
pub open spec fn kind_name(kind: EntryKind) -> Seq<char> {
    match kind {
        EntryKind::File => "file"@,
        EntryKind::Dir => "dir"@,
        EntryKind::Symlink | EntryKind::Other => "other"@,
    }
}

impl EntryKind {
    /// What an entry is called by its kind.
    pub fn name(&self) -> (r: &'static str)
        ensures
            r@ == kind_name(*self),
    {
        match self {
            EntryKind::File => "file",
            EntryKind::Dir => "dir",
            EntryKind::Symlink | EntryKind::Other => "other",
        }
    }
}

/// An entry of a directory.
#[derive(Debug)]
struct Listed {
    name: String,
    kind: EntryKind,
    size: u64,
}

/// What is known of an entry of a directory.
pub struct Entry {
    pub name: Seq<char>,
    pub kind: EntryKind,
    /// Its size in bytes.
    pub size: u64,
}

/// The entries in a JSON list.
pub open spec fn entry_value(name: Seq<char>, kind: Seq<char>, size: u64) -> JsonView {
    JsonView::Object(
        seq![
            ("name"@, JsonView::Text(name)),
            ("kind"@, JsonView::Text(kind)),
            ("size_bytes"@, JsonView::Unsigned(size)),
        ],
    )
}

/// The entries in a JSON list.
fn entry_json(name: &str, kind: &str, size: u64) -> (r: Json)
    ensures
        r@ == entry_value(name@, kind@, size),
{
    let mut f: Vec<(String, Json)> = Vec::new();
    f.push(entry("name", text(name)));
    f.push(entry("kind", text(kind)));
    f.push(entry("size_bytes", Json::Unsigned(size)));
    assert(fields_view(f@) =~= entry_value(name@, kind@, size)->Object_0);
    object(f)
}

/// Whether an entry has a name.
pub open spec fn has_name(name: Seq<char>) -> spec_fn(Entry) -> bool {
    |e: Entry| e.name == name
}

/// The entries with a name, in their order.
pub open spec fn named(s: Seq<Entry>, name: Seq<char>) -> Seq<
    Entry,
> {
    s.filter(has_name(name))
}

/// Whether `r` is `s` ordered by name; entries of the same name stay in their
/// order.
pub open spec fn ordered_by_name(
    s: Seq<Entry>,
    r: Seq<Entry>,
) -> bool {
    &&& forall|i: int, j: int|
        0 <= i < j < r.len() ==> text_le((#[trigger] r[i]).name, (#[trigger] r[j]).name)
    &&& forall|name: Seq<char>| #[trigger] named(r, name) == named(s, name)
}

/// A directory that is being listed.
#[derive(Debug)]
pub struct Listing {
    entries: Vec<Listed>,
    truncated: bool,
}

proof fn lemma_none_named(s: Seq<Entry>, name: Seq<char>)
    requires
        forall|i: int| 0 <= i < s.len() ==> (#[trigger] s[i]).name != name,
    ensures
        named(s, name) == Seq::<Entry>::empty(),
    decreases s.len(),
{
    reveal(Seq::filter);
    if s.len() > 0 {
        lemma_none_named(s.drop_last(), name);
    }
}

proof fn lemma_placed(
    s: Seq<Entry>,
    p: int,
    x: Entry,
    name: Seq<char>,
)
    requires
        0 <= p <= s.len(),
        forall|i: int| p <= i < s.len() ==> (#[trigger] s[i]).name != x.name,
    ensures
        named(s.insert(p, x), name) == named(s.push(x), name),
{
    let is = has_name(name);
    let a = s.take(p);
    let b = s.skip(p);
    assert(s.insert(p, x) =~= (a + seq![x]) + b);
    assert(s.push(x) =~= (a + b) + seq![x]);
    Seq::filter_distributes_over_add(a + seq![x], b, is);
    Seq::filter_distributes_over_add(a, seq![x], is);
    Seq::filter_distributes_over_add(a + b, seq![x], is);
    Seq::filter_distributes_over_add(a, b, is);
    if name == x.name {
        lemma_none_named(b, name);
        assert(b.filter(is) =~= Seq::<Entry>::empty());
    } else {
        lemma_none_named(seq![x], name);
        assert(seq![x].filter(is) =~= Seq::<Entry>::empty());
    }
}

spec fn entry_of(e: Listed) -> Entry {
    Entry { name: e.name@, kind: e.kind, size: e.size }
}

spec fn listed_view(s: Seq<Listed>) -> Seq<Entry> {
    s.map_values(|e: Listed| entry_of(e))
}

/// The entries ordered by name.
fn sort_entries(v: &Vec<Listed>) -> (r: Vec<Listed>)
    ensures
        ordered_by_name(listed_view(v@), listed_view(r@)),
{
    let ghost all = listed_view(v@);
    let mut out: Vec<Listed> = Vec::new();
    let mut i: usize = 0;
    assert(listed_view(out@) =~= all.take(0));
    while i < v.len()
        invariant
            0 <= i <= v@.len(),
            all == listed_view(v@),
            ordered_by_name(all.take(i as int), listed_view(out@)),
        decreases v@.len() - i,
    {
        let ghost before = listed_view(out@);
        let ghost x = all[i as int];
        let mut p: usize = out.len();
        assert(x == entry_of(v@[i as int]));
        while p > 0 && !text_leq(out[p - 1].name.as_str(), v[i].name.as_str())
            invariant
                0 <= p <= out@.len(),
                i < v@.len(),
                x == entry_of(v@[i as int]),
                before == listed_view(out@),
                forall|k: int|
                    p <= k < before.len() ==> !text_le((#[trigger] before[k]).name, x.name),
            decreases p,
        {
            assert(before[p - 1] == entry_of(out@[p - 1]));
            p -= 1;
        }
        out.insert(p, Listed { name: v[i].name.clone(), kind: v[i].kind, size: v[i].size });
        proof {
            let after = listed_view(out@);
            assert(after =~= before.insert(p as int, x));
            assert(all.take(i + 1) =~= all.take(i as int).push(x));
            if p > 0 {
                assert(before[p - 1] == after[p - 1]);
                assert(text_le(before[p - 1].name, x.name));
            }
            assert forall|a: int, b: int| 0 <= a < b < after.len() implies text_le(
                (#[trigger] after[a]).name,
                (#[trigger] after[b]).name,
            ) by {
                if a < p {
                    assert(after[a] == before[a]);
                } else if a > p {
                    assert(after[a] == before[a - 1]);
                }
                if b < p {
                    assert(after[b] == before[b]);
                } else if b > p {
                    assert(after[b] == before[b - 1]);
                }
                if b == p && a < p - 1 {
                    lemma_text_le_transitive(before[a].name, before[p - 1].name, x.name);
                }
                if a == p {
                    lemma_text_le_total(x.name, before[b - 1].name);
                }
            }
            assert forall|k: int| p <= k < before.len() implies (#[trigger] before[k]).name != x.name by {
                if before[k].name == x.name {
                    lemma_text_le_total(before[k].name, x.name);
                }
            }
            assert forall|name: Seq<char>| #[trigger]
                named(after, name) == named(all.take(i + 1), name) by {
                lemma_placed(before, p as int, x, name);
                let is = has_name(name);
                before.lemma_filter_push(x, is);
                all.take(i as int).lemma_filter_push(x, is);
                assert(named(before, name) == named(all.take(i as int), name));
            }
        }
        i += 1;
    }
    assert(all.take(i as int) =~= all);
    out
}

/// What is answered for a directory: its entries, in the order given.
pub open spec fn dir_answer(
    path: Seq<char>,
    entries: Seq<Entry>,
    truncated: bool,
) -> JsonView {
    JsonView::Object(
        seq![
            ("path"@, JsonView::Text(path)),
            ("kind"@, JsonView::Text("dir"@)),
            (
                "entries"@,
                JsonView::Array(
                    entries.map_values(
                        |e: Entry| entry_value(e.name, kind_name(e.kind), e.size),
                    ),
                ),
            ),
            ("truncated"@, JsonView::Bool(truncated)),
        ],
    )
}

impl Listing {
    /// The entries so far.
    pub closed spec fn entries(&self) -> Seq<Entry> {
        listed_view(self.entries@)
    }

    /// Whether there were more than are listed.
    pub closed spec fn is_truncated(&self) -> bool {
        self.truncated
    }

    /// No more is listed than may be.
    #[verifier::type_invariant]
    spec fn wf(&self) -> bool {
        self.entries@.len() <= MAX_ENTRIES
    }

    /// Nothing is listed yet.
    pub fn new() -> (r: Listing)
        ensures
            r.entries() == Seq::<Entry>::empty(),
            !r.is_truncated(),
    {
        let r = Listing { entries: Vec::new(), truncated: false };
        assert(r.entries() =~= Seq::<Entry>::empty());
        r
    }

    /// Takes the next entry of the directory, but for the directory itself and
    /// the one above. Tells whether to go on; where there is no room any more,
    /// it stops.
    pub fn offer(&mut self, name: &str, kind: EntryKind, size: u64) -> (r: bool)
        ensures
            r == (old(self).entries().len() < MAX_ENTRIES),
            final(self).entries() == (if r && name@ != "."@ && name@ != ".."@ {
                old(self).entries().push((Entry { name: name@, kind, size }))
            } else {
                old(self).entries()
            }),
            final(self).is_truncated() == (old(self).is_truncated() || !r),
    {
        proof {
            use_type_invariant(&*self);
        }
        let ghost before = self.entries();
        let mut entries: Vec<Listed> = Vec::new();
        std::mem::swap(&mut entries, &mut self.entries);
        if entries.len() >= MAX_ENTRIES {
            self.truncated = true;
            self.entries = entries;
            return false;
        }
        if !same(name, ".") && !same(name, "..") {
            entries.push(Listed { name: name.to_owned(), kind, size });
            assert(listed_view(entries@) =~= before.push((Entry { name: name@, kind, size })));
        }
        self.entries = entries;
        true
    }

    /// What is answered for the directory at `path`.
    pub fn finish(&self, path: &str) -> (r: Json)
        ensures
            exists|ordered: Seq<Entry>|
                #![trigger ordered_by_name(self.entries(), ordered)]
                ordered_by_name(self.entries(), ordered) && r@ == dir_answer(
                    path@,
                    ordered,
                    self.is_truncated(),
                ),
    {
        let sorted = sort_entries(&self.entries);
        let ghost ordered = listed_view(sorted@);
        let ghost want = ordered.map_values(
            |e: Entry| entry_value(e.name, kind_name(e.kind), e.size),
        );
        let mut values: Vec<Json> = Vec::new();
        let mut i: usize = 0;
        while i < sorted.len()
            invariant
                0 <= i <= sorted@.len(),
                ordered == listed_view(sorted@),
                want == ordered.map_values(
                    |e: Entry| entry_value(e.name, kind_name(e.kind), e.size),
                ),
                values@.len() == i,
                forall|k: int| 0 <= k < i ==> (#[trigger] values@[k])@ == want[k],
            decreases sorted@.len() - i,
        {
            assert(ordered[i as int] == entry_of(sorted@[i as int]));
            values.push(
                entry_json(sorted[i].name.as_str(), sorted[i].kind.name(), sorted[i].size),
            );
            i += 1;
        }
        proof {
            lemma_array_view(values@);
            assert(array_view(values@) =~= want);
        }
        let mut f: Vec<(String, Json)> = Vec::new();
        f.push(entry("path", text(path)));
        f.push(entry("kind", text("dir")));
        f.push(entry("entries", Json::Array(values)));
        f.push(entry("truncated", Json::Bool(self.truncated)));
        assert(fields_view(f@) =~= dir_answer(path@, ordered, self.truncated)->Object_0);
        assert(ordered_by_name(self.entries(), ordered));
        object(f)
    }
}

/// Two orderings of the same entries are the same: what is answered for a
/// directory does not depend on how it was sorted.
pub proof fn law_order_is_unique(
    s: Seq<Entry>,
    a: Seq<Entry>,
    b: Seq<Entry>,
)
    requires
        ordered_by_name(s, a),
        ordered_by_name(s, b),
    ensures
        a == b,
    decreases a.len(),
{
    reveal(Seq::filter);
    if a.len() == 0 {
        if b.len() > 0 {
            let name = b.last().name;
            assert(named(a, name) == named(s, name));
            assert(named(b, name) == named(s, name));
            assert(named(a, name).len() == 0);
            assert(named(b, name).len() > 0);
        }
        assert(a =~= b);
    } else {
        let name = a.last().name;
        assert(named(a, name) == named(s, name));
        assert(named(b, name) == named(s, name));
        assert(named(a, name).len() > 0);
        if b.len() == 0 {
            assert(named(b, name).len() == 0);
        }
        let other = b.last().name;
        assert(named(a, other) == named(s, other));
        assert(named(b, other) == named(s, other));
        assert(named(b, other).len() > 0);
        lemma_named_somewhere(b, name);
        lemma_named_somewhere(a, other);
        let i = choose|i: int| 0 <= i < b.len() && (#[trigger] b[i]).name == name;
        let j = choose|j: int| 0 <= j < a.len() && (#[trigger] a[j]).name == other;
        lemma_text_le_total(name, other);
        if i < b.len() - 1 {
            assert(text_le(b[i].name, b[b.len() - 1].name));
        }
        if j < a.len() - 1 {
            assert(text_le(a[j].name, a[a.len() - 1].name));
        }
        if name != other {
            lemma_text_le_antisymmetric(name, other);
        }
        // The last entries have the same name, and each is the last of that name.
        assert(named(a, name).last() == a.last());
        assert(named(b, name).last() == b.last());
        let a0 = a.drop_last();
        let b0 = b.drop_last();
        let s0 = a0;
        assert forall|n: Seq<char>| #[trigger] named(a0, n) == named(s0, n) by {}
        assert forall|n: Seq<char>| #[trigger] named(b0, n) == named(s0, n) by {
            assert(named(a, n) == named(s, n));
            assert(named(b, n) == named(s, n));
            if n == name {
                assert(named(a, n) =~= named(a0, n).push(a.last()));
                assert(named(b, n) =~= named(b0, n).push(b.last()));
                assert(named(a0, n) =~= named(a, n).drop_last());
                assert(named(b0, n) =~= named(b, n).drop_last());
            }
        }
        law_order_is_unique(s0, a0, b0);
        assert(a =~= a0.push(a.last()));
        assert(b =~= b0.push(b.last()));
    }
}

proof fn lemma_named_somewhere(s: Seq<Entry>, name: Seq<char>)
    requires
        named(s, name).len() > 0,
    ensures
        exists|i: int| 0 <= i < s.len() && (#[trigger] s[i]).name == name,
    decreases s.len(),
{
    reveal(Seq::filter);
    if s.len() > 0 && s.last().name != name {
        lemma_named_somewhere(s.drop_last(), name);
        let i = choose|i: int|
            0 <= i < s.drop_last().len() && (#[trigger] s.drop_last()[i]).name == name;
        assert(s[i].name == name);
    }
}

/// What the tool takes.
pub open spec fn list_params() -> Seq<ParamView> {
    seq![
        required_param("path"@, ParamKindView::Text, "Absolute path to a directory or file"@),
    ]
}

/// What is answered for a single file.
pub open spec fn file_answer(path: Seq<char>, name: Seq<char>, len: u64) -> JsonView {
    JsonView::Object(
        seq![
            ("path"@, JsonView::Text(path)),
            ("kind"@, JsonView::Text("file"@)),
            ("entries"@, JsonView::Array(seq![entry_value(name, "file"@, len)])),
        ],
    )
}

impl FileListTool {
    /// What the tool is.
    pub fn definition(&self) -> (r: ToolDefinition)
        ensures
            r@ == defined(
                "file_list"@,
                "List the contents of a directory. Returns entries with name, kind (file|dir|other), and size_bytes. Path must be allowed by a FileRead capability. For a single file, returns one entry."@,
                list_params(),
            ),
    {
        let mut params: Vec<Param> = Vec::new();
        params.push(
            Param::required("path", ParamKind::Text, "Absolute path to a directory or file"),
        );
        assert(params_view(params@) =~= list_params());
        define(
            "file_list",
            "List the contents of a directory. Returns entries with name, kind (file|dir|other), and size_bytes. Path must be allowed by a FileRead capability. For a single file, returns one entry.",
            &params,
        )
    }

    /// The path that an input asks for.
    pub fn parse(&self, input: &Json) -> (r: Result<String, CoreError>)
        ensures
            match r {
                Ok(p) => text_of(field(input@, "path"@)) == Some(p@),
                Err(e) => text_of(field(input@, "path"@)) is None && e@ == missing_param("path"@),
            },
    {
        required_text(input, "path")
    }

    /// Lets an agent list what is at `canonical`.
    pub fn authorize(&self, agent_id: AgentId, canonical: &str, permits: &Vec<bool>) -> (r: Result<
        (),
        CoreError,
    >)
        ensures
            match r {
                Ok(_) => permitted(permits@),
                Err(e) => !permitted(permits@) && e@ == (CoreErrorView::CapabilityDenied {
                    agent_id,
                    capability: CapabilityView::FileRead { path_glob: canonical@ },
                    reason: "file_list not permitted for path: "@ + canonical@,
                }),
            },
    {
        let read = Capability::FileRead { path_glob: canonical.to_owned() };
        require(agent_id, permits, read, "file_list not permitted for path: ", canonical)
    }

    /// What is answered for what is no directory: a file of the name `name`,
    /// or nothing that can be listed.
    pub fn single(&self, canonical: &str, name: &str, is_file: bool, len: u64) -> (r: Result<
        Json,
        CoreError,
    >)
        ensures
            match r {
                Ok(v) => is_file && v@ == file_answer(canonical@, name@, len),
                Err(e) => !is_file && e@ == CoreErrorView::Ipc(
                    canonical@ + " is neither a regular file nor a directory"@,
                ),
            },
    {
        if !is_file {
            let mut m = canonical.to_owned();
            m.append(" is neither a regular file nor a directory");
            return Err(CoreError::Ipc(m));
        }
        let mut values: Vec<Json> = Vec::new();
        values.push(entry_json(name, "file", len));
        proof {
            lemma_array_view(values@);
            assert(array_view(values@) =~= seq![entry_value(name@, "file"@, len)]);
        }
        let mut f: Vec<(String, Json)> = Vec::new();
        f.push(entry("path", text(canonical)));
        f.push(entry("kind", text("file")));
        f.push(entry("entries", Json::Array(values)));
        assert(fields_view(f@) =~= file_answer(canonical@, name@, len)->Object_0);
        Ok(object(f))
    }
}

/// A listing holds every entry that was found and no other, in the order of
/// their names.
pub proof fn law_listing_keeps_every_entry(s: Seq<Entry>, r: Seq<Entry>, e: Entry, i: int, j: int)
    requires
        ordered_by_name(s, r),
    ensures
        s.contains(e) <==> r.contains(e),
        0 <= i < j < r.len() ==> text_le(r[i].name, r[j].name),
{
    assert(named(r, e.name) == named(s, e.name));
    lemma_named_holds(s, e);
    lemma_named_holds(r, e);
}

#[verifier::rlimit(40)]
proof fn lemma_named_holds(s: Seq<Entry>, e: Entry)
    ensures
        named(s, e.name).contains(e) <==> s.contains(e),
    decreases s.len(),
{
    reveal(Seq::filter);
    let keep = has_name(e.name);
    if s.len() > 0 {
        let less = s.drop_last();
        lemma_named_holds(less, e);
        let kept = less.filter(keep);
        if s.contains(e) {
            let k = choose|k: int| 0 <= k < s.len() && s[k] == e;
            if k < less.len() {
                assert(less[k] == e);
                let m = choose|m: int| 0 <= m < kept.len() && kept[m] == e;
                assert(s.filter(keep)[m] == e);
            } else {
                assert(s.filter(keep)[kept.len() as int] == e);
            }
        }
        if named(s, e.name).contains(e) {
            let k = choose|k: int| 0 <= k < named(s, e.name).len() && named(s, e.name)[k] == e;
            if k < kept.len() {
                assert(kept[k] == e);
                let m = choose|m: int| 0 <= m < less.len() && less[m] == e;
                assert(s[m] == e);
            } else {
                assert(s[s.len() - 1] == e);
            }
        }
    }
}

/// Each entry is answered with its name, its kind and its size; what is neither
/// file nor directory is told apart from both.
pub proof fn law_answer_tells_of_every_entry(
    path: Seq<char>,
    entries: Seq<Entry>,
    truncated: bool,
    i: int,
)
    ensures
        ({
            let a = dir_answer(path, entries, truncated)->Object_0;
            let all = a[2].1->Array_0;
            &&& a.contains(("path"@, JsonView::Text(path)))
            &&& a.contains(("kind"@, JsonView::Text("dir"@)))
            &&& a.contains(("truncated"@, JsonView::Bool(truncated)))
            &&& a[2] == ("entries"@, JsonView::Array(all))
            &&& all.len() == entries.len()
            &&& 0 <= i < entries.len() ==> {
                let e = all[i]->Object_0;
                &&& e.contains(("name"@, JsonView::Text(entries[i].name)))
                &&& e.contains(
                    (
                        "kind"@,
                        JsonView::Text(
                            if entries[i].kind is File {
                                "file"@
                            } else if entries[i].kind is Dir {
                                "dir"@
                            } else {
                                "other"@
                            },
                        ),
                    ),
                )
                &&& e.contains(("size_bytes"@, JsonView::Unsigned(entries[i].size)))
            }
        }),
{
    let a = dir_answer(path, entries, truncated)->Object_0;
    assert(a[0].0 == "path"@ && a[1].0 == "kind"@ && a[3].0 == "truncated"@);
    if 0 <= i < entries.len() {
        let e = a[2].1->Array_0[i]->Object_0;
        assert(e[0].0 == "name"@ && e[1].0 == "kind"@ && e[2].0 == "size_bytes"@);
    }
}

/// A single file is answered as one entry, of its name and size.
pub proof fn law_answer_tells_of_the_file(path: Seq<char>, name: Seq<char>, len: u64)
    ensures
        ({
            let a = file_answer(path, name, len)->Object_0;
            let all = a[2].1->Array_0;
            &&& a.contains(("path"@, JsonView::Text(path)))
            &&& a.contains(("kind"@, JsonView::Text("file"@)))
            &&& a[2] == ("entries"@, JsonView::Array(all))
            &&& all.len() == 1
            &&& all[0]->Object_0.contains(("name"@, JsonView::Text(name)))
            &&& all[0]->Object_0.contains(("kind"@, JsonView::Text("file"@)))
            &&& all[0]->Object_0.contains(("size_bytes"@, JsonView::Unsigned(len)))
        }),
{
    let a = file_answer(path, name, len)->Object_0;
    assert(a[0].0 == "path"@ && a[1].0 == "kind"@);
    let e = a[2].1->Array_0[0]->Object_0;
    assert(e[0].0 == "name"@ && e[1].0 == "kind"@ && e[2].0 == "size_bytes"@);
}

} // verus!
