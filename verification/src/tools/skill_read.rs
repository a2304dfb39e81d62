//! Reading skills: instructions that an agent loads when it needs them.

use crate::audit::{AuditEvent, AuditEventKind, AuditEventKindView, ToolExecutionSurface};
use crate::error::{CoreError, CoreErrorView};
use crate::json::{field, text_of, Json, JsonView};
use crate::table::{lemma_stored_lookup, lookup, stored, Table};
use crate::text::{begins_with, contains_text, join, joined, views};
use crate::text_laws::{
    law_joined_by_parts, law_joined_holds_each, law_parts_occur, law_put_together,
};
use crate::tools::definition::{
    define, defined, entry, fields_view, list_of_texts, object, optional_param, params_view,
    required_param, text, text_list, Param, ParamKind, ParamKindView, ParamView, ToolDefinition,
};
use crate::tools::path_parts::{is_within, path_after, strip_dir};
use crate::types::AgentId;
use vstd::prelude::*;
use vstd::string::*;

verus! {

/// A skill.
#[derive(Debug)]
pub struct Skill {
    pub name: String,
    /// The directory of its files.
    pub path: String,
    /// How it is listed.
    pub catalog_entry: String,
    /// Its instructions.
    pub activation_prompt: String,
    /// The paths of its other files.
    pub reference_files: Vec<String>,
}

/// The skills by their names, each in the place where its name was first
/// used; of two with the same name the later one counts.
pub open spec fn by_name(skills: Seq<Skill>) -> Seq<(Seq<char>, Skill)>
    decreases skills.len(),
{
    if skills.len() == 0 {
        Seq::empty()
    } else {
        stored(by_name(skills.drop_last()), skills.last().name@, skills.last())
    }
}

/// How the skills are listed, each by its entry.
pub open spec fn catalog_lines(skills: Seq<(Seq<char>, Skill)>) -> Seq<Seq<char>> {
    seq![
        "## Available Skills"@,
        "Use the `skill_read` tool to load a skill's full instructions."@,
        ""@,
    ] + skills.map_values(|s: (Seq<char>, Skill)| s.1.catalog_entry@)
}

/// The skills that there are.
#[derive(Debug)]
pub struct SkillRegistry {
    skills: Table<Skill>,
}

impl SkillRegistry {
    /// The skills by their names.
    pub closed spec fn skills(&self) -> Seq<(Seq<char>, Skill)> {
        self.skills@
    }

    /// A registry of some skills.
    pub fn new(skills: Vec<Skill>) -> (r: SkillRegistry)
        ensures
            r.skills() == by_name(skills@),
    {
        let ghost all = skills@;
        let mut left = skills;
        let mut table: Table<Skill> = Table::new();
        let ghost mut done: int = 0;
        assert(all.take(0) =~= Seq::<Skill>::empty());
        while left.len() > 0
            invariant
                0 <= done <= all.len(),
                left@ == all.skip(done),
                table@ == by_name(all.take(done)),
            decreases left@.len(),
        {
            let skill = left.remove(0);
            assert(left@ =~= all.skip(done + 1));
            let name = skill.name.clone();
            table.insert(name, skill);
            assert(all.take(done + 1).drop_last() =~= all.take(done));
            proof {
                done = done + 1;
            }
        }
        assert(all.take(done) =~= all) by {
            assert(all.skip(done).len() == left@.len());
        }
        SkillRegistry { skills: table }
    }

    /// The skill of a name.
    pub fn get(&self, name: &str) -> (r: Option<&Skill>)
        ensures
            match r {
                Some(s) => lookup(self.skills(), name@) == Some(*s),
                None => lookup(self.skills(), name@) is None,
            },
    {
        self.skills.get(name)
    }

    /// The skills as they are listed to an agent: nothing, where there are
    /// none.
    pub fn catalog(&self) -> (r: String)
        ensures
            r@ == (if self.skills().len() == 0 {
                Seq::empty()
            } else {
                joined(catalog_lines(self.skills()), "\n"@)
            }),
    {
        if self.skills.len() == 0 {
            return String::new();
        }
        let ghost all = self.skills();
        let ghost entries = all.map_values(|s: (Seq<char>, Skill)| s.1.catalog_entry@);
        let mut lines: Vec<String> = Vec::new();
        lines.push("## Available Skills".to_owned());
        lines.push("Use the `skill_read` tool to load a skill's full instructions.".to_owned());
        lines.push("".to_owned());
        let ghost head = views(lines@);
        let mut i: usize = 0;
        assert(head + entries.take(0) =~= head);
        while i < self.skills.len()
            invariant
                all == self.skills(),
                entries == all.map_values(|s: (Seq<char>, Skill)| s.1.catalog_entry@),
                0 <= i <= all.len(),
                views(lines@) == head + entries.take(i as int),
            decreases all.len() - i,
        {
            let ghost before = views(lines@);
            lines.push(self.skills.value(i).catalog_entry.clone());
            assert(views(lines@) =~= before.push(entries[i as int]));
            assert(head + entries.take(i + 1) =~= (head + entries.take(i as int)).push(
                entries[i as int],
            ));
            i += 1;
        }
        assert(entries.take(i as int) =~= entries);
        assert(head =~= seq![
            "## Available Skills"@,
            "Use the `skill_read` tool to load a skill's full instructions."@,
            ""@,
        ]);
        join(&lines, "\n")
    }

    /// The names of the skills.
    pub fn names(&self) -> (r: Vec<String>)
        ensures
            views(r@) == self.skills().map_values(|s: (Seq<char>, Skill)| s.0),
    {
        let ghost want = self.skills().map_values(|s: (Seq<char>, Skill)| s.0);
        let mut out: Vec<String> = Vec::new();
        let mut i: usize = 0;
        assert(views(out@) =~= want.take(0));
        while i < self.skills.len()
            invariant
                want == self.skills().map_values(|s: (Seq<char>, Skill)| s.0),
                0 <= i <= self.skills().len(),
                views(out@) == want.take(i as int),
            decreases self.skills().len() - i,
        {
            let ghost before = views(out@);
            out.push(self.skills.key(i).clone());
            assert(views(out@) =~= before.push(want[i as int]));
            assert(want.take(i + 1) =~= want.take(i as int).push(want[i as int]));
            i += 1;
        }
        assert(want.take(i as int) =~= want);
        out
    }
}

/// Whether a path is that of a directory or of something in it.
pub fn within(path: &str, dir: &str) -> (r: bool)
    ensures
        r == is_within(path@, dir@),
{
    match strip_dir(path, dir) {
        Some(_) => true,
        None => false,
    }
}

/// The paths that lead into a directory, from there on.
pub open spec fn relative_to(paths: Seq<Seq<char>>, dir: Seq<char>) -> Seq<Seq<char>>
    decreases paths.len(),
{
    if paths.len() == 0 {
        Seq::empty()
    } else {
        let before = relative_to(paths.drop_last(), dir);
        match path_after(paths.last(), dir) {
            Some(rest) => before.push(rest),
            None => before,
        }
    }
}

/// The paths that lead into a directory, from there on.
fn relative_paths(paths: &Vec<String>, dir: &str) -> (r: Vec<String>)
    ensures
        views(r@) == relative_to(views(paths@), dir@),
{
    let ghost all = views(paths@);
    let mut out: Vec<String> = Vec::new();
    let mut i: usize = 0;
    assert(views(out@) =~= relative_to(all.take(0), dir@));
    while i < paths.len()
        invariant
            all == views(paths@),
            0 <= i <= paths@.len(),
            views(out@) == relative_to(all.take(i as int), dir@),
        decreases paths@.len() - i,
    {
        let ghost before = views(out@);
        assert(all[i as int] == paths@[i as int]@);
        assert(all.take(i + 1).drop_last() =~= all.take(i as int));
        if let Some(rest) = strip_dir(paths[i].as_str(), dir) {
            let ghost v = rest@;
            out.push(rest);
            assert(views(out@) =~= before.push(v));
        }
        i += 1;
    }
    assert(all.take(i as int) =~= all);
    out
}

/// Reads skills for an agent.
#[derive(Debug)]
pub struct SkillReadTool {
    pub registry: SkillRegistry,
}

/// What an agent asks to read.
#[derive(Debug)]
pub struct SkillRequest {
    pub skill: String,
    /// A file of the skill, or else its instructions.
    pub file: Option<String>,
    /// The directory of the skill.
    pub directory: String,
}

/// Why a skill cannot be read as it was asked for.
pub open spec fn request_error(
    input: JsonView,
    skills: Seq<(Seq<char>, Skill)>,
) -> Option<CoreErrorView> {
    match text_of(field(input, "skill_name"@)) {
        None => Some(CoreErrorView::InvalidManifest("missing skill_name"@)),
        Some(name) => if lookup(skills, name) is None {
            Some(CoreErrorView::ToolNotFound("skill not found: "@ + name))
        } else {
            None
        },
    }
}

/// What is recorded of a read.
pub open spec fn read_event(input_hash: Seq<char>) -> AuditEventKindView {
    AuditEventKindView::ToolInvoked {
        tool: "skill_read"@,
        input_hash,
        args_preview: None,
        execution_surface: ToolExecutionSurface::Daemon,
    }
}

/// What is recorded of a read.
fn record_read(agent_id: AgentId, input_hash: String) -> (r: AuditEvent)
    ensures
        r.agent_id == agent_id,
        r.event@ == read_event(input_hash@),
{
    AuditEvent::new(
        agent_id,
        AuditEventKind::ToolInvoked {
            tool: "skill_read".to_owned(),
            input_hash,
            args_preview: None,
            execution_surface: ToolExecutionSurface::Daemon,
        },
    )
}

/// What is answered with a file of a skill.
pub open spec fn file_answer(skill: Seq<char>, file: Seq<char>, content: Seq<char>) -> JsonView {
    JsonView::Object(
        seq![
            ("skill"@, JsonView::Text(skill)),
            ("file"@, JsonView::Text(file)),
            ("content"@, JsonView::Text(content)),
        ],
    )
}

/// What is answered with the instructions of a skill.
pub open spec fn skill_answer(name: Seq<char>, skill: Skill) -> JsonView {
    JsonView::Object(
        seq![
            ("skill"@, JsonView::Text(name)),
            ("instructions"@, JsonView::Text(skill.activation_prompt@)),
            (
                "reference_files"@,
                text_list(relative_to(views(skill.reference_files@), skill.path@)),
            ),
        ],
    )
}

/// What the tool takes.
pub open spec fn skill_params() -> Seq<ParamView> {
    seq![
        required_param("skill_name"@, ParamKindView::Text, "Name of the skill to read"@),
        optional_param(
            "file"@,
            ParamKindView::Text,
            "Optional: relative path to a reference file within the skill (e.g. 'references/REFERENCE.md')"@,
        ),
    ]
}

impl SkillReadTool {
    /// A tool that reads the skills of a registry.
    pub fn new(registry: SkillRegistry) -> (r: SkillReadTool)
        ensures
            r.registry == registry,
    {
        SkillReadTool { registry }
    }

    /// What the tool is.
    pub fn definition(&self) -> (r: ToolDefinition)
        ensures
            r@ == defined(
                "skill_read"@,
                "Load a skill's full instructions or read a reference file from a skill. Use this when you want to activate a skill from the catalog."@,
                skill_params(),
            ),
    {
        let mut params: Vec<Param> = Vec::new();
        params.push(Param::required("skill_name", ParamKind::Text, "Name of the skill to read"));
        params.push(
            Param::optional(
                "file",
                ParamKind::Text,
                "Optional: relative path to a reference file within the skill (e.g. 'references/REFERENCE.md')",
            ),
        );
        assert(params_view(params@) =~= skill_params());
        define(
            "skill_read",
            "Load a skill's full instructions or read a reference file from a skill. Use this when you want to activate a skill from the catalog.",
            &params,
        )
    }

    /// What an input asks to read.
    pub fn parse(&self, input: &Json) -> (r: Result<SkillRequest, CoreError>)
        ensures
            match r {
                Ok(q) => {
                    &&& request_error(input@, self.registry.skills()) is None
                    &&& text_of(field(input@, "skill_name"@)) == Some(q.skill@)
                    &&& match q.file {
                        Some(f) => text_of(field(input@, "file"@)) == Some(f@),
                        None => text_of(field(input@, "file"@)) is None,
                    }
                    &&& lookup(self.registry.skills(), q.skill@) is Some
                    &&& q.directory@ == (lookup(self.registry.skills(), q.skill@)->0).path@
                },
                Err(e) => request_error(input@, self.registry.skills()) == Some(e@),
            },
    {
        let name = match input.get_str("skill_name") {
            Some(t) => t.clone(),
            None => {
                return Err(CoreError::InvalidManifest("missing skill_name".to_owned()));
            },
        };
        let directory = match self.registry.get(name.as_str()) {
            Some(s) => s.path.clone(),
            None => {
                let mut m = "skill not found: ".to_owned();
                m.append(name.as_str());
                return Err(CoreError::ToolNotFound(m));
            },
        };
        let file = match input.get_str("file") {
            Some(f) => Some(f.clone()),
            None => None,
        };
        Ok(SkillRequest { skill: name, file, directory })
    }

    /// Refuses a file that is not in the directory of its skill; both are
    /// given as the file system resolves them.
    pub fn check_file(&self, canonical: &str, directory: &str) -> (r: Result<(), CoreError>)
        ensures
            match r {
                Ok(_) => is_within(canonical@, directory@),
                Err(e) => !is_within(canonical@, directory@) && e@ == CoreErrorView::Ipc(
                    "path traversal: file must be within skill directory"@,
                ),
            },
    {
        if within(canonical, directory) {
            Ok(())
        } else {
            Err(
                CoreError::Ipc("path traversal: file must be within skill directory".to_owned()),
            )
        }
    }

    /// What to record and to answer once a file of a skill was read.
    pub fn file_read(&self, agent_id: AgentId, skill: &str, file: &str, content: &str) -> (r: (
        AuditEvent,
        Json,
    ))
        ensures
            r.0.agent_id == agent_id,
            r.0.event@ == read_event(skill@ + ":"@ + file@),
            r.1@ == file_answer(skill@, file@, content@),
    {
        let mut hash = skill.to_owned();
        hash.append(":");
        hash.append(file);
        let event = record_read(agent_id, hash);
        let mut f: Vec<(String, Json)> = Vec::new();
        f.push(entry("skill", text(skill)));
        f.push(entry("file", text(file)));
        f.push(entry("content", text(content)));
        assert(fields_view(f@) =~= file_answer(skill@, file@, content@)->Object_0);
        (event, object(f))
    }

    /// What to record and to answer where the instructions of a skill are
    /// asked for, if there is such a skill.
    pub fn instructions(&self, agent_id: AgentId, skill: &str) -> (r: Option<(AuditEvent, Json)>)
        ensures
            match r {
                Some((event, answer)) => {
                    &&& lookup(self.registry.skills(), skill@) is Some
                    &&& event.agent_id == agent_id
                    &&& event.event@ == read_event(skill@)
                    &&& answer@ == skill_answer(
                        skill@,
                        lookup(self.registry.skills(), skill@)->0,
                    )
                },
                None => lookup(self.registry.skills(), skill@) is None,
            },
    {
        let s = match self.registry.get(skill) {
            Some(s) => s,
            None => {
                return None;
            },
        };
        let event = record_read(agent_id, skill.to_owned());
        let files = relative_paths(&s.reference_files, s.path.as_str());
        let mut f: Vec<(String, Json)> = Vec::new();
        f.push(entry("skill", text(skill)));
        f.push(entry("instructions", text(s.activation_prompt.as_str())));
        f.push(entry("reference_files", list_of_texts(&files)));
        assert(fields_view(f@) =~= skill_answer(skill@, *s)->Object_0);
        Some((event, object(f)))
    }
}

/// A skill is found by its name, and of several of one name the last.
#[verifier::rlimit(40)]
pub proof fn law_skills_are_found_by_name(skills: Seq<Skill>, i: int, name: Seq<char>)
    ensures
        0 <= i < skills.len() && skills[i].name@ == name && (forall|k: int|
            i < k < skills.len() ==> (#[trigger] skills[k]).name@ != name) ==> lookup(
            by_name(skills),
            name,
        ) == Some(skills[i]),
        (forall|k: int| 0 <= k < skills.len() ==> (#[trigger] skills[k]).name@ != name) ==> lookup(
            by_name(skills),
            name,
        ) is None,
    decreases skills.len(),
{
    if skills.len() > 0 {
        let less = skills.drop_last();
        law_skills_are_found_by_name(less, i, name);
        lemma_stored_lookup(by_name(less), skills.last().name@, skills.last(), name);
        if 0 <= i < skills.len() - 1 {
            if forall|k: int| i < k < skills.len() ==> (#[trigger] skills[k]).name@ != name {
                assert(skills[skills.len() - 1].name@ != name);
            }
        }
        if forall|k: int| 0 <= k < skills.len() ==> (#[trigger] skills[k]).name@ != name {
            assert(skills[skills.len() - 1].name@ != name);
            assert forall|k: int| 0 <= k < less.len() implies (#[trigger] less[k]).name@ != name by {
                assert(skills[k].name@ != name);
            }
        }
    }
}

/// Every skill is in the catalog.
pub proof fn law_catalog_lists_every_skill(skills: Seq<(Seq<char>, Skill)>, i: int)
    requires
        0 <= i < skills.len(),
    ensures
        contains_text(joined(catalog_lines(skills), "\n"@), skills[i].1.catalog_entry@),
        begins_with(joined(catalog_lines(skills), "\n"@), "## Available Skills"@),
{
    let lines = catalog_lines(skills);
    assert(lines[i + 3] == skills[i].1.catalog_entry@);
    law_joined_holds_each(lines, "\n"@, i + 3);
    let first = seq!["## Available Skills"@];
    assert(first + lines.skip(1) =~= lines);
    law_joined_by_parts(first, lines.skip(1), "\n"@, first[0]);
    law_put_together(first[0], "\n"@, joined(lines.skip(1), "\n"@));
    law_parts_occur(first[0], "\n"@ + joined(lines.skip(1), "\n"@), Seq::empty());
}

/// Of the files of a skill those are told of that are in its directory, in
/// their order and as they are named from there.
pub proof fn law_files_are_named_from_the_skill(
    a: Seq<Seq<char>>,
    b: Seq<Seq<char>>,
    path: Seq<char>,
    dir: Seq<char>,
)
    ensures
        relative_to(a + b, dir) == relative_to(a, dir) + relative_to(b, dir),
        relative_to(seq![path], dir) == (match path_after(path, dir) {
            Some(rest) => seq![rest],
            None => Seq::empty(),
        }),
    decreases b.len(),
{
    reveal_with_fuel(relative_to, 2);
    assert(seq![path].drop_last() =~= Seq::<Seq<char>>::empty());
    if b.len() == 0 {
        assert(a + b =~= a);
        assert(relative_to(a, dir) + relative_to(b, dir) =~= relative_to(a, dir));
    } else {
        assert((a + b).drop_last() =~= a + b.drop_last());
        law_files_are_named_from_the_skill(a, b.drop_last(), path, dir);
        assert(relative_to(a + b, dir) =~= relative_to(a, dir) + relative_to(b, dir));
    }
}

/// The answers hold what was asked for: the instructions of the skill, or the
/// content of its file.
pub proof fn law_skill_is_answered(
    name: Seq<char>,
    skill: Skill,
    file: Seq<char>,
    content: Seq<char>,
)
    ensures
        ({
            let a = skill_answer(name, skill)->Object_0;
            let f = file_answer(name, file, content)->Object_0;
            &&& a.contains(("skill"@, JsonView::Text(name)))
            &&& a.contains(("instructions"@, JsonView::Text(skill.activation_prompt@)))
            &&& a.contains(
                (
                    "reference_files"@,
                    text_list(relative_to(views(skill.reference_files@), skill.path@)),
                ),
            )
            &&& f.contains(("skill"@, JsonView::Text(name)))
            &&& f.contains(("file"@, JsonView::Text(file)))
            &&& f.contains(("content"@, JsonView::Text(content)))
        }),
{
    let a = skill_answer(name, skill)->Object_0;
    assert(a[0].0 == "skill"@ && a[1].0 == "instructions"@ && a[2].0 == "reference_files"@);
    let f = file_answer(name, file, content)->Object_0;
    assert(f[0].0 == "skill"@ && f[1].0 == "file"@ && f[2].0 == "content"@);
}

/// A skill that there is can be read, and no other.
pub proof fn law_skills_that_are_read(input: JsonView, skills: Seq<(Seq<char>, Skill)>)
    ensures
        request_error(input, skills) is None <==> text_of(field(input, "skill_name"@)) is Some
            && lookup(skills, text_of(field(input, "skill_name"@))->0) is Some,
{
}

/// A read is on record by the tool, and by what was read.
pub proof fn law_record_of_a_read(input_hash: Seq<char>)
    ensures
        read_event(input_hash) is ToolInvoked,
        read_event(input_hash)->ToolInvoked_tool == "skill_read"@,
        read_event(input_hash)->ToolInvoked_input_hash == input_hash,
        read_event(input_hash)->ToolInvoked_execution_surface == ToolExecutionSurface::Daemon,
{
}

/// What the tool says it needs, it needs: a request without it is refused, and
/// nothing else has to be given.
pub proof fn law_required_parameters_are_needed(
    input: JsonView,
    skills: Seq<(Seq<char>, Skill)>,
    i: int,
)
    requires
        0 <= i < skill_params().len(),
    ensures
        skill_params()[i].required <==> skill_params()[i].name == "skill_name"@,
        skill_params()[i].required && text_of(field(input, skill_params()[i].name)) is None
            ==> request_error(input, skills) is Some,
{
    reveal_strlit("skill_name");
    reveal_strlit("file");
    assert("skill_name"@.len() == 10 && "file"@.len() == 4);
}

} // verus!
