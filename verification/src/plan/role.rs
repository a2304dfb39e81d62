//! Roles: the declared kinds of agents, and the catalog that holds them.

use crate::json::{
    array_view, collect_texts, elements_of, field, json_text, lemma_array_view, lemma_object_view,
    object_view, texts_among, write_json, Json, JsonView,
};
use crate::plan::escalation::EscalationSignal;
use crate::table::{lookup, stored, Table};
use crate::text::{
    begins_with, byte_len, byte_length, char_position, contains_text, copy_texts, ends_in,
    find_char, from_range, join, joined, lemma_char_position, lines, matches_at, occurs_at,
    replace_all, replaced, same, sort_texts, text_lines, texts_ascend, to_chars, views,
};
use crate::text_laws::{
    law_containment_is_transitive, law_four_parts, law_joined_by_parts, law_lines_end_at_line_feeds,
    law_nothing_to_replace, law_parts_occur, law_put_together, law_replacing_goes_from_the_left,
    law_text_holds_its_parts,
};
use vstd::prelude::*;
use vstd::string::*;

verus! {

/// The kind of value that a parameter takes.
#[derive(Debug, Clone, Copy, PartialEq, Eq, Structural)]
pub enum ParameterType {
    String,
    Path,
    StringList,
}

/// What a role says of one of its parameters.
#[derive(Debug)]
pub struct ParameterSchema {
    pub param_type: ParameterType,
    pub required: bool,
    pub description: String,
}

/// How many tokens an agent in the role may use.
#[derive(Debug, Clone, Copy, PartialEq, Eq, Structural)]
pub struct RoleBudget {
    pub max_input_tokens: u64,
    pub max_output_tokens: u64,
}

/// How often a failed tool call is tried again, and after which failures.
#[derive(Debug)]
pub struct RoleRetry {
    pub max_attempts: u32,
    pub on: Vec<String>,
}

/// Marks a role whose work the runtime does itself, without a language model.
#[derive(Debug, PartialEq, Eq)]
pub struct RoleScaffold {
    pub kind: String,
}

/// The declared kind of an agent.
#[derive(Debug)]
pub struct Role {
    pub name: String,
    pub model: String,
    pub parameters: Table<ParameterSchema>,
    pub capabilities: Vec<String>,
    pub system_prompt: String,
    pub message_template: String,
    pub budget: RoleBudget,
    pub retry: RoleRetry,
    /// A hint for scheduling. What runs first is decided by deadlines alone.
    pub priority: u8,
    /// The models to try in turn. Empty stands for the model alone.
    pub model_ladder: Vec<String>,
    /// The signals that move a subtask up the ladder.
    pub escalate_on: Vec<EscalationSignal>,
    /// Set where the runtime does the work itself.
    pub scaffold: Option<RoleScaffold>,
}

/// The priority of a role that declares none.
pub fn default_role_priority() -> (r: u8)
    ensures
        r == 128,
{
    128
}

/// A value as it is put into a template.
pub open spec fn rendered(j: JsonView) -> Seq<char>
    decreases j,
{
    match j {
        JsonView::Text(s) => s,
        JsonView::Array(s) => joined(rendered_all(s), ", "@),
        JsonView::Null => Seq::empty(),
        other => json_text(other),
    }
}

/// The elements of an array as they are put into a template.
pub open spec fn rendered_all(s: Seq<JsonView>) -> Seq<Seq<char>>
    decreases s,
{
    if s.len() == 0 {
        Seq::empty()
    } else {
        rendered_all(s.drop_last()).push(rendered(s.last()))
    }
}

/// A value as it is put into a template: a text as it is, the elements of an
/// array with commas between them, nothing for null, else the JSON text.
pub fn render_value(v: &Json) -> (r: String)
    ensures
        r@ == rendered(v@),
    decreases v,
{
    match v {
        Json::Text(s) => s.clone(),
        Json::Array(a) => {
            let mut parts: Vec<String> = Vec::new();
            let mut i: usize = 0;
            assert(array_view(a@.take(0)) =~= Seq::<JsonView>::empty());
            assert(views(parts@) =~= rendered_all(Seq::<JsonView>::empty()));
            while i < a.len()
                invariant
                    0 <= i <= a@.len(),
                    *v == Json::Array(*a),
                    views(parts@) == rendered_all(array_view(a@.take(i as int))),
                decreases a@.len() - i,
            {
                let ghost before = views(parts@);
                assert(decreases_to!(*v => v->Array_0));
                assert(decreases_to!(*a => a@));
                assert(decreases_to!(a@ => a@[i as int]));
                parts.push(render_value(&a[i]));
                assert(views(parts@) =~= before.push(rendered(a@[i as int]@)));
                assert(a@.take(i + 1).drop_last() =~= a@.take(i as int));
                let ghost old_view = array_view(a@.take(i as int));
                assert(array_view(a@.take(i + 1)) == old_view.push(a@[i as int]@));
                assert(old_view.push(a@[i as int]@).drop_last() =~= old_view);
                i += 1;
            }
            assert(a@.take(i as int) =~= a@);
            join(&parts, ", ")
        },
        Json::Null => String::new(),
        other => write_json(other),
    }
}

/// The placeholder of a parameter.
pub open spec fn token(name: Seq<char>) -> Seq<char> {
    "{"@ + name + "}"@
}

/// `template` with the fields put in place of their placeholders, one after the other.
pub open spec fn filled(template: Seq<char>, fields: Seq<(Seq<char>, JsonView)>) -> Seq<char>
    decreases fields.len(),
{
    if fields.len() == 0 {
        template
    } else {
        replaced(filled(template, fields.drop_last()), token(fields.last().0), rendered(fields.last().1))
    }
}

/// `template` with the parameters put in place of their placeholders.
pub open spec fn substituted(template: Seq<char>, params: JsonView) -> Seq<char> {
    match params {
        JsonView::Object(fields) => filled(template, fields),
        _ => template,
    }
}

/// `template` with each parameter put in place of its placeholder.
pub fn substitute_tokens(template: &str, params: &Json) -> (r: String)
    ensures
        r@ == substituted(template@, params@),
{
    let mut out = template.to_owned();
    if let Json::Object(obj) = params {
        let ghost fields = object_view(obj@);
        proof {
            lemma_object_view(obj@);
        }
        let mut i: usize = 0;
        assert(fields.take(0) =~= Seq::empty());
        while i < obj.len()
            invariant
                0 <= i <= obj@.len(),
                fields.len() == obj@.len(),
                forall|k: int|
                    0 <= k < obj@.len() ==> #[trigger] fields[k] == (obj@[k].0@, obj@[k].1@),
                out@ == filled(template@, fields.take(i as int)),
            decreases obj@.len() - i,
        {
            assert(fields.take(i + 1).drop_last() =~= fields.take(i as int));
            assert(fields[i as int] == (obj@[i as int].0@, obj@[i as int].1@));
            proof {
                reveal_strlit("{");
            }
            let mut tok = "{".to_owned();
            tok.append(obj[i].0.as_str());
            tok.append("}");
            let value = render_value(&obj[i].1);
            out = replace_all(out.as_str(), tok.as_str(), value.as_str());
            i += 1;
        }
        assert(fields.take(i as int) =~= fields);
    }
    out
}

/// Whether a placeholder stands from `open` to `close`: an opening brace, the
/// first closing one behind it, and something between them.
pub open spec fn placeholder_at(s: Seq<char>, open: int, close: int) -> bool {
    &&& 0 <= open
    &&& open + 1 < close < s.len()
    &&& s[open] == '{'
    &&& s[close] == '}'
    &&& forall|k: int| open < k < close ==> s[k] != '}'
}

/// Whether a placeholder is left anywhere in `s`.
pub open spec fn unresolved(s: Seq<char>) -> bool {
    exists|open: int, close: int| #[trigger] placeholder_at(s, open, close)
}

/// Whether a placeholder is left anywhere in `s`.
pub fn has_unresolved_template_token(s: &str) -> (r: bool)
    ensures
        r == unresolved(s@),
{
    let v = to_chars(s);
    let mut from: usize = 0;
    loop
        invariant
            v@ == s@,
            0 <= from <= v@.len(),
            forall|a: int, b: int| #[trigger] placeholder_at(s@, a, b) ==> from <= a,
        decreases v@.len() - from,
    {
        let open: usize = match find_char(&v, '{', from) {
            None => {
                proof {
                    lemma_char_position(s@, '{', from as int);
                }
                return false;
            },
            Some(open) => open,
        };
        proof {
            lemma_char_position(s@, '{', from as int);
            lemma_char_position(s@, '}', open + 1);
        }
        assert(open < v.len());
        match find_char(&v, '}', open + 1) {
            None => {
                return false;
            },
            Some(close) => {
                if close > open + 1 {
                    assert(placeholder_at(s@, open as int, close as int));
                    return true;
                }
                assert forall|a: int, b: int| #[trigger] placeholder_at(s@, a, b) implies open + 1
                    <= a by {
                    if a == open {
                        assert(s@[close as int] == '}');
                    }
                }
            },
        }
        from = open + 1;
    }
}

/// The first placeholder at or after `from` that stands for the elements of a
/// list: where it begins, where it ends, and the name of the list.
pub open spec fn array_token(s: Seq<char>, from: int) -> Option<(int, int, Seq<char>)>
    decreases s.len() - from,
{
    match char_position(s, '{', from) {
        None => None,
        Some(open) => match char_position(s, '}', open) {
            None => None,
            Some(close) => if !(from <= open < close < s.len()) {
                None
            } else {
                let inner = s.subrange(open + 1, close);
                if ends_in(inner, ".*"@) && inner.len() > 2 {
                    Some((open, close + 1, inner.take(inner.len() - 2)))
                } else {
                    array_token(s, close + 1)
                }
            },
        },
    }
}

fn find_token(s: &Vec<char>, start: usize) -> (r: Option<(usize, usize, String)>)
    requires
        start <= s@.len(),
    ensures
        match r {
            Some((a, b, name)) => array_token(s@, start as int) == Some((a as int, b as int, name@))
                && a < b <= s@.len(),
            None => array_token(s@, start as int) is None,
        },
{
    proof {
        reveal_strlit(".*");
    }
    let suffix = to_chars(".*");
    let mut from: usize = start;
    loop
        invariant
            start <= from <= s@.len(),
            suffix@ == ".*"@,
            suffix@.len() == 2,
            array_token(s@, start as int) == array_token(s@, from as int),
        decreases s@.len() - from,
    {
        let open: usize = match find_char(s, '{', from) {
            None => {
                return None;
            },
            Some(open) => open,
        };
        proof {
            lemma_char_position(s@, '{', from as int);
            lemma_char_position(s@, '}', open as int);
        }
        let close: usize = match find_char(s, '}', open) {
            None => {
                return None;
            },
            Some(close) => close,
        };
        assert(close < s.len());
        let inner_text = from_range(s, open + 1, close);
        let inner = to_chars(inner_text.as_str());
        if inner.len() > 2 && matches_at(&inner, &suffix, inner.len() - 2) {
            let name = from_range(&inner, 0, inner.len() - 2);
            assert(name@ =~= inner@.take(inner@.len() - 2));
            return Some((open, close + 1, name));
        }
        from = close + 1;
    }
}

/// The first placeholder in `s` that stands for the elements of a list: the
/// bytes at which it begins and ends, and the name of the list.
pub fn find_array_token(s: &str) -> (r: Option<(usize, usize, String)>)
    ensures
        match r {
            Some((a, b, name)) => exists|start: int, end: int|
                #![trigger s@.subrange(start, end)]
                array_token(s@, 0) == Some((start, end, name@)) && 0 <= start < end <= s@.len()
                    && a == byte_len(s@.take(start)) && b == byte_len(s@.take(end)),
            None => array_token(s@, 0) is None,
        },
{
    let v = to_chars(s);
    match find_token(&v, 0) {
        None => None,
        Some((start, end, name)) => {
            let head = from_range(&v, 0, start);
            let upto = from_range(&v, 0, end);
            assert(head@ =~= s@.take(start as int));
            assert(upto@ =~= s@.take(end as int));
            assert(s@.subrange(start as int, end as int).len() >= 0);
            Some((byte_length(head.as_str()), byte_length(upto.as_str()), name))
        },
    }
}

/// The texts in which no placeholder is left.
pub open spec fn resolved_only(s: Seq<Seq<char>>) -> Seq<Seq<char>> {
    s.filter(|t: Seq<char>| !unresolved(t))
}

/// The capabilities that a declared one stands for, given the parameters: one
/// for each text in the list that it names, or itself with the parameters put
/// in. Those in which a placeholder is left are dropped.
pub open spec fn expanded(template: Seq<char>, params: JsonView) -> Seq<Seq<char>> {
    match array_token(template, 0) {
        Some((start, end, name)) => match elements_of(field(params, name)) {
            None => Seq::empty(),
            Some(elems) => resolved_only(
                texts_among(elems).map_values(
                    |e: Seq<char>|
                        substituted(template.take(start) + e + template.skip(end), params),
                ),
            ),
        },
        None => resolved_only(seq![substituted(template, params)]),
    }
}

/// Expands one declared capability into the concrete ones that it stands for.
pub fn expand_capability(template: &str, params: &Json) -> (r: Vec<String>)
    ensures
        views(r@) == expanded(template@, params@),
{
    let v = to_chars(template);
    let ghost keep = |t: Seq<char>| !unresolved(t);
    let mut out: Vec<String> = Vec::new();
    assert(views(out@) =~= Seq::<Seq<char>>::empty());
    match find_token(&v, 0) {
        Some((start, end, name)) => {
            let ghost make = |e: Seq<char>|
                substituted(
                    template@.take(start as int) + e + template@.skip(end as int),
                    params@,
                );
            let elems = match params.get_array(name.as_str()) {
                None => {
                    return out;
                },
                Some(a) => collect_texts(a),
            };
            let head = from_range(&v, 0, start);
            let tail = from_range(&v, end, v.len());
            assert(head@ =~= template@.take(start as int));
            assert(tail@ =~= template@.skip(end as int));
            let ghost made = views(elems@).map_values(make);
            let mut i: usize = 0;
            assert(made.take(0) =~= Seq::<Seq<char>>::empty());
            reveal(Seq::filter);
            assert(views(out@) == made.take(0).filter(keep));
            while i < elems.len()
                invariant
                    0 <= i <= elems@.len(),
                    head@ == template@.take(start as int),
                    tail@ == template@.skip(end as int),
                    made == views(elems@).map_values(make),
                    make == (|e: Seq<char>|
                        substituted(
                            template@.take(start as int) + e + template@.skip(end as int),
                            params@,
                        )),
                    keep == (|t: Seq<char>| !unresolved(t)),
                    views(out@) == made.take(i as int).filter(keep),
                decreases elems@.len() - i,
            {
                let mut one = head.clone();
                one.append(elems[i].as_str());
                one.append(tail.as_str());
                let text = substitute_tokens(one.as_str(), params);
                let ghost before = views(out@);
                assert(text@ == made[i as int]);
                assert(made.take(i + 1) =~= made.take(i as int).push(made[i as int]));
                proof {
                    made.take(i as int).lemma_filter_push(made[i as int], keep);
                }
                if !has_unresolved_template_token(text.as_str()) {
                    out.push(text);
                    assert(views(out@) =~= before.push(made[i as int]));
                }
                i += 1;
            }
            assert(made.take(i as int) =~= made);
            out
        },
        None => {
            let text = substitute_tokens(template, params);
            proof {
                let none = Seq::<Seq<char>>::empty();
                reveal(Seq::filter);
                assert(none.filter(keep) =~= none);
                assert(seq![text@] =~= none.push(text@));
                none.lemma_filter_push(text@, keep);
            }
            if !has_unresolved_template_token(text.as_str()) {
                out.push(text);
                assert(views(out@) =~= seq![text@]);
            }
            out
        },
    }
}

/// No capability that is granted has a placeholder left in it.
pub proof fn law_granted_capabilities_are_resolved(template: Seq<char>, params: JsonView, i: int)
    requires
        0 <= i < expanded(template, params).len(),
    ensures
        !unresolved(expanded(template, params)[i]),
{
    let keep = |t: Seq<char>| !unresolved(t);
    match array_token(template, 0) {
        Some((start, end, name)) => {
            let elems = elements_of(field(params, name))->0;
            let made = texts_among(elems).map_values(
                |e: Seq<char>| substituted(template.take(start) + e + template.skip(end), params),
            );
            made.lemma_filter_pred(keep, i);
        },
        None => {
            seq![substituted(template, params)].lemma_filter_pred(keep, i);
        },
    }
}

/// Whether a value is of the kind that a parameter takes.
pub open spec fn fits(t: ParameterType, j: JsonView) -> bool {
    match t {
        ParameterType::String | ParameterType::Path => j is Text,
        ParameterType::StringList => match j {
            JsonView::Array(s) => forall|i: int| 0 <= i < s.len() ==> #[trigger] s[i] is Text,
            _ => false,
        },
    }
}

/// The name of the kind of value that a parameter takes.
pub open spec fn kind_name(t: ParameterType) -> Seq<char> {
    match t {
        ParameterType::String => "string"@,
        ParameterType::Path => "string (path)"@,
        ParameterType::StringList => "array of strings"@,
    }
}

/// What is wrong for want of a required parameter, for the first `n` declared.
pub open spec fn missing_problems(
    schema: Seq<(Seq<char>, ParameterSchema)>,
    fields: Seq<(Seq<char>, JsonView)>,
    n: int,
) -> Seq<Seq<char>>
    decreases n,
{
    if n <= 0 {
        Seq::empty()
    } else {
        let before = missing_problems(schema, fields, n - 1);
        if schema[n - 1].1.required && lookup(fields, schema[n - 1].0) is None {
            before.push("missing required param '"@ + schema[n - 1].0 + "'"@)
        } else {
            before
        }
    }
}

/// What is wrong because a parameter is not declared, for the first `n` given.
pub open spec fn unknown_problems(
    schema: Seq<(Seq<char>, ParameterSchema)>,
    fields: Seq<(Seq<char>, JsonView)>,
    n: int,
) -> Seq<Seq<char>>
    decreases n,
{
    if n <= 0 {
        Seq::empty()
    } else {
        let before = unknown_problems(schema, fields, n - 1);
        if lookup(schema, fields[n - 1].0) is None {
            before.push("unknown param '"@ + fields[n - 1].0 + "'"@)
        } else {
            before
        }
    }
}

/// What is wrong because a value is of another kind, for the first `n` given.
pub open spec fn kind_problems(
    schema: Seq<(Seq<char>, ParameterSchema)>,
    fields: Seq<(Seq<char>, JsonView)>,
    n: int,
) -> Seq<Seq<char>>
    decreases n,
{
    if n <= 0 {
        Seq::empty()
    } else {
        let before = kind_problems(schema, fields, n - 1);
        match lookup(schema, fields[n - 1].0) {
            Some(p) => if fits(p.param_type, fields[n - 1].1) {
                before
            } else {
                before.push(
                    "param '"@ + fields[n - 1].0 + "' must be "@ + kind_name(p.param_type),
                )
            },
            None => before,
        }
    }
}

/// All that is wrong with the parameters given.
pub open spec fn param_problems(
    schema: Seq<(Seq<char>, ParameterSchema)>,
    fields: Seq<(Seq<char>, JsonView)>,
) -> Seq<Seq<char>> {
    missing_problems(schema, fields, schema.len() as int) + unknown_problems(
        schema,
        fields,
        fields.len() as int,
    ) + kind_problems(schema, fields, fields.len() as int)
}

/// Whether a value is of the kind that a parameter takes.
fn value_fits(t: ParameterType, v: &Json) -> (r: bool)
    ensures
        r == fits(t, v@),
{
    match t {
        ParameterType::String | ParameterType::Path => match v {
            Json::Text(_) => true,
            _ => false,
        },
        ParameterType::StringList => match v {
            Json::Array(a) => {
                proof {
                    lemma_array_view(a@);
                }
                let mut i: usize = 0;
                while i < a.len()
                    invariant
                        *v == Json::Array(*a),
                        0 <= i <= a@.len(),
                        array_view(a@).len() == a@.len(),
                        forall|k: int| 0 <= k < a@.len() ==> #[trigger] array_view(a@)[k] == a@[k]@,
                        forall|k: int| 0 <= k < i ==> #[trigger] array_view(a@)[k] is Text,
                    decreases a@.len() - i,
                {
                    assert(array_view(a@)[i as int] == a@[i as int]@);
                    match &a[i] {
                        Json::Text(_) => {},
                        _ => {
                            return false;
                        },
                    }
                    i += 1;
                }
                true
            },
            _ => false,
        },
    }
}

/// The text of the ladder drift error.
pub open spec fn drift_message(name: Seq<char>, first: Seq<char>, model: Seq<char>) -> Seq<char> {
    "role '"@ + name + "': model_ladder[0] = '"@ + first + "' but model = '"@ + model
        + "' — the two must match (model is the display/back-compat field; the ladder drives routing)"@
}

/// Each line of `s` behind `prefix`.
pub open spec fn indented(s: Seq<char>, prefix: Seq<char>) -> Seq<char> {
    joined(text_lines(s).map_values(|l: Seq<char>| prefix + l), "\n"@)
}

/// Each line of `s` behind `prefix`.
pub fn indent(s: &str, prefix: &str) -> (r: String)
    ensures
        r@ == indented(s@, prefix@),
{
    let all = lines(s);
    let mut out: Vec<String> = Vec::new();
    let mut i: usize = 0;
    let ghost want = text_lines(s@).map_values(|l: Seq<char>| prefix@ + l);
    while i < all.len()
        invariant
            0 <= i <= all@.len(),
            views(all@) == text_lines(s@),
            want == text_lines(s@).map_values(|l: Seq<char>| prefix@ + l),
            views(out@) == want.take(i as int),
        decreases all@.len() - i,
    {
        let ghost before = views(out@);
        let mut line = prefix.to_owned();
        line.append(all[i].as_str());
        assert(views(all@)[i as int] == all@[i as int]@);
        assert(line@ == want[i as int]);
        out.push(line);
        assert(views(out@) =~= before.push(want[i as int]));
        assert(want.take(i + 1) =~= want.take(i as int).push(want[i as int]));
        i += 1;
    }
    assert(want.take(i as int) =~= want);
    join(&out, "\n")
}

/// All the capabilities that the first `n` declared ones stand for.
pub open spec fn granted(capabilities: Seq<Seq<char>>, params: JsonView, n: int) -> Seq<Seq<char>>
    decreases n,
{
    if n <= 0 {
        Seq::empty()
    } else {
        granted(capabilities, params, n - 1) + expanded(capabilities[n - 1], params)
    }
}

/// The manifest lines of the first `n` capabilities.
pub open spec fn capability_lines(caps: Seq<Seq<char>>, n: int) -> Seq<char>
    decreases n,
{
    if n <= 0 {
        Seq::empty()
    } else {
        capability_lines(caps, n - 1) + "  - \""@ + replaced(caps[n - 1], "\""@, "\\\""@)
            + "\"\n"@
    }
}

impl Role {
    /// The manifest of an agent in the role, running on `model`.
    pub open spec fn manifest(&self, model: Seq<char>, params: JsonView) -> Seq<char> {
        let caps = granted(views(self.capabilities@), params, self.capabilities@.len() as int);
        "name: "@ + self.name@ + "\nmodel: "@ + model + "\nsystem_prompt: |\n"@ + indented(
            self.system_prompt@,
            "  "@,
        ) + "\ncapabilities:\n"@ + capability_lines(caps, caps.len() as int)
    }

    /// Whether the ladder begins with the role's model.
    pub open spec fn ladder_matches(&self) -> bool {
        self.model_ladder@.len() == 0 || self.model_ladder@[0]@ == self.model@
    }

    /// Checks the parameters of a subtask against what the role declares. The
    /// error tells all that is wrong at once.
    pub fn validate_params(&self, params: &Json) -> (r: Result<(), String>)
        ensures
            match params@ {
                JsonView::Object(fields) => {
                    let problems = param_problems(self.parameters@, fields);
                    match r {
                        Ok(_) => problems.len() == 0,
                        Err(m) => problems.len() > 0 && m@ == "role '"@ + self.name@
                            + "' param validation failed: "@ + joined(problems, "; "@),
                    }
                },
                _ => r is Err && r->Err_0@ == "role '"@ + self.name@
                    + "' expected params object, got non-object"@,
            },
    {
        let obj = match params {
            Json::Object(obj) => obj,
            _ => {
                let mut m = "role '".to_owned();
                m.append(self.name.as_str());
                m.append("' expected params object, got non-object");
                return Err(m);
            },
        };
        let ghost schema = self.parameters@;
        let ghost fields = object_view(obj@);
        proof {
            lemma_object_view(obj@);
        }
        let mut problems: Vec<String> = Vec::new();
        assert(views(problems@) =~= Seq::<Seq<char>>::empty());
        let mut i: usize = 0;
        while i < self.parameters.len()
            invariant
                0 <= i <= schema.len(),
                schema == self.parameters@,
                params@ == JsonView::Object(fields),
                views(problems@) == missing_problems(schema, fields, i as int),
            decreases schema.len() - i,
        {
            let ghost before = views(problems@);
            let name = self.parameters.key(i);
            let schema_i = self.parameters.value(i);
            if schema_i.required && params.get(name.as_str()).is_none() {
                let mut m = "missing required param '".to_owned();
                m.append(name.as_str());
                m.append("'");
                problems.push(m);
                assert(views(problems@) =~= before.push(m@));
            }
            i += 1;
        }
        let ghost first = views(problems@);
        let mut j: usize = 0;
        assert(first + Seq::<Seq<char>>::empty() =~= first);
        while j < obj.len()
            invariant
                0 <= j <= obj@.len(),
                schema == self.parameters@,
                fields.len() == obj@.len(),
                forall|k: int|
                    0 <= k < obj@.len() ==> #[trigger] fields[k] == (obj@[k].0@, obj@[k].1@),
                views(problems@) == first + unknown_problems(schema, fields, j as int),
            decreases obj@.len() - j,
        {
            let ghost before = views(problems@);
            assert(fields[j as int] == (obj@[j as int].0@, obj@[j as int].1@));
            if !self.parameters.contains(obj[j].0.as_str()) {
                let mut m = "unknown param '".to_owned();
                m.append(obj[j].0.as_str());
                m.append("'");
                problems.push(m);
                assert(views(problems@) =~= before.push(m@));
                assert(views(problems@) =~= first + unknown_problems(schema, fields, j + 1));
            }
            j += 1;
        }
        let ghost second = views(problems@);
        let mut k: usize = 0;
        assert(second + Seq::<Seq<char>>::empty() =~= second);
        while k < obj.len()
            invariant
                0 <= k <= obj@.len(),
                schema == self.parameters@,
                fields.len() == obj@.len(),
                forall|a: int|
                    0 <= a < obj@.len() ==> #[trigger] fields[a] == (obj@[a].0@, obj@[a].1@),
                views(problems@) == second + kind_problems(schema, fields, k as int),
            decreases obj@.len() - k,
        {
            let ghost before = views(problems@);
            assert(fields[k as int] == (obj@[k as int].0@, obj@[k as int].1@));
            if let Some(p) = self.parameters.get(obj[k].0.as_str()) {
                if !value_fits(p.param_type, &obj[k].1) {
                    let expected = match p.param_type {
                        ParameterType::String => "string",
                        ParameterType::Path => "string (path)",
                        ParameterType::StringList => "array of strings",
                    };
                    let mut m = "param '".to_owned();
                    m.append(obj[k].0.as_str());
                    m.append("' must be ");
                    m.append(expected);
                    problems.push(m);
                    assert(views(problems@) =~= before.push(m@));
                    assert(views(problems@) =~= second + kind_problems(schema, fields, k + 1));
                }
            }
            k += 1;
        }
        assert(views(problems@) =~= param_problems(schema, fields));
        if problems.len() == 0 {
            Ok(())
        } else {
            let mut m = "role '".to_owned();
            m.append(self.name.as_str());
            m.append("' param validation failed: ");
            let list = join(&problems, "; ");
            m.append(list.as_str());
            Err(m)
        }
    }

    /// The first message to an agent in the role: the template with the
    /// parameters put in.
    pub fn render_message(&self, params: &Json) -> (r: String)
        ensures
            r@ == substituted(self.message_template@, params@),
    {
        substitute_tokens(self.message_template.as_str(), params)
    }

    /// The manifest of an agent in the role, running on the role's model.
    pub fn render_manifest(&self, params: &Json) -> (r: String)
        ensures
            r@ == self.manifest(self.model@, params@),
    {
        self.render_manifest_with_model(self.model.as_str(), params)
    }

    /// The models to try in turn. A declared ladder has to begin with the
    /// role's model.
    pub fn resolved_ladder(&self) -> (r: Result<Vec<String>, String>)
        ensures
            match r {
                Ok(ladder) => self.ladder_matches() && views(ladder@) == (if self.model_ladder@.len()
                    == 0 {
                    seq![self.model@]
                } else {
                    views(self.model_ladder@)
                }),
                Err(m) => !self.ladder_matches() && m@ == drift_message(
                    self.name@,
                    self.model_ladder@[0]@,
                    self.model@,
                ),
            },
    {
        if self.model_ladder.len() == 0 {
            let mut one: Vec<String> = Vec::new();
            one.push(self.model.clone());
            assert(views(one@) =~= seq![self.model@]);
            return Ok(one);
        }
        if !same(self.model_ladder[0].as_str(), self.model.as_str()) {
            let mut m = "role '".to_owned();
            m.append(self.name.as_str());
            m.append("': model_ladder[0] = '");
            m.append(self.model_ladder[0].as_str());
            m.append("' but model = '");
            m.append(self.model.as_str());
            m.append("' — the two must match (model is the display/back-compat field; the ladder drives routing)");
            return Err(m);
        }
        Ok(copy_texts(&self.model_ladder))
    }

    /// The manifest of an agent in the role, running on `model`: its name, the
    /// model, the prompt, and the capabilities with the parameters put in.
    pub fn render_manifest_with_model(&self, model: &str, params: &Json) -> (r: String)
        ensures
            r@ == self.manifest(model@, params@),
    {
        let mut caps: Vec<String> = Vec::new();
        let ghost declared = views(self.capabilities@);
        let mut i: usize = 0;
        assert(views(caps@) =~= Seq::<Seq<char>>::empty());
        while i < self.capabilities.len()
            invariant
                0 <= i <= self.capabilities@.len(),
                declared == views(self.capabilities@),
                views(caps@) == granted(declared, params@, i as int),
            decreases self.capabilities@.len() - i,
        {
            let ghost before = views(caps@);
            assert(declared[i as int] == self.capabilities@[i as int]@);
            let mut more = expand_capability(self.capabilities[i].as_str(), params);
            let ghost added = views(more@);
            caps.append(&mut more);
            assert(views(caps@) =~= before + added);
            i += 1;
        }
        let mut text = String::new();
        let ghost all = views(caps@);
        let mut j: usize = 0;
        while j < caps.len()
            invariant
                0 <= j <= caps@.len(),
                all == views(caps@),
                text@ == capability_lines(all, j as int),
            decreases caps@.len() - j,
        {
            assert(all[j as int] == caps@[j as int]@);
            proof {
                reveal_strlit("\"");
            }
            let escaped = replace_all(caps[j].as_str(), "\"", "\\\"");
            text.append("  - \"");
            text.append(escaped.as_str());
            text.append("\"\n");
            j += 1;
        }
        let mut out = "name: ".to_owned();
        out.append(self.name.as_str());
        out.append("\nmodel: ");
        out.append(model);
        out.append("\nsystem_prompt: |\n");
        let prompt = indent(self.system_prompt.as_str(), "  ");
        out.append(prompt.as_str());
        out.append("\ncapabilities:\n");
        out.append(text.as_str());
        out
    }
}

/// Why a catalog could not be loaded.
#[derive(Debug, PartialEq, Eq)]
pub enum RoleCatalogError {
    Io(String),
    Parse(String),
}

impl RoleCatalogError {
    /// The error as text.
    pub fn message(&self) -> (r: String)
        ensures
            r@ == match *self {
                RoleCatalogError::Io(m) => "role catalog I/O: "@ + m@,
                RoleCatalogError::Parse(m) => "role parse error: "@ + m@,
            },
    {
        match self {
            RoleCatalogError::Io(m) => {
                let mut out = "role catalog I/O: ".to_owned();
                out.append(m.as_str());
                out
            },
            RoleCatalogError::Parse(m) => {
                let mut out = "role parse error: ".to_owned();
                out.append(m.as_str());
                out
            },
        }
    }
}

/// What is wrong with a role that was read from the file `path`, where `roles`
/// are there already.
pub open spec fn role_fault(
    roles: Seq<(Seq<char>, Role)>,
    role: Role,
    path: Seq<char>,
) -> Option<Seq<char>> {
    if role.name@.len() == 0 {
        Some("role at "@ + path + " has empty name"@)
    } else if lookup(roles, role.name@) is Some {
        Some("duplicate role name '"@ + role.name@ + "' at "@ + path)
    } else {
        None
    }
}

/// The roles that were loaded, by name.
#[derive(Debug)]
pub struct RoleCatalog {
    roles: Table<Role>,
}

impl RoleCatalog {
    /// The roles with their names, in the order in which they were loaded.
    pub closed spec fn view(&self) -> Seq<(Seq<char>, Role)> {
        self.roles@
    }

    /// An empty catalog.
    pub fn new() -> (r: RoleCatalog)
        ensures
            r@ == Seq::<(Seq<char>, Role)>::empty(),
    {
        RoleCatalog { roles: Table::new() }
    }

    /// Takes in a role that was read from the file `path`. A role has to have
    /// a name, and one that no other role has. Whatever is wrong, the error
    /// names the file.
    pub fn take_in(&mut self, role: Role, path: &str) -> (r: Result<(), RoleCatalogError>)
        ensures
            match r {
                Ok(_) => {
                    &&& role_fault(old(self)@, role, path@) is None
                    &&& final(self)@ == stored(old(self)@, role.name@, role)
                },
                Err(e) => {
                    &&& final(self)@ == old(self)@
                    &&& e is Parse
                    &&& role_fault(old(self)@, role, path@) == Some(e->Parse_0@)
                },
            },
    {
        if role.name.as_str().is_empty() {
            let mut m = "role at ".to_owned();
            m.append(path);
            m.append(" has empty name");
            return Err(RoleCatalogError::Parse(m));
        }
        if self.roles.contains(role.name.as_str()) {
            let mut m = "duplicate role name '".to_owned();
            m.append(role.name.as_str());
            m.append("' at ");
            m.append(path);
            return Err(RoleCatalogError::Parse(m));
        }
        let name = role.name.clone();
        self.roles.insert(name, role);
        Ok(())
    }

    /// The role with this name.
    pub fn get(&self, name: &str) -> (r: Option<&Role>)
        ensures
            match r {
                Some(role) => lookup(self@, name@) == Some(*role),
                None => lookup(self@, name@) is None,
            },
    {
        self.roles.get(name)
    }

    /// The names of the roles, in ascending order.
    pub fn names(&self) -> (r: Vec<String>)
        ensures
            texts_ascend(views(r@)),
            views(r@).to_multiset() == self@.map_values(
                |e: (Seq<char>, Role)| e.0,
            ).to_multiset(),
    {
        let ghost keys = self@.map_values(|e: (Seq<char>, Role)| e.0);
        let mut out: Vec<String> = Vec::new();
        let mut i: usize = 0;
        while i < self.roles.len()
            invariant
                0 <= i <= self@.len(),
                keys == self@.map_values(|e: (Seq<char>, Role)| e.0),
                views(out@) == keys.take(i as int),
            decreases self@.len() - i,
        {
            let ghost before = views(out@);
            out.push(self.roles.key(i).clone());
            assert(views(out@) =~= before.push(keys[i as int]));
            assert(keys.take(i + 1) =~= keys.take(i as int).push(keys[i as int]));
            i += 1;
        }
        assert(keys.take(i as int) =~= keys);
        sort_texts(&out)
    }

    /// How many roles there are.
    pub fn len(&self) -> (n: usize)
        ensures
            n == self@.len(),
    {
        self.roles.len()
    }

    /// Whether there is no role.
    pub fn is_empty(&self) -> (r: bool)
        ensures
            r == (self@.len() == 0),
    {
        self.roles.len() == 0
    }

    /// The roles, to be changed in place.
    pub fn roles_mut(&mut self) -> (r: &mut Table<Role>)
        ensures
            (*r)@ == old(self)@,
            final(self)@ == final(r)@,
    {
        &mut self.roles
    }
}

/// Whether a brace opens inside another one: one opens, and a second opens
/// before any closes.
pub open spec fn braces_nest(s: Seq<char>) -> bool {
    exists|i: int, j: int| #[trigger] opens_inside(s, i, j)
}

/// Whether the brace at `j` opens inside the one at `i`.
pub open spec fn opens_inside(s: Seq<char>, i: int, j: int) -> bool {
    &&& 0 <= i < j < s.len()
    &&& s[i] == '{'
    &&& s[j] == '{'
    &&& forall|k: int| i < k < j ==> s[k] != '}'
}

/// Whether a text has no brace in it.
pub open spec fn braceless(s: Seq<char>) -> bool {
    forall|k: int| 0 <= k < s.len() ==> #[trigger] s[k] != '{' && s[k] != '}'
}

/// Whether some brace opens before any closes.
spec fn opens_first(s: Seq<char>, p: int) -> bool {
    &&& 0 <= p < s.len()
    &&& s[p] == '{'
    &&& forall|k: int| 0 <= k < p ==> s[k] != '}'
}

#[verifier::rlimit(40)]
proof fn lemma_opens_first(u: Seq<char>, t: Seq<char>, with: Seq<char>, j: int) -> (p: int)
    requires
        t.len() > 0,
        t[0] == '{',
        braceless(with),
        opens_first(replaced(u, t, with), j),
    ensures
        opens_first(u, p),
    decreases u.len(),
{
    if begins_with(u, t) {
        assert(u.subrange(0, t.len() as int)[0] == t[0]);
        0
    } else {
        let rest = replaced(u.skip(1), t, with);
        let all = replaced(u, t, with);
        assert(all == seq![u[0]] + rest);
        if j == 0 {
            0
        } else {
            assert(all[0] == u[0]);
            assert(rest[j - 1] == all[j]);
            assert forall|k: int| 0 <= k < j - 1 implies rest[k] != '}' by {
                assert(rest[k] == all[k + 1]);
            }
            let p = lemma_opens_first(u.skip(1), t, with, j - 1);
            assert forall|k: int| 0 <= k < p + 1 implies u[k] != '}' by {
                if k > 0 {
                    assert(u[k] == u.skip(1)[k - 1]);
                }
            }
            p + 1
        }
    }
}

proof fn lemma_nests_on(s: Seq<char>, m: int)
    requires
        0 <= m <= s.len(),
        braces_nest(s.skip(m)),
    ensures
        braces_nest(s),
{
    let (i, j) = choose|i: int, j: int| #[trigger] opens_inside(s.skip(m), i, j);
    assert forall|k: int| m + i < k < m + j implies s[k] != '}' by {
        assert(s.skip(m)[k - m] == s[k]);
    }
    assert(opens_inside(s, m + i, m + j));
}

#[verifier::rlimit(40)]
proof fn lemma_stays_flat(s: Seq<char>, t: Seq<char>, with: Seq<char>)
    requires
        t.len() > 0,
        t[0] == '{',
        braceless(with),
        braces_nest(replaced(s, t, with)),
    ensures
        braces_nest(s),
    decreases s.len(),
{
    let all = replaced(s, t, with);
    let (i, j) = choose|i: int, j: int| #[trigger] opens_inside(all, i, j);
    if s.len() == 0 {
    } else if begins_with(s, t) {
        let rest = replaced(s.skip(t.len() as int), t, with);
        let n = with.len() as int;
        assert(all == with + rest);
        if i < n {
            assert(with[i] == all[i]);
        }
        assert(rest[i - n] == all[i]);
        assert(rest[j - n] == all[j]);
        assert forall|k: int| i - n < k < j - n implies rest[k] != '}' by {
            assert(rest[k] == all[k + n]);
        }
        assert(opens_inside(rest, i - n, j - n));
        lemma_stays_flat(s.skip(t.len() as int), t, with);
        lemma_nests_on(s, t.len() as int);
    } else {
        let rest = replaced(s.skip(1), t, with);
        assert(all == seq![s[0]] + rest);
        assert(rest[j - 1] == all[j]);
        assert forall|k: int| 0 <= k < j - 1 && i - 1 < k implies rest[k] != '}' by {
            assert(rest[k] == all[k + 1]);
        }
        if i == 0 {
            assert(opens_first(rest, j - 1));
            let p = lemma_opens_first(s.skip(1), t, with, j - 1);
            assert forall|k: int| 0 < k < p + 1 implies s[k] != '}' by {
                assert(s.skip(1)[k - 1] == s[k]);
            }
            assert(opens_inside(s, 0, p + 1));
        } else {
            assert(rest[i - 1] == all[i]);
            assert(opens_inside(rest, i - 1, j - 1));
            lemma_stays_flat(s.skip(1), t, with);
            lemma_nests_on(s, 1);
        }
    }
}

proof fn lemma_begins(s: Seq<char>, pat: Seq<char>)
    ensures
        begins_with(s, pat) <==> pat.len() <= s.len() && forall|k: int|
            0 <= k < pat.len() ==> #[trigger] pat[k] == s[k],
{
    if begins_with(s, pat) {
        assert forall|k: int| 0 <= k < pat.len() implies #[trigger] pat[k] == s[k] by {
            assert(s.subrange(0, pat.len() as int)[k] == s[k]);
        }
    }
    if pat.len() <= s.len() && forall|k: int| 0 <= k < pat.len() ==> #[trigger] pat[k] == s[k] {
        assert(s.subrange(0, pat.len() as int) =~= pat);
    }
}

#[verifier::rlimit(40)]
proof fn lemma_rest_of_a_token(u: Seq<char>, t: Seq<char>, with: Seq<char>, m: Seq<char>)
    requires
        t.len() > 0,
        t[0] == '{',
        braceless(with),
        braceless(m),
        begins_with(replaced(u, t, with), m.push('}')),
    ensures
        begins_with(u, m.push('}')) || (contains_text(m, with) && exists|p: int|
            #[trigger] opens_first(u, p)),
    decreases u.len(),
{
    let r = m.push('}');
    let all = replaced(u, t, with);
    lemma_begins(all, r);
    if u.len() == 0 {
    } else if begins_with(u, t) {
        lemma_begins(u, t);
        let rest = replaced(u.skip(t.len() as int), t, with);
        assert(all == with + rest);
        if with.len() > m.len() {
            assert(all[m.len() as int] == with[m.len() as int]);
            assert(r[m.len() as int] == '}');
        }
        assert forall|k: int| 0 <= k < with.len() implies #[trigger] with[k] == m[k] by {
            assert(all[k] == with[k]);
            assert(r[k] == m[k]);
        }
        lemma_begins(m, with);
        assert(occurs_at(m, with, 0));
        assert(opens_first(u, 0));
    } else {
        let rest = replaced(u.skip(1), t, with);
        assert(all == seq![u[0]] + rest);
        assert(all[0] == u[0]);
        assert(r[0] == u[0]);
        if m.len() == 0 {
            lemma_begins(u, r);
        } else {
            let less = m.skip(1);
            assert(less.push('}') =~= r.skip(1));
            assert forall|k: int| 0 <= k < less.push('}').len() implies #[trigger] less.push('}')[k]
                == rest[k] by {
                assert(r[k + 1] == all[k + 1]);
            }
            assert forall|k: int| 0 <= k < less.len() implies #[trigger] less[k] != '{' && less[k]
                != '}' by {
                assert(less[k] == m[k + 1]);
            }
            lemma_begins(rest, less.push('}'));
            lemma_rest_of_a_token(u.skip(1), t, with, less);
            if begins_with(u.skip(1), less.push('}')) {
                lemma_begins(u.skip(1), less.push('}'));
                assert forall|k: int| 0 <= k < r.len() implies #[trigger] r[k] == u[k] by {
                    if k > 0 {
                        assert(less.push('}')[k - 1] == u.skip(1)[k - 1]);
                    }
                }
                lemma_begins(u, r);
            } else {
                let p = choose|p: int| #[trigger] opens_first(u.skip(1), p);
                assert(m[0] == u[0]);
                assert forall|k: int| 0 <= k < p + 1 implies u[k] != '}' by {
                    if k > 0 {
                        assert(u[k] == u.skip(1)[k - 1]);
                    }
                }
                assert(opens_first(u, p + 1));
                law_text_holds_its_parts(seq![m[0]], less, with);
                assert(seq![m[0]] + less =~= m);
            }
        }
    }
}

/// A token in a text that was filled in stood there before, or the value makes
/// part of it between nested braces; one that was filled in did not stay.
#[verifier::rlimit(40)]
proof fn lemma_token_after(s: Seq<char>, t: Seq<char>, with: Seq<char>, name: Seq<char>, i: int)
    requires
        t.len() > 0,
        t[0] == '{',
        braceless(with),
        braceless(name),
        occurs_at(replaced(s, t, with), token(name), i),
    ensures
        (t != token(name) && contains_text(s, token(name))) || (contains_text(name, with)
            && braces_nest(s)),
    decreases s.len(),
{
    reveal_strlit("{");
    reveal_strlit("}");
    let q = token(name);
    let all = replaced(s, t, with);
    assert(q.len() == name.len() + 2 && q[0] == '{');
    assert(q =~= seq!['{'] + name.push('}'));
    assert(all.subrange(i, i + q.len())[0] == all[i]);
    if s.len() == 0 {
    } else if begins_with(s, t) {
        let n = with.len() as int;
        let tail = s.skip(t.len() as int);
        let rest = replaced(tail, t, with);
        assert(all == with + rest);
        if i < n {
            assert(with[i] == all[i]);
        }
        assert(rest.subrange(i - n, i - n + q.len()) =~= all.subrange(i, i + q.len()));
        lemma_token_after(tail, t, with, name, i - n);
        assert(s.take(t.len() as int) + tail =~= s);
        law_text_holds_its_parts(s.take(t.len() as int), tail, q);
        if braces_nest(tail) {
            lemma_nests_on(s, t.len() as int);
        }
    } else {
        let tail = s.skip(1);
        let rest = replaced(tail, t, with);
        assert(all == seq![s[0]] + rest);
        assert(seq![s[0]] + tail =~= s);
        law_text_holds_its_parts(seq![s[0]], tail, q);
        if i > 0 {
            assert(rest.subrange(i - 1, i - 1 + q.len()) =~= all.subrange(i, i + q.len()));
            lemma_token_after(tail, t, with, name, i - 1);
            if braces_nest(tail) {
                lemma_nests_on(s, 1);
            }
        } else {
            let r = name.push('}');
            assert(rest.subrange(0, r.len() as int) =~= r) by {
                assert forall|k: int| 0 <= k < r.len() implies rest[k] == r[k] by {
                    assert(all.subrange(0, q.len() as int)[k + 1] == q[k + 1]);
                    assert(all[k + 1] == rest[k]);
                }
            }
            lemma_rest_of_a_token(tail, t, with, name);
            if begins_with(tail, r) {
                lemma_begins(tail, r);
                assert forall|k: int| 0 <= k < q.len() implies #[trigger] q[k] == s[k] by {
                    if k > 0 {
                        assert(r[k - 1] == tail[k - 1]);
                    }
                }
                lemma_begins(s, q);
                assert(occurs_at(s, q, 0));
            } else {
                let p = choose|p: int| #[trigger] opens_first(tail, p);
                assert forall|k: int| 0 < k < p + 1 implies s[k] != '}' by {
                    assert(tail[k - 1] == s[k]);
                }
                assert(opens_inside(s, 0, p + 1));
            }
        }
    }
}

/// Nothing is left to be filled in: once the parameters stand in a template,
/// none of their placeholders does. That is so where no value has a brace in it,
/// and either no brace of the template opens inside another or no value is part
/// of the name.
pub proof fn law_no_placeholder_is_left(
    template: Seq<char>,
    fields: Seq<(Seq<char>, JsonView)>,
    i: int,
)
    requires
        0 <= i < fields.len(),
        forall|j: int| 0 <= j < fields.len() ==> braceless(rendered((#[trigger] fields[j]).1)),
        braceless(fields[i].0),
        !braces_nest(template) || forall|j: int|
            0 <= j < fields.len() ==> !contains_text(fields[i].0, rendered((#[trigger] fields[j]).1)),
    ensures
        !contains_text(
            substituted(template, JsonView::Object(fields)),
            "{"@ + fields[i].0 + "}"@,
        ),
{
    lemma_no_placeholder_is_left(template, fields, i, fields.len() as int);
    assert(fields.take(fields.len() as int) =~= fields);
}

proof fn lemma_filled_stays_flat(
    template: Seq<char>,
    fields: Seq<(Seq<char>, JsonView)>,
    n: int,
)
    requires
        0 <= n <= fields.len(),
        forall|j: int| 0 <= j < fields.len() ==> braceless(rendered((#[trigger] fields[j]).1)),
        braces_nest(filled(template, fields.take(n))),
    ensures
        braces_nest(template),
    decreases n,
{
    if n > 0 {
        reveal_strlit("{");
        let f = fields[n - 1];
        assert(fields.take(n).drop_last() =~= fields.take(n - 1));
        assert(token(f.0)[0] == '{');
        lemma_stays_flat(filled(template, fields.take(n - 1)), token(f.0), rendered(f.1));
        lemma_filled_stays_flat(template, fields, n - 1);
    }
}

#[verifier::rlimit(40)]
proof fn lemma_no_placeholder_is_left(
    template: Seq<char>,
    fields: Seq<(Seq<char>, JsonView)>,
    i: int,
    n: int,
)
    requires
        0 <= i < n <= fields.len(),
        forall|j: int| 0 <= j < fields.len() ==> braceless(rendered((#[trigger] fields[j]).1)),
        braceless(fields[i].0),
        !braces_nest(template) || forall|j: int|
            0 <= j < fields.len() ==> !contains_text(fields[i].0, rendered((#[trigger] fields[j]).1)),
    ensures
        !contains_text(filled(template, fields.take(n)), token(fields[i].0)),
    decreases n,
{
    let q = token(fields[i].0);
    let f = fields[n - 1];
    let before = filled(template, fields.take(n - 1));
    assert(fields.take(n).drop_last() =~= fields.take(n - 1));
    if i < n - 1 {
        lemma_no_placeholder_is_left(template, fields, i, n - 1);
    }
    if contains_text(filled(template, fields.take(n)), q) {
        reveal_strlit("{");
        let at = choose|at: int| occurs_at(filled(template, fields.take(n)), q, at);
        assert(token(f.0)[0] == '{');
        lemma_token_after(before, token(f.0), rendered(f.1), fields[i].0, at);
        if braces_nest(before) {
            lemma_filled_stays_flat(template, fields, n - 1);
        }
    }
}

/// What no placeholder stands in is kept as it is, and so is every template
/// where the parameters are no object.
pub proof fn law_other_text_is_kept(
    template: Seq<char>,
    fields: Seq<(Seq<char>, JsonView)>,
    other: JsonView,
)
    requires
        forall|j: int|
            0 <= j < fields.len() ==> !contains_text(
                template,
                "{"@ + (#[trigger] fields[j]).0 + "}"@,
            ),
    ensures
        substituted(template, JsonView::Object(fields)) == template,
        !(other is Object) ==> substituted(template, other) == template,
    decreases fields.len(),
{
    if fields.len() > 0 {
        reveal_strlit("{");
        let less = fields.drop_last();
        assert forall|j: int| 0 <= j < less.len() implies !contains_text(
            template,
            "{"@ + (#[trigger] less[j]).0 + "}"@,
        ) by {
            assert(less[j] == fields[j]);
        }
        law_other_text_is_kept(template, less, other);
        law_nothing_to_replace(template, token(fields.last().0), rendered(fields.last().1));
    }
}

/// A placeholder is replaced by the value of its parameter, and what stands
/// around it is kept.
pub proof fn law_placeholder_gets_its_value(
    before: Seq<char>,
    behind: Seq<char>,
    fields: Seq<(Seq<char>, JsonView)>,
    i: int,
)
    requires
        0 <= i < fields.len(),
        braceless(before),
        braceless(behind),
        braceless(fields[i].0),
        braceless(rendered(fields[i].1)),
        forall|j: int| 0 <= j < fields.len() && j != i ==> (#[trigger] fields[j]).0 != fields[i].0,
    ensures
        substituted(before + ("{"@ + fields[i].0 + "}"@) + behind, JsonView::Object(fields))
            == before + rendered(fields[i].1) + behind,
{
    lemma_placeholder_gets_its_value(before, behind, fields, i, fields.len() as int);
    assert(fields.take(fields.len() as int) =~= fields);
}

#[verifier::rlimit(40)]
proof fn lemma_placeholder_gets_its_value(
    before: Seq<char>,
    behind: Seq<char>,
    fields: Seq<(Seq<char>, JsonView)>,
    i: int,
    n: int,
)
    requires
        0 <= n <= fields.len(),
        0 <= i < fields.len(),
        braceless(before),
        braceless(behind),
        braceless(fields[i].0),
        braceless(rendered(fields[i].1)),
        forall|j: int| 0 <= j < fields.len() && j != i ==> (#[trigger] fields[j]).0 != fields[i].0,
    ensures
        filled(before + token(fields[i].0) + behind, fields.take(n)) == (if n <= i {
            before + token(fields[i].0) + behind
        } else {
            before + rendered(fields[i].1) + behind
        }),
    decreases n,
{
    if n > 0 {
        let q = token(fields[i].0);
        let value = rendered(fields[i].1);
        let f = fields[n - 1];
        let t = token(f.0);
        reveal_strlit("{");
        reveal_strlit("}");
        assert(fields.take(n).drop_last() =~= fields.take(n - 1));
        lemma_placeholder_gets_its_value(before, behind, fields, i, n - 1);
        if n - 1 == i {
            let s = before + q + behind;
            assert forall|k: int| k < before.len() implies !#[trigger] occurs_at(s, q, k) by {
                if occurs_at(s, q, k) {
                    assert(s.subrange(k, k + q.len())[0] == s[k]);
                    assert(s[k] == before[k]);
                }
            }
            law_replacing_goes_from_the_left(before, q, behind, value);
            assert(!contains_text(behind, q)) by {
                if contains_text(behind, q) {
                    let k = choose|k: int| occurs_at(behind, q, k);
                    assert(behind.subrange(k, k + q.len())[0] == behind[k]);
                }
            }
            law_nothing_to_replace(behind, q, value);
        } else if n - 1 < i {
            let s = before + q + behind;
            if contains_text(s, t) {
                let k = choose|k: int| occurs_at(s, t, k);
                let last = k + t.len() - 1;
                assert(s.subrange(k, k + t.len())[0] == s[k]);
                assert(s.subrange(k, k + t.len())[t.len() - 1] == s[last]);
                lemma_only_braces(before, fields[i].0, behind, k);
                lemma_only_braces(before, fields[i].0, behind, last);
                assert(k == before.len());
                assert(t =~= q);
                assert(t.subrange(1, t.len() - 1) =~= f.0);
                assert(q.subrange(1, q.len() - 1) =~= fields[i].0);
            }
            law_nothing_to_replace(s, t, rendered(f.1));
        } else {
            let s = before + value + behind;
            if contains_text(s, t) {
                let k = choose|k: int| occurs_at(s, t, k);
                assert(s.subrange(k, k + t.len())[0] == s[k]);
                if k < before.len() {
                    assert(s[k] == before[k]);
                } else if k < before.len() + value.len() {
                    assert(s[k] == value[k - before.len()]);
                } else {
                    assert(s[k] == behind[k - before.len() - value.len()]);
                }
            }
            law_nothing_to_replace(s, t, rendered(f.1));
        }
    }
}

#[verifier::rlimit(40)]
proof fn lemma_only_braces(before: Seq<char>, name: Seq<char>, behind: Seq<char>, k: int)
    requires
        braceless(before),
        braceless(name),
        braceless(behind),
        0 <= k < before.len() + name.len() + 2 + behind.len(),
    ensures
        (before + token(name) + behind)[k] == '{' ==> k == before.len(),
        (before + token(name) + behind)[k] == '}' ==> k == before.len() + name.len() + 1,
{
    reveal_strlit("{");
    reveal_strlit("}");
    let s = before + token(name) + behind;
    let q = token(name);
    let n = before.len() as int;
    if k < n {
        assert(s[k] == before[k]);
    } else if k < n + q.len() {
        assert(s[k] == q[k - n]);
        if 0 < k - n < q.len() - 1 {
            assert(q[k - n] == name[k - n - 1]);
        }
    } else {
        assert(s[k] == behind[k - n - q.len()]);
    }
}

/// A text is written as it is, null as nothing, a list with commas between its
/// elements, and anything else as JSON.
pub proof fn law_values_are_written_plainly(s: Seq<char>, a: Seq<JsonView>, other: JsonView)
    ensures
        rendered(JsonView::Text(s)) == s,
        rendered(JsonView::Null) == Seq::<char>::empty(),
        other is Bool || other is Unsigned || other is Negative || other is Decimal || other is Object
            ==> rendered(other) == json_text(other),
        rendered(JsonView::Array(a)) == joined(a.map_values(|j: JsonView| rendered(j)), ", "@),
{
    lemma_rendered_all(a);
    assert(rendered_all(a) =~= a.map_values(|j: JsonView| rendered(j)));
}

proof fn lemma_rendered_all(a: Seq<JsonView>)
    ensures
        rendered_all(a).len() == a.len(),
        forall|i: int| 0 <= i < a.len() ==> #[trigger] rendered_all(a)[i] == rendered(a[i]),
    decreases a.len(),
{
    if a.len() > 0 {
        lemma_rendered_all(a.drop_last());
    }
}

/// The token of a list is found where it stands: the first one that names a
/// list, from its brace to the other, and no other token is taken for one.
#[verifier::rlimit(40)]
pub proof fn law_list_token_is_found(
    before: Seq<char>,
    name: Seq<char>,
    behind: Seq<char>,
    plain: Seq<char>,
)
    requires
        braceless(before),
        braceless(name),
        braceless(plain),
        name.len() > 0,
    ensures
        array_token(before + ("{"@ + name + ".*}"@) + behind, 0) == Some(
            (before.len() as int, (before.len() + name.len() + 4) as int, name),
        ),
        array_token(plain, 0) is None,
{
    reveal_strlit("{");
    reveal_strlit(".*}");
    reveal_strlit(".*");
    let s = before + ("{"@ + name + ".*}"@) + behind;
    let open = before.len() as int;
    let close = open + name.len() + 3;
    let mid = "{"@ + name + ".*}"@;
    assert(mid.len() == name.len() + 4);
    assert forall|k: int| 0 <= k < mid.len() implies s[open + k] == #[trigger] mid[k] by {}
    assert(s[open] == mid[0]);
    assert(s[close] == mid[mid.len() - 1]);
    lemma_char_position(s, '{', 0);
    let o = char_position(s, '{', 0)->0;
    if o < open {
        assert(s[o] == before[o]);
    }
    lemma_char_position(s, '}', open);
    let c = char_position(s, '}', open)->0;
    if c < close {
        assert(s[c] == mid[c - open]);
        if 0 < c - open < name.len() + 1 {
            assert(mid[c - open] == name[c - open - 1]);
        }
    }
    let inner = s.subrange(open + 1, close);
    assert(inner =~= name + ".*"@) by {
        assert forall|k: int| 0 <= k < inner.len() implies inner[k] == (name + ".*"@)[k] by {
            assert(inner[k] == mid[k + 1]);
        }
    }
    law_parts_occur(name, ".*"@, Seq::empty());
    assert(inner.take(inner.len() - 2) =~= name);
    lemma_char_position(plain, '{', 0);
}

/// A grant for a list is made once for each text of the list, in its place, and
/// a grant for none once; only those with something left to fill in are left
/// out.
#[verifier::rlimit(40)]
pub proof fn law_list_grants_are_made_for_each(
    before: Seq<char>,
    name: Seq<char>,
    behind: Seq<char>,
    params: JsonView,
    elems: Seq<JsonView>,
    i: int,
)
    requires
        braceless(before),
        braceless(name),
        name.len() > 0,
        field(params, name) == Some(JsonView::Array(elems)),
        0 <= i < texts_among(elems).len(),
    ensures
        ({
            let template = before + ("{"@ + name + ".*}"@) + behind;
            let made = |e: Seq<char>| substituted(before + e + behind, params);
            &&& !unresolved(made(texts_among(elems)[i])) ==> expanded(template, params).contains(
                made(texts_among(elems)[i]),
            )
            &&& forall|g: Seq<char>| #[trigger]
                expanded(template, params).contains(g) ==> exists|k: int|
                    0 <= k < texts_among(elems).len() && g == made(#[trigger] texts_among(elems)[k])
            &&& (forall|k: int|
                0 <= k < texts_among(elems).len() ==> !unresolved(
                    made(#[trigger] texts_among(elems)[k]),
                )) ==> expanded(template, params).len() == texts_among(elems).len() && expanded(
                template,
                params,
            )[i] == made(texts_among(elems)[i])
        }),
{
    let template = before + ("{"@ + name + ".*}"@) + behind;
    let made = |e: Seq<char>| substituted(before + e + behind, params);
    law_list_token_is_found(before, name, behind, before);
    let start = before.len() as int;
    let end = (before.len() + name.len() + 4) as int;
    reveal_strlit("{");
    reveal_strlit(".*}");
    assert(template.take(start) =~= before);
    assert(template.skip(end) =~= behind);
    let texts = texts_among(elems);
    let whole = texts.map_values(
        |e: Seq<char>| substituted(template.take(start) + e + template.skip(end), params),
    );
    assert(whole =~= texts.map_values(made));
    assert(expanded(template, params) == resolved_only(whole));
    lemma_resolved_only(whole);
    assert(whole[i] == made(texts[i]));
    assert forall|g: Seq<char>| #[trigger]
        expanded(template, params).contains(g) implies exists|k: int|
        0 <= k < texts.len() && g == made(#[trigger] texts[k]) by {
        let k = choose|k: int| 0 <= k < whole.len() && whole[k] == g;
        assert(g == made(texts[k]));
    }
    if forall|k: int| 0 <= k < texts.len() ==> !unresolved(made(#[trigger] texts[k])) {
        assert forall|k: int| 0 <= k < whole.len() implies !unresolved(#[trigger] whole[k]) by {
            assert(whole[k] == made(texts[k]));
        }
        assert(resolved_only(whole) == whole);
    }
}

#[verifier::rlimit(40)]
proof fn lemma_resolved_only(s: Seq<Seq<char>>)
    ensures
        forall|t: Seq<char>| #[trigger]
            resolved_only(s).contains(t) <==> s.contains(t) && !unresolved(t),
        (forall|k: int| 0 <= k < s.len() ==> !unresolved(#[trigger] s[k])) ==> resolved_only(s)
            == s,
    decreases s.len(),
{
    let keep = |t: Seq<char>| !unresolved(t);
    reveal(Seq::filter);
    if s.len() > 0 {
        let less = s.drop_last();
        lemma_resolved_only(less);
        let kept = less.filter(keep);
        assert(s.filter(keep) == if keep(s.last()) {
            kept.push(s.last())
        } else {
            kept
        });
        assert forall|t: Seq<char>| #[trigger]
            resolved_only(s).contains(t) <==> s.contains(t) && !unresolved(t) by {
            assert(resolved_only(less).contains(t) <==> less.contains(t) && !unresolved(t));
            if resolved_only(s).contains(t) {
                let k = choose|k: int| 0 <= k < resolved_only(s).len() && resolved_only(s)[k] == t;
                if k < kept.len() {
                    assert(kept[k] == t);
                    assert(less.contains(t));
                    let m = choose|m: int| 0 <= m < less.len() && less[m] == t;
                    assert(s[m] == t);
                } else {
                    assert(s[s.len() - 1] == t);
                }
            }
            if s.contains(t) && !unresolved(t) {
                let m = choose|m: int| 0 <= m < s.len() && s[m] == t;
                if m < less.len() {
                    assert(less[m] == t);
                    let k = choose|k: int| 0 <= k < kept.len() && kept[k] == t;
                    assert(s.filter(keep)[k] == t);
                } else {
                    assert(s.filter(keep)[kept.len() as int] == t);
                }
            }
        }
        if forall|k: int| 0 <= k < s.len() ==> !unresolved(#[trigger] s[k]) {
            assert forall|k: int| 0 <= k < less.len() implies !unresolved(#[trigger] less[k]) by {
                assert(less[k] == s[k]);
            }
            assert(!unresolved(s[s.len() - 1]));
            assert(less.push(s.last()) =~= s);
        }
    }
}

/// A grant that names no list is made once, if nothing is left to fill in; one
/// that names a list that is not there is not made.
pub proof fn law_plain_grant_is_made_once(
    template: Seq<char>,
    params: JsonView,
    before: Seq<char>,
    name: Seq<char>,
    behind: Seq<char>,
)
    requires
        braceless(before),
        braceless(name),
        name.len() > 0,
    ensures
        array_token(template, 0) is None && !unresolved(substituted(template, params)) ==> expanded(
            template,
            params,
        ) == seq![substituted(template, params)],
        array_token(template, 0) is None && unresolved(substituted(template, params)) ==> expanded(
            template,
            params,
        ).len() == 0,
        !(field(params, name) matches Some(JsonView::Array(_))) ==> expanded(
            before + ("{"@ + name + ".*}"@) + behind,
            params,
        ).len() == 0,
{
    law_list_token_is_found(before, name, behind, before);
    let one = seq![substituted(template, params)];
    lemma_resolved_only(one);
    reveal(Seq::filter);
    assert(one.drop_last() =~= Seq::<Seq<char>>::empty());
    reveal_with_fuel(Seq::filter, 2);
}

/// Parameters have no problem exactly where all that are required are there,
/// all that are there are declared, and each is of its kind.
pub proof fn law_parameters_without_problems(
    schema: Seq<(Seq<char>, ParameterSchema)>,
    fields: Seq<(Seq<char>, JsonView)>,
)
    ensures
        param_problems(schema, fields).len() == 0 <==> {
            &&& forall|i: int|
                0 <= i < schema.len() && (#[trigger] schema[i]).1.required ==> lookup(
                    fields,
                    schema[i].0,
                ) is Some
            &&& forall|i: int|
                0 <= i < fields.len() ==> lookup(schema, (#[trigger] fields[i]).0) is Some
            &&& forall|i: int|
                0 <= i < fields.len() && lookup(schema, (#[trigger] fields[i]).0) is Some ==> match (
                lookup(schema, fields[i].0)->0).param_type {
                    ParameterType::StringList => fields[i].1 is Array && forall|k: int|
                        0 <= k < fields[i].1->Array_0.len() ==> (
                        #[trigger] fields[i].1->Array_0[k]) is Text,
                    _ => fields[i].1 is Text,
                }
        },
{
    lemma_missing_problems(schema, fields, schema.len() as int);
    lemma_field_problems(schema, fields, fields.len() as int);
}

proof fn lemma_missing_problems(
    schema: Seq<(Seq<char>, ParameterSchema)>,
    fields: Seq<(Seq<char>, JsonView)>,
    n: int,
)
    requires
        0 <= n <= schema.len(),
    ensures
        missing_problems(schema, fields, n).len() == 0 <==> forall|i: int|
            0 <= i < n && (#[trigger] schema[i]).1.required ==> lookup(fields, schema[i].0) is Some,
    decreases n,
{
    if n > 0 {
        lemma_missing_problems(schema, fields, n - 1);
    }
}

proof fn lemma_field_problems(
    schema: Seq<(Seq<char>, ParameterSchema)>,
    fields: Seq<(Seq<char>, JsonView)>,
    n: int,
)
    requires
        0 <= n <= fields.len(),
    ensures
        unknown_problems(schema, fields, n).len() == 0 <==> forall|i: int|
            0 <= i < n ==> lookup(schema, (#[trigger] fields[i]).0) is Some,
        kind_problems(schema, fields, n).len() == 0 <==> forall|i: int|
            0 <= i < n && lookup(schema, (#[trigger] fields[i]).0) is Some ==> fits(
                (lookup(schema, fields[i].0)->0).param_type,
                fields[i].1,
            ),
    decreases n,
{
    if n > 0 {
        lemma_field_problems(schema, fields, n - 1);
    }
}

/// Each problem is told of by the name of its parameter.
#[verifier::rlimit(40)]
pub proof fn law_problems_name_their_parameter(
    schema: Seq<(Seq<char>, ParameterSchema)>,
    fields: Seq<(Seq<char>, JsonView)>,
    i: int,
)
    ensures
        0 <= i < schema.len() && schema[i].1.required && lookup(fields, schema[i].0) is None
            ==> param_problems(schema, fields).contains(
            "missing required param '"@ + schema[i].0 + "'"@,
        ),
        0 <= i < fields.len() && lookup(schema, fields[i].0) is None ==> param_problems(
            schema,
            fields,
        ).contains("unknown param '"@ + fields[i].0 + "'"@),
        0 <= i < fields.len() && lookup(schema, fields[i].0) is Some && !fits(
            (lookup(schema, fields[i].0)->0).param_type,
            fields[i].1,
        ) ==> param_problems(schema, fields).contains(
            "param '"@ + fields[i].0 + "' must be "@ + kind_name(
                (lookup(schema, fields[i].0)->0).param_type,
            ),
        ),
{
    let missing = missing_problems(schema, fields, schema.len() as int);
    let unknown = unknown_problems(schema, fields, fields.len() as int);
    let kinds = kind_problems(schema, fields, fields.len() as int);
    let all = param_problems(schema, fields);
    assert(all == missing + unknown + kinds);
    if 0 <= i < schema.len() && schema[i].1.required && lookup(fields, schema[i].0) is None {
        let k = lemma_missing_is_told(schema, fields, schema.len() as int, i);
        assert(all[k] == missing[k]);
    }
    if 0 <= i < fields.len() {
        if lookup(schema, fields[i].0) is None {
            let k = lemma_unknown_is_told(schema, fields, fields.len() as int, i);
            assert(all[missing.len() + k] == unknown[k]);
        } else if !fits((lookup(schema, fields[i].0)->0).param_type, fields[i].1) {
            let k = lemma_kind_is_told(schema, fields, fields.len() as int, i);
            assert(all[missing.len() + unknown.len() + k] == kinds[k]);
        }
    }
}

proof fn lemma_missing_is_told(
    schema: Seq<(Seq<char>, ParameterSchema)>,
    fields: Seq<(Seq<char>, JsonView)>,
    n: int,
    i: int,
) -> (k: int)
    requires
        0 <= i < n <= schema.len(),
        schema[i].1.required,
        lookup(fields, schema[i].0) is None,
    ensures
        0 <= k < missing_problems(schema, fields, n).len(),
        missing_problems(schema, fields, n)[k] == "missing required param '"@ + schema[i].0 + "'"@,
    decreases n,
{
    if i == n - 1 {
        missing_problems(schema, fields, n - 1).len() as int
    } else {
        lemma_missing_is_told(schema, fields, n - 1, i)
    }
}

proof fn lemma_unknown_is_told(
    schema: Seq<(Seq<char>, ParameterSchema)>,
    fields: Seq<(Seq<char>, JsonView)>,
    n: int,
    i: int,
) -> (k: int)
    requires
        0 <= i < n <= fields.len(),
        lookup(schema, fields[i].0) is None,
    ensures
        0 <= k < unknown_problems(schema, fields, n).len(),
        unknown_problems(schema, fields, n)[k] == "unknown param '"@ + fields[i].0 + "'"@,
    decreases n,
{
    if i == n - 1 {
        unknown_problems(schema, fields, n - 1).len() as int
    } else {
        lemma_unknown_is_told(schema, fields, n - 1, i)
    }
}

proof fn lemma_kind_is_told(
    schema: Seq<(Seq<char>, ParameterSchema)>,
    fields: Seq<(Seq<char>, JsonView)>,
    n: int,
    i: int,
) -> (k: int)
    requires
        0 <= i < n <= fields.len(),
        lookup(schema, fields[i].0) is Some,
        !fits((lookup(schema, fields[i].0)->0).param_type, fields[i].1),
    ensures
        0 <= k < kind_problems(schema, fields, n).len(),
        kind_problems(schema, fields, n)[k] == "param '"@ + fields[i].0 + "' must be "@ + kind_name(
            (lookup(schema, fields[i].0)->0).param_type,
        ),
    decreases n,
{
    if i == n - 1 {
        kind_problems(schema, fields, n - 1).len() as int
    } else {
        lemma_kind_is_told(schema, fields, n - 1, i)
    }
}

/// Every grant of a role is made, in the order of its capabilities.
pub proof fn law_every_capability_is_granted(
    caps: Seq<Seq<char>>,
    params: JsonView,
    m: int,
    n: int,
)
    requires
        0 <= m <= n <= caps.len(),
    ensures
        granted(caps, params, n) == granted(caps, params, m) + granted(caps.skip(m), params, n - m),
        n == m + 1 ==> granted(caps.skip(m), params, 1) == expanded(caps[m], params),
    decreases n,
{
    if m < n {
        law_every_capability_is_granted(caps, params, m, n - 1);
        assert(caps.skip(m)[n - 1 - m] == caps[n - 1]);
    }
    assert(granted(caps, params, n) =~= granted(caps, params, m) + granted(
        caps.skip(m),
        params,
        n - m,
    ));
    if n == m + 1 {
        reveal_with_fuel(granted, 2);
        assert(granted(caps.skip(m), params, 1) =~= expanded(caps[m], params));
    }
}

/// Each capability has a line of its own, in quotes; quotes inside it are
/// escaped, and what has none stands there as it is.
#[verifier::rlimit(40)]
pub proof fn law_each_capability_has_its_line(caps: Seq<Seq<char>>, m: int, n: int)
    requires
        0 <= m <= n <= caps.len(),
    ensures
        capability_lines(caps, n) == capability_lines(caps, m) + capability_lines(
            caps.skip(m),
            n - m,
        ),
        n == m + 1 && !contains_text(caps[m], "\""@) ==> capability_lines(caps, n)
            == capability_lines(caps, m) + "  - \""@ + caps[m] + "\"\n"@,
        n == m + 1 ==> begins_with(capability_lines(caps, n), capability_lines(caps, m)),
    decreases n,
{
    if m < n {
        law_each_capability_has_its_line(caps, m, n - 1);
        assert(caps.skip(m)[n - 1 - m] == caps[n - 1]);
        let start = capability_lines(caps, m);
        let more = capability_lines(caps.skip(m), n - 1 - m);
        let cap = replaced(caps[n - 1], "\""@, "\\\""@);
        law_put_together(start, more, "  - \""@);
        law_put_together(start, more + "  - \""@, cap);
        law_put_together(start, more + "  - \""@ + cap, "\"\n"@);
    } else {
        assert(capability_lines(caps, n) =~= capability_lines(caps, m) + capability_lines(
            caps.skip(m),
            n - m,
        ));
    }
    if n == m + 1 {
        let start = capability_lines(caps, m);
        let cap = replaced(caps[m], "\""@, "\\\""@);
        law_put_together(start, "  - \""@, cap);
        law_put_together(start, "  - \""@ + cap, "\"\n"@);
        law_parts_occur(start, "  - \""@ + cap + "\"\n"@, Seq::empty());
        if !contains_text(caps[m], "\""@) {
            reveal_strlit("\"");
            law_nothing_to_replace(caps[m], "\""@, "\\\""@);
        }
    }
}

/// A manifest names the role and the model, and holds the prompt, set in, and a
/// line for every capability.
pub proof fn law_manifest_holds_the_role(role: Role, model: Seq<char>, params: JsonView)
    ensures
        ({
            let m = role.manifest(model, params);
            let caps = granted(
                views(role.capabilities@),
                params,
                role.capabilities@.len() as int,
            );
            &&& begins_with(m, "name: "@ + role.name@ + "\nmodel: "@ + model)
            &&& contains_text(m, indented(role.system_prompt@, "  "@))
            &&& ends_in(m, capability_lines(caps, caps.len() as int))
        }),
{
    let caps = granted(views(role.capabilities@), params, role.capabilities@.len() as int);
    let head = "name: "@ + role.name@ + "\nmodel: "@ + model;
    let prompt = indented(role.system_prompt@, "  "@);
    let lines = capability_lines(caps, caps.len() as int);
    let a = "\nsystem_prompt: |\n"@;
    let b = "\ncapabilities:\n"@;
    law_four_parts(head, a, prompt, b);
    law_text_holds_its_parts(head + a + prompt + b, lines, prompt);
    law_parts_occur(head + a + prompt + b, lines, Seq::empty());
    law_put_together(head, a, prompt);
    law_put_together(head, a + prompt, b);
    law_put_together(head, a + prompt + b, lines);
    law_parts_occur(head, a + prompt + b + lines, Seq::empty());
}

/// Setting in puts the prefix before every line and keeps the lines.
pub proof fn law_every_line_is_set_in(line: Seq<char>, rest: Seq<char>, prefix: Seq<char>)
    requires
        line.len() > 0,
        line.last() != '\r',
        forall|i: int| 0 <= i < line.len() ==> #[trigger] line[i] != '\n',
    ensures
        indented(line, prefix) == prefix + line,
        text_lines(rest).len() > 0 ==> indented(line + seq!['\n'] + rest, prefix) == prefix + line
            + "\n"@ + indented(rest, prefix),
{
    law_lines_end_at_line_feeds(line, rest);
    let set = |l: Seq<char>| prefix + l;
    assert(seq![line].map_values(set) =~= seq![prefix + line]);
    law_joined_by_parts(
        seq![prefix + line],
        text_lines(rest).map_values(set),
        "\n"@,
        prefix + line,
    );
    assert((seq![line] + text_lines(rest)).map_values(set) =~= seq![prefix + line] + text_lines(
        rest,
    ).map_values(set));
}

/// A role is taken in exactly where it has a name and no other has it.
pub proof fn law_names_are_taken_once(roles: Seq<(Seq<char>, Role)>, role: Role, path: Seq<char>)
    ensures
        role_fault(roles, role, path) is None <==> role.name@.len() > 0 && lookup(
            roles,
            role.name@,
        ) is None,
        role_fault(roles, role, path) is Some ==> ends_in(
            role_fault(roles, role, path)->0,
            if role.name@.len() == 0 {
                path + " has empty name"@
            } else {
                path
            },
        ),
{
    law_put_together("role at "@, path, " has empty name"@);
    law_parts_occur("role at "@, path + " has empty name"@, Seq::empty());
    law_parts_occur("duplicate role name '"@ + role.name@ + "' at "@, path, Seq::empty());
}

/// A text has something left to fill in where a name stands between braces, and
/// a text without braces, or with nothing between them, has not.
#[verifier::rlimit(40)]
pub proof fn law_what_is_left_to_fill_in(before: Seq<char>, name: Seq<char>, behind: Seq<char>)
    requires
        name.len() > 0,
        braceless(name),
        braceless(before),
        braceless(behind),
    ensures
        unresolved(before + ("{"@ + name + "}"@) + behind),
        !unresolved(before),
        !unresolved(before + "{}"@ + behind),
{
    reveal_strlit("{");
    reveal_strlit("}");
    reveal_strlit("{}");
    let s = before + ("{"@ + name + "}"@) + behind;
    let open = before.len() as int;
    let close = open + name.len() + 1;
    let mid = "{"@ + name + "}"@;
    assert(s[open] == mid[0]);
    assert(s[close] == mid[mid.len() - 1]);
    assert forall|k: int| open < k < close implies s[k] != '}' by {
        assert(s[k] == mid[k - open]);
        assert(mid[k - open] == name[k - open - 1]);
    }
    assert(placeholder_at(s, open, close));
    assert forall|o: int, c: int| !#[trigger] placeholder_at(before, o, c) by {
        if placeholder_at(before, o, c) {
            assert(before[o] == '{');
        }
    }
    let t = before + "{}"@ + behind;
    assert forall|o: int, c: int| !#[trigger] placeholder_at(t, o, c) by {
        if placeholder_at(t, o, c) {
            if o < open {
                assert(t[o] == before[o]);
            } else if o > open + 1 {
                assert(t[o] == behind[o - open - 2]);
            } else {
                assert(t[open + 1] == '}');
            }
        }
    }
}

/// The ladder fits where it is empty or begins with the model; where it does
/// not, the role and both models are named.
pub proof fn law_ladder_begins_with_the_model(
    role: Role,
    name: Seq<char>,
    first: Seq<char>,
    model: Seq<char>,
)
    ensures
        role.ladder_matches() <==> role.model_ladder@.len() == 0 || role.model_ladder@[0]@
            == role.model@,
        contains_text(drift_message(name, first, model), name),
        contains_text(drift_message(name, first, model), first),
        contains_text(drift_message(name, first, model), model),
{
    let a = "role '"@;
    let b = "': model_ladder[0] = '"@;
    let c = "' but model = '"@;
    let d = "' — the two must match (model is the display/back-compat field; the ladder drives routing)"@;
    let start = a + name + b + first;
    law_four_parts(a, name, b, first);
    law_four_parts(start, c, model, d);
    law_containment_is_transitive(start + c + model + d, start, name);
    law_containment_is_transitive(start + c + model + d, start, first);
}

} // verus!
