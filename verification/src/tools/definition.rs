//! How a tool is described to the model.

use crate::json::{lemma_array_view, lemma_object_view, array_view, object_view, Json, JsonView};
use crate::text::views;
use vstd::prelude::*;
use vstd::string::*;

verus! {

/// What a tool is called, what it does and what it takes.
#[derive(Debug)]
pub struct ToolDefinition {
    pub name: String,
    pub description: String,
    /// The shape of the input, as a JSON schema.
    pub input_schema: Json,
}

/// What a definition says.
pub struct ToolDefinitionView {
    pub name: Seq<char>,
    pub description: Seq<char>,
    pub input_schema: JsonView,
}

impl View for ToolDefinition {
    type V = ToolDefinitionView;

    open spec fn view(&self) -> ToolDefinitionView {
        ToolDefinitionView {
            name: self.name@,
            description: self.description@,
            input_schema: self.input_schema@,
        }
    }
}

impl ToolDefinition {
    /// A copy of the definition.
    pub fn copy(&self) -> (r: ToolDefinition)
        ensures
            r@ == self@,
    {
        ToolDefinition {
            name: self.name.clone(),
            description: self.description.clone(),
            input_schema: self.input_schema.copy(),
        }
    }
}

/// What a parameter of a tool takes.
#[derive(Debug)]
pub enum ParamKind {
    Text,
    Flag,
    Number,
    /// A number from one on.
    Count,
    Texts,
    /// Texts, and what they are where none are given.
    TextsOr(Vec<String>),
    OneOf(Vec<String>),
}

/// What a kind of parameter says.
pub enum ParamKindView {
    Text,
    Flag,
    Number,
    Count,
    Texts,
    TextsOr(Seq<Seq<char>>),
    OneOf(Seq<Seq<char>>),
}

impl View for ParamKind {
    type V = ParamKindView;

    open spec fn view(&self) -> ParamKindView {
        match self {
            ParamKind::Text => ParamKindView::Text,
            ParamKind::Flag => ParamKindView::Flag,
            ParamKind::Number => ParamKindView::Number,
            ParamKind::Count => ParamKindView::Count,
            ParamKind::Texts => ParamKindView::Texts,
            ParamKind::TextsOr(v) => ParamKindView::TextsOr(views(v@)),
            ParamKind::OneOf(v) => ParamKindView::OneOf(views(v@)),
        }
    }
}

/// A parameter of a tool.
#[derive(Debug)]
pub struct Param {
    pub name: String,
    pub kind: ParamKind,
    pub description: String,
    pub required: bool,
}

/// What a parameter says.
pub struct ParamView {
    pub name: Seq<char>,
    pub kind: ParamKindView,
    pub description: Seq<char>,
    pub required: bool,
}

impl View for Param {
    type V = ParamView;

    open spec fn view(&self) -> ParamView {
        ParamView {
            name: self.name@,
            kind: self.kind@,
            description: self.description@,
            required: self.required,
        }
    }
}

/// What a list of parameters says.
pub open spec fn params_view(s: Seq<Param>) -> Seq<ParamView> {
    s.map_values(|p: Param| p@)
}

/// A parameter that has to be given.
pub open spec fn required_param(
    name: Seq<char>,
    kind: ParamKindView,
    description: Seq<char>,
) -> ParamView {
    ParamView { name, kind, description, required: true }
}

/// A parameter that may be left out.
pub open spec fn optional_param(
    name: Seq<char>,
    kind: ParamKindView,
    description: Seq<char>,
) -> ParamView {
    ParamView { name, kind, description, required: false }
}

impl Param {
    /// A parameter that has to be given.
    pub fn required(name: &str, kind: ParamKind, description: &str) -> (r: Param)
        ensures
            r@ == required_param(name@, kind@, description@),
    {
        Param {
            name: name.to_owned(),
            kind,
            description: description.to_owned(),
            required: true,
        }
    }

    /// A parameter that may be left out.
    pub fn optional(name: &str, kind: ParamKind, description: &str) -> (r: Param)
        ensures
            r@ == optional_param(name@, kind@, description@),
    {
        Param {
            name: name.to_owned(),
            kind,
            description: description.to_owned(),
            required: false,
        }
    }
}

/// Texts as a JSON list.
pub open spec fn text_list(s: Seq<Seq<char>>) -> JsonView {
    JsonView::Array(s.map_values(|t: Seq<char>| JsonView::Text(t)))
}

/// Texts as a JSON list.
pub fn list_of_texts(v: &Vec<String>) -> (r: Json)
    ensures
        r@ == text_list(views(v@)),
{
    let ghost want = views(v@).map_values(|t: Seq<char>| JsonView::Text(t));
    let mut items: Vec<Json> = Vec::new();
    let mut i: usize = 0;
    while i < v.len()
        invariant
            0 <= i <= v@.len(),
            items@.len() == i,
            want == views(v@).map_values(|t: Seq<char>| JsonView::Text(t)),
            forall|k: int| 0 <= k < i ==> (#[trigger] items@[k])@ == want[k],
        decreases v@.len() - i,
    {
        items.push(Json::Text(v[i].clone()));
        i += 1;
    }
    proof {
        lemma_array_view(items@);
        assert(array_view(items@) =~= want);
    }
    Json::Array(items)
}

/// One field of a JSON object.
pub fn entry(key: &str, value: Json) -> (r: (String, Json))
    ensures
        r.0@ == key@,
        r.1 == value,
{
    (key.to_owned(), value)
}

/// A JSON text.
pub fn text(t: &str) -> (r: Json)
    ensures
        r@ == JsonView::Text(t@),
{
    Json::Text(t.to_owned())
}

/// What a list of fields holds.
pub open spec fn fields_view(s: Seq<(String, Json)>) -> Seq<(Seq<char>, JsonView)> {
    s.map_values(|f: (String, Json)| (f.0@, f.1@))
}

/// An object of the fields.
pub fn object(fields: Vec<(String, Json)>) -> (r: Json)
    ensures
        r@ == JsonView::Object(fields_view(fields@)),
{
    proof {
        lemma_object_view(fields@);
        assert(object_view(fields@) =~= fields_view(fields@));
    }
    Json::Object(fields)
}

/// The schema of a parameter.
pub open spec fn param_schema(kind: ParamKindView, description: Seq<char>) -> JsonView {
    let said = ("description"@, JsonView::Text(description));
    let of_texts = ("items"@, JsonView::Object(seq![("type"@, JsonView::Text("string"@))]));
    JsonView::Object(
        match kind {
            ParamKindView::Text => seq![("type"@, JsonView::Text("string"@)), said],
            ParamKindView::Flag => seq![("type"@, JsonView::Text("boolean"@)), said],
            ParamKindView::Number => seq![("type"@, JsonView::Text("integer"@)), said],
            ParamKindView::Count => seq![
                ("type"@, JsonView::Text("integer"@)),
                said,
                ("minimum"@, JsonView::Unsigned(1)),
            ],
            ParamKindView::Texts => seq![("type"@, JsonView::Text("array"@)), of_texts, said],
            ParamKindView::TextsOr(v) => seq![
                ("type"@, JsonView::Text("array"@)),
                of_texts,
                said,
                ("default"@, text_list(v)),
            ],
            ParamKindView::OneOf(v) => seq![
                ("type"@, JsonView::Text("string"@)),
                said,
                ("enum"@, text_list(v)),
            ],
        },
    )
}

/// The schema of lists of texts, without its description.
fn texts_fields() -> (r: Vec<(String, Json)>)
    ensures
        fields_view(r@) == seq![
            ("type"@, JsonView::Text("array"@)),
            ("items"@, JsonView::Object(seq![("type"@, JsonView::Text("string"@))])),
        ],
{
    let mut inner: Vec<(String, Json)> = Vec::new();
    inner.push(entry("type", text("string")));
    assert(fields_view(inner@) =~= seq![("type"@, JsonView::Text("string"@))]);
    let mut f: Vec<(String, Json)> = Vec::new();
    f.push(entry("type", text("array")));
    f.push(entry("items", object(inner)));
    assert(fields_view(f@) =~= seq![
        ("type"@, JsonView::Text("array"@)),
        ("items"@, JsonView::Object(seq![("type"@, JsonView::Text("string"@))])),
    ]);
    f
}

/// The schema of a parameter.
fn schema_of(p: &Param) -> (r: Json)
    ensures
        r@ == param_schema(p.kind@, p.description@),
{
    let said = entry("description", text(p.description.as_str()));
    let ghost s = ("description"@, JsonView::Text(p.description@));
    let mut f: Vec<(String, Json)> = Vec::new();
    match &p.kind {
        ParamKind::Text => {
            f.push(entry("type", text("string")));
            f.push(said);
            assert(fields_view(f@) =~= seq![("type"@, JsonView::Text("string"@)), s]);
        },
        ParamKind::Flag => {
            f.push(entry("type", text("boolean")));
            f.push(said);
            assert(fields_view(f@) =~= seq![("type"@, JsonView::Text("boolean"@)), s]);
        },
        ParamKind::Number => {
            f.push(entry("type", text("integer")));
            f.push(said);
            assert(fields_view(f@) =~= seq![("type"@, JsonView::Text("integer"@)), s]);
        },
        ParamKind::Count => {
            f.push(entry("type", text("integer")));
            f.push(said);
            f.push(entry("minimum", Json::Unsigned(1)));
            assert(fields_view(f@) =~= seq![
                ("type"@, JsonView::Text("integer"@)),
                s,
                ("minimum"@, JsonView::Unsigned(1)),
            ]);
        },
        ParamKind::Texts => {
            f = texts_fields();
            let ghost before = fields_view(f@);
            f.push(said);
            assert(fields_view(f@) =~= before.push(s));
        },
        ParamKind::TextsOr(v) => {
            f = texts_fields();
            let ghost before = fields_view(f@);
            f.push(said);
            f.push(entry("default", list_of_texts(v)));
            assert(fields_view(f@) =~= before.push(s).push(("default"@, text_list(views(v@)))));
        },
        ParamKind::OneOf(v) => {
            f.push(entry("type", text("string")));
            f.push(said);
            f.push(entry("enum", list_of_texts(v)));
            assert(fields_view(f@) =~= seq![
                ("type"@, JsonView::Text("string"@)),
                s,
                ("enum"@, text_list(views(v@))),
            ]);
        },
    }
    assert(p.kind@ is Texts ==> fields_view(f@) =~= param_schema(
        p.kind@,
        p.description@,
    )->Object_0);
    assert(p.kind@ is TextsOr ==> fields_view(f@) =~= param_schema(
        p.kind@,
        p.description@,
    )->Object_0);
    object(f)
}

/// The names of the parameters that have to be given.
pub open spec fn required_names(s: Seq<ParamView>) -> Seq<Seq<char>>
    decreases s.len(),
{
    if s.len() == 0 {
        Seq::empty()
    } else if s.last().required {
        required_names(s.drop_last()).push(s.last().name)
    } else {
        required_names(s.drop_last())
    }
}

/// The schema of what a tool takes.
pub open spec fn input_schema(s: Seq<ParamView>) -> JsonView {
    JsonView::Object(
        seq![
            ("type"@, JsonView::Text("object"@)),
            (
                "properties"@,
                JsonView::Object(
                    s.map_values(|p: ParamView| (p.name, param_schema(p.kind, p.description))),
                ),
            ),
            ("required"@, text_list(required_names(s))),
        ],
    )
}

/// The definition of a tool with the given parameters.
pub open spec fn defined(
    name: Seq<char>,
    description: Seq<char>,
    params: Seq<ParamView>,
) -> ToolDefinitionView {
    ToolDefinitionView { name, description, input_schema: input_schema(params) }
}

/// The definition of a tool with the given parameters.
pub fn define(name: &str, description: &str, params: &Vec<Param>) -> (r: ToolDefinition)
    ensures
        r@ == defined(name@, description@, params_view(params@)),
{
    let ghost all = params_view(params@);
    let ghost want = all.map_values(
        |p: ParamView| (p.name, param_schema(p.kind, p.description)),
    );
    let mut properties: Vec<(String, Json)> = Vec::new();
    let mut needed: Vec<String> = Vec::new();
    let mut i: usize = 0;
    assert(fields_view(properties@) =~= want.take(0));
    assert(views(needed@) =~= required_names(all.take(0)));
    while i < params.len()
        invariant
            0 <= i <= params@.len(),
            all == params_view(params@),
            want == all.map_values(|p: ParamView| (p.name, param_schema(p.kind, p.description))),
            fields_view(properties@) == want.take(i as int),
            views(needed@) == required_names(all.take(i as int)),
        decreases params@.len() - i,
    {
        let ghost props = fields_view(properties@);
        let ghost names = views(needed@);
        assert(all[i as int] == params@[i as int]@);
        assert(all.take(i + 1).drop_last() =~= all.take(i as int));
        properties.push(entry(params[i].name.as_str(), schema_of(&params[i])));
        assert(fields_view(properties@) =~= props.push(want[i as int]));
        assert(want.take(i + 1) =~= want.take(i as int).push(want[i as int]));
        if params[i].required {
            needed.push(params[i].name.clone());
            assert(views(needed@) =~= names.push(params@[i as int].name@));
        }
        i += 1;
    }
    assert(all.take(i as int) =~= all);
    assert(want.take(i as int) =~= want);
    let mut f: Vec<(String, Json)> = Vec::new();
    f.push(entry("type", text("object")));
    f.push(entry("properties", object(properties)));
    f.push(entry("required", list_of_texts(&needed)));
    assert(fields_view(f@) =~= input_schema(all)->Object_0);
    ToolDefinition {
        name: name.to_owned(),
        description: description.to_owned(),
        input_schema: object(f),
    }
}

/// Gives back what it is given.
#[derive(Debug)]
pub struct EchoTool;

impl EchoTool {
    /// What the tool is.
    pub fn definition(&self) -> (r: ToolDefinition)
        ensures
            r.name@ == "echo"@,
            r.description@ == "Returns the input as-is. Useful for testing."@,
            r.input_schema@ == JsonView::Object(
                seq![
                    ("type"@, JsonView::Text("object"@)),
                    (
                        "properties"@,
                        JsonView::Object(
                            seq![
                                (
                                    "message"@,
                                    JsonView::Object(seq![("type"@, JsonView::Text("string"@))]),
                                ),
                            ],
                        ),
                    ),
                    ("required"@, text_list(seq!["message"@])),
                ],
            ),
    {
        let mut kind: Vec<(String, Json)> = Vec::new();
        kind.push(entry("type", text("string")));
        assert(fields_view(kind@) =~= seq![("type"@, JsonView::Text("string"@))]);
        let mut properties: Vec<(String, Json)> = Vec::new();
        properties.push(entry("message", object(kind)));
        assert(fields_view(properties@) =~= seq![
            ("message"@, JsonView::Object(seq![("type"@, JsonView::Text("string"@))])),
        ]);
        let mut needed: Vec<String> = Vec::new();
        needed.push("message".to_owned());
        assert(views(needed@) =~= seq!["message"@]);
        let mut f: Vec<(String, Json)> = Vec::new();
        f.push(entry("type", text("object")));
        f.push(entry("properties", object(properties)));
        f.push(entry("required", list_of_texts(&needed)));
        assert(fields_view(f@) =~= seq![
            ("type"@, JsonView::Text("object"@)),
            (
                "properties"@,
                JsonView::Object(
                    seq![
                        (
                            "message"@,
                            JsonView::Object(seq![("type"@, JsonView::Text("string"@))]),
                        ),
                    ],
                ),
            ),
            ("required"@, text_list(seq!["message"@])),
        ]);
        ToolDefinition {
            name: "echo".to_owned(),
            description: "Returns the input as-is. Useful for testing.".to_owned(),
            input_schema: object(f),
        }
    }

    /// The answer is the input.
    pub fn invoke(&self, input: Json) -> (r: Json)
        ensures
            r == input,
    {
        input
    }
}

/// The parameters that are required are exactly those that are said to be, in
/// their order.
pub proof fn law_required_are_those_said_to_be(a: Seq<ParamView>, b: Seq<ParamView>, p: ParamView)
    ensures
        required_names(a + b) == required_names(a) + required_names(b),
        required_names(seq![p]) == (if p.required {
            seq![p.name]
        } else {
            Seq::empty()
        }),
    decreases b.len(),
{
    reveal_with_fuel(required_names, 2);
    assert(seq![p].drop_last() =~= Seq::<ParamView>::empty());
    if b.len() == 0 {
        assert(a + b =~= a);
        assert(required_names(a) + required_names(b) =~= required_names(a));
    } else {
        assert((a + b).drop_last() =~= a + b.drop_last());
        law_required_are_those_said_to_be(a, b.drop_last(), p);
        assert(required_names(a + b) =~= required_names(a) + required_names(b));
    }
}

/// A schema is that of an object with a property for every parameter, under its
/// name, and lists those that are required.
pub proof fn law_schema_has_every_parameter(s: Seq<ParamView>, i: int)
    ensures
        ({
            let fields = input_schema(s)->Object_0;
            let properties = fields[1].1->Object_0;
            &&& fields.contains(("type"@, JsonView::Text("object"@)))
            &&& fields[1] == ("properties"@, JsonView::Object(properties))
            &&& fields.contains(
                (
                    "required"@,
                    JsonView::Array(
                        required_names(s).map_values(|t: Seq<char>| JsonView::Text(t)),
                    ),
                ),
            )
            &&& properties.len() == s.len()
            &&& 0 <= i < s.len() ==> properties[i] == (
                s[i].name,
                param_schema(s[i].kind, s[i].description),
            )
        }),
{
    let fields = input_schema(s)->Object_0;
    assert(fields[0].0 == "type"@ && fields[2].0 == "required"@);
}

/// What is said of a parameter is its type and its description, what a number
/// may be at the least, what texts are where none are given, and which there
/// are to choose from.
pub proof fn law_schema_of_a_parameter(
    kind: ParamKindView,
    description: Seq<char>,
    v: Seq<Seq<char>>,
)
    ensures
        ({
            let s = param_schema(kind, description)->Object_0;
            &&& s.contains(("description"@, JsonView::Text(description)))
            &&& s[0] == ("type"@, JsonView::Text(
                match kind {
                    ParamKindView::Text | ParamKindView::OneOf(_) => "string"@,
                    ParamKindView::Flag => "boolean"@,
                    ParamKindView::Number | ParamKindView::Count => "integer"@,
                    ParamKindView::Texts | ParamKindView::TextsOr(_) => "array"@,
                },
            ))
            &&& kind is Count ==> s.contains(("minimum"@, JsonView::Unsigned(1)))
            &&& kind == ParamKindView::OneOf(v) ==> s.contains(("enum"@, text_list(v)))
            &&& kind == ParamKindView::TextsOr(v) ==> s.contains(("default"@, text_list(v)))
        }),
{
    let s = param_schema(kind, description)->Object_0;
    assert(s[1] == s[1]);
    if s.len() > 2 {
        assert(s[2] == s[2]);
    }
    if s.len() > 3 {
        assert(s[3] == s[3]);
    }
}

} // verus!
