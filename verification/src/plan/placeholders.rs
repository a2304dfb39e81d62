//! Substitution of the run's directory into the parameters of a plan.

use crate::json::{array_view, object_view, Json, JsonView};
use crate::plan::role::{braceless, braces_nest, filled, law_no_placeholder_is_left};
use crate::text::{contains_text, occurs_at, replace_all, replaced};
use crate::text_laws::{law_nothing_to_replace, law_replacing_goes_from_the_left};
use vstd::prelude::*;

verus! {

/// What stands for a placeholder in the current run.
#[derive(Debug)]
pub struct Substitutions {
    /// The directory of the run.
    pub run_root: String,
}

/// `s` with the run's directory in place of `{run}`.
pub open spec fn with_run(s: Seq<char>, root: Seq<char>) -> Seq<char> {
    replaced(s, "{run}"@, root)
}

/// A value with the run's directory in place of `{run}` in every text in it.
pub open spec fn value_with_run(j: JsonView, root: Seq<char>) -> JsonView
    decreases j,
{
    match j {
        JsonView::Text(s) => JsonView::Text(with_run(s, root)),
        JsonView::Array(s) => JsonView::Array(array_with_run(s, root)),
        JsonView::Object(s) => JsonView::Object(object_with_run(s, root)),
        other => other,
    }
}

/// The elements of an array, each with the run's directory in place of `{run}`.
pub open spec fn array_with_run(s: Seq<JsonView>, root: Seq<char>) -> Seq<JsonView>
    decreases s,
{
    if s.len() == 0 {
        Seq::empty()
    } else {
        array_with_run(s.drop_last(), root).push(value_with_run(s.last(), root))
    }
}

/// The fields of an object, each value with the run's directory in place of
/// `{run}`. The names stay as they are.
pub open spec fn object_with_run(s: Seq<(Seq<char>, JsonView)>, root: Seq<char>) -> Seq<
    (Seq<char>, JsonView),
>
    decreases s,
{
    if s.len() == 0 {
        Seq::empty()
    } else {
        object_with_run(s.drop_last(), root).push((s.last().0, value_with_run(s.last().1, root)))
    }
}

impl Substitutions {
    /// Substitutions for a run in this directory.
    pub fn new(run_root: String) -> (r: Substitutions)
        ensures
            r.run_root == run_root,
    {
        Substitutions { run_root }
    }

    /// `v` with `{run}` replaced in every text in it; what is no text stays.
    pub fn apply(&self, v: &Json) -> (r: Json)
        ensures
            r@ == value_with_run(v@, self.run_root@),
        decreases v,
    {
        match v {
            Json::Text(s) => Json::Text(self.apply_str(s.as_str())),
            Json::Array(a) => {
                let mut out: Vec<Json> = Vec::new();
                let mut i: usize = 0;
                assert(array_view(a@.take(0)) =~= Seq::<JsonView>::empty());
                while i < a.len()
                    invariant
                        0 <= i <= a@.len(),
                        array_view(out@) == array_with_run(
                            array_view(a@.take(i as int)),
                            self.run_root@,
                        ),
                        *v == Json::Array(*a),
                    decreases a@.len() - i,
                {
                    let ghost before = out@;
                    assert(decreases_to!(*v => v->Array_0));
                    assert(decreases_to!(*a => a@));
                    assert(decreases_to!(a@ => a@[i as int]));
                    out.push(self.apply(&a[i]));
                    assert(out@.drop_last() =~= before);
                    assert(a@.take(i + 1).drop_last() =~= a@.take(i as int));
                    let ghost old_view = array_view(a@.take(i as int));
                    assert(array_view(a@.take(i + 1)) == old_view.push(a@[i as int]@));
                    assert(old_view.push(a@[i as int]@).drop_last() =~= old_view);
                    i += 1;
                }
                assert(a@.take(i as int) =~= a@);
                Json::Array(out)
            },
            Json::Object(o) => {
                let mut out: Vec<(String, Json)> = Vec::new();
                let mut i: usize = 0;
                assert(object_view(o@.take(0)) =~= Seq::<(Seq<char>, JsonView)>::empty());
                while i < o.len()
                    invariant
                        0 <= i <= o@.len(),
                        object_view(out@) == object_with_run(
                            object_view(o@.take(i as int)),
                            self.run_root@,
                        ),
                        *v == Json::Object(*o),
                    decreases o@.len() - i,
                {
                    let ghost before = out@;
                    assert(decreases_to!(*v => v->Object_0));
                    assert(decreases_to!(*o => o@));
                    assert(decreases_to!(o@ => o@[i as int]));
                    assert(decreases_to!(o@[i as int] => o@[i as int].1));
                    out.push((o[i].0.clone(), self.apply(&o[i].1)));
                    assert(out@.drop_last() =~= before);
                    assert(o@.take(i + 1).drop_last() =~= o@.take(i as int));
                    let ghost old_view = object_view(o@.take(i as int));
                    let ghost item = (o@[i as int].0@, o@[i as int].1@);
                    assert(object_view(o@.take(i + 1)) == old_view.push(item));
                    assert(old_view.push(item).drop_last() =~= old_view);
                    i += 1;
                }
                assert(o@.take(i as int) =~= o@);
                Json::Object(out)
            },
            other => other.copy(),
        }
    }

    /// `s` with `{run}` replaced.
    pub fn apply_str(&self, s: &str) -> (r: String)
        ensures
            r@ == with_run(s@, self.run_root@),
    {
        proof {
            reveal_strlit("{run}");
        }
        replace_all(s, "{run}", self.run_root.as_str())
    }

    /// The path that a template names.
    pub fn resolve_path(&self, template: &str) -> (r: String)
        ensures
            r@ == with_run(template@, self.run_root@),
    {
        self.apply_str(template)
    }
}

/// The directory of the run stands wherever its placeholder did, and what is
/// around it is kept.
pub proof fn law_run_stands_for_its_placeholder(
    before: Seq<char>,
    rest: Seq<char>,
    root: Seq<char>,
    plain: Seq<char>,
)
    requires
        forall|i: int|
            i < before.len() ==> !#[trigger] occurs_at(before + "{run}"@ + rest, "{run}"@, i),
        !contains_text(plain, "{run}"@),
    ensures
        with_run(before + "{run}"@ + rest, root) == before + root + with_run(rest, root),
        with_run(plain, root) == plain,
{
    reveal_strlit("{run}");
    law_replacing_goes_from_the_left(before, "{run}"@, rest, root);
    law_nothing_to_replace(plain, "{run}"@, root);
}

/// No placeholder of the run is left, where the directory has no brace in it
/// and no brace of the text opens inside another.
pub proof fn law_no_run_placeholder_is_left(s: Seq<char>, root: Seq<char>)
    requires
        braceless(root),
        !braces_nest(s),
    ensures
        !contains_text(with_run(s, root), "{run}"@),
{
    reveal_strlit("{run}");
    reveal_strlit("{");
    reveal_strlit("}");
    reveal_strlit("run");
    let fields = seq![("run"@, JsonView::Text(root))];
    assert("{"@ + "run"@ + "}"@ =~= "{run}"@);
    law_no_placeholder_is_left(s, fields, 0);
    reveal_with_fuel(filled, 2);
    assert(fields.drop_last() =~= Seq::<(Seq<char>, JsonView)>::empty());
}

/// Values keep their form: a list its elements and an object its fields, each
/// in its place, and only texts are changed.
pub proof fn law_values_keep_their_form(
    s: Seq<char>,
    a: Seq<JsonView>,
    o: Seq<(Seq<char>, JsonView)>,
    other: JsonView,
    root: Seq<char>,
    i: int,
)
    ensures
        value_with_run(JsonView::Text(s), root) == JsonView::Text(with_run(s, root)),
        value_with_run(JsonView::Array(a), root) is Array,
        value_with_run(JsonView::Array(a), root)->Array_0.len() == a.len(),
        0 <= i < a.len() ==> value_with_run(JsonView::Array(a), root)->Array_0[i] == value_with_run(
            a[i],
            root,
        ),
        value_with_run(JsonView::Object(o), root) is Object,
        value_with_run(JsonView::Object(o), root)->Object_0.len() == o.len(),
        0 <= i < o.len() ==> value_with_run(JsonView::Object(o), root)->Object_0[i] == (
            o[i].0,
            value_with_run(o[i].1, root),
        ),
        !(other is Text) && !(other is Array) && !(other is Object) ==> value_with_run(other, root)
            == other,
{
    lemma_array_keeps_its_form(a, root);
    lemma_object_keeps_its_form(o, root);
}

proof fn lemma_array_keeps_its_form(a: Seq<JsonView>, root: Seq<char>)
    ensures
        array_with_run(a, root).len() == a.len(),
        forall|i: int|
            0 <= i < a.len() ==> #[trigger] array_with_run(a, root)[i] == value_with_run(a[i], root),
    decreases a.len(),
{
    if a.len() > 0 {
        lemma_array_keeps_its_form(a.drop_last(), root);
    }
}

proof fn lemma_object_keeps_its_form(o: Seq<(Seq<char>, JsonView)>, root: Seq<char>)
    ensures
        object_with_run(o, root).len() == o.len(),
        forall|i: int|
            0 <= i < o.len() ==> #[trigger] object_with_run(o, root)[i] == (
                o[i].0,
                value_with_run(o[i].1, root),
            ),
    decreases o.len(),
{
    if o.len() > 0 {
        lemma_object_keeps_its_form(o.drop_last(), root);
    }
}

} // verus!
