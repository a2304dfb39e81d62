//! What the tools have in common: their parameters and their permissions.

use crate::capability::Capability;
use crate::error::{CoreError, CoreErrorView};
use crate::json::{
    bool_of, collect_texts, elements_of, field, text_of, texts_among, Json, JsonView,
};
use crate::text::{contains_text, views};
use crate::text_laws::law_parts_occur;
use crate::types::AgentId;
use vstd::prelude::*;
use vstd::string::*;

verus! {

/// The error where a parameter is missing or is no text.
pub open spec fn missing_param(name: Seq<char>) -> CoreErrorView {
    CoreErrorView::InvalidManifest("missing '"@ + name + "' parameter"@)
}

/// The text of a parameter that has to be given.
pub fn required_text(input: &Json, name: &str) -> (r: Result<String, CoreError>)
    ensures
        match r {
            Ok(t) => text_of(field(input@, name@)) == Some(t@),
            Err(e) => text_of(field(input@, name@)) is None && e@ == missing_param(name@),
        },
{
    match input.get_str(name) {
        Some(t) => Ok(t.clone()),
        None => {
            let mut m = "missing '".to_owned();
            m.append(name);
            m.append("' parameter");
            Err(CoreError::InvalidManifest(m))
        },
    }
}

/// A flag, which is off where it is not given.
pub open spec fn flag_of(input: JsonView, name: Seq<char>) -> bool {
    bool_of(field(input, name)) == Some(true)
}

/// A flag, which is off where it is not given.
pub fn flag(input: &Json, name: &str) -> (r: bool)
    ensures
        r == flag_of(input@, name@),
{
    match input.get_bool(name) {
        Some(b) => b,
        None => false,
    }
}

/// The texts that a list parameter holds, if it is given.
pub open spec fn texts_of(input: JsonView, name: Seq<char>) -> Option<Seq<Seq<char>>> {
    match elements_of(field(input, name)) {
        Some(all) => Some(texts_among(all)),
        None => None,
    }
}

/// The texts that a list parameter holds, if it is given; what is no text is
/// passed over.
pub fn texts(input: &Json, name: &str) -> (r: Option<Vec<String>>)
    ensures
        match r {
            Some(v) => texts_of(input@, name@) == Some(views(v@)),
            None => texts_of(input@, name@) is None,
        },
{
    match input.get_array(name) {
        Some(all) => Some(collect_texts(all)),
        None => None,
    }
}

/// Whether any capability permits a thing, given of each whether it does.
pub open spec fn permitted(permits: Seq<bool>) -> bool {
    exists|i: int| 0 <= i < permits.len() && #[trigger] permits[i]
}

/// Whether any capability permits a thing, given of each whether it does.
pub fn any_permits(permits: &Vec<bool>) -> (r: bool)
    ensures
        r == permitted(permits@),
{
    let mut i: usize = 0;
    while i < permits.len()
        invariant
            0 <= i <= permits@.len(),
            forall|k: int| 0 <= k < i ==> !(#[trigger] permits@[k]),
        decreases permits@.len() - i,
    {
        if permits[i] {
            return true;
        }
        i += 1;
    }
    false
}

/// Lets an agent do what one of its capabilities permits.
pub fn require(
    agent_id: AgentId,
    permits: &Vec<bool>,
    capability: Capability,
    what: &str,
    subject: &str,
) -> (r: Result<(), CoreError>)
    ensures
        match r {
            Ok(_) => permitted(permits@),
            Err(e) => !permitted(permits@) && e@ == (CoreErrorView::CapabilityDenied {
                agent_id,
                capability: capability@,
                reason: what@ + subject@,
            }),
        },
{
    if any_permits(permits) {
        return Ok(());
    }
    let mut reason = what.to_owned();
    reason.append(subject);
    Err(CoreError::CapabilityDenied { agent_id, capability, reason })
}

/// What an input says is read only where it says it: a flag is set by `true`
/// alone, a list is what its texts are, and one permission is enough.
pub proof fn law_inputs_are_read_as_given(
    input: JsonView,
    name: Seq<char>,
    all: Seq<JsonView>,
    permits: Seq<bool>,
    i: int,
)
    ensures
        flag_of(input, name) <==> field(input, name) == Some(JsonView::Bool(true)),
        field(input, name) == Some(JsonView::Array(all)) ==> texts_of(input, name) == Some(
            texts_among(all),
        ),
        field(input, name) is None ==> texts_of(input, name) is None,
        0 <= i < permits.len() && permits[i] ==> permitted(permits),
        (forall|k: int| 0 <= k < permits.len() ==> !#[trigger] permits[k]) ==> !permitted(permits),
{
}

/// A parameter that is missing is named.
pub proof fn law_missing_parameter_is_named(name: Seq<char>)
    ensures
        missing_param(name) is InvalidManifest,
        contains_text(missing_param(name)->InvalidManifest_0, name),
{
    law_parts_occur("missing '"@, name, "' parameter"@);
}

} // verus!
