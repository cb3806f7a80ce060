//! The text that stands for an entity when it is indexed for similarity
//! search in the graph store.
use vstd::prelude::*;
use crate::json::{member, JVal, JsonValue};
use crate::json_text::json_text;

verus! {

/// The text of an entity: its `description`, else its `content`, else its
/// `name` (the first of them that is a string), else the entity's compact
/// JSON text.
pub open spec fn text_content_spec(data: JVal) -> Seq<char> {
    match member(data, "description"@) {
        Some(JVal::Str(s)) => s,
        _ => match member(data, "content"@) {
            Some(JVal::Str(s)) => s,
            _ => match member(data, "name"@) {
                Some(JVal::Str(s)) => s,
                _ => json_text(data),
            },
        },
    }
}

/// The text of an entity (see `text_content_spec`).
pub fn extract_text_content(data: &JsonValue) -> (r: String)
    ensures
        r@ == text_content_spec(data@),
{
    if let Some(JsonValue::String(s)) = data.get("description") {
        return s.clone();
    }
    if let Some(JsonValue::String(s)) = data.get("content") {
        return s.clone();
    }
    if let Some(JsonValue::String(s)) = data.get("name") {
        return s.clone();
    }
    data.stringify()
}

} // verus!
