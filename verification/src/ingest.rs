//! Routing the model elements that an assistant produced into the
//! collections of the Arcadia layers, by the ontological mapping of their
//! kinds.
use vstd::prelude::*;
use crate::error::{ErrorCode, RaiseError};
use crate::json::{entry_get, find_key, jents, jvs, lemma_jents, lemma_jvs, member, JVal, JsonValue};
use crate::system_index::str_of;

verus! {

/// The first member value of an object that is an array, in member order.
pub open spec fn first_array(e: Seq<(Seq<char>, JVal)>) -> Option<Seq<JVal>>
    decreases e.len(),
{
    if e.len() == 0 {
        None
    } else {
        match e[0].1 {
            JVal::Arr(a) => Some(a),
            _ => first_array(e.drop_first()),
        }
    }
}

/// The elements of an assistant's output: the output itself when it is an
/// array; for an object, its `elements` array, else its first member that
/// is an array; refused otherwise.
pub open spec fn elements_spec(v: JVal) -> Result<Seq<JVal>, ErrorCode> {
    match v {
        JVal::Arr(a) => Ok(a),
        JVal::Obj(e) => match entry_get(e, "elements"@) {
            Some(JVal::Arr(a)) => Ok(a),
            _ => match first_array(e) {
                Some(a) => Ok(a),
                None => Err(ErrorCode::FormatElementsMissing),
            },
        },
        _ => Err(ErrorCode::FormatUnrecognized),
    }
}

fn clone_items(a: &Vec<JsonValue>) -> (r: Vec<JsonValue>)
    ensures
        jvs(r@) == jvs(a@),
{
    let mut out: Vec<JsonValue> = Vec::new();
    let mut i: usize = 0;
    while i < a.len()
        invariant
            i <= a@.len(),
            out@.len() == i,
            forall|j: int| 0 <= j < i ==> (#[trigger] out@[j])@ == a@[j]@,
        decreases a.len() - i,
    {
        out.push(a[i].deep_clone());
        i = i + 1;
    }
    proof {
        lemma_jvs(out@);
        lemma_jvs(a@);
        assert(jvs(out@) =~= jvs(a@));
    }
    out
}

/// The elements of an assistant's output (see `elements_spec`).
pub fn extract_elements(parsed: &JsonValue) -> (r: Result<Vec<JsonValue>, RaiseError>)
    ensures
        match elements_spec(parsed@) {
            Ok(a) => r matches Ok(v) && jvs(v@) == a,
            Err(c) => r matches Err(e) && e.code == c,
        },
{
    match parsed {
        JsonValue::Array(a) => Ok(clone_items(a)),
        JsonValue::Object(o) => {
            match parsed.get("elements") {
                Some(JsonValue::Array(a)) => {
                    return Ok(clone_items(a));
                },
                _ => {},
            }
            let ghost je = jents(o@);
            proof {
                lemma_jents(o@);
                assert(je.subrange(0, o@.len() as int) =~= je);
            }
            let mut i: usize = 0;
            while i < o.len()
                invariant
                    *parsed == JsonValue::Object(*o),
                    !(entry_get(je, "elements"@) matches Some(JVal::Arr(_))),
                    je == jents(o@),
                    je.len() == o@.len(),
                    forall|j: int| 0 <= j < o@.len() ==> #[trigger] je[j] == (o@[j].0@, o@[j].1@),
                    i <= o@.len(),
                    first_array(je) == first_array(je.subrange(i as int, o@.len() as int)),
                decreases o.len() - i,
            {
                let ghost rest = je.subrange(i as int, o@.len() as int);
                assert(rest[0] == je[i as int]);
                match &o[i].1 {
                    JsonValue::Array(a) => {
                        return Ok(clone_items(a));
                    },
                    _ => {},
                }
                assert(rest.drop_first() =~= je.subrange(i + 1, o@.len() as int));
                i = i + 1;
            }
            Err(RaiseError::new(ErrorCode::FormatElementsMissing, "elements"))
        },
        _ => Err(RaiseError::new(ErrorCode::FormatUnrecognized, "elements")),
    }
}

/// Where an element goes.
#[derive(Debug)]
pub enum ElementRoute {
    /// Upserted into `collection` of the database `layer`.
    Target { kind: String, layer: String, collection: String },
    /// Its kind is mapped, but to no collection.
    CollectionUndefined { kind: String },
    /// Its kind is not mapped.
    UnknownKind { kind: String },
}

/// The kind of an element: its string `@type`, or `Unknown`.
pub open spec fn element_kind(el: JVal) -> Seq<char> {
    match str_of(member(el, "@type"@)) {
        Some(s) => s,
        None => "Unknown"@,
    }
}

/// The route of an element by the mapping of its kind: the mapping's
/// string `layer` (else the system database) and string `collection`.
pub open spec fn route_spec(el: JVal, mappings: Seq<(Seq<char>, JVal)>, sys_db: Seq<char>) -> (
    Seq<char>,
    Option<Option<(Seq<char>, Seq<char>)>>,
) {
    let kind = element_kind(el);
    match entry_get(mappings, kind) {
        None => (kind, None),
        Some(m) => {
            let layer = match str_of(member(m, "layer"@)) {
                Some(l) => l,
                None => sys_db,
            };
            match str_of(member(m, "collection"@)) {
                Some(c) => (kind, Some(Some((layer, c)))),
                None => (kind, Some(None)),
            }
        },
    }
}

/// Whether a route is the one `route_spec` gives.
pub open spec fn route_matches(r: ElementRoute, spec: (Seq<char>, Option<Option<(Seq<char>, Seq<char>)>>)) -> bool {
    match spec.1 {
        None => r matches ElementRoute::UnknownKind { kind } && kind@ == spec.0,
        Some(None) => r matches ElementRoute::CollectionUndefined { kind } && kind@ == spec.0,
        Some(Some((l, c))) => r matches ElementRoute::Target { kind, layer, collection } && kind@
            == spec.0 && layer@ == l && collection@ == c,
    }
}

fn text_member(v: &JsonValue, k: &str) -> (r: Option<String>)
    ensures
        match str_of(member(v@, k@)) {
            Some(s) => r matches Some(x) && x@ == s,
            None => r is None,
        },
{
    match v.get(k) {
        Some(JsonValue::String(s)) => Some(s.clone()),
        _ => None,
    }
}

/// The route of one element (see `route_spec`).
pub fn route_element(el: &JsonValue, mappings: &Vec<(String, JsonValue)>, sys_db: &str) -> (r: ElementRoute)
    ensures
        route_matches(r, route_spec(el@, jents(mappings@), sys_db@)),
{
    let kind = match text_member(el, "@type") {
        Some(s) => s,
        None => "Unknown".to_owned(),
    };
    let i = find_key(mappings, kind.as_str());
    proof {
        lemma_jents(mappings@);
    }
    if i == mappings.len() {
        return ElementRoute::UnknownKind { kind };
    }
    let m = &mappings[i].1;
    let layer = match text_member(m, "layer") {
        Some(l) => l,
        None => sys_db.to_owned(),
    };
    match text_member(m, "collection") {
        Some(c) => ElementRoute::Target { kind, layer, collection: c },
        None => ElementRoute::CollectionUndefined { kind },
    }
}

/// The routes of the elements by the ontological mapping document
/// `mapping_doc`, in order; refused when its `mappings` is not an object.
pub fn plan_ingestion(mapping_doc: &JsonValue, elements: &Vec<JsonValue>, sys_db: &str) -> (r: Result<
    Vec<ElementRoute>,
    RaiseError,
>)
    ensures
        match member(mapping_doc@, "mappings"@) {
            Some(JVal::Obj(m)) => r matches Ok(routes) && routes@.len() == elements@.len() && forall|
                i: int,
            |
                0 <= i < elements@.len() ==> route_matches(
                    #[trigger] routes@[i],
                    route_spec(elements@[i]@, m, sys_db@),
                ),
            _ => r matches Err(e) && e.code == ErrorCode::MappingPropertyMissing,
        },
{
    let mappings = match mapping_doc.get("mappings") {
        Some(JsonValue::Object(m)) => m,
        _ => return Err(RaiseError::new(ErrorCode::MappingPropertyMissing, "mappings")),
    };
    let mut routes: Vec<ElementRoute> = Vec::new();
    let mut i: usize = 0;
    while i < elements.len()
        invariant
            i <= elements@.len(),
            routes@.len() == i,
            member(mapping_doc@, "mappings"@) == Some(JVal::Obj(jents(mappings@))),
            forall|j: int|
                0 <= j < i ==> route_matches(
                    #[trigger] routes@[j],
                    route_spec(elements@[j]@, jents(mappings@), sys_db@),
                ),
        decreases elements.len() - i,
    {
        routes.push(route_element(&elements[i], mappings, sys_db));
        i = i + 1;
    }
    Ok(routes)
}

} // verus!
