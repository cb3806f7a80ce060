//! Installing the schemas of a legacy schema folder into the system index
//! of a database: each file `{version}/{path}` becomes the entry `path` of
//! the index's `schemas.{version}`.
use vstd::prelude::*;
use crate::collections::CollectionsManager;
use crate::json::{entries_insert, entry_get, jents, lemma_jents, member, JVal, JsonValue};
use crate::parser::first_index_of;
use crate::system_index::{empty_obj, set_member, settable, with_default_member};
use crate::text::{from_chars, slice_chars, to_chars};

verus! {

/// Installs legacy schemas into a database's index.
#[derive(Debug)]
pub struct SchemaBootstrapper {
    pub manager: CollectionsManager,
}

/// The member `k` of `v`, or null when there is none.
pub open spec fn member_or_null(v: JVal, k: Seq<char>) -> JVal {
    match member(v, k) {
        Some(x) => x,
        None => JVal::Null,
    }
}

/// The index with the schema `schema` installed from the file at the
/// relative path `rel`, and whether it was: the path must have a version
/// folder; `schemas.{version}` is created empty when missing.
pub open spec fn inject_spec(sys: JVal, rel: Seq<char>, schema: JVal) -> (JVal, bool) {
    let i = first_index_of(rel, '/');
    if i < 0 {
        (sys, false)
    } else {
        let version = rel.subrange(0, i);
        let key = rel.subrange(i + 1, rel.len() as int);
        let schemas = member_or_null(sys, "schemas"@);
        let s1 = if member(schemas, version) is None {
            set_member(
                if sys is Null {
                    JVal::Obj(Seq::empty())
                } else {
                    sys
                },
                "schemas"@,
                match schemas {
                    JVal::Obj(e) => JVal::Obj(entries_insert(e, version, empty_obj())),
                    _ => JVal::Obj(seq![(version, empty_obj())]),
                },
            )
        } else {
            sys
        };
        let cur = member_or_null(s1, "schemas"@);
        match member(cur, version) {
            Some(JVal::Obj(o)) => (
                set_member(s1, "schemas"@, set_member(cur, version, JVal::Obj(entries_insert(o, key, schema)))),
                true,
            ),
            _ => (s1, false),
        }
    }
}

/// The index can take a schema for `version`: it is an object (or null),
/// and so is its `schemas`, unless that already holds the version.
pub open spec fn inject_ok(sys: JVal, version: Seq<char>) -> bool {
    member(member_or_null(sys, "schemas"@), version) is None ==> (settable(sys) && settable(
        member_or_null(sys, "schemas"@),
    ))
}

impl SchemaBootstrapper {
    pub fn new(manager: CollectionsManager) -> (r: SchemaBootstrapper)
        ensures
            r.manager == manager,
    {
        SchemaBootstrapper { manager }
    }

    /// Makes sure the index has a `schemas` member.
    pub fn prepare_index(&self, sys: &mut JsonValue)
        ensures
            final(sys)@ == with_default_member(old(sys)@, "schemas"@, empty_obj()),
    {
        crate::system_index::set_default_member(sys, "schemas", crate::system_index::new_empty_object());
    }

    /// Installs the schema read from the file at the relative path
    /// `rel_path` (see `inject_spec`); tells whether it was installed.
    pub fn inject_schema(&self, sys: &mut JsonValue, rel_path: &str, schema: JsonValue) -> (installed: bool)
        requires
            first_index_of(rel_path@, '/') >= 0 ==> inject_ok(
                old(sys)@,
                rel_path@.subrange(0, first_index_of(rel_path@, '/')),
            ),
        ensures
            (final(sys)@, installed) == inject_spec(old(sys)@, rel_path@, schema@),
    {
        let rc = to_chars(rel_path);
        let i = crate::parser::find_char_pub(rc.as_slice(), '/');
        if i == rc.len() {
            return false;
        }
        let version = from_chars(slice_chars(rc.as_slice(), 0, i).as_slice());
        let key = from_chars(slice_chars(rc.as_slice(), i + 1, rc.len()).as_slice());
        let schemas = match sys.get("schemas") {
            Some(x) => x.deep_clone(),
            None => JsonValue::Null,
        };
        if !schemas.contains_key(version.as_str()) {
            let new_schemas = match schemas {
                JsonValue::Object(mut e) => {
                    crate::json::object_insert(&mut e, version.as_str(), crate::system_index::new_empty_object());
                    JsonValue::Object(e)
                },
                _ => {
                    let e = vec![(version.clone(), crate::system_index::new_empty_object())];
                    proof {
                        lemma_jents(e@);
                        assert(jents(e@) =~= seq![(version@, empty_obj())]);
                    }
                    JsonValue::Object(e)
                },
            };
            if sys.is_null() {
                *sys = crate::system_index::new_empty_object();
            }
            sys.insert("schemas", new_schemas);
        }
        let cur = match sys.get("schemas") {
            Some(x) => x.deep_clone(),
            None => JsonValue::Null,
        };
        let sub = match cur.get(version.as_str()) {
            Some(x) => x.deep_clone(),
            None => JsonValue::Null,
        };
        if sub.is_object() {
            let mut o2 = sub;
            o2.insert(key.as_str(), schema);
            let mut c2 = cur;
            c2.insert(version.as_str(), o2);
            sys.insert("schemas", c2);
            true
        } else {
            false
        }
    }
}

} // verus!
