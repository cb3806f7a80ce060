//! Keeping an index up to date when a document is written or deleted, and
//! looking documents up in it.
use vstd::prelude::*;
use crate::changes::strs;
use crate::error::{ErrorCode, RaiseError};
use crate::index_maps::{inserted, removed, IndexMap};
use crate::json::{JVal, JsonValue};
use crate::json_text::json_text;
use crate::paths::IndexDefinition;
use crate::schema_uri::{json_pointer, pointer};

verus! {

/// The index key of a document: the compact JSON text of the value at the
/// index's field pointer, when there is one.
pub open spec fn doc_key(doc: Option<JVal>, field_path: Seq<char>) -> Option<Seq<char>> {
    match doc {
        Some(d) => match json_pointer(d, field_path) {
            Some(v) => Some(json_text(v)),
            None => None,
        },
        None => None,
    }
}

/// The lookup of `k` once the old document's key is taken out.
pub open spec fn after_old(lk: Option<Seq<Seq<char>>>, k: Seq<char>, old_key: Option<Seq<char>>, id: Seq<char>) -> Option<
    Seq<Seq<char>>,
> {
    match old_key {
        Some(ok) => removed(lk, k == ok, id),
        None => lk,
    }
}

/// A unique index already lists another document under the key.
pub open spec fn violates_unique(ids: Option<Seq<Seq<char>>>, id: Seq<char>) -> bool {
    match ids {
        Some(v) => v.len() > 0 && (v.len() > 1 || v[0] != id),
        None => false,
    }
}

pub open spec fn opt_jval(d: Option<&JsonValue>) -> Option<JVal> {
    match d {
        Some(x) => Some(x@),
        None => None,
    }
}

/// The key under which the index files the value `v`: its compact JSON
/// text.
pub fn index_key(v: &JsonValue) -> (r: String)
    ensures
        r@ == json_text(v@),
{
    v.stringify()
}

/// Updates the index `def` for the document `doc_id` going from `old_doc`
/// to `new_doc`: the old key is taken out, the new one recorded. A unique
/// index refuses a key that another document holds (the old key is then
/// already out of the index in memory). Tells whether the index changed.
pub fn update_index<T: IndexMap>(
    index: &mut T,
    def: &IndexDefinition,
    doc_id: &str,
    old_doc: Option<&JsonValue>,
    new_doc: Option<&JsonValue>,
) -> (r: Result<bool, RaiseError>)
    requires
        old(index).wf(),
    ensures
        final(index).wf(),
        ({
            let ok = doc_key(opt_jval(old_doc), def.field_path@);
            let nk = doc_key(opt_jval(new_doc), def.field_path@);
            match nk {
                Some(k0) => if def.unique && violates_unique(
                    after_old(old(index).lookup(k0), k0, ok, doc_id@),
                    doc_id@,
                ) {
                    r matches Err(e) && e.code == ErrorCode::IndexUniqueViolation && forall|k: Seq<char>|
                        #[trigger] final(index).lookup(k) == after_old(
                            old(index).lookup(k),
                            k,
                            ok,
                            doc_id@,
                        )
                } else {
                    r == Ok::<bool, RaiseError>(true) && forall|k: Seq<char>| #[trigger]
                        final(index).lookup(k) == inserted(
                            after_old(old(index).lookup(k), k, ok, doc_id@),
                            k == k0,
                            doc_id@,
                        )
                },
                None => r == Ok::<bool, RaiseError>(ok is Some) && forall|k: Seq<char>| #[trigger]
                    final(index).lookup(k) == after_old(old(index).lookup(k), k, ok, doc_id@),
            }
        }),
{
    let ghost l0 = |k: Seq<char>| index.lookup(k);
    let mut changed = false;
    let old_key: Option<String> = match old_doc {
        Some(d) => match pointer(d, def.field_path.as_str()) {
            Some(v) => Some(index_key(v)),
            None => None,
        },
        None => None,
    };
    match &old_key {
        Some(k) => {
            index.remove_record(k.as_str(), doc_id);
            changed = true;
        },
        None => {},
    }
    assert(forall|k: Seq<char>| #[trigger] index.lookup(k) == after_old(
        l0(k),
        k,
        doc_key(opt_jval(old_doc), def.field_path@),
        doc_id@,
    ));
    let new_key: Option<String> = match new_doc {
        Some(d) => match pointer(d, def.field_path.as_str()) {
            Some(v) => Some(index_key(v)),
            None => None,
        },
        None => None,
    };
    match new_key {
        Some(k) => {
            if def.unique {
                match index.get_doc_ids(k.as_str()) {
                    Some(ids) => {
                        if ids.len() > 0 && (ids.len() > 1 || !crate::text::str_equal(
                            ids[0].as_str(),
                            doc_id,
                        )) {
                            return Err(RaiseError::new(ErrorCode::IndexUniqueViolation, k.as_str()));
                        }
                    },
                    None => {},
                }
            }
            index.insert_record(k, doc_id.to_owned());
            changed = true;
        },
        None => {},
    }
    Ok(changed)
}

/// The documents the index lists under `key` (none when the key is not
/// there).
pub fn search_index<T: IndexMap>(index: &T, key: &str) -> (r: Vec<String>)
    requires
        index.wf(),
    ensures
        strs(r@) == match index.lookup(key@) {
            Some(ids) => ids,
            None => Seq::empty(),
        },
{
    match index.get_doc_ids(key) {
        Some(ids) => {
            let r = ids.clone();
            assert(r@ == ids@);
            r
        },
        None => {
            let r: Vec<String> = Vec::new();
            assert(strs(r@) =~= Seq::<Seq<char>>::empty());
            r
        },
    }
}

} // verus!
