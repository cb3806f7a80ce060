//! The system index of a database (`_system.json`): which collections and
//! rule sets it holds, under which schema, and which document files each
//! collection lists. Reading and writing the file is the caller's part; the
//! functions here compute the index's new content.
use vstd::prelude::*;
use crate::collections::{contains_lit, find_spec, schema_uri_spec, CollectionsManager};
use crate::error::{ErrorCode, RaiseError};
use crate::json::{
    entries_insert, entry_get, find_key, jents, lemma_jents, member, object_insert, JVal,
    JsonValue,
};
use crate::json_text::push_all;
use crate::schema_uri::{json_pointer, pointer};
use crate::text::{from_chars, to_chars};

verus! {

/// The schema every system index is written under.
pub open spec fn system_index_schema() -> Seq<char> {
    "db://_system/_system/schemas/v1/db/index.schema.json"@
}

/// The text of a value that is a string.
pub open spec fn str_of(v: Option<JVal>) -> Option<Seq<char>> {
    match v {
        Some(JVal::Str(s)) => Some(s),
        _ => None,
    }
}

/// The schema URI the index records for the collection (or rule set)
/// `col`: refused when the index is not written under a schema of the
/// trusted core (`_system/_system/schemas/v1/db/`), or when neither
/// `/collections/{col}/schema` nor `/rules/{col}/schema` leads to a string;
/// an empty path gives an empty URI, any other is completed by
/// `schema_uri_spec`.
pub open spec fn index_schema_spec(space: Seq<char>, db: Seq<char>, sys: JVal, col: Seq<char>) -> Result<
    Seq<char>,
    ErrorCode,
> {
    let current = match str_of(member(sys, "$schema"@)) {
        Some(s) => s,
        None => Seq::empty(),
    };
    if find_spec(current, "_system/_system/schemas/v1/db/"@) < 0 {
        Err(ErrorCode::DbIntegrityCompromised)
    } else {
        let found = match json_pointer(sys, "/collections/"@ + col + "/schema"@) {
            Some(x) => Some(x),
            None => json_pointer(sys, "/rules/"@ + col + "/schema"@),
        };
        match str_of(found) {
            None => Err(ErrorCode::DbCollectionNotFound),
            Some(p) => if p.len() == 0 {
                Ok(Seq::empty())
            } else {
                Ok(schema_uri_spec(space, db, p))
            },
        }
    }
}

fn member_pointer(prefix: &str, col: &str) -> (r: String)
    ensures
        r@ == prefix@ + col@ + "/schema"@,
{
    let mut out = to_chars(prefix);
    push_all(&to_chars(col), &mut out);
    push_all(&to_chars("/schema"), &mut out);
    from_chars(out.as_slice())
}

fn as_text(v: Option<&JsonValue>) -> (r: Option<String>)
    ensures
        match v {
            Some(x) => match str_of(Some(x@)) {
                Some(s) => r matches Some(t) && t@ == s,
                None => r is None,
            },
            None => r is None,
        },
{
    match v {
        Some(JsonValue::String(s)) => Some(s.clone()),
        _ => None,
    }
}

impl CollectionsManager {
    /// The schema URI that the system index `sys` records for `col_name`
    /// (see `index_schema_spec`).
    pub fn resolve_schema_from_index(&self, sys: &JsonValue, col_name: &str) -> (r: Result<
        String,
        RaiseError,
    >)
        ensures
            match index_schema_spec(self.space@, self.db@, sys@, col_name@) {
                Ok(u) => r matches Ok(s) && s@ == u,
                Err(c) => r matches Err(e) && e.code == c,
            },
    {
        let current = match as_text(sys.get("$schema")) {
            Some(s) => s,
            None => String::new(),
        };
        if !contains_lit(&to_chars(current.as_str()), "_system/_system/schemas/v1/db/") {
            return Err(RaiseError::new(ErrorCode::DbIntegrityCompromised, current.as_str()));
        }
        let col_ptr = member_pointer("/collections/", col_name);
        let rule_ptr = member_pointer("/rules/", col_name);
        let found = match pointer(sys, col_ptr.as_str()) {
            Some(x) => Some(x),
            None => pointer(sys, rule_ptr.as_str()),
        };
        match as_text(found) {
            None => Err(RaiseError::new(ErrorCode::DbCollectionNotFound, col_name)),
            Some(p) => {
                if to_chars(p.as_str()).len() == 0 {
                    Ok(String::new())
                } else {
                    Ok(self.build_schema_uri(p.as_str()))
                }
            },
        }
    }
}

/// `v` with the member `k` set to `dflt` when it has none; a null becomes
/// an object holding only that member, other values stay as they are.
pub open spec fn with_default_member(v: JVal, k: Seq<char>, dflt: JVal) -> JVal {
    match v {
        JVal::Null => JVal::Obj(seq![(k, dflt)]),
        JVal::Obj(e) => if entry_get(e, k) is None {
            JVal::Obj(entries_insert(e, k, dflt))
        } else {
            v
        },
        _ => v,
    }
}

/// `v` with the member `k` stored as `x` when `v` is an object.
pub open spec fn set_member(v: JVal, k: Seq<char>, x: JVal) -> JVal {
    match v {
        JVal::Obj(e) => JVal::Obj(entries_insert(e, k, x)),
        _ => v,
    }
}

/// A value that a missing member can be added to: an object, or null.
pub open spec fn settable(v: JVal) -> bool {
    v is Obj || v is Null
}

pub open spec fn empty_obj() -> JVal {
    JVal::Obj(Seq::empty())
}

pub open spec fn empty_arr() -> JVal {
    JVal::Arr(Seq::empty())
}

/// The entry of a collection in the index.
pub open spec fn collection_entry(schema: Seq<char>, items: JVal) -> JVal {
    JVal::Obj(seq![("schema"@, JVal::Str(schema)), ("items"@, items)])
}

/// The index with the collection `col` recorded under `schema`, keeping the
/// items it listed.
pub open spec fn set_collection_spec(sys: JVal, col: Seq<char>, schema: Seq<char>) -> JVal {
    let s1 = with_default_member(sys, "collections"@, empty_obj());
    match s1 {
        JVal::Obj(e) => match entry_get(e, "collections"@) {
            Some(JVal::Obj(cols)) => {
                let items = match entry_get(cols, col) {
                    Some(c) => match member(c, "items"@) {
                        Some(x) => x,
                        None => empty_arr(),
                    },
                    None => empty_arr(),
                };
                JVal::Obj(
                    entries_insert(
                        e,
                        "collections"@,
                        JVal::Obj(entries_insert(cols, col, collection_entry(schema, items))),
                    ),
                )
            },
            _ => s1,
        },
        _ => s1,
    }
}

/// Sets the member `k` of `v` to `dflt` when it has none (see
/// `with_default_member`).
pub fn set_default_member(v: &mut JsonValue, k: &str, dflt: JsonValue)
    ensures
        final(v)@ == with_default_member(old(v)@, k@, dflt@),
{
    if v.is_null() {
        let o = vec![(k.to_owned(), dflt)];
        proof {
            lemma_jents(o@);
            assert(jents(o@) =~= seq![(k@, dflt@)]);
        }
        *v = JsonValue::Object(o);
    } else if v.is_object() && !v.contains_key(k) {
        v.insert(k, dflt);
    }
}

fn clone_member(v: &JsonValue, k: &str) -> (r: Option<JsonValue>)
    ensures
        match member(v@, k@) {
            Some(x) => r matches Some(y) && y@ == x,
            None => r is None,
        },
{
    match v.get(k) {
        Some(x) => Some(x.deep_clone()),
        None => None,
    }
}

fn member_of_entries(cols: &Vec<(String, JsonValue)>, k: &str) -> (r: Option<JsonValue>)
    ensures
        match entry_get(jents(cols@), k@) {
            Some(x) => r matches Some(y) && y@ == x,
            None => r is None,
        },
{
    let i = find_key(cols, k);
    proof {
        lemma_jents(cols@);
    }
    if i < cols.len() {
        Some(cols[i].1.deep_clone())
    } else {
        None
    }
}

fn new_collection_entry(schema: &str, items: JsonValue) -> (r: JsonValue)
    ensures
        r@ == collection_entry(schema@, items@),
{
    let o = vec![("schema".to_owned(), JsonValue::String(schema.to_owned())), ("items".to_owned(), items)];
    proof {
        lemma_jents(o@);
        assert(jents(o@) =~= seq![("schema"@, JVal::Str(schema@)), ("items"@, items@)]);
    }
    JsonValue::Object(o)
}

impl CollectionsManager {
    /// Records the collection `col_name` under `schema_uri` in the system
    /// index `sys`, keeping the items it listed (see `set_collection_spec`).
    pub fn update_system_index_collection(&self, sys: &mut JsonValue, col_name: &str, schema_uri: &str)
        requires
            settable(old(sys)@),
        ensures
            final(sys)@ == set_collection_spec(old(sys)@, col_name@, schema_uri@),
    {
        set_default_member(sys, "collections", JsonValue::Object(Vec::new()));
        proof {
            lemma_jents(Seq::<(String, JsonValue)>::empty());
            assert(jents(Seq::<(String, JsonValue)>::empty()) =~= Seq::empty());
        }
        match clone_member(sys, "collections") {
            Some(JsonValue::Object(mut cols)) => {
                let items = match member_of_entries(&cols, col_name) {
                    Some(c) => match clone_member(&c, "items") {
                        Some(x) => x,
                        None => JsonValue::Array(Vec::new()),
                    },
                    None => JsonValue::Array(Vec::new()),
                };
                proof {
                    crate::json::lemma_jvs(Seq::<JsonValue>::empty());
                    assert(crate::json::jvs(Seq::<JsonValue>::empty()) =~= Seq::empty());
                }
                let entry = new_collection_entry(schema_uri, items);
                object_insert(&mut cols, col_name, entry);
                sys.insert("collections", JsonValue::Object(cols));
            },
            _ => {},
        }
    }
}

/// The item that lists a document file.
pub open spec fn file_entry(f: Seq<char>) -> JVal {
    JVal::Obj(seq![("file"@, JVal::Str(f))])
}

/// Whether an item names the file `f`.
pub open spec fn names_file(x: JVal, f: Seq<char>) -> bool {
    member(x, "file"@) == Some(JVal::Str(f))
}

/// Whether some item names the file `f`.
pub open spec fn lists_file(items: Seq<JVal>, f: Seq<char>) -> bool {
    exists|i: int| 0 <= i < items.len() && #[trigger] names_file(items[i], f)
}

/// The file name of a document.
pub open spec fn doc_file(id: Seq<char>) -> Seq<char> {
    id + ".json"@
}

/// The schema guessed for a collection the index does not list yet.
pub open spec fn schema_guess(space: Seq<char>, db: Seq<char>, sys: JVal, col: Seq<char>) -> Seq<char> {
    match index_schema_spec(space, db, sys, col) {
        Ok(u) => u,
        Err(_) => Seq::empty(),
    }
}

/// The index with the file `f` listed among the items of `col`: the
/// collection is added under `guess` when missing, its items when missing,
/// and the file when no item names it yet.
pub open spec fn add_item_spec(sys: JVal, col: Seq<char>, f: Seq<char>, guess: Seq<char>) -> JVal {
    let s1 = with_default_member(sys, "collections"@, empty_obj());
    match s1 {
        JVal::Obj(e) => match entry_get(e, "collections"@) {
            Some(JVal::Obj(cols)) => {
                let cols1 = if entry_get(cols, col) is None {
                    entries_insert(cols, col, collection_entry(guess, empty_arr()))
                } else {
                    cols
                };
                match entry_get(cols1, col) {
                    Some(ce) => {
                        let ce1 = with_default_member(ce, "items"@, empty_arr());
                        let ce2 = match member(ce1, "items"@) {
                            Some(JVal::Arr(items)) => if lists_file(items, f) {
                                ce1
                            } else {
                                set_member(ce1, "items"@, JVal::Arr(items.push(file_entry(f))))
                            },
                            _ => ce1,
                        };
                        JVal::Obj(
                            entries_insert(e, "collections"@, JVal::Obj(entries_insert(cols1, col, ce2))),
                        )
                    },
                    None => s1,
                }
            },
            _ => s1,
        },
        _ => s1,
    }
}

/// The index can take an item for `col`: it is an object (or null), and
/// the entry of `col`, when present in an object of collections, is an
/// object (or null).
pub open spec fn add_item_ok(sys: JVal, col: Seq<char>) -> bool {
    &&& settable(sys)
    &&& match member(sys, "collections"@) {
        Some(JVal::Obj(cols)) => match entry_get(cols, col) {
            Some(c) => settable(c),
            None => true,
        },
        _ => true,
    }
}

/// `items` without those naming the file `f`, in order.
pub open spec fn drop_file(items: Seq<JVal>, f: Seq<char>) -> Seq<JVal>
    decreases items.len(),
{
    if items.len() == 0 {
        Seq::empty()
    } else {
        let rest = drop_file(items.drop_last(), f);
        if names_file(items.last(), f) {
            rest
        } else {
            rest.push(items.last())
        }
    }
}

/// The items of `col` in the index, when they form an array.
pub open spec fn items_of(sys: JVal, col: Seq<char>) -> Option<Seq<JVal>> {
    match member(sys, "collections"@) {
        Some(JVal::Obj(cols)) => match entry_get(cols, col) {
            Some(ce) => match member(ce, "items"@) {
                Some(JVal::Arr(items)) => Some(items),
                _ => None,
            },
            None => None,
        },
        _ => None,
    }
}

/// The index with the items of `col` that name the file `f` taken out.
pub open spec fn remove_item_spec(sys: JVal, col: Seq<char>, f: Seq<char>) -> JVal {
    match sys {
        JVal::Obj(e) => match entry_get(e, "collections"@) {
            Some(JVal::Obj(cols)) => match entry_get(cols, col) {
                Some(ce) => match member(ce, "items"@) {
                    Some(JVal::Arr(items)) => JVal::Obj(
                        entries_insert(
                            e,
                            "collections"@,
                            JVal::Obj(
                                entries_insert(
                                    cols,
                                    col,
                                    set_member(ce, "items"@, JVal::Arr(drop_file(items, f))),
                                ),
                            ),
                        ),
                    ),
                    _ => sys,
                },
                None => sys,
            },
            _ => sys,
        },
        _ => sys,
    }
}

/// The index without the collection `col`.
pub open spec fn remove_collection_spec(sys: JVal, col: Seq<char>) -> JVal {
    match sys {
        JVal::Obj(e) => match entry_get(e, "collections"@) {
            Some(JVal::Obj(cols)) => JVal::Obj(
                entries_insert(e, "collections"@, JVal::Obj(crate::json::entries_remove(cols, col))),
            ),
            _ => sys,
        },
        _ => sys,
    }
}

/// Whether the index lists the collection `col`.
pub open spec fn lists_collection(sys: JVal, col: Seq<char>) -> bool {
    match member(sys, "collections"@) {
        Some(JVal::Obj(cols)) => entry_get(cols, col) is Some,
        _ => false,
    }
}

fn file_name(id: &str) -> (r: String)
    ensures
        r@ == doc_file(id@),
{
    let mut out = to_chars(id);
    push_all(&to_chars(".json"), &mut out);
    from_chars(out.as_slice())
}

fn names_file_exec(x: &JsonValue, f: &str) -> (b: bool)
    ensures
        b == names_file(x@, f@),
{
    match x.get("file") {
        Some(JsonValue::String(s)) => crate::text::str_equal(s.as_str(), f),
        _ => false,
    }
}

fn lists_file_exec(items: &Vec<JsonValue>, f: &str) -> (b: bool)
    ensures
        b == lists_file(crate::json::jvs(items@), f@),
{
    proof {
        crate::json::lemma_jvs(items@);
    }
    let mut i: usize = 0;
    while i < items.len()
        invariant
            i <= items@.len(),
            crate::json::jvs(items@).len() == items@.len(),
            forall|j: int| 0 <= j < items@.len() ==> #[trigger] crate::json::jvs(items@)[j] == items@[j]@,
            forall|j: int| 0 <= j < i ==> !names_file(#[trigger] crate::json::jvs(items@)[j], f@),
        decreases items.len() - i,
    {
        if names_file_exec(&items[i], f) {
            assert(names_file(crate::json::jvs(items@)[i as int], f@));
            return true;
        }
        i = i + 1;
    }
    false
}

fn drop_file_exec(items: &Vec<JsonValue>, f: &str) -> (r: Vec<JsonValue>)
    ensures
        crate::json::jvs(r@) == drop_file(crate::json::jvs(items@), f@),
{
    proof {
        crate::json::lemma_jvs(items@);
    }
    let ghost s = crate::json::jvs(items@);
    let mut out: Vec<JsonValue> = Vec::new();
    let mut i: usize = 0;
    proof {
        crate::json::lemma_jvs(out@);
        assert(s.subrange(0, 0) =~= Seq::<JVal>::empty());
        assert(crate::json::jvs(out@) =~= Seq::<JVal>::empty());
    }
    while i < items.len()
        invariant
            i <= items@.len(),
            s == crate::json::jvs(items@),
            s.len() == items@.len(),
            forall|j: int| 0 <= j < items@.len() ==> #[trigger] s[j] == items@[j]@,
            crate::json::jvs(out@) == drop_file(s.subrange(0, i as int), f@),
        decreases items.len() - i,
    {
        let ghost before = out@;
        assert(s.subrange(0, i + 1).drop_last() =~= s.subrange(0, i as int));
        assert(s.subrange(0, i + 1).last() == items@[i as int]@);
        if !names_file_exec(&items[i], f) {
            out.push(items[i].deep_clone());
            proof {
                crate::json::lemma_jvs(out@);
                crate::json::lemma_jvs(before);
                assert(crate::json::jvs(out@) =~= crate::json::jvs(before).push(items@[i as int]@));
            }
        }
        i = i + 1;
    }
    assert(s.subrange(0, items@.len() as int) =~= s);
    out
}

impl CollectionsManager {
    /// Lists the document `id` among the items of `col_name` in the system
    /// index `sys` (see `add_item_spec`); a collection the index does not
    /// list yet is added under the schema the index resolves for it, or an
    /// empty one.
    pub fn add_item_to_index(&self, sys: &mut JsonValue, col_name: &str, id: &str)
        requires
            add_item_ok(old(sys)@, col_name@),
        ensures
            final(sys)@ == add_item_spec(
                old(sys)@,
                col_name@,
                doc_file(id@),
                schema_guess(self.space@, self.db@, old(sys)@, col_name@),
            ),
    {
        let guess = match self.resolve_schema_from_index(sys, col_name) {
            Ok(u) => u,
            Err(_) => String::new(),
        };
        let filename = file_name(id);
        set_default_member(sys, "collections", JsonValue::Object(Vec::new()));
        proof {
            lemma_jents(Seq::<(String, JsonValue)>::empty());
            assert(jents(Seq::<(String, JsonValue)>::empty()) =~= Seq::empty());
            crate::json::lemma_jvs(Seq::<JsonValue>::empty());
            assert(crate::json::jvs(Seq::<JsonValue>::empty()) =~= Seq::empty());
        }
        match clone_member(sys, "collections") {
            Some(JsonValue::Object(mut cols)) => {
                if find_key(&cols, col_name) == cols.len() {
                    let entry = new_collection_entry(guess.as_str(), JsonValue::Array(Vec::new()));
                    object_insert(&mut cols, col_name, entry);
                }
                match member_of_entries(&cols, col_name) {
                    Some(mut ce) => {
                        set_default_member(&mut ce, "items", JsonValue::Array(Vec::new()));
                        match clone_member(&ce, "items") {
                            Some(JsonValue::Array(mut items)) => {
                                if !lists_file_exec(&items, filename.as_str()) {
                                    let fo = vec![("file".to_owned(), JsonValue::String(filename.clone()))];
                                    proof {
                                        lemma_jents(fo@);
                                        assert(jents(fo@) =~= seq![("file"@, JVal::Str(filename@))]);
                                    }
                                    let ghost before = items@;
                                    items.push(JsonValue::Object(fo));
                                    proof {
                                        crate::json::lemma_jvs(items@);
                                        crate::json::lemma_jvs(before);
                                        assert(crate::json::jvs(items@) =~= crate::json::jvs(before).push(
                                            file_entry(filename@),
                                        ));
                                    }
                                    ce.insert("items", JsonValue::Array(items));
                                }
                            },
                            _ => {},
                        }
                        object_insert(&mut cols, col_name, ce);
                        sys.insert("collections", JsonValue::Object(cols));
                    },
                    None => {},
                }
            },
            _ => {},
        }
    }

    /// Takes the items naming the document `id` out of the items of
    /// `col_name` in the system index `sys` (see `remove_item_spec`); tells
    /// whether one was taken out.
    pub fn remove_item_from_index(&self, sys: &mut JsonValue, col_name: &str, id: &str) -> (changed: bool)
        ensures
            final(sys)@ == remove_item_spec(old(sys)@, col_name@, doc_file(id@)),
            changed == (items_of(old(sys)@, col_name@) matches Some(items) && drop_file(
                items,
                doc_file(id@),
            ).len() < items.len()),
    {
        let filename = file_name(id);
        if !sys.is_object() {
            return false;
        }
        match clone_member(sys, "collections") {
            Some(JsonValue::Object(mut cols)) => match member_of_entries(&cols, col_name) {
                Some(mut ce) => match clone_member(&ce, "items") {
                    Some(JsonValue::Array(items)) => {
                        let kept = drop_file_exec(&items, filename.as_str());
                        let changed = kept.len() < items.len();
                        proof {
                            crate::json::lemma_jvs(kept@);
                            crate::json::lemma_jvs(items@);
                        }
                        ce.insert("items", JsonValue::Array(kept));
                        object_insert(&mut cols, col_name, ce);
                        sys.insert("collections", JsonValue::Object(cols));
                        changed
                    },
                    _ => false,
                },
                None => false,
            },
            _ => false,
        }
    }

    /// Takes the collection `col_name` out of the system index `sys`; tells
    /// whether the index listed it.
    pub fn remove_collection_from_system_index(&self, sys: &mut JsonValue, col_name: &str) -> (changed: bool)
        ensures
            final(sys)@ == remove_collection_spec(old(sys)@, col_name@),
            changed == lists_collection(old(sys)@, col_name@),
    {
        if !sys.is_object() {
            return false;
        }
        match clone_member(sys, "collections") {
            Some(JsonValue::Object(mut cols)) => {
                let r = crate::json::object_remove(&mut cols, col_name);
                sys.insert("collections", JsonValue::Object(cols));
                r.is_some()
            },
            _ => false,
        }
    }
}

/// The index has the shape that lets an item of `col` be listed: it is an
/// object (or null) whose collections, when present, form an object, in
/// which the entry of `col`, when present, is an object (or null) whose
/// items, when present, form an array.
pub open spec fn index_well_shaped(sys: JVal, col: Seq<char>) -> bool {
    &&& settable(sys)
    &&& match member(sys, "collections"@) {
        None => true,
        Some(JVal::Obj(cols)) => match entry_get(cols, col) {
            None => true,
            Some(ce) => settable(ce) && match member(ce, "items"@) {
                None => true,
                Some(x) => x is Arr,
            },
        },
        Some(_) => false,
    }
}

proof fn lemma_single_entry(k: Seq<char>, x: JVal)
    ensures
        entry_get(seq![(k, x)], k) == Some(x),
{
    crate::json::lemma_entry_index(seq![(k, x)], k);
}

proof fn lemma_drop_file_unlisted(items: Seq<JVal>, f: Seq<char>)
    ensures
        !lists_file(drop_file(items, f), f),
    decreases items.len(),
{
    if items.len() > 0 {
        lemma_drop_file_unlisted(items.drop_last(), f);
        let rest = drop_file(items.drop_last(), f);
        if !names_file(items.last(), f) {
            let d = rest.push(items.last());
            assert forall|i: int| 0 <= i < d.len() implies !#[trigger] names_file(d[i], f) by {
                if i < rest.len() {
                    assert(d[i] == rest[i]);
                }
            }
        }
    }
}

/// After the document `id` is listed in `col`, the items of `col` name its
/// file.
pub proof fn law_add_item_lists_file(sys: JVal, col: Seq<char>, id: Seq<char>, guess: Seq<char>)
    requires
        index_well_shaped(sys, col),
    ensures
        items_of(add_item_spec(sys, col, doc_file(id), guess), col) matches Some(items) && lists_file(
            items,
            doc_file(id),
        ),
{
    let f = doc_file(id);
    let s1 = with_default_member(sys, "collections"@, empty_obj());
    lemma_single_entry("collections"@, empty_obj());
    crate::json::law_entries_insert_get(
        match sys {
            JVal::Obj(e) => e,
            _ => Seq::empty(),
        },
        "collections"@,
        empty_obj(),
    );
    let e = match s1 {
        JVal::Obj(e) => e,
        _ => Seq::empty(),
    };
    assert(s1 is Obj);
    let cols = match entry_get(e, "collections"@) {
        Some(JVal::Obj(c)) => c,
        _ => Seq::empty(),
    };
    assert(entry_get(e, "collections"@) matches Some(JVal::Obj(_)));
    let cols1 = if entry_get(cols, col) is None {
        entries_insert(cols, col, collection_entry(guess, empty_arr()))
    } else {
        cols
    };
    crate::json::law_entries_insert_get(cols, col, collection_entry(guess, empty_arr()));
    let ce = entry_get(cols1, col).unwrap();
    if entry_get(cols, col) is None {
        crate::json::lemma_entry_index(seq![("schema"@, JVal::Str(guess)), ("items"@, empty_arr())], "items"@);
        assert(seq![("schema"@, JVal::Str(guess)), ("items"@, empty_arr())][1].0 == "items"@);
        assert(seq![("schema"@, JVal::Str(guess)), ("items"@, empty_arr())][0].0 != "items"@) by {
            reveal_strlit("schema");
            reveal_strlit("items");
            assert("schema"@[1] != "items"@[1]);
        }
        assert(member(ce, "items"@) == Some(empty_arr()));
    }
    let ce1 = with_default_member(ce, "items"@, empty_arr());
    lemma_single_entry("items"@, empty_arr());
    crate::json::law_entries_insert_get(
        match ce {
            JVal::Obj(x) => x,
            _ => Seq::empty(),
        },
        "items"@,
        empty_arr(),
    );
    assert(member(ce1, "items"@) matches Some(JVal::Arr(_)));
    let items = match member(ce1, "items"@) {
        Some(JVal::Arr(it)) => it,
        _ => Seq::empty(),
    };
    let ce2 = if lists_file(items, f) {
        ce1
    } else {
        set_member(ce1, "items"@, JVal::Arr(items.push(file_entry(f))))
    };
    if !lists_file(items, f) {
        crate::json::law_entries_insert_get(
            match ce1 {
                JVal::Obj(x) => x,
                _ => Seq::empty(),
            },
            "items"@,
            JVal::Arr(items.push(file_entry(f))),
        );
        lemma_single_entry("file"@, JVal::Str(f));
        let n = items.push(file_entry(f));
        assert(names_file(n[items.len() as int], f));
    }
    crate::json::law_entries_insert_get(cols1, col, ce2);
    crate::json::law_entries_insert_get(e, "collections"@, JVal::Obj(entries_insert(cols1, col, ce2)));
}

/// After the document `id` is taken out of `col`, no item of `col` names
/// its file.
pub proof fn law_remove_item_unlists_file(sys: JVal, col: Seq<char>, id: Seq<char>)
    ensures
        items_of(remove_item_spec(sys, col, doc_file(id)), col) matches Some(items) ==> !lists_file(
            items,
            doc_file(id),
        ),
{
    let f = doc_file(id);
    match sys {
        JVal::Obj(e) => match entry_get(e, "collections"@) {
            Some(JVal::Obj(cols)) => match entry_get(cols, col) {
                Some(ce) => match member(ce, "items"@) {
                    Some(JVal::Arr(items)) => {
                        let ce2 = set_member(ce, "items"@, JVal::Arr(drop_file(items, f)));
                        crate::json::law_entries_insert_get(
                            match ce {
                                JVal::Obj(x) => x,
                                _ => Seq::empty(),
                            },
                            "items"@,
                            JVal::Arr(drop_file(items, f)),
                        );
                        crate::json::law_entries_insert_get(cols, col, ce2);
                        crate::json::law_entries_insert_get(
                            e,
                            "collections"@,
                            JVal::Obj(entries_insert(cols, col, ce2)),
                        );
                        lemma_drop_file_unlisted(items, f);
                    },
                    _ => {},
                },
                None => {},
            },
            _ => {},
        },
        _ => {},
    }
}

/// The JSON number of an integer.
pub open spec fn int_num(i: i64) -> JVal {
    JVal::Num(crate::json::JsonNumber { mantissa: i, scale: 0, is_float: false })
}

/// The system index of a new database `db` of `space`: named
/// `{space}_{db}`, at version and revision 1, with no collections, rules or
/// schemas.
pub open spec fn default_index_spec(space: Seq<char>, db: Seq<char>) -> JVal {
    let name = space + "_"@ + db;
    JVal::Obj(
        seq![
            ("$schema"@, JVal::Str(system_index_schema())),
            ("handle"@, JVal::Str(name)),
            ("name"@, JVal::Str(name)),
            ("space"@, JVal::Str(space)),
            ("database"@, JVal::Str(db)),
            ("version"@, int_num(1)),
            ("_p2p"@, JVal::Obj(seq![("revision"@, int_num(1))])),
            ("collections"@, empty_obj()),
            ("rules"@, empty_obj()),
            ("schemas"@, JVal::Obj(seq![("v1"@, empty_obj())])),
        ],
    )
}

fn string_value(s: &str) -> (v: JsonValue)
    ensures
        v@ == JVal::Str(s@),
{
    JsonValue::String(s.to_owned())
}

fn one_entry(k: &str, x: JsonValue) -> (v: JsonValue)
    ensures
        v@ == JVal::Obj(seq![(k@, x@)]),
{
    let o = vec![(k.to_owned(), x)];
    proof {
        lemma_jents(o@);
        assert(jents(o@) =~= seq![(k@, x@)]);
    }
    JsonValue::Object(o)
}

pub fn new_empty_object() -> (v: JsonValue)
    ensures
        v@ == empty_obj(),
{
    let o: Vec<(String, JsonValue)> = Vec::new();
    proof {
        lemma_jents(o@);
        assert(jents(o@) =~= Seq::empty());
    }
    JsonValue::Object(o)
}

impl CollectionsManager {
    /// The system index a new database starts from (see
    /// `default_index_spec`).
    pub fn default_system_index(&self) -> (r: JsonValue)
        ensures
            r@ == default_index_spec(self.space@, self.db@),
    {
        let mut name = to_chars(self.space.as_str());
        push_all(&to_chars("_"), &mut name);
        push_all(&to_chars(self.db.as_str()), &mut name);
        let name = from_chars(name.as_slice());
        let o = vec![
            ("$schema".to_owned(), string_value("db://_system/_system/schemas/v1/db/index.schema.json")),
            ("handle".to_owned(), string_value(name.as_str())),
            ("name".to_owned(), string_value(name.as_str())),
            ("space".to_owned(), string_value(self.space.as_str())),
            ("database".to_owned(), string_value(self.db.as_str())),
            ("version".to_owned(), JsonValue::Number(crate::json::JsonNumber::from_int(1))),
            ("_p2p".to_owned(), one_entry("revision", JsonValue::Number(crate::json::JsonNumber::from_int(1)))),
            ("collections".to_owned(), new_empty_object()),
            ("rules".to_owned(), new_empty_object()),
            ("schemas".to_owned(), one_entry("v1", new_empty_object())),
        ];
        proof {
            lemma_jents(o@);
            assert(jents(o@) =~= match default_index_spec(self.space@, self.db@) {
                JVal::Obj(e) => e,
                _ => Seq::empty(),
            });
        }
        JsonValue::Object(o)
    }
}

/// Writes the system index's schema into an index object (other values are
/// left as they are).
pub fn stamp_index_schema(doc: &mut JsonValue)
    ensures
        final(doc)@ == set_member(old(doc)@, "$schema"@, JVal::Str(system_index_schema())),
{
    doc.insert("$schema", string_value("db://_system/_system/schemas/v1/db/index.schema.json"));
}

} // verus!
