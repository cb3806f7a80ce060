//! What the database does to a document on its way in: merging a patch,
//! locking the identity and counting revisions, finding the document an
//! upsert designates, and the checks before a write.
use vstd::prelude::*;
use crate::collections::{CollectionsManager, EntityIdentity};
use crate::error::{ErrorCode, RaiseError};
use crate::json::{
    entries_insert, entry_get, find_key, jents, lemma_jents, member, object_insert, JVal,
    JsonNumber, JsonValue,
};
use crate::json_text::push_all;
use crate::query::{conds_view, ComparisonOperator, CondV, Condition, FilterOperator, Query, QueryFilter};
use crate::system_index::{int_num, set_member, str_of};
use crate::text::{from_chars, to_chars};
use crate::vocabulary::pairs_view;

verus! {

/// `b` merged into `a`: two objects merge member by member, in the order of
/// `b`'s members, each into the member of `a` of the same key (or into
/// null); otherwise `b` replaces `a`.
pub open spec fn merge_spec(a: JVal, b: JVal) -> JVal
    decreases b, 0nat,
{
    match b {
        JVal::Obj(eb) => match a {
            JVal::Obj(ea) => JVal::Obj(merge_entries(ea, eb)),
            _ => b,
        },
        _ => b,
    }
}

/// The entries `ea` with each entry of `eb` merged in, in order.
pub open spec fn merge_entries(ea: Seq<(Seq<char>, JVal)>, eb: Seq<(Seq<char>, JVal)>) -> Seq<
    (Seq<char>, JVal),
>
    decreases eb, 1nat,
{
    if eb.len() == 0 {
        ea
    } else {
        proof {
            vstd::seq::axiom_seq_index_decreases(eb, eb.len() - 1);
            vstd::seq::axiom_seq_subrange_decreases(eb, 0, eb.len() - 1);
        }
        let acc = merge_entries(ea, eb.subrange(0, eb.len() - 1));
        let k = eb[eb.len() - 1].0;
        let cur = match entry_get(acc, k) {
            Some(x) => x,
            None => JVal::Null,
        };
        entries_insert(acc, k, merge_spec(cur, eb[eb.len() - 1].1))
    }
}

/// Merges the patch `b` into `a` (see `merge_spec`).
pub fn json_merge(a: &mut JsonValue, b: JsonValue)
    ensures
        final(a)@ == merge_spec(old(a)@, b@),
    decreases b@,
{
    if b.is_object() && a.is_object() {
        match &b {
            JsonValue::Object(eb) => {
                match a {
                    JsonValue::Object(ea) => {
                        let ghost ea0 = jents(ea@);
                        let ghost je = jents(eb@);
                        proof {
                            lemma_jents(eb@);
                            assert(je.subrange(0, 0) =~= Seq::<(Seq<char>, JVal)>::empty());
                        }
                        let mut i: usize = 0;
                        while i < eb.len()
                            invariant
                                b@ == JVal::Obj(je),
                                je == jents(eb@),
                                i <= eb@.len(),
                                je.len() == eb@.len(),
                                forall|j: int|
                                    0 <= j < eb@.len() ==> #[trigger] je[j] == (
                                        eb@[j].0@,
                                        eb@[j].1@,
                                    ),
                                jents(ea@) == merge_entries(ea0, je.subrange(0, i as int)),
                            decreases eb.len() - i,
                        {
                            let k = eb[i].0.as_str();
                            let idx = find_key(ea, k);
                            proof {
                                lemma_jents(ea@);
                            }
                            let mut cur = if idx < ea.len() {
                                ea[idx].1.deep_clone()
                            } else {
                                JsonValue::Null
                            };
                            let v = eb[i].1.deep_clone();
                            proof {
                                vstd::seq::axiom_seq_index_decreases(je, i as int);
                                assert(decreases_to!(b@ => b@->Obj_0));
                                assert(b@->Obj_0 == je);
                                assert(decreases_to!(je => je[i as int]));
                                assert(decreases_to!(je[i as int] => je[i as int].1));
                                assert(v@ == je[i as int].1);
                            }
                            json_merge(&mut cur, v);
                            object_insert(ea, k, cur);
                            proof {
                                let s = je.subrange(0, i + 1);
                                assert(s.subrange(0, i as int) =~= je.subrange(0, i as int));
                                assert(s[i as int] == je[i as int]);
                            }
                            i = i + 1;
                        }
                        proof {
                            assert(je.subrange(0, eb@.len() as int) =~= je);
                        }
                    },
                    _ => {},
                }
            },
            _ => {},
        }
    } else {
        *a = b;
    }
}

/// An integer JSON number.
pub open spec fn is_int(n: JsonNumber) -> bool {
    !n.is_float && n.scale == 0
}

/// The replication metadata with an integer `revision` counted up by one.
pub open spec fn bump_revision(p2p: JVal) -> JVal {
    match p2p {
        JVal::Obj(e) => match entry_get(e, "revision"@) {
            Some(JVal::Num(n)) => if is_int(n) {
                JVal::Obj(entries_insert(e, "revision"@, int_num((n.mantissa + 1) as i64)))
            } else {
                p2p
            },
            _ => p2p,
        },
        _ => p2p,
    }
}

/// The revision of a document can be counted up without leaving `i64`.
pub open spec fn revision_fits(doc: JVal) -> bool {
    match member(doc, "_p2p"@) {
        Some(JVal::Obj(e)) => match entry_get(e, "revision"@) {
            Some(JVal::Num(n)) => is_int(n) ==> n.mantissa < i64::MAX,
            _ => true,
        },
        _ => true,
    }
}

/// A document after an update: its primary key locked to `id`, and the
/// revision of its replication metadata counted up.
pub open spec fn lock_and_bump(doc: JVal, id: Seq<char>) -> JVal {
    match doc {
        JVal::Obj(e) => {
            let e1 = entries_insert(e, "_id"@, JVal::Str(id));
            match entry_get(e1, "_p2p"@) {
                Some(p) => if p is Obj {
                    JVal::Obj(entries_insert(e1, "_p2p"@, bump_revision(p)))
                } else {
                    JVal::Obj(e1)
                },
                None => JVal::Obj(e1),
            }
        },
        _ => doc,
    }
}

fn bump_revision_exec(p2p: &mut JsonValue)
    requires
        match old(p2p)@ {
            JVal::Obj(e) => match entry_get(e, "revision"@) {
                Some(JVal::Num(n)) => is_int(n) ==> n.mantissa < i64::MAX,
                _ => true,
            },
            _ => true,
        },
    ensures
        final(p2p)@ == bump_revision(old(p2p)@),
{
    let next = match p2p.get("revision") {
        Some(JsonValue::Number(n)) => {
            if !n.is_float && n.scale == 0 {
                Some(n.mantissa + 1)
            } else {
                None
            }
        },
        _ => None,
    };
    match next {
        Some(r) => {
            p2p.insert("revision", JsonValue::Number(JsonNumber::from_int(r)));
        },
        None => {},
    }
}

impl CollectionsManager {
    /// The document `old_doc` after the patch `patch`: merged (see
    /// `merge_spec`), its primary key locked to `id` and its revision
    /// counted up (see `lock_and_bump`); refused when there is no document.
    pub fn update_document(&self, id: &str, old_doc: Option<JsonValue>, patch: JsonValue) -> (r: Result<
        JsonValue,
        RaiseError,
    >)
        requires
            old_doc matches Some(d) ==> revision_fits(merge_spec(d@, patch@)),
        ensures
            match old_doc {
                None => r matches Err(e) && e.code == ErrorCode::DbUpdateTargetNotFound,
                Some(d) => r matches Ok(v) && v@ == lock_and_bump(merge_spec(d@, patch@), id@),
            },
    {
        match old_doc {
            None => Err(RaiseError::new(ErrorCode::DbUpdateTargetNotFound, id)),
            Some(mut doc) => {
                json_merge(&mut doc, patch);
                let ghost merged = doc@;
                if doc.is_object() {
                    doc.insert("_id", JsonValue::String(id.to_owned()));
                    proof {
                        let e = match merged {
                            JVal::Obj(e) => e,
                            _ => Seq::empty(),
                        };
                        reveal_strlit("_id");
                        reveal_strlit("_p2p");
                        assert("_p2p"@ != "_id"@) by {
                            assert("_p2p"@.len() != "_id"@.len());
                        }
                        crate::json::law_entries_insert_other(e, "_id"@, JVal::Str(id@), "_p2p"@);
                    }
                    match doc.get("_p2p") {
                        Some(p) => {
                            if p.is_object() {
                                let mut p2 = p.deep_clone();
                                bump_revision_exec(&mut p2);
                                doc.insert("_p2p", p2);
                            }
                        },
                        None => {},
                    }
                }
                Ok(doc)
            },
        }
    }

    /// Checks a document before it is written to `collection`: it needs a
    /// string `_id`; when the collection has no metadata yet (`meta_exists`
    /// false) it needs a string `$schema`, which the collection is then
    /// created with. Gives the id and that schema.
    pub fn insert_raw(&self, doc: &JsonValue, meta_exists: bool) -> (r: Result<
        (String, Option<String>),
        RaiseError,
    >)
        ensures
            match str_of(member(doc@, "_id"@)) {
                None => r matches Err(e) && e.code == ErrorCode::DocumentIdMissing,
                Some(id) => if meta_exists {
                    r matches Ok((i, s)) && i@ == id && s is None
                } else {
                    match str_of(member(doc@, "$schema"@)) {
                        Some(u) => r matches Ok((i, Some(s))) && i@ == id && s@ == u,
                        None => r matches Err(e) && e.code == ErrorCode::DbStrictSchemaRequired,
                    }
                },
            },
    {
        let id = match doc.get("_id") {
            Some(JsonValue::String(s)) => s.clone(),
            _ => return Err(RaiseError::new(ErrorCode::DocumentIdMissing, "_id")),
        };
        if meta_exists {
            return Ok((id, None));
        }
        match doc.get("$schema") {
            Some(JsonValue::String(u)) => Ok((id, Some(u.clone()))),
            _ => Err(RaiseError::new(ErrorCode::DbStrictSchemaRequired, id.as_str())),
        }
    }
}

/// How an upsert finds the document it designates: by its id, and else by
/// its `handle` or, failing that, its `name`.
#[derive(Debug)]
pub struct UpsertPlan {
    pub id: Option<String>,
    pub search: Option<(String, JsonValue)>,
}

/// Builds the plan of an upsert of `data`; refused when `data` has neither
/// a string `_id` nor a `handle` nor a `name`.
pub fn plan_upsert(data: &JsonValue) -> (r: Result<UpsertPlan, RaiseError>)
    ensures
        ({
            let id = str_of(member(data@, "_id"@));
            let h = member(data@, "handle"@);
            let n = member(data@, "name"@);
            if id is None && h is None && n is None {
                r matches Err(e) && e.code == ErrorCode::DbUpsertMissingIdentity
            } else {
                r matches Ok(p) && (match id {
                    Some(i) => p.id matches Some(x) && x@ == i,
                    None => p.id is None,
                }) && match h {
                    Some(hv) => p.search matches Some((f, v)) && f@ == "handle"@ && v@ == hv,
                    None => match n {
                        Some(nv) => p.search matches Some((f, v)) && f@ == "name"@ && v@ == nv,
                        None => p.search is None,
                    },
                }
            }
        }),
{
    let id = match data.get("_id") {
        Some(JsonValue::String(s)) => Some(s.clone()),
        _ => None,
    };
    let h = match data.get("handle") {
        Some(x) => Some(x.deep_clone()),
        None => None,
    };
    let n = match data.get("name") {
        Some(x) => Some(x.deep_clone()),
        None => None,
    };
    if id.is_none() && h.is_none() && n.is_none() {
        return Err(RaiseError::new(ErrorCode::DbUpsertMissingIdentity, "_id"));
    }
    let search = match h {
        Some(hv) => Some(("handle".to_owned(), hv)),
        None => match n {
            Some(nv) => Some(("name".to_owned(), nv)),
            None => None,
        },
    };
    Ok(UpsertPlan { id, search })
}

/// The id of the document an upsert updates: its own id when a document of
/// that id exists (`id_exists`), else the string `_id` of the first document
/// its search found; `None` when it creates a new one.
pub fn upsert_target(plan: &UpsertPlan, id_exists: bool, first_match: Option<&JsonValue>) -> (r: Option<String>)
    ensures
        match plan.id {
            Some(i) if id_exists => r matches Some(x) && x@ == i@,
            _ => match first_match {
                Some(d) => match str_of(member(d@, "_id"@)) {
                    Some(s) => r matches Some(x) && x@ == s,
                    None => r is None,
                },
                None => r is None,
            },
        },
{
    match &plan.id {
        Some(i) => {
            if id_exists {
                return Some(i.clone());
            }
        },
        None => {},
    }
    match first_match {
        Some(d) => match d.get("_id") {
            Some(JsonValue::String(s)) => Some(s.clone()),
            _ => None,
        },
        None => None,
    }
}

/// The report of an upsert: `Updated: {id}` or `Created: {id}`.
pub fn upsert_report(updated: bool, id: &str) -> (r: String)
    ensures
        r@ == (if updated {
            "Updated: "@
        } else {
            "Created: "@
        }) + id@,
{
    let mut out = if updated {
        to_chars("Updated: ")
    } else {
        to_chars("Created: ")
    };
    push_all(&to_chars(id), &mut out);
    from_chars(out.as_slice())
}

/// The query that looks a document of `collection` up by `field == value`.
pub fn identity_query(collection: &str, field: &str, value: JsonValue, limit: Option<usize>) -> (q: Query)
    ensures
        q.collection@ == collection@,
        q.filter matches Some(f) && f.operator == FilterOperator::And && conds_view(f.conditions@)
            == seq![CondV { field: field@, op: ComparisonOperator::Eq, value: value@ }],
        q.limit == limit,
        q.sort is None,
        q.offset is None,
        q.projection is None,
{
    let mut q = Query::new(collection);
    let c = Condition::eq(field, value);
    let conditions = vec![c];
    assert(conds_view(conditions@) =~= seq![c@]);
    q.filter = Some(QueryFilter { operator: FilterOperator::And, conditions });
    q.limit = limit;
    q
}

/// The id of the document to delete: the given id, or the string `_id` of
/// the first document named so; refused when no document has that name.
pub fn identity_target(identity: EntityIdentity, first_match: Option<&JsonValue>) -> (r: Result<
    String,
    RaiseError,
>)
    requires
        identity is Name ==> (first_match matches Some(d) ==> str_of(member(d@, "_id"@)) is Some),
    ensures
        match identity {
            EntityIdentity::Id(id) => r matches Ok(x) && x@ == id@,
            EntityIdentity::Name(_) => match first_match {
                Some(d) => r matches Ok(x) && str_of(member(d@, "_id"@)) == Some(x@),
                None => r matches Err(e) && e.code == ErrorCode::DbEntityNotFound,
            },
        },
{
    match identity {
        EntityIdentity::Id(id) => Ok(id),
        EntityIdentity::Name(name) => match first_match {
            Some(d) => match d.get("_id") {
                Some(JsonValue::String(s)) => Ok(s.clone()),
                _ => Err(RaiseError::new(ErrorCode::DbEntityNotFound, name.as_str())),
            },
            None => Err(RaiseError::new(ErrorCode::DbEntityNotFound, name.as_str())),
        },
    }
}

/// The smart links (`ref:collection:field:value`) among the strings of a
/// document, in depth-first order (array items and object members in
/// order).
pub open spec fn links_spec(v: JVal) -> Seq<Seq<char>>
    decreases v, 0nat,
{
    match v {
        JVal::Str(s) => if crate::collections::smart_link_spec(s) is Some {
            seq![s]
        } else {
            Seq::empty()
        },
        JVal::Arr(items) => links_items(items),
        JVal::Obj(e) => links_entries(e),
        _ => Seq::empty(),
    }
}

pub open spec fn links_items(items: Seq<JVal>) -> Seq<Seq<char>>
    decreases items, 1nat,
{
    if items.len() == 0 {
        Seq::empty()
    } else {
        proof {
            vstd::seq::axiom_seq_index_decreases(items, items.len() - 1);
            vstd::seq::axiom_seq_subrange_decreases(items, 0, items.len() - 1);
        }
        links_items(items.subrange(0, items.len() - 1)) + links_spec(items[items.len() - 1])
    }
}

pub open spec fn links_entries(e: Seq<(Seq<char>, JVal)>) -> Seq<Seq<char>>
    decreases e, 1nat,
{
    if e.len() == 0 {
        Seq::empty()
    } else {
        proof {
            vstd::seq::axiom_seq_index_decreases(e, e.len() - 1);
            vstd::seq::axiom_seq_subrange_decreases(e, 0, e.len() - 1);
        }
        links_entries(e.subrange(0, e.len() - 1)) + links_spec(e[e.len() - 1].1)
    }
}

/// Appends the smart links of `v` to `out` (see `links_spec`).
pub fn collect_smart_links(v: &JsonValue, out: &mut Vec<String>)
    ensures
        crate::changes::strs(final(out)@) == crate::changes::strs(old(out)@) + links_spec(v@),
    decreases v,
{
    let ghost o0 = crate::changes::strs(out@);
    match v {
        JsonValue::String(s) => {
            if crate::collections::parse_smart_link(s.as_str()).is_some() {
                out.push(s.clone());
            }
            assert(crate::changes::strs(out@) =~= o0 + links_spec(v@));
        },
        JsonValue::Array(a) => {
            let ghost ja = crate::json::jvs(a@);
            proof {
                crate::json::lemma_jvs(a@);
                assert(ja.subrange(0, 0) =~= Seq::<JVal>::empty());
                assert(crate::changes::strs(out@) =~= o0 + links_items(ja.subrange(0, 0)));
            }
            let mut i: usize = 0;
            while i < a.len()
                invariant
                    *v == JsonValue::Array(*a),
                    ja == crate::json::jvs(a@),
                    ja.len() == a@.len(),
                    forall|j: int| 0 <= j < a@.len() ==> #[trigger] ja[j] == a@[j]@,
                    i <= a@.len(),
                    crate::changes::strs(out@) == o0 + links_items(ja.subrange(0, i as int)),
                decreases a.len() - i,
            {
                proof {
                    vstd::std_specs::vec::axiom_vec_decreases_to_view(*a);
                    vstd::seq::axiom_seq_index_decreases(a@, i as int);
                    assert(decreases_to!(*v => v->Array_0));
                    assert(decreases_to!(*a => a@));
                    assert(decreases_to!(a@ => a@[i as int]));
                }
                collect_smart_links(&a[i], out);
                proof {
                    let s = ja.subrange(0, i + 1);
                    assert(s.subrange(0, i as int) =~= ja.subrange(0, i as int));
                    assert(s[i as int] == ja[i as int]);
                    assert(crate::changes::strs(out@) =~= o0 + links_items(s));
                }
                i = i + 1;
            }
            proof {
                assert(ja.subrange(0, a@.len() as int) =~= ja);
            }
        },
        JsonValue::Object(o) => {
            let ghost je = jents(o@);
            proof {
                lemma_jents(o@);
                assert(je.subrange(0, 0) =~= Seq::<(Seq<char>, JVal)>::empty());
                assert(crate::changes::strs(out@) =~= o0 + links_entries(je.subrange(0, 0)));
            }
            let mut i: usize = 0;
            while i < o.len()
                invariant
                    *v == JsonValue::Object(*o),
                    je == jents(o@),
                    je.len() == o@.len(),
                    forall|j: int| 0 <= j < o@.len() ==> #[trigger] je[j] == (o@[j].0@, o@[j].1@),
                    i <= o@.len(),
                    crate::changes::strs(out@) == o0 + links_entries(je.subrange(0, i as int)),
                decreases o.len() - i,
            {
                proof {
                    vstd::std_specs::vec::axiom_vec_decreases_to_view(*o);
                    vstd::seq::axiom_seq_index_decreases(o@, i as int);
                    assert(decreases_to!(*v => v->Object_0));
                    assert(decreases_to!(*o => o@));
                    assert(decreases_to!(o@ => o@[i as int]));
                    assert(decreases_to!(o@[i as int] => o@[i as int].1));
                }
                collect_smart_links(&o[i].1, out);
                proof {
                    let s = je.subrange(0, i + 1);
                    assert(s.subrange(0, i as int) =~= je.subrange(0, i as int));
                    assert(s[i as int] == je[i as int]);
                    assert(crate::changes::strs(out@) =~= o0 + links_entries(s));
                }
                i = i + 1;
            }
            proof {
                assert(je.subrange(0, o@.len() as int) =~= je);
            }
        },
        _ => {
            assert(crate::changes::strs(out@) =~= o0 + links_spec(v@));
        },
    }
}

/// The document with each smart link that `resolved` maps to an id
/// replaced by that id; other values as they were.
pub open spec fn subst_spec(v: JVal, resolved: Seq<(Seq<char>, Seq<char>)>) -> JVal
    decreases v, 0nat,
{
    match v {
        JVal::Str(s) => if crate::collections::smart_link_spec(s) is Some {
            match crate::vocabulary::assoc_get(resolved, s) {
                Some(id) => JVal::Str(id),
                None => v,
            }
        } else {
            v
        },
        JVal::Arr(items) => JVal::Arr(subst_items(items, resolved)),
        JVal::Obj(e) => JVal::Obj(subst_entries(e, resolved)),
        _ => v,
    }
}

pub open spec fn subst_items(items: Seq<JVal>, resolved: Seq<(Seq<char>, Seq<char>)>) -> Seq<JVal>
    decreases items, 1nat,
{
    if items.len() == 0 {
        Seq::empty()
    } else {
        proof {
            vstd::seq::axiom_seq_index_decreases(items, items.len() - 1);
            vstd::seq::axiom_seq_subrange_decreases(items, 0, items.len() - 1);
        }
        subst_items(items.subrange(0, items.len() - 1), resolved).push(
            subst_spec(items[items.len() - 1], resolved),
        )
    }
}

pub open spec fn subst_entries(e: Seq<(Seq<char>, JVal)>, resolved: Seq<(Seq<char>, Seq<char>)>) -> Seq<
    (Seq<char>, JVal),
>
    decreases e, 1nat,
{
    if e.len() == 0 {
        Seq::empty()
    } else {
        proof {
            vstd::seq::axiom_seq_index_decreases(e, e.len() - 1);
            vstd::seq::axiom_seq_subrange_decreases(e, 0, e.len() - 1);
        }
        subst_entries(e.subrange(0, e.len() - 1), resolved).push(
            (e[e.len() - 1].0, subst_spec(e[e.len() - 1].1, resolved)),
        )
    }
}

/// Replaces the smart links of a document by the ids they resolved to
/// (see `subst_spec`).
pub fn resolve_document_references(v: &JsonValue, resolved: &Vec<(String, String)>) -> (r: JsonValue)
    ensures
        r@ == subst_spec(v@, pairs_view(resolved@)),
    decreases v,
{
    match v {
        JsonValue::String(s) => {
            if crate::collections::parse_smart_link(s.as_str()).is_some() {
                match crate::vocabulary::assoc_lookup(resolved, s.as_str()) {
                    Some(id) => JsonValue::String(id),
                    None => JsonValue::String(s.clone()),
                }
            } else {
                JsonValue::String(s.clone())
            }
        },
        JsonValue::Array(a) => {
            let ghost ja = crate::json::jvs(a@);
            let mut out: Vec<JsonValue> = Vec::new();
            proof {
                crate::json::lemma_jvs(a@);
                crate::json::lemma_jvs(out@);
                assert(ja.subrange(0, 0) =~= Seq::<JVal>::empty());
                assert(crate::json::jvs(out@) =~= subst_items(ja.subrange(0, 0), pairs_view(resolved@)));
            }
            let mut i: usize = 0;
            while i < a.len()
                invariant
                    *v == JsonValue::Array(*a),
                    ja == crate::json::jvs(a@),
                    ja.len() == a@.len(),
                    forall|j: int| 0 <= j < a@.len() ==> #[trigger] ja[j] == a@[j]@,
                    i <= a@.len(),
                    crate::json::jvs(out@) == subst_items(ja.subrange(0, i as int), pairs_view(resolved@)),
                decreases a.len() - i,
            {
                proof {
                    vstd::std_specs::vec::axiom_vec_decreases_to_view(*a);
                    vstd::seq::axiom_seq_index_decreases(a@, i as int);
                    assert(decreases_to!(*v => v->Array_0));
                    assert(decreases_to!(*a => a@));
                    assert(decreases_to!(a@ => a@[i as int]));
                }
                let x = resolve_document_references(&a[i], resolved);
                let ghost before = out@;
                out.push(x);
                proof {
                    crate::json::lemma_jvs(out@);
                    crate::json::lemma_jvs(before);
                    let s = ja.subrange(0, i + 1);
                    assert(s.subrange(0, i as int) =~= ja.subrange(0, i as int));
                    assert(s[i as int] == ja[i as int]);
                    assert(crate::json::jvs(out@) =~= crate::json::jvs(before).push(x@));
                }
                i = i + 1;
            }
            proof {
                assert(ja.subrange(0, a@.len() as int) =~= ja);
            }
            JsonValue::Array(out)
        },
        JsonValue::Object(o) => {
            let ghost je = jents(o@);
            let mut out: Vec<(String, JsonValue)> = Vec::new();
            proof {
                lemma_jents(o@);
                lemma_jents(out@);
                assert(je.subrange(0, 0) =~= Seq::<(Seq<char>, JVal)>::empty());
                assert(jents(out@) =~= subst_entries(je.subrange(0, 0), pairs_view(resolved@)));
            }
            let mut i: usize = 0;
            while i < o.len()
                invariant
                    *v == JsonValue::Object(*o),
                    je == jents(o@),
                    je.len() == o@.len(),
                    forall|j: int| 0 <= j < o@.len() ==> #[trigger] je[j] == (o@[j].0@, o@[j].1@),
                    i <= o@.len(),
                    jents(out@) == subst_entries(je.subrange(0, i as int), pairs_view(resolved@)),
                decreases o.len() - i,
            {
                proof {
                    vstd::std_specs::vec::axiom_vec_decreases_to_view(*o);
                    vstd::seq::axiom_seq_index_decreases(o@, i as int);
                    assert(decreases_to!(*v => v->Object_0));
                    assert(decreases_to!(*o => o@));
                    assert(decreases_to!(o@ => o@[i as int]));
                    assert(decreases_to!(o@[i as int] => o@[i as int].1));
                }
                let x = resolve_document_references(&o[i].1, resolved);
                let ghost before = out@;
                out.push((o[i].0.clone(), x));
                proof {
                    lemma_jents(out@);
                    lemma_jents(before);
                    let s = je.subrange(0, i + 1);
                    assert(s.subrange(0, i as int) =~= je.subrange(0, i as int));
                    assert(s[i as int] == je[i as int]);
                    assert(jents(out@) =~= jents(before).push((o@[i as int].0@, x@)));
                }
                i = i + 1;
            }
            proof {
                assert(je.subrange(0, o@.len() as int) =~= je);
            }
            JsonValue::Object(out)
        },
        JsonValue::Null => JsonValue::Null,
        JsonValue::Bool(b) => JsonValue::Bool(*b),
        JsonValue::Number(n) => JsonValue::Number(*n),
    }
}

/// The id a smart link resolves to, from the first document its query
/// found: that document's string `_id` (empty when it has none); `None`
/// when nothing was found, and the link stays.
pub fn resolved_id(first_match: Option<&JsonValue>) -> (r: Option<String>)
    ensures
        match first_match {
            Some(d) => r matches Some(x) && x@ == match str_of(member(d@, "_id"@)) {
                Some(s) => s,
                None => Seq::empty(),
            },
            None => r is None,
        },
{
    match first_match {
        Some(d) => match d.get("_id") {
            Some(JsonValue::String(s)) => Some(s.clone()),
            _ => Some(String::new()),
        },
        None => None,
    }
}

/// The keys of entries are distinct.
pub open spec fn distinct_keys(e: Seq<(Seq<char>, JVal)>) -> bool {
    forall|i: int, j: int| 0 <= i < j < e.len() ==> e[i].0 != e[j].0
}

/// Merging a patch object into an object: each member of the patch is the
/// merge of the old member (or null) with the patch's; every other member
/// is kept.
pub proof fn law_merge_members(ea: Seq<(Seq<char>, JVal)>, eb: Seq<(Seq<char>, JVal)>, k: Seq<char>)
    requires
        distinct_keys(eb),
    ensures
        entry_get(merge_entries(ea, eb), k) == match entry_get(eb, k) {
            Some(v) => Some(
                merge_spec(
                    match entry_get(ea, k) {
                        Some(x) => x,
                        None => JVal::Null,
                    },
                    v,
                ),
            ),
            None => entry_get(ea, k),
        },
    decreases eb.len(),
{
    if eb.len() == 0 {
        crate::json::lemma_entry_index(eb, k);
    } else {
        let ebd = eb.subrange(0, eb.len() - 1);
        assert(distinct_keys(ebd)) by {
            assert forall|i: int, j: int| 0 <= i < j < ebd.len() implies ebd[i].0 != ebd[j].0 by {
                assert(ebd[i] == eb[i] && ebd[j] == eb[j]);
            }
        }
        let last = eb[eb.len() - 1];
        let acc = merge_entries(ea, ebd);
        let cur = match entry_get(acc, last.0) {
            Some(x) => x,
            None => JVal::Null,
        };
        law_merge_members(ea, ebd, k);
        law_merge_members(ea, ebd, last.0);
        crate::json::lemma_entry_index(eb, k);
        crate::json::lemma_entry_index(ebd, k);
        crate::json::lemma_entry_index(ebd, last.0);
        assert forall|j: int| 0 <= j < ebd.len() implies ebd[j].0 != last.0 by {
            assert(ebd[j] == eb[j]);
        }
        if k == last.0 {
            crate::json::law_entries_insert_get(acc, k, merge_spec(cur, last.1));
            assert(entry_get(ebd, k) is None) by {
                if entry_get(ebd, k) is Some {
                    let i = crate::json::entry_index(ebd, k);
                    assert(ebd[i].0 == k);
                }
            }
            assert(entry_get(eb, k) == Some(last.1)) by {
                let i = crate::json::entry_index(eb, k);
                if i >= 0 && i < eb.len() - 1 {
                    assert(eb[i].0 == k);
                } else if i == -1 {
                    assert(eb[eb.len() - 1].0 == k);
                }
            }
        } else {
            crate::json::law_entries_insert_other(acc, last.0, merge_spec(cur, last.1), k);
            assert(entry_get(eb, k) == entry_get(ebd, k)) by {
                let i = crate::json::entry_index(eb, k);
                let i2 = crate::json::entry_index(ebd, k);
                if i >= 0 {
                    assert(i < eb.len() - 1);
                    assert(ebd[i] == eb[i]);
                }
                if i2 >= 0 {
                    assert(eb[i2] == ebd[i2]);
                }
            }
        }
    }
}

/// A document whose links resolve to nothing is left as it is: links that
/// find no document stay as written.
pub proof fn law_unresolved_links_stay(v: JVal)
    ensures
        subst_spec(v, Seq::empty()) == v,
    decreases v, 0nat,
{
    match v {
        JVal::Arr(items) => {
            lemma_subst_items_empty(items);
        },
        JVal::Obj(e) => {
            lemma_subst_entries_empty(e);
        },
        _ => {},
    }
}

proof fn lemma_subst_items_empty(items: Seq<JVal>)
    ensures
        subst_items(items, Seq::empty()) == items,
    decreases items, 1nat,
{
    if items.len() > 0 {
        vstd::seq::axiom_seq_index_decreases(items, items.len() - 1);
        vstd::seq::axiom_seq_subrange_decreases(items, 0, items.len() - 1);
        lemma_subst_items_empty(items.subrange(0, items.len() - 1));
        law_unresolved_links_stay(items[items.len() - 1]);
        assert(items.subrange(0, items.len() - 1).push(items[items.len() - 1]) =~= items);
    } else {
        assert(subst_items(items, Seq::empty()) =~= items);
    }
}

proof fn lemma_subst_entries_empty(e: Seq<(Seq<char>, JVal)>)
    ensures
        subst_entries(e, Seq::empty()) == e,
    decreases e, 1nat,
{
    if e.len() > 0 {
        vstd::seq::axiom_seq_index_decreases(e, e.len() - 1);
        vstd::seq::axiom_seq_subrange_decreases(e, 0, e.len() - 1);
        lemma_subst_entries_empty(e.subrange(0, e.len() - 1));
        law_unresolved_links_stay(e[e.len() - 1].1);
        assert(e.subrange(0, e.len() - 1).push((e[e.len() - 1].0, e[e.len() - 1].1)) =~= e);
    } else {
        assert(subst_entries(e, Seq::empty()) =~= e);
    }
}

} // verus!
