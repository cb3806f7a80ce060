//! Executing a query over loaded documents: filtering, stable sorting by
//! the sort keys, paging and projection; and the decisions the engine takes
//! before loading (primary-key lookup, index probes, collection paths).
use vstd::prelude::*;
use crate::json::{JVal, JsonValue, entries_insert, jents, jvs, lemma_jents, lemma_jvs, object_insert};
use crate::parser::strings_view;
use crate::query::{
    ComparisonOperator, CondV, Projection, Query, QueryFilter, QueryResult, SortField, SortOrder,
    conds_view,
};
use crate::query_eval::{
    chars_eq_ci, compare_json, compare_json_values, eq_ascii_ci, evaluate_filter, field_value,
    filter_holds, get_field_value_smart, leaf_of, leaf_segment, normalize_field_path,
    normalize_path,
};
use crate::text::{from_chars, str_equal, to_chars};

verus! {

/// The sort keys: field and order.
pub open spec fn sort_view(s: Seq<SortField>) -> Seq<(Seq<char>, SortOrder)> {
    s.map_values(|f: SortField| (f.field@, f.order))
}

/// Ordering of two documents by the sort keys from position `j` on: the
/// first key on which they differ decides, reversed for `Desc`.
pub open spec fn compare_docs_spec(
    a: JVal,
    b: JVal,
    keys: Seq<(Seq<char>, SortOrder)>,
    coll: Seq<char>,
    j: int,
) -> int
    decreases keys.len() - j,
{
    if j < 0 || j >= keys.len() {
        0
    } else {
        let c = compare_json(field_value(a, keys[j].0, coll), field_value(b, keys[j].0, coll));
        if c != 0 {
            match keys[j].1 {
                SortOrder::Asc => c,
                SortOrder::Desc => -c,
            }
        } else {
            compare_docs_spec(a, b, keys, coll, j + 1)
        }
    }
}

/// Where `x` goes among the first `k` sorted documents: after every one
/// it does not sort before, scanning from the end.
pub open spec fn insert_pos(
    s: Seq<JVal>,
    x: JVal,
    keys: Seq<(Seq<char>, SortOrder)>,
    coll: Seq<char>,
    k: int,
) -> int
    decreases k,
{
    if k <= 0 {
        0
    } else if compare_docs_spec(x, s[k - 1], keys, coll, 0) < 0 {
        insert_pos(s, x, keys, coll, k - 1)
    } else {
        k
    }
}

/// The documents stably sorted by the keys: each one in turn is inserted
/// after the documents it does not sort before.
pub open spec fn stable_sort(s: Seq<JVal>, keys: Seq<(Seq<char>, SortOrder)>, coll: Seq<char>) -> Seq<
    JVal,
>
    decreases s.len(),
{
    if s.len() == 0 {
        Seq::empty()
    } else {
        let r = stable_sort(s.drop_last(), keys, coll);
        r.insert(insert_pos(r, s.last(), keys, coll, r.len() as int), s.last())
    }
}

/// The documents satisfying the filter, in order.
pub open spec fn filter_docs(
    s: Seq<JVal>,
    op: crate::query::FilterOperator,
    cs: Seq<CondV>,
    coll: Seq<char>,
) -> Seq<JVal>
    decreases s.len(),
{
    if s.len() == 0 {
        Seq::empty()
    } else {
        let r = filter_docs(s.drop_last(), op, cs, coll);
        if filter_holds(s.last(), op, cs, coll) {
            r.push(s.last())
        } else {
            r
        }
    }
}

/// The mathematical value of a projection.
pub enum ProjV {
    Include(Seq<Seq<char>>),
    Exclude(Seq<Seq<char>>),
}

pub open spec fn proj_view(p: Projection) -> ProjV {
    match p {
        Projection::Include(fs) => ProjV::Include(strings_view(fs@)),
        Projection::Exclude(fs) => ProjV::Exclude(strings_view(fs@)),
    }
}

/// The members an `Include` projection keeps, keyed by the fields' leaves.
pub open spec fn include_fold(doc: JVal, fs: Seq<Seq<char>>, coll: Seq<char>, n: int) -> Seq<
    (Seq<char>, JVal),
>
    decreases n,
{
    if n <= 0 {
        Seq::empty()
    } else {
        let acc = include_fold(doc, fs, coll, n - 1);
        match field_value(doc, fs[n - 1], coll) {
            Some(v) => entries_insert(acc, leaf_of(fs[n - 1]), v),
            None => acc,
        }
    }
}

/// Whether an `Exclude` projection bans key `k`: a field whose normalized
/// path or leaf is `k`, ignoring ASCII case.
pub open spec fn banned(k: Seq<char>, fs: Seq<Seq<char>>, coll: Seq<char>) -> bool {
    exists|i: int|
        0 <= i < fs.len() && (eq_ascii_ci(normalize_path(#[trigger] fs[i], coll), k) || eq_ascii_ci(
            leaf_of(fs[i]),
            k,
        ))
}

pub open spec fn exclude_fold(
    e: Seq<(Seq<char>, JVal)>,
    fs: Seq<Seq<char>>,
    coll: Seq<char>,
    n: int,
) -> Seq<(Seq<char>, JVal)>
    decreases n,
{
    if n <= 0 {
        Seq::empty()
    } else {
        let acc = exclude_fold(e, fs, coll, n - 1);
        if banned(e[n - 1].0, fs, coll) {
            acc
        } else {
            entries_insert(acc, e[n - 1].0, e[n - 1].1)
        }
    }
}

/// A document projected: `Include` keeps the listed fields (all of them
/// for an empty list), `Exclude` drops the banned members; other values
/// are kept.
pub open spec fn project_spec(doc: JVal, p: ProjV, coll: Seq<char>) -> JVal {
    match doc {
        JVal::Obj(e) => match p {
            ProjV::Include(fs) => if fs.len() == 0 {
                doc
            } else {
                JVal::Obj(include_fold(doc, fs, coll, fs.len() as int))
            },
            ProjV::Exclude(fs) => JVal::Obj(exclude_fold(e, fs, coll, e.len() as int)),
        },
        _ => doc,
    }
}

/// The start and end of the page `offset`, `limit` within `n` documents.
pub open spec fn page_start(n: int, offset: int) -> int {
    if offset < n {
        offset
    } else {
        n
    }
}

pub open spec fn page_end(n: int, offset: int, limit: int) -> int {
    let st = page_start(n, offset);
    if limit < n - st {
        st + limit
    } else {
        n
    }
}

fn compare_docs(a: &JsonValue, b: &JsonValue, sort: &Vec<SortField>, coll: &str) -> (r: i8)
    ensures
        r as int == compare_docs_spec(a@, b@, sort_view(sort@), coll@, 0),
{
    let ghost keys = sort_view(sort@);
    let mut j: usize = 0;
    while j < sort.len()
        invariant
            j <= sort@.len(),
            keys == sort_view(sort@),
            compare_docs_spec(a@, b@, keys, coll@, 0) == compare_docs_spec(
                a@,
                b@,
                keys,
                coll@,
                j as int,
            ),
        decreases sort.len() - j,
    {
        let f = sort[j].field.as_str();
        let c = compare_json_values(
            get_field_value_smart(a, f, coll),
            get_field_value_smart(b, f, coll),
        );
        if c != 0 {
            return match sort[j].order {
                SortOrder::Asc => c,
                SortOrder::Desc => -c,
            };
        }
        j = j + 1;
    }
    0
}

/// The documents stably sorted by the keys (see `stable_sort`).
pub fn sort_documents(docs: Vec<JsonValue>, sort: &Vec<SortField>, coll: &str) -> (r: Vec<JsonValue>)
    ensures
        jvs(r@) == stable_sort(jvs(docs@), sort_view(sort@), coll@),
{
    let ghost keys = sort_view(sort@);
    let ghost dv = jvs(docs@);
    proof {
        lemma_jvs(docs@);
    }
    let mut out: Vec<JsonValue> = Vec::new();
    let mut i: usize = 0;
    while i < docs.len()
        invariant
            i <= docs@.len(),
            keys == sort_view(sort@),
            dv == jvs(docs@),
            dv.len() == docs@.len(),
            forall|m: int| 0 <= m < docs@.len() ==> #[trigger] dv[m] == docs@[m]@,
            jvs(out@) == stable_sort(dv.take(i as int), keys, coll@),
        decreases docs.len() - i,
    {
        proof {
            assert(dv.take(i + 1).drop_last() =~= dv.take(i as int));
            assert(dv.take(i + 1).last() == docs@[i as int]@);
            lemma_jvs(out@);
        }
        let x = &docs[i];
        let ghost r = jvs(out@);
        let mut k: usize = out.len();
        while k > 0 && compare_docs(x, &out[k - 1], sort, coll) < 0
            invariant
                k <= out@.len(),
                r == jvs(out@),
                r.len() == out@.len(),
                forall|m: int| 0 <= m < out@.len() ==> #[trigger] r[m] == out@[m]@,
                insert_pos(r, x@, keys, coll@, out@.len() as int) == insert_pos(
                    r,
                    x@,
                    keys,
                    coll@,
                    k as int,
                ),
                keys == sort_view(sort@),
            decreases k,
        {
            k = k - 1;
        }
        let ghost before = out@;
        out.insert(k, x.deep_clone());
        proof {
            lemma_jvs(out@);
            lemma_jvs(before);
            assert(jvs(out@) =~= r.insert(k as int, x@));
        }
        i = i + 1;
    }
    proof {
        assert(dv.take(docs@.len() as int) =~= dv);
    }
    out
}

/// The documents satisfying the filter, in order (see `filter_docs`).
pub fn filter_documents(docs: Vec<JsonValue>, filter: &QueryFilter, coll: &str) -> (r: Vec<JsonValue>)
    ensures
        jvs(r@) == filter_docs(jvs(docs@), filter.operator, conds_view(filter.conditions@), coll@),
{
    let ghost dv = jvs(docs@);
    let ghost cs = conds_view(filter.conditions@);
    proof {
        lemma_jvs(docs@);
    }
    let mut out: Vec<JsonValue> = Vec::new();
    let mut i: usize = 0;
    while i < docs.len()
        invariant
            i <= docs@.len(),
            dv == jvs(docs@),
            cs == conds_view(filter.conditions@),
            dv.len() == docs@.len(),
            forall|m: int| 0 <= m < docs@.len() ==> #[trigger] dv[m] == docs@[m]@,
            jvs(out@) == filter_docs(dv.take(i as int), filter.operator, cs, coll@),
        decreases docs.len() - i,
    {
        proof {
            assert(dv.take(i + 1).drop_last() =~= dv.take(i as int));
            assert(dv.take(i + 1).last() == docs@[i as int]@);
        }
        if evaluate_filter(&docs[i], filter, coll) {
            let ghost before = out@;
            out.push(docs[i].deep_clone());
            proof {
                lemma_jvs(out@);
                lemma_jvs(before);
                assert(jvs(out@) =~= jvs(before).push(docs@[i as int]@));
            }
        }
        i = i + 1;
    }
    proof {
        assert(dv.take(docs@.len() as int) =~= dv);
    }
    out
}

fn banned_key(k: &String, fs: &Vec<String>, coll: &str) -> (b: bool)
    ensures
        b == banned(k@, strings_view(fs@), coll@),
{
    let kc = to_chars(k.as_str());
    let cc = to_chars(coll);
    let mut i: usize = 0;
    while i < fs.len()
        invariant
            i <= fs@.len(),
            kc@ == k@,
            cc@ == coll@,
            forall|m: int|
                0 <= m < i ==> !(eq_ascii_ci(
                    normalize_path(#[trigger] strings_view(fs@)[m], coll@),
                    k@,
                ) || eq_ascii_ci(leaf_of(strings_view(fs@)[m]), k@)),
        decreases fs.len() - i,
    {
        let f = to_chars(fs[i].as_str());
        let norm = normalize_field_path(f.as_slice(), cc.as_slice());
        let leaf = leaf_segment(f.as_slice());
        if chars_eq_ci(norm.as_slice(), kc.as_slice()) || chars_eq_ci(leaf.as_slice(), kc.as_slice()) {
            assert(strings_view(fs@)[i as int] == fs@[i as int]@);
            return true;
        }
        i = i + 1;
    }
    false
}

/// A document projected (see `project_spec`).
pub fn project_fields(doc: &JsonValue, projection: &Projection, coll: &str) -> (r: JsonValue)
    ensures
        r@ == project_spec(doc@, proj_view(*projection), coll@),
{
    match doc {
        JsonValue::Object(o) => match projection {
            Projection::Include(fields) => {
                if fields.len() == 0 {
                    return doc.deep_clone();
                }
                let ghost fs = strings_view(fields@);
                let mut out: Vec<(String, JsonValue)> = Vec::new();
                let mut i: usize = 0;
                while i < fields.len()
                    invariant
                        i <= fields@.len(),
                        fs == strings_view(fields@),
                        jents(out@) == include_fold(doc@, fs, coll@, i as int),
                    decreases fields.len() - i,
                {
                    proof {
                        assert(fs[i as int] == fields@[i as int]@);
                    }
                    match get_field_value_smart(doc, fields[i].as_str(), coll) {
                        Some(v) => {
                            let leaf = leaf_segment(to_chars(fields[i].as_str()).as_slice());
                            object_insert(&mut out, from_chars(leaf.as_slice()).as_str(), v.deep_clone());
                        },
                        None => {},
                    }
                    i = i + 1;
                }
                JsonValue::Object(out)
            },
            Projection::Exclude(fields) => {
                proof {
                    lemma_jents(o@);
                }
                let mut out: Vec<(String, JsonValue)> = Vec::new();
                let mut i: usize = 0;
                while i < o.len()
                    invariant
                        i <= o@.len(),
                        jents(o@).len() == o@.len(),
                        forall|m: int|
                            0 <= m < o@.len() ==> #[trigger] jents(o@)[m] == (o@[m].0@, o@[m].1@),
                        jents(out@) == exclude_fold(jents(o@), strings_view(fields@), coll@, i as int),
                    decreases o.len() - i,
                {
                    if !banned_key(&o[i].0, fields, coll) {
                        object_insert(&mut out, o[i].0.as_str(), o[i].1.deep_clone());
                    }
                    i = i + 1;
                }
                JsonValue::Object(out)
            },
        },
        _ => doc.deep_clone(),
    }
}

/// The result of a query over loaded documents: the documents satisfying
/// the filter, stably sorted by the sort keys, counted, paged (offset 0
/// and all documents by default) and projected.
pub open spec fn query_docs_spec(q: Query, docs: Seq<JVal>) -> (Seq<JVal>, nat, nat, nat) {
    let filtered = match q.filter {
        Some(f) => filter_docs(docs, f.operator, conds_view(f.conditions@), q.collection@),
        None => docs,
    };
    let sorted = match q.sort {
        Some(keys) => stable_sort(filtered, sort_view(keys@), q.collection@),
        None => filtered,
    };
    let n = sorted.len();
    let off: nat = match q.offset {
        Some(o) => o as nat,
        None => 0,
    };
    let lim: nat = match q.limit {
        Some(l) => l as nat,
        None => n,
    };
    let page = sorted.subrange(
        page_start(n as int, off as int),
        page_end(n as int, off as int, lim as int),
    );
    let projected = match q.projection {
        Some(p) => page.map_values(|d: JVal| project_spec(d, proj_view(p), q.collection@)),
        None => page,
    };
    (projected, n, off, lim)
}

fn page_plain(sorted: &Vec<JsonValue>, st: usize, en: usize) -> (r: Vec<JsonValue>)
    requires
        st <= en <= sorted@.len(),
    ensures
        jvs(r@) == jvs(sorted@).subrange(st as int, en as int),
{
    proof {
        lemma_jvs(sorted@);
    }
    let mut page: Vec<JsonValue> = Vec::new();
    let mut i: usize = st;
    while i < en
        invariant
            st <= i <= en <= sorted@.len(),
            jvs(sorted@).len() == sorted@.len(),
            forall|m: int| 0 <= m < sorted@.len() ==> #[trigger] jvs(sorted@)[m] == sorted@[m]@,
            jvs(page@) == jvs(sorted@).subrange(st as int, i as int),
        decreases en - i,
    {
        let d = sorted[i].deep_clone();
        let ghost before = page@;
        page.push(d);
        proof {
            lemma_jvs(page@);
            lemma_jvs(before);
            assert(jvs(page@) =~= jvs(before).push(d@));
            assert(jvs(sorted@).subrange(st as int, i + 1) =~= jvs(sorted@).subrange(
                st as int,
                i as int,
            ).push(sorted@[i as int]@));
        }
        i = i + 1;
    }
    page
}

fn page_projected(
    sorted: &Vec<JsonValue>,
    st: usize,
    en: usize,
    p: &Projection,
    coll: &str,
) -> (r: Vec<JsonValue>)
    requires
        st <= en <= sorted@.len(),
    ensures
        jvs(r@) == jvs(sorted@).subrange(st as int, en as int).map_values(
            |d: JVal| project_spec(d, proj_view(*p), coll@),
        ),
{
    proof {
        lemma_jvs(sorted@);
    }
    let mut page: Vec<JsonValue> = Vec::new();
    let mut i: usize = st;
    while i < en
        invariant
            st <= i <= en <= sorted@.len(),
            jvs(sorted@).len() == sorted@.len(),
            forall|m: int| 0 <= m < sorted@.len() ==> #[trigger] jvs(sorted@)[m] == sorted@[m]@,
            jvs(page@) == jvs(sorted@).subrange(st as int, i as int).map_values(
                |d: JVal| project_spec(d, proj_view(*p), coll@),
            ),
        decreases en - i,
    {
        let d = project_fields(&sorted[i], p, coll);
        let ghost before = page@;
        page.push(d);
        proof {
            lemma_jvs(page@);
            lemma_jvs(before);
            assert(jvs(page@) =~= jvs(before).push(d@));
            assert(jvs(sorted@).subrange(st as int, i + 1).map_values(
                |d: JVal| project_spec(d, proj_view(*p), coll@),
            ) =~= jvs(sorted@).subrange(st as int, i as int).map_values(
                |d: JVal| project_spec(d, proj_view(*p), coll@),
            ).push(project_spec(sorted@[i as int]@, proj_view(*p), coll@)));
        }
        i = i + 1;
    }
    page
}

/// The query engine's evaluation of a query over the documents it loaded.
#[derive(Debug)]
pub struct QueryEngine {}

impl QueryEngine {
    pub fn new() -> (e: QueryEngine) {
        QueryEngine {  }
    }

    /// Filters, sorts, pages and projects the loaded documents (see
    /// `query_docs_spec`).
    pub fn finish_query(&self, query: &Query, documents: Vec<JsonValue>) -> (r: QueryResult)
        ensures
            jvs(r.documents@) == query_docs_spec(*query, jvs(documents@)).0,
            r.total_count as int == query_docs_spec(*query, jvs(documents@)).1,
            r.offset == Some(query_docs_spec(*query, jvs(documents@)).2 as usize),
            r.limit == Some(query_docs_spec(*query, jvs(documents@)).3 as usize),
    {
        let coll = query.collection.as_str();
        let filtered = match &query.filter {
            Some(f) => filter_documents(documents, f, coll),
            None => documents,
        };
        let sorted = match &query.sort {
            Some(keys) => sort_documents(filtered, keys, coll),
            None => filtered,
        };
        let n = sorted.len();
        proof {
            lemma_jvs(sorted@);
            let fs = match &query.filter {
                Some(f) => filter_docs(
                    jvs(documents@),
                    f.operator,
                    conds_view(f.conditions@),
                    query.collection@,
                ),
                None => jvs(documents@),
            };
            assert(jvs(filtered@) == fs);
            let ss = match &query.sort {
                Some(keys) => stable_sort(fs, sort_view(keys@), query.collection@),
                None => fs,
            };
            assert(jvs(sorted@) == ss);
            assert(n == ss.len());
        }
        let offset: usize = match query.offset {
            Some(o) => o,
            None => 0,
        };
        let limit: usize = match query.limit {
            Some(l) => l,
            None => n,
        };
        let st = if offset < n {
            offset
        } else {
            n
        };
        let en = if limit < n - st {
            st + limit
        } else {
            n
        };
        let page = match &query.projection {
            Some(p) => page_projected(&sorted, st, en, p, coll),
            None => page_plain(&sorted, st, en),
        };
        QueryResult {
            documents: page,
            total_count: n as u64,
            offset: Some(offset),
            limit: Some(limit),
        }
    }
}

/// The primary key a query asks for: the string value of its first `Eq`
/// condition on `_id` or `@id` with a string value.
pub open spec fn primary_key_from(cs: Seq<CondV>, j: int) -> Option<Seq<char>>
    decreases cs.len() - j,
{
    if j < 0 || j >= cs.len() {
        None
    } else if cs[j].op == ComparisonOperator::Eq && (cs[j].field == "_id"@ || cs[j].field == "@id"@)
        && cs[j].value is Str {
        Some(cs[j].value->Str_0)
    } else {
        primary_key_from(cs, j + 1)
    }
}

/// The primary key a query looks up directly, if any.
pub fn primary_key_of(query: &Query) -> (r: Option<String>)
    ensures
        match query.filter {
            Some(f) => match primary_key_from(conds_view(f.conditions@), 0) {
                Some(k) => r matches Some(x) && x@ == k,
                None => r is None,
            },
            None => r is None,
        },
{
    match &query.filter {
        Some(f) => {
            let ghost cs = conds_view(f.conditions@);
            let mut j: usize = 0;
            while j < f.conditions.len()
                invariant
                    j <= f.conditions@.len(),
                    cs == conds_view(f.conditions@),
                    query.filter == Some(*f),
                    primary_key_from(cs, 0) == primary_key_from(cs, j as int),
                decreases f.conditions.len() - j,
            {
                let c = &f.conditions[j];
                proof {
                    assert(cs[j as int] == c@);
                }
                if c.operator == ComparisonOperator::Eq && (str_equal(c.field.as_str(), "_id")
                    || str_equal(c.field.as_str(), "@id")) {
                    match &c.value {
                        JsonValue::String(s) => {
                            return Some(s.clone());
                        },
                        _ => {},
                    }
                }
                j = j + 1;
            }
            None
        },
        None => None,
    }
}

/// The indexes to probe for a query, in order: for each `Eq` condition,
/// its normalized path, then its leaf when that differs.
pub open spec fn probes_from(cs: Seq<CondV>, coll: Seq<char>, n: int) -> Seq<(Seq<char>, JVal, Seq<char>)>
    decreases n,
{
    if n <= 0 {
        Seq::empty()
    } else {
        let acc = probes_from(cs, coll, n - 1);
        let c = cs[n - 1];
        if c.op != ComparisonOperator::Eq {
            acc
        } else {
            let clean = normalize_path(c.field, coll);
            let leaf = leaf_of(c.field);
            let acc1 = acc.push((c.field, c.value, clean));
            if leaf != clean {
                acc1.push((c.field, c.value, leaf))
            } else {
                acc1
            }
        }
    }
}

pub open spec fn probes_view(v: Seq<(String, JsonValue, String)>) -> Seq<(Seq<char>, JVal, Seq<char>)> {
    v.map_values(|p: (String, JsonValue, String)| (p.0@, p.1@, p.2@))
}

/// The index probes of a query (see `probes_from`): the engine uses the
/// first probe whose index exists.
pub fn index_probes(query: &Query) -> (r: Vec<(String, JsonValue, String)>)
    ensures
        match query.filter {
            Some(f) => probes_view(r@) == probes_from(
                conds_view(f.conditions@),
                query.collection@,
                f.conditions@.len() as int,
            ),
            None => r@.len() == 0,
        },
{
    let mut out: Vec<(String, JsonValue, String)> = Vec::new();
    match &query.filter {
        Some(f) => {
            let ghost cs = conds_view(f.conditions@);
            let cc = to_chars(query.collection.as_str());
            let mut j: usize = 0;
            while j < f.conditions.len()
                invariant
                    j <= f.conditions@.len(),
                    cs == conds_view(f.conditions@),
                    cc@ == query.collection@,
                    probes_view(out@) == probes_from(cs, query.collection@, j as int),
                decreases f.conditions.len() - j,
            {
                let c = &f.conditions[j];
                proof {
                    assert(cs[j as int] == c@);
                }
                if c.operator == ComparisonOperator::Eq {
                    let fc = to_chars(c.field.as_str());
                    let clean = normalize_field_path(fc.as_slice(), cc.as_slice());
                    let leaf = leaf_segment(fc.as_slice());
                    let ghost before = out@;
                    out.push((c.field.clone(), c.value.deep_clone(), from_chars(clean.as_slice())));
                    proof {
                        assert(probes_view(out@) =~= probes_view(before).push(
                            (c.field@, c.value@, clean@),
                        ));
                    }
                    if !crate::text::chars_equal(leaf.as_slice(), clean.as_slice()) {
                        let ghost mid = out@;
                        out.push((c.field.clone(), c.value.deep_clone(), from_chars(leaf.as_slice())));
                        proof {
                            assert(probes_view(out@) =~= probes_view(mid).push(
                                (c.field@, c.value@, leaf@),
                            ));
                        }
                    }
                }
                j = j + 1;
            }
        },
        None => {},
    }
    out
}

/// The collection paths a query runs over: a path with `/` as it is;
/// otherwise the indexed collections named so or ending in `/name`, and the
/// name itself when there is none.
pub open spec fn collection_paths_spec(target: Seq<char>, indexed: Seq<Seq<char>>) -> Seq<Seq<char>> {
    if target.contains('/') {
        seq![target]
    } else {
        let m = matching_paths(target, indexed, indexed.len() as int);
        if m.len() == 0 {
            seq![target]
        } else {
            m
        }
    }
}

pub open spec fn matching_paths(target: Seq<char>, indexed: Seq<Seq<char>>, n: int) -> Seq<Seq<char>>
    decreases n,
{
    if n <= 0 {
        Seq::empty()
    } else {
        let acc = matching_paths(target, indexed, n - 1);
        let p = indexed[n - 1];
        if p == target || crate::text::has_suffix(p, seq!['/'] + target) {
            acc.push(p)
        } else {
            acc
        }
    }
}

/// The collection paths a query runs over (see `collection_paths_spec`),
/// given the collections the database index lists.
pub fn resolve_collection_paths(target: &str, indexed: &Vec<String>) -> (r: Vec<String>)
    ensures
        strings_view(r@) == collection_paths_spec(target@, strings_view(indexed@)),
{
    let t = to_chars(target);
    let slash = crate::parser::find_char_pub(t.as_slice(), '/');
    proof {
        crate::parser::lemma_first_index_of(t@, '/');
        if t@.contains('/') {
            let w = choose|w: int| 0 <= w < t@.len() && t@[w] == '/';
            assert(t@[w] == '/');
        }
    }
    if slash < t.len() {
        let r = vec![target.to_owned()];
        assert(strings_view(r@) =~= seq![target@]);
        return r;
    }
    let mut suffix: Vec<char> = Vec::new();
    suffix.push('/');
    crate::json_text::push_all(&t, &mut suffix);
    proof {
        assert(suffix@ =~= seq!['/'] + t@);
    }
    let mut out: Vec<String> = Vec::new();
    let mut i: usize = 0;
    while i < indexed.len()
        invariant
            i <= indexed@.len(),
            t@ == target@,
            suffix@ == seq!['/'] + target@,
            strings_view(out@) == matching_paths(target@, strings_view(indexed@), i as int),
        decreases indexed.len() - i,
    {
        let p = &indexed[i];
        proof {
            assert(strings_view(indexed@)[i as int] == p@);
        }
        if str_equal(p.as_str(), target) || crate::text::ends_with(
            to_chars(p.as_str()).as_slice(),
            suffix.as_slice(),
        ) {
            let ghost before = out@;
            out.push(p.clone());
            proof {
                assert(strings_view(out@) =~= strings_view(before).push(p@));
            }
        }
        i = i + 1;
    }
    if out.len() == 0 {
        let r = vec![target.to_owned()];
        assert(strings_view(r@) =~= seq![target@]);
        return r;
    }
    out
}

} // verus!
