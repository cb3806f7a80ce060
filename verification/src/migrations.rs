//! Schema migrations: the steps a migration declares, what the migrator
//! does for each, how documents are rewritten, and which declared
//! migrations are still to apply, in version order.
use vstd::prelude::*;
use crate::collections::CollectionsManager;
use crate::error::{ErrorCode, RaiseError};
use crate::json::{JVal, JsonValue, entries_insert, entries_remove, entry_get, jents, jvs, lemma_jvs};
use crate::parser::strings_view;
use crate::paths::JsonDbConfig;
use crate::text::{str_equal, to_chars};
use crate::version::{MigrationVersion, parse_version_spec, version_order};
use std::cmp::Ordering;

verus! {

/// One step of a migration.
#[derive(Debug)]
pub enum MigrationStep {
    CreateCollection { name: String, schema: JsonValue },
    DropCollection { name: String },
    AddField { collection: String, field: String, default: Option<JsonValue> },
    RemoveField { collection: String, field: String },
    RenameField { collection: String, old_name: String, new_name: String },
    CreateIndex { collection: String, fields: Vec<String> },
    DropIndex { collection: String, name: String },
    Custom { handler: String, params: JsonValue },
}

/// A migration: its identity and version, and its steps up and down.
#[derive(Debug)]
pub struct Migration {
    pub id: String,
    pub version: String,
    pub description: String,
    pub up: Vec<MigrationStep>,
    pub down: Vec<MigrationStep>,
    pub applied_at: Option<String>,
}

/// What the migrator does for one step.
#[derive(Debug)]
pub enum StepAction {
    CreateCollection { name: String, schema_uri: String },
    DropCollection { name: String },
    /// Rewrite each document of the collection (see `transform_document`).
    TransformDocuments { collection: String },
    CreateIndex { collection: String, field: String, kind: String },
    DropIndex { collection: String, name: String },
    Nothing,
}

/// Runs migrations against one database.
#[derive(Debug)]
pub struct Migrator {
    pub manager: CollectionsManager,
}

/// A document rewritten by a field step: `Some` with the new document when
/// the step changes it (a missing field added with its default or `null`,
/// a present field removed, a present field renamed); `None` otherwise.
pub open spec fn transform_spec(step: MigrationStep, doc: JVal) -> Option<JVal> {
    match doc {
        JVal::Obj(e) => match step {
            MigrationStep::AddField { field, default, .. } => if entry_get(e, field@) is None {
                Some(
                    JVal::Obj(
                        entries_insert(
                            e,
                            field@,
                            match default {
                                Some(d) => d@,
                                None => JVal::Null,
                            },
                        ),
                    ),
                )
            } else {
                None
            },
            MigrationStep::RemoveField { field, .. } => if entry_get(e, field@) is Some {
                Some(JVal::Obj(entries_remove(e, field@)))
            } else {
                None
            },
            MigrationStep::RenameField { old_name, new_name, .. } => match entry_get(e, old_name@) {
                Some(v) => Some(JVal::Obj(entries_insert(entries_remove(e, old_name@), new_name@, v))),
                None => None,
            },
            _ => None,
        },
        _ => None,
    }
}

impl Migrator {
    pub fn new(config: &JsonDbConfig, space: &str, db: &str) -> (m: Migrator)
        ensures
            m.manager.space@ == space@,
            m.manager.db@ == db@,
    {
        Migrator { manager: CollectionsManager::new(config, space, db) }
    }

    /// What to do for one step: a collection needs a schema URI (a string),
    /// an index needs a field (the first listed, as a B-tree), and the only
    /// custom handler is `noop`.
    pub fn plan_step(&self, step: &MigrationStep) -> (r: Result<StepAction, RaiseError>)
        ensures
            match step {
                MigrationStep::CreateCollection { name, schema } => match schema@ {
                    JVal::Str(s) => r matches Ok(StepAction::CreateCollection { name: n, schema_uri: u })
                        && n@ == name@ && u@ == s,
                    _ => r matches Err(e) && e.code == ErrorCode::MigrationSchemaMissing,
                },
                MigrationStep::DropCollection { name } => r matches Ok(StepAction::DropCollection { name: n })
                    && n@ == name@,
                MigrationStep::AddField { collection, .. } => r matches Ok(
                    StepAction::TransformDocuments { collection: c },
                ) && c@ == collection@,
                MigrationStep::RemoveField { collection, .. } => r matches Ok(
                    StepAction::TransformDocuments { collection: c },
                ) && c@ == collection@,
                MigrationStep::RenameField { collection, .. } => r matches Ok(
                    StepAction::TransformDocuments { collection: c },
                ) && c@ == collection@,
                MigrationStep::CreateIndex { collection, fields } => if fields@.len() > 0 {
                    r matches Ok(StepAction::CreateIndex { collection: c, field: f, kind: k })
                        && c@ == collection@ && f@ == fields@[0]@ && k@ == "btree"@
                } else {
                    r matches Err(e) && e.code == ErrorCode::MigrationIndexEmpty
                },
                MigrationStep::DropIndex { collection, name } => r matches Ok(
                    StepAction::DropIndex { collection: c, name: n },
                ) && c@ == collection@ && n@ == name@,
                MigrationStep::Custom { handler, .. } => if handler@ == "noop"@ {
                    r matches Ok(StepAction::Nothing)
                } else {
                    r matches Err(e) && e.code == ErrorCode::MigrationCustomHandlerNotFound
                },
            },
    {
        match step {
            MigrationStep::CreateCollection { name, schema } => match schema {
                JsonValue::String(s) => Ok(
                    StepAction::CreateCollection { name: name.clone(), schema_uri: s.clone() },
                ),
                _ => Err(RaiseError::new(ErrorCode::MigrationSchemaMissing, name.as_str())),
            },
            MigrationStep::DropCollection { name } => Ok(StepAction::DropCollection { name: name.clone() }),
            MigrationStep::AddField { collection, .. } => Ok(
                StepAction::TransformDocuments { collection: collection.clone() },
            ),
            MigrationStep::RemoveField { collection, .. } => Ok(
                StepAction::TransformDocuments { collection: collection.clone() },
            ),
            MigrationStep::RenameField { collection, .. } => Ok(
                StepAction::TransformDocuments { collection: collection.clone() },
            ),
            MigrationStep::CreateIndex { collection, fields } => {
                if fields.len() > 0 {
                    Ok(
                        StepAction::CreateIndex {
                            collection: collection.clone(),
                            field: fields[0].clone(),
                            kind: "btree".to_owned(),
                        },
                    )
                } else {
                    Err(RaiseError::new(ErrorCode::MigrationIndexEmpty, collection.as_str()))
                }
            },
            MigrationStep::DropIndex { collection, name } => Ok(
                StepAction::DropIndex { collection: collection.clone(), name: name.clone() },
            ),
            MigrationStep::Custom { handler, .. } => {
                if str_equal(handler.as_str(), "noop") {
                    Ok(StepAction::Nothing)
                } else {
                    Err(RaiseError::new(ErrorCode::MigrationCustomHandlerNotFound, handler.as_str()))
                }
            },
        }
    }

    /// A document rewritten by a field step (see `transform_spec`).
    pub fn transform_document(&self, step: &MigrationStep, doc: &JsonValue) -> (r: Option<JsonValue>)
        ensures
            match transform_spec(*step, doc@) {
                Some(d) => r matches Some(x) && x@ == d,
                None => r is None,
            },
    {
        if !doc.is_object() {
            return None;
        }
        match step {
            MigrationStep::AddField { field, default, .. } => {
                if doc.contains_key(field.as_str()) {
                    return None;
                }
                let mut out = doc.deep_clone();
                let v = match default {
                    Some(d) => d.deep_clone(),
                    None => JsonValue::Null,
                };
                out.insert(field.as_str(), v);
                Some(out)
            },
            MigrationStep::RemoveField { field, .. } => {
                let mut out = doc.deep_clone();
                match out.remove(field.as_str()) {
                    Some(_) => Some(out),
                    None => None,
                }
            },
            MigrationStep::RenameField { old_name, new_name, .. } => {
                let mut out = doc.deep_clone();
                match out.remove(old_name.as_str()) {
                    Some(v) => {
                        out.insert(new_name.as_str(), v);
                        Some(out)
                    },
                    None => None,
                }
            },
            _ => None,
        }
    }
}

/// The version key of a migration, when its version parses.
pub open spec fn version_key(m: Migration) -> Result<(u32, u32, u32), ErrorCode> {
    parse_version_spec(m.version@)
}

/// Whether version `a` comes strictly before version `b`.
pub open spec fn key_lt(a: (u32, u32, u32), b: (u32, u32, u32)) -> bool {
    a.0 < b.0 || (a.0 == b.0 && (a.1 < b.1 || (a.1 == b.1 && a.2 < b.2)))
}

/// The error of the first migration (from position `j` on) whose version
/// does not parse.
pub open spec fn first_version_error(ms: Seq<Migration>, j: int) -> Option<ErrorCode>
    decreases ms.len() - j,
{
    if j < 0 || j >= ms.len() {
        None
    } else {
        match version_key(ms[j]) {
            Err(c) => Some(c),
            Ok(_) => first_version_error(ms, j + 1),
        }
    }
}

/// Where a migration goes among the first `k` sorted ones: after every one
/// whose version is not later, scanning from the end.
pub open spec fn version_insert_pos(s: Seq<Migration>, x: Migration, k: int) -> int
    decreases k,
{
    if k <= 0 {
        0
    } else if key_lt(version_key(x)->Ok_0, version_key(s[k - 1])->Ok_0) {
        version_insert_pos(s, x, k - 1)
    } else {
        k
    }
}

/// The migrations stably sorted by version.
pub open spec fn sort_by_version(s: Seq<Migration>) -> Seq<Migration>
    decreases s.len(),
{
    if s.len() == 0 {
        Seq::empty()
    } else {
        let r = sort_by_version(s.drop_last());
        r.insert(version_insert_pos(r, s.last(), r.len() as int), s.last())
    }
}

/// The migrations whose id is not among the applied ones, in order.
pub open spec fn not_applied(s: Seq<Migration>, applied: Seq<Seq<char>>) -> Seq<Migration>
    decreases s.len(),
{
    if s.len() == 0 {
        Seq::empty()
    } else {
        let r = not_applied(s.drop_last(), applied);
        if applied.contains(s.last().id@) {
            r
        } else {
            r.push(s.last())
        }
    }
}

fn version_of(m: &Migration) -> (r: Result<(u32, u32, u32), RaiseError>)
    ensures
        match version_key(*m) {
            Ok(k) => r == Ok::<(u32, u32, u32), RaiseError>(k),
            Err(c) => r matches Err(e) && e.code == c,
        },
{
    let v = MigrationVersion::parse(m.version.as_str())?;
    Ok((v.major, v.minor, v.patch))
}

fn key_less(a: (u32, u32, u32), b: (u32, u32, u32)) -> (r: bool)
    ensures
        r == key_lt(a, b),
{
    a.0 < b.0 || (a.0 == b.0 && (a.1 < b.1 || (a.1 == b.1 && a.2 < b.2)))
}

fn contains_id(applied: &Vec<String>, id: &String) -> (r: bool)
    ensures
        r == strings_view(applied@).contains(id@),
{
    let mut i: usize = 0;
    while i < applied.len()
        invariant
            i <= applied@.len(),
            forall|m: int| 0 <= m < i ==> applied@[m]@ != id@,
        decreases applied.len() - i,
    {
        if str_equal(applied[i].as_str(), id.as_str()) {
            assert(strings_view(applied@)[i as int] == id@);
            return true;
        }
        i = i + 1;
    }
    proof {
        if strings_view(applied@).contains(id@) {
            let w = choose|w: int| 0 <= w < applied@.len() && strings_view(applied@)[w] == id@;
            assert(applied@[w]@ == id@);
        }
    }
    false
}

/// The migrations still to apply: every declared version must parse (the
/// first that does not is refused); the migrations are then stably sorted
/// by version and those already applied are left out.
pub fn pending_migrations(declared: Vec<Migration>, applied_ids: &Vec<String>) -> (r: Result<
    Vec<Migration>,
    RaiseError,
>)
    ensures
        match first_version_error(declared@, 0) {
            Some(c) => r matches Err(e) && e.code == c,
            None => r matches Ok(v) && v@ == not_applied(
                sort_by_version(declared@),
                strings_view(applied_ids@),
            ),
        },
{
    let mut keys: Vec<(u32, u32, u32)> = Vec::new();
    let mut i: usize = 0;
    while i < declared.len()
        invariant
            i <= declared@.len(),
            keys@.len() == i,
            forall|m: int| 0 <= m < i ==> version_key(declared@[m]) == Ok::<(u32, u32, u32), ErrorCode>(#[trigger] keys@[m]),
            first_version_error(declared@, 0) == first_version_error(declared@, i as int),
        decreases declared.len() - i,
    {
        let k = version_of(&declared[i])?;
        keys.push(k);
        i = i + 1;
    }
    let total = declared.len();
    let ghost d = declared@;
    let mut sorted: Vec<Migration> = Vec::new();
    let mut sorted_keys: Vec<(u32, u32, u32)> = Vec::new();
    let mut rest = declared;
    let mut taken: usize = 0;
    let mut src: Vec<Migration> = Vec::new();
    while rest.len() > 0
        invariant
            d.len() == keys@.len(),
            d.len() == total,
            forall|m: int| 0 <= m < d.len() ==> version_key(d[m]) == Ok::<(u32, u32, u32), ErrorCode>(#[trigger] keys@[m]),
            src@.len() == 0,
            taken + rest@.len() == d.len(),
            rest@ == d.subrange(taken as int, d.len() as int),
            sorted@ == sort_by_version(d.take(taken as int)),
            sorted_keys@.len() == sorted@.len(),
            forall|m: int| 0 <= m < sorted@.len() ==> version_key(sorted@[m]) == Ok::<(u32, u32, u32), ErrorCode>(#[trigger] sorted_keys@[m]),
        decreases rest.len(),
    {
        let x = rest.remove(0);
        let xk = keys[taken];
        proof {
            assert(x == d[taken as int]);
            assert(d.take(taken + 1).drop_last() =~= d.take(taken as int));
            assert(d.take(taken + 1).last() == x);
            assert(rest@ =~= d.subrange(taken + 1, d.len() as int));
        }
        let mut k: usize = sorted.len();
        while k > 0 && key_less(xk, sorted_keys[k - 1])
            invariant
                k <= sorted@.len(),
                sorted_keys@.len() == sorted@.len(),
                forall|m: int| 0 <= m < sorted@.len() ==> version_key(sorted@[m]) == Ok::<(u32, u32, u32), ErrorCode>(#[trigger] sorted_keys@[m]),
                version_key(x) == Ok::<(u32, u32, u32), ErrorCode>(xk),
                version_insert_pos(sorted@, x, sorted@.len() as int) == version_insert_pos(
                    sorted@,
                    x,
                    k as int,
                ),
            decreases k,
        {
            k = k - 1;
        }
        let ghost before_keys = sorted_keys@;
        let ghost before = sorted@;
        sorted.insert(k, x);
        sorted_keys.insert(k, xk);
        proof {
            assert forall|m: int| 0 <= m < sorted@.len() implies version_key(sorted@[m]) == Ok::<(u32, u32, u32), ErrorCode>(#[trigger] sorted_keys@[m]) by {
                if m < k {
                    assert(sorted@[m] == before[m] && sorted_keys@[m] == before_keys[m]);
                } else if m > k {
                    assert(sorted@[m] == before[m - 1] && sorted_keys@[m] == before_keys[m - 1]);
                }
            }
        }
        taken = taken + 1;
    }
    proof {
        assert(d.take(d.len() as int) =~= d);
    }
    let mut out: Vec<Migration> = Vec::new();
    let stotal = sorted.len();
    let ghost sd = sorted@;
    let mut left = sorted;
    let mut n: usize = 0;
    while left.len() > 0
        invariant
            n + left@.len() == sd.len(),
            sd.len() == stotal,
            left@ == sd.subrange(n as int, sd.len() as int),
            out@ == not_applied(sd.take(n as int), strings_view(applied_ids@)),
        decreases left.len(),
    {
        let x = left.remove(0);
        proof {
            assert(x == sd[n as int]);
            assert(sd.take(n + 1).drop_last() =~= sd.take(n as int));
            assert(sd.take(n + 1).last() == x);
            assert(left@ =~= sd.subrange(n + 1, sd.len() as int));
        }
        if !contains_id(applied_ids, &x.id) {
            out.push(x);
        }
        n = n + 1;
    }
    proof {
        assert(sd.take(sd.len() as int) =~= sd);
    }
    Ok(out)
}

/// The ids of the applied-migration records (their `_id` strings).
pub open spec fn ids_of(docs: Seq<JVal>) -> Seq<Seq<char>>
    decreases docs.len(),
{
    if docs.len() == 0 {
        Seq::empty()
    } else {
        let r = ids_of(docs.drop_last());
        match crate::json::member(docs.last(), "_id"@) {
            Some(JVal::Str(id)) => r.push(id),
            _ => r,
        }
    }
}

/// The ids of the applied-migration records.
pub fn applied_ids_of(docs: &Vec<JsonValue>) -> (r: Vec<String>)
    ensures
        strings_view(r@) == ids_of(jvs(docs@)),
{
    proof {
        lemma_jvs(docs@);
    }
    let mut out: Vec<String> = Vec::new();
    let mut i: usize = 0;
    while i < docs.len()
        invariant
            i <= docs@.len(),
            jvs(docs@).len() == docs@.len(),
            forall|m: int| 0 <= m < docs@.len() ==> #[trigger] jvs(docs@)[m] == docs@[m]@,
            strings_view(out@) == ids_of(jvs(docs@).take(i as int)),
        decreases docs.len() - i,
    {
        proof {
            assert(jvs(docs@).take(i + 1).drop_last() =~= jvs(docs@).take(i as int));
        }
        match docs[i].get("_id") {
            Some(JsonValue::String(id)) => {
                let ghost before = out@;
                out.push(id.clone());
                proof {
                    assert(strings_view(out@) =~= strings_view(before).push(id@));
                }
            },
            _ => {},
        }
        i = i + 1;
    }
    proof {
        assert(jvs(docs@).take(docs@.len() as int) =~= jvs(docs@));
    }
    out
}

/// A text with every `.` replaced by `_`.
pub open spec fn dots_to_underscores(s: Seq<char>) -> Seq<char> {
    s.map_values(|c: char| if c == '.' { '_' } else { c })
}

/// The record of an applied migration.
pub open spec fn migration_record_spec(m: Migration, applied_at: Seq<char>) -> JVal {
    JVal::Obj(
        seq![
            ("_id"@, JVal::Str(m.id@)),
            ("$schema"@, JVal::Str("db://_system/_system/schemas/v2/system/db/migration.schema.json"@)),
            ("handle"@, JVal::Str(dots_to_underscores("migration_"@ + m.version@))),
            ("name"@, JVal::Obj(seq![("fr"@, JVal::Str(m.description@)), ("en"@, JVal::Str(m.description@))])),
            ("version"@, JVal::Str(m.version@)),
            ("description"@, JVal::Str(m.description@)),
            ("applied_at"@, JVal::Str(applied_at)),
        ],
    )
}

fn str_val(s: &str) -> (r: JsonValue)
    ensures
        r@ == JVal::Str(s@),
{
    JsonValue::String(s.to_owned())
}

/// The record stored when a migration has been applied at `applied_at`.
pub fn migration_record(m: &Migration, applied_at: &str) -> (r: JsonValue)
    ensures
        r@ == migration_record_spec(*m, applied_at@),
{
    let mut handle = to_chars("migration_");
    crate::json_text::push_all(&to_chars(m.version.as_str()), &mut handle);
    let ghost raw = handle@;
    let mut k: usize = 0;
    while k < handle.len()
        invariant
            k <= handle@.len(),
            handle@.len() == raw.len(),
            forall|j: int| 0 <= j < k ==> handle@[j] == dots_to_underscores(raw)[j],
            forall|j: int| k <= j < handle@.len() ==> handle@[j] == raw[j],
        decreases handle.len() - k,
    {
        if handle[k] == '.' {
            handle.set(k, '_');
        }
        k = k + 1;
    }
    proof {
        assert(handle@ =~= dots_to_underscores("migration_"@ + m.version@));
    }
    let mut name: Vec<(String, JsonValue)> = Vec::new();
    name.push(("fr".to_owned(), str_val(m.description.as_str())));
    name.push(("en".to_owned(), str_val(m.description.as_str())));
    let mut o: Vec<(String, JsonValue)> = Vec::new();
    o.push(("_id".to_owned(), str_val(m.id.as_str())));
    o.push((
        "$schema".to_owned(),
        str_val("db://_system/_system/schemas/v2/system/db/migration.schema.json"),
    ));
    o.push(("handle".to_owned(), JsonValue::String(crate::text::from_chars(handle.as_slice()))));
    o.push(("name".to_owned(), JsonValue::Object(name)));
    o.push(("version".to_owned(), str_val(m.version.as_str())));
    o.push(("description".to_owned(), str_val(m.description.as_str())));
    o.push(("applied_at".to_owned(), str_val(applied_at)));
    proof {
        crate::json::lemma_jents(o@);
        crate::json::lemma_jents(name@);
        assert(jents(name@) =~= seq![("fr"@, JVal::Str(m.description@)), ("en"@, JVal::Str(m.description@))]);
        assert(jents(o@) =~= migration_record_spec(*m, applied_at@)->Obj_0);
    }
    JsonValue::Object(o)
}

/// Adding a field twice changes nothing the second time.
pub proof fn law_add_field_idempotent(step: MigrationStep, doc: JVal)
    requires
        step is AddField,
        transform_spec(step, doc) is Some,
    ensures
        transform_spec(step, transform_spec(step, doc).unwrap()) is None,
{
    match (step, doc) {
        (MigrationStep::AddField { field, default, .. }, JVal::Obj(e)) => {
            let v = match default {
                Some(d) => d@,
                None => JVal::Null,
            };
            crate::json::law_entries_insert_get(e, field@, v);
        },
        _ => {},
    }
}

/// Renaming a field moves its value to the new name.
pub proof fn law_rename_moves_value(step: MigrationStep, e: Seq<(Seq<char>, JVal)>)
    requires
        step is RenameField,
        transform_spec(step, JVal::Obj(e)) is Some,
    ensures
        match (step, transform_spec(step, JVal::Obj(e)).unwrap()) {
            (MigrationStep::RenameField { old_name, new_name, .. }, JVal::Obj(e2)) => entry_get(
                e2,
                new_name@,
            ) == entry_get(e, old_name@),
            _ => false,
        },
{
    match step {
        MigrationStep::RenameField { old_name, new_name, .. } => {
            let v = entry_get(e, old_name@).unwrap();
            crate::json::law_entries_insert_get(entries_remove(e, old_name@), new_name@, v);
        },
        _ => {},
    }
}

/// No migration still to apply has an applied id, and every declared
/// migration that is not applied is still to apply.
pub proof fn law_pending_not_applied(s: Seq<Migration>, applied: Seq<Seq<char>>)
    ensures
        forall|i: int|
            0 <= i < not_applied(s, applied).len() ==> !applied.contains(
                (#[trigger] not_applied(s, applied)[i]).id@,
            ),
        forall|i: int|
            0 <= i < s.len() && !applied.contains((#[trigger] s[i]).id@) ==> not_applied(
                s,
                applied,
            ).contains(s[i]),
    decreases s.len(),
{
    if s.len() > 0 {
        law_pending_not_applied(s.drop_last(), applied);
        let r = not_applied(s.drop_last(), applied);
        assert forall|i: int|
            0 <= i < s.len() && !applied.contains((#[trigger] s[i]).id@) implies not_applied(
                s,
                applied,
            ).contains(s[i]) by {
            if i < s.len() - 1 {
                assert(s.drop_last()[i] == s[i]);
                let w = choose|w: int| 0 <= w < r.len() && r[w] == s[i];
                assert(not_applied(s, applied)[w] == s[i]);
            } else {
                assert(not_applied(s, applied)[r.len() as int] == s[i]);
            }
        }
    }
}

/// The version `MigrationVersion::parse` reads from a migration whose
/// version parses.
pub open spec fn migration_version(m: Migration) -> MigrationVersion {
    MigrationVersion {
        major: version_key(m)->Ok_0.0,
        minor: version_key(m)->Ok_0.1,
        patch: version_key(m)->Ok_0.2,
        raw: m.version,
    }
}

/// Every version parses.
pub open spec fn all_versions_parse(s: Seq<Migration>) -> bool {
    forall|i: int| 0 <= i < s.len() ==> (#[trigger] version_key(s[i])) is Ok
}

/// No later migration has an earlier version.
pub open spec fn keys_ascending(s: Seq<Migration>) -> bool {
    forall|i: int, j: int|
        0 <= i < j < s.len() ==> !key_lt(version_key(#[trigger] s[j])->Ok_0, version_key(#[trigger] s[i])->Ok_0)
}

proof fn lemma_no_error_all_parse(s: Seq<Migration>, j: int)
    requires
        0 <= j <= s.len(),
        first_version_error(s, j) is None,
    ensures
        forall|i: int| j <= i < s.len() ==> (#[trigger] version_key(s[i])) is Ok,
    decreases s.len() - j,
{
    if j < s.len() {
        lemma_no_error_all_parse(s, j + 1);
    }
}

proof fn lemma_insert_pos(s: Seq<Migration>, x: Migration, k: int)
    requires
        0 <= k <= s.len(),
    ensures
        0 <= version_insert_pos(s, x, k) <= k,
        forall|m: int|
            version_insert_pos(s, x, k) <= m < k ==> key_lt(
                version_key(x)->Ok_0,
                version_key(#[trigger] s[m])->Ok_0,
            ),
        version_insert_pos(s, x, k) > 0 ==> !key_lt(
            version_key(x)->Ok_0,
            version_key(s[version_insert_pos(s, x, k) - 1])->Ok_0,
        ),
    decreases k,
{
    if k > 0 && key_lt(version_key(x)->Ok_0, version_key(s[k - 1])->Ok_0) {
        lemma_insert_pos(s, x, k - 1);
    }
}

proof fn lemma_sort_by_version_ascending(s: Seq<Migration>)
    requires
        all_versions_parse(s),
    ensures
        sort_by_version(s).len() == s.len(),
        all_versions_parse(sort_by_version(s)),
        keys_ascending(sort_by_version(s)),
    decreases s.len(),
{
    if s.len() > 0 {
        let d = s.drop_last();
        assert(all_versions_parse(d)) by {
            assert forall|i: int| 0 <= i < d.len() implies (#[trigger] version_key(d[i])) is Ok by {
                assert(d[i] == s[i]);
            }
        }
        lemma_sort_by_version_ascending(d);
        let r = sort_by_version(d);
        let x = s.last();
        assert(version_key(s[s.len() - 1]) is Ok);
        let p = version_insert_pos(r, x, r.len() as int);
        lemma_insert_pos(r, x, r.len() as int);
        lemma_insert_keeps_ascending(r, x, p);
    }
}

proof fn lemma_insert_keeps_ascending(r: Seq<Migration>, x: Migration, p: int)
    requires
        all_versions_parse(r),
        keys_ascending(r),
        version_key(x) is Ok,
        0 <= p <= r.len(),
        forall|m: int| p <= m < r.len() ==> key_lt(version_key(x)->Ok_0, version_key(#[trigger] r[m])->Ok_0),
        p > 0 ==> !key_lt(version_key(x)->Ok_0, version_key(r[p - 1])->Ok_0),
    ensures
        all_versions_parse(r.insert(p, x)),
        keys_ascending(r.insert(p, x)),
{
    let t = r.insert(p, x);
    assert forall|i: int| 0 <= i < t.len() implies (#[trigger] version_key(t[i])) is Ok by {
        if i < p {
            assert(t[i] == r[i]);
        } else if i > p {
            assert(t[i] == r[i - 1]);
        }
    }
    assert forall|i: int, j: int| 0 <= i < j < t.len() implies !key_lt(
        version_key(#[trigger] t[j])->Ok_0,
        version_key(#[trigger] t[i])->Ok_0,
    ) by {
        if j < p {
            assert(t[i] == r[i] && t[j] == r[j]);
        } else if j == p {
            assert(t[i] == r[i]);
            assert(version_key(r[p - 1]) is Ok);
            if i < p - 1 {
                assert(!key_lt(version_key(r[p - 1])->Ok_0, version_key(r[i])->Ok_0));
            }
        } else if i < p {
            assert(t[i] == r[i] && t[j] == r[j - 1]);
        } else if i == p {
            assert(t[j] == r[j - 1]);
            assert(key_lt(version_key(x)->Ok_0, version_key(r[j - 1])->Ok_0));
        } else {
            assert(t[i] == r[i - 1] && t[j] == r[j - 1]);
        }
    }
}

proof fn lemma_not_applied_ascending(s: Seq<Migration>, applied: Seq<Seq<char>>)
    requires
        all_versions_parse(s),
        keys_ascending(s),
    ensures
        all_versions_parse(not_applied(s, applied)),
        keys_ascending(not_applied(s, applied)),
        forall|i: int| 0 <= i < not_applied(s, applied).len() ==> exists|m: int|
            0 <= m < s.len() && s[m] == #[trigger] not_applied(s, applied)[i],
    decreases s.len(),
{
    if s.len() > 0 {
        let d = s.drop_last();
        assert(all_versions_parse(d) && keys_ascending(d)) by {
            assert forall|i: int| 0 <= i < d.len() implies (#[trigger] version_key(d[i])) is Ok by {
                assert(d[i] == s[i]);
            }
            assert forall|i: int, j: int| 0 <= i < j < d.len() implies !key_lt(
                version_key(#[trigger] d[j])->Ok_0,
                version_key(#[trigger] d[i])->Ok_0,
            ) by {
                assert(d[i] == s[i] && d[j] == s[j]);
            }
        }
        lemma_not_applied_ascending(d, applied);
        let r = not_applied(d, applied);
        let t = not_applied(s, applied);
        let x = s.last();
        assert forall|i: int| 0 <= i < r.len() implies !key_lt(
            version_key(x)->Ok_0,
            version_key(#[trigger] r[i])->Ok_0,
        ) by {
            let m = choose|m: int| 0 <= m < d.len() && d[m] == r[i];
            assert(s[m] == r[i]);
            assert(s[s.len() - 1] == x);
        }
        assert(version_key(s[s.len() - 1]) is Ok);
        if !applied.contains(x.id@) {
            assert(t == r.push(x));
            assert forall|i: int| 0 <= i < t.len() implies (#[trigger] version_key(t[i])) is Ok by {
                if i < r.len() {
                    assert(t[i] == r[i]);
                }
            }
            assert forall|i: int, j: int| 0 <= i < j < t.len() implies !key_lt(
                version_key(#[trigger] t[j])->Ok_0,
                version_key(#[trigger] t[i])->Ok_0,
            ) by {
                assert(t[i] == r[i]);
                if j < r.len() {
                    assert(t[j] == r[j]);
                }
            }
            assert forall|i: int| 0 <= i < t.len() implies exists|m: int|
                0 <= m < s.len() && s[m] == #[trigger] t[i] by {
                if i < r.len() {
                    assert(t[i] == r[i]);
                    let m = choose|m: int| 0 <= m < d.len() && d[m] == r[i];
                    assert(s[m] == t[i]);
                } else {
                    assert(s[s.len() - 1] == t[i]);
                }
            }
        } else {
            assert forall|i: int| 0 <= i < t.len() implies exists|m: int|
                0 <= m < s.len() && s[m] == #[trigger] t[i] by {
                let m = choose|m: int| 0 <= m < d.len() && d[m] == r[i];
                assert(s[m] == t[i]);
            }
        }
    }
}

/// The migrations of version `k`, in order.
pub open spec fn with_version(s: Seq<Migration>, k: (u32, u32, u32)) -> Seq<Migration>
    decreases s.len(),
{
    if s.len() == 0 {
        Seq::empty()
    } else if version_key(s.last()) == Ok::<(u32, u32, u32), ErrorCode>(k) {
        with_version(s.drop_last(), k).push(s.last())
    } else {
        with_version(s.drop_last(), k)
    }
}

proof fn lemma_with_version_insert_other(a: Seq<Migration>, p: int, x: Migration, k: (u32, u32, u32))
    requires
        0 <= p <= a.len(),
        version_key(x) != Ok::<(u32, u32, u32), ErrorCode>(k),
    ensures
        with_version(a.insert(p, x), k) == with_version(a, k),
    decreases a.len(),
{
    let t = a.insert(p, x);
    if p == a.len() {
        assert(t.drop_last() =~= a);
    } else {
        assert(t.drop_last() =~= a.drop_last().insert(p, x));
        assert(t.last() == a.last());
        lemma_with_version_insert_other(a.drop_last(), p, x, k);
    }
}

proof fn lemma_with_version_insert_same(a: Seq<Migration>, p: int, x: Migration, k: (u32, u32, u32))
    requires
        0 <= p <= a.len(),
        version_key(x) == Ok::<(u32, u32, u32), ErrorCode>(k),
        forall|m: int| p <= m < a.len() ==> version_key(#[trigger] a[m]) != Ok::<(u32, u32, u32), ErrorCode>(k),
    ensures
        with_version(a.insert(p, x), k) == with_version(a, k).push(x),
    decreases a.len(),
{
    let t = a.insert(p, x);
    if p == a.len() {
        assert(t.drop_last() =~= a);
    } else {
        assert(t.drop_last() =~= a.drop_last().insert(p, x));
        assert(t.last() == a.last());
        assert(version_key(a[a.len() - 1]) != Ok::<(u32, u32, u32), ErrorCode>(k));
        lemma_with_version_insert_same(a.drop_last(), p, x, k);
    }
}

proof fn lemma_sort_by_version_stable(s: Seq<Migration>, k: (u32, u32, u32))
    requires
        all_versions_parse(s),
    ensures
        with_version(sort_by_version(s), k) == with_version(s, k),
    decreases s.len(),
{
    if s.len() > 0 {
        let d = s.drop_last();
        assert(all_versions_parse(d)) by {
            assert forall|i: int| 0 <= i < d.len() implies (#[trigger] version_key(d[i])) is Ok by {
                assert(d[i] == s[i]);
            }
        }
        lemma_sort_by_version_stable(d, k);
        lemma_sort_by_version_ascending(d);
        let r = sort_by_version(d);
        let x = s.last();
        assert(version_key(s[s.len() - 1]) is Ok);
        let p = version_insert_pos(r, x, r.len() as int);
        lemma_insert_pos(r, x, r.len() as int);
        if version_key(x) == Ok::<(u32, u32, u32), ErrorCode>(k) {
            assert forall|m: int| p <= m < r.len() implies version_key(#[trigger] r[m]) != Ok::<(u32, u32, u32), ErrorCode>(k) by {
                assert(key_lt(version_key(x)->Ok_0, version_key(r[m])->Ok_0));
            }
            lemma_with_version_insert_same(r, p, x, k);
        } else {
            lemma_with_version_insert_other(r, p, x, k);
        }
    }
}

proof fn lemma_with_version_not_applied(s: Seq<Migration>, applied: Seq<Seq<char>>, k: (u32, u32, u32))
    ensures
        with_version(not_applied(s, applied), k) == not_applied(with_version(s, k), applied),
    decreases s.len(),
{
    if s.len() > 0 {
        lemma_with_version_not_applied(s.drop_last(), applied, k);
        let x = s.last();
        if version_key(x) == Ok::<(u32, u32, u32), ErrorCode>(k) {
            let w = with_version(s, k);
            assert(w.drop_last() =~= with_version(s.drop_last(), k));
        }
        if !applied.contains(x.id@) {
            let n = not_applied(s, applied);
            assert(n.drop_last() =~= not_applied(s.drop_last(), applied));
        }
    }
}

/// Migrations of the same version stay in the order they were declared in:
/// among those still to apply, the ones of version `k` come in declared
/// order.
pub proof fn law_pending_keeps_declared_order_of_equal_versions(
    s: Seq<Migration>,
    applied: Seq<Seq<char>>,
    k: (u32, u32, u32),
)
    requires
        first_version_error(s, 0) is None,
    ensures
        with_version(not_applied(sort_by_version(s), applied), k) == with_version(
            not_applied(s, applied),
            k,
        ),
{
    lemma_no_error_all_parse(s, 0);
    lemma_sort_by_version_stable(s, k);
    lemma_with_version_not_applied(sort_by_version(s), applied, k);
    lemma_with_version_not_applied(s, applied, k);
}

/// The migrations still to apply come in version order: no one of them
/// has a later `MigrationVersion` (by major, then minor, then patch) than
/// one that comes after it.
pub proof fn law_pending_in_version_order(s: Seq<Migration>, applied: Seq<Seq<char>>)
    requires
        first_version_error(s, 0) is None,
    ensures
        forall|i: int, j: int|
            0 <= i < j < not_applied(sort_by_version(s), applied).len() ==> version_order(
                migration_version(#[trigger] not_applied(sort_by_version(s), applied)[i]),
                migration_version(#[trigger] not_applied(sort_by_version(s), applied)[j]),
            ) != Ordering::Greater,
{
    lemma_no_error_all_parse(s, 0);
    lemma_sort_by_version_ascending(s);
    lemma_not_applied_ascending(sort_by_version(s), applied);
    let t = not_applied(sort_by_version(s), applied);
    assert forall|i: int, j: int| 0 <= i < j < t.len() implies version_order(
        migration_version(#[trigger] t[i]),
        migration_version(#[trigger] t[j]),
    ) != Ordering::Greater by {
        assert(!key_lt(version_key(t[j])->Ok_0, version_key(t[i])->Ok_0));
    }
}

} // verus!
