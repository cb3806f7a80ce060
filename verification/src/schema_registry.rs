//! The schema registry: JSON schemas by URI, with the lookup that falls
//! back on the mounted databases, and the in-memory schema edits.
use vstd::prelude::*;
use crate::collections::{find_chars, find_spec};
use crate::error::{ErrorCode, RaiseError};
use crate::json::{
    JVal, JsonValue, entries_insert, entries_remove, entry_get, find_key, jents, keys_of,
    lemma_entry_index, lemma_jents, object_insert, object_remove, entry_index,
};
use crate::parser::{find_char_pub, first_index_of, strings_view};
use crate::text::{from_chars, slice_chars, to_chars};
use crate::vocabulary::pairs_view;

verus! {

/// The URI of a schema in a mounted database.
pub open spec fn mounted_uri(
    domain: Seq<char>,
    db: Seq<char>,
    version: Seq<char>,
    rel: Seq<char>,
) -> Seq<char> {
    "db://"@ + domain + "/"@ + db + "/schemas/"@ + version + "/"@ + rel
}

/// The schema `version/rel` in the first mounted database that holds it,
/// the system database last.
pub open spec fn mount_lookup(
    by: Seq<(Seq<char>, JVal)>,
    mounts: Seq<(Seq<char>, Seq<char>)>,
    version: Seq<char>,
    rel: Seq<char>,
) -> Option<JVal>
    decreases mounts.len(),
{
    if mounts.len() == 0 {
        entry_get(by, mounted_uri("_system"@, "_system"@, version, rel))
    } else {
        match entry_get(by, mounted_uri(mounts[0].0, mounts[0].1, version, rel)) {
            Some(x) => Some(x),
            None => mount_lookup(by, mounts.drop_first(), version, rel),
        }
    }
}

/// The schema registered under `uri`; failing that, the schema of the same
/// version and relative path (what follows `/schemas/`) in the mounted
/// databases.
pub open spec fn schema_lookup(
    by: Seq<(Seq<char>, JVal)>,
    mounts: Seq<(Seq<char>, Seq<char>)>,
    uri: Seq<char>,
) -> Option<JVal> {
    match entry_get(by, uri) {
        Some(x) => Some(x),
        None => {
            let i = find_spec(uri, "/schemas/"@);
            if i < 0 {
                None
            } else {
                let rem = uri.subrange(i + "/schemas/"@.len(), uri.len() as int);
                let j = first_index_of(rem, '/');
                if j < 0 {
                    None
                } else {
                    mount_lookup(
                        by,
                        mounts,
                        rem.subrange(0, j),
                        rem.subrange(j + 1, rem.len() as int),
                    )
                }
            }
        },
    }
}

/// JSON schemas by URI. `mounts` lists the databases (domain, database)
/// searched, in order, for a URI that is not registered as written; the
/// system database `_system/_system` is searched after them.
#[derive(Debug, Clone)]
pub struct SchemaRegistry {
    pub by_uri: Vec<(String, JsonValue)>,
    pub base_prefix: String,
    pub mounts: Vec<(String, String)>,
}

/// The result of adding property `name` to schema `s`: the schema gets an
/// empty `properties` object when it has none; a property already present
/// is refused.
pub open spec fn add_property_spec(s: JVal, name: Seq<char>, def: JVal) -> Result<JVal, ErrorCode> {
    let s1 = match s {
        JVal::Obj(e) => if entry_get(e, "properties"@) is None {
            JVal::Obj(entries_insert(e, "properties"@, JVal::Obj(Seq::empty())))
        } else {
            s
        },
        _ => s,
    };
    match s1 {
        JVal::Obj(e1) => match entry_get(e1, "properties"@) {
            Some(JVal::Obj(pe)) => if entry_get(pe, name) is Some {
                Err(ErrorCode::SchemaPropAlreadyExists)
            } else {
                Ok(JVal::Obj(entries_insert(e1, "properties"@, JVal::Obj(entries_insert(pe, name, def)))))
            },
            _ => Ok(s1),
        },
        _ => Ok(s1),
    }
}

/// The result of replacing property `name` of schema `s`; a missing
/// property is refused.
pub open spec fn alter_property_spec(s: JVal, name: Seq<char>, def: JVal) -> Result<JVal, ErrorCode> {
    match s {
        JVal::Obj(e) => match entry_get(e, "properties"@) {
            Some(JVal::Obj(pe)) => if entry_get(pe, name) is None {
                Err(ErrorCode::SchemaPropNotFound)
            } else {
                Ok(JVal::Obj(entries_insert(e, "properties"@, JVal::Obj(entries_insert(pe, name, def)))))
            },
            _ => Ok(s),
        },
        _ => Ok(s),
    }
}

/// The result of removing property `name` of schema `s`; a missing
/// property is refused.
pub open spec fn drop_property_spec(s: JVal, name: Seq<char>) -> Result<JVal, ErrorCode> {
    match s {
        JVal::Obj(e) => match entry_get(e, "properties"@) {
            Some(JVal::Obj(pe)) => if entry_get(pe, name) is None {
                Err(ErrorCode::SchemaPropNotFound)
            } else {
                Ok(JVal::Obj(entries_insert(e, "properties"@, JVal::Obj(entries_remove(pe, name)))))
            },
            _ => Ok(s),
        },
        _ => Ok(s),
    }
}

fn mount_uri(domain: &str, db: &str, version: &Vec<char>, rel: &Vec<char>) -> (r: String)
    ensures
        r@ == mounted_uri(domain@, db@, version@, rel@),
{
    let mut out = to_chars("db://");
    crate::json_text::push_all(&to_chars(domain), &mut out);
    crate::json_text::push_all(&to_chars("/"), &mut out);
    crate::json_text::push_all(&to_chars(db), &mut out);
    crate::json_text::push_all(&to_chars("/schemas/"), &mut out);
    crate::json_text::push_all(version, &mut out);
    crate::json_text::push_all(&to_chars("/"), &mut out);
    crate::json_text::push_all(rel, &mut out);
    proof {
        assert(out@ =~= mounted_uri(domain@, db@, version@, rel@));
    }
    from_chars(out.as_slice())
}

impl SchemaRegistry {
    pub open spec fn entries(&self) -> Seq<(Seq<char>, JVal)> {
        jents(self.by_uri@)
    }

    pub open spec fn lookup(&self, uri: Seq<char>) -> Option<JVal> {
        schema_lookup(self.entries(), pairs_view(self.mounts@), uri)
    }

    /// An empty registry with the default URI prefix and no mounted
    /// database.
    pub fn new() -> (r: SchemaRegistry)
        ensures
            r.by_uri@.len() == 0,
            r.mounts@.len() == 0,
            r.base_prefix@ == "db://unknown/unknown/schemas/v2/"@,
    {
        SchemaRegistry {
            by_uri: Vec::new(),
            base_prefix: "db://unknown/unknown/schemas/v2/".to_owned(),
            mounts: Vec::new(),
        }
    }

    /// Records `schema` under `uri`, replacing an earlier one.
    pub fn register(&mut self, uri: String, schema: JsonValue)
        ensures
            final(self).entries() == entries_insert(old(self).entries(), uri@, schema@),
            final(self).mounts == old(self).mounts,
            final(self).base_prefix == old(self).base_prefix,
    {
        object_insert(&mut self.by_uri, uri.as_str(), schema);
    }

    fn find_registered(&self, uri: &str) -> (r: Option<&JsonValue>)
        ensures
            match entry_get(self.entries(), uri@) {
                Some(x) => r matches Some(y) && y@ == x,
                None => r is None,
            },
    {
        let i = find_key(&self.by_uri, uri);
        proof {
            lemma_jents(self.by_uri@);
            lemma_entry_index(self.entries(), uri@);
        }
        if i < self.by_uri.len() {
            Some(&self.by_uri[i].1)
        } else {
            None
        }
    }

    /// The schema of `uri` (see `schema_lookup`).
    pub fn get_by_uri(&self, uri: &str) -> (r: Option<&JsonValue>)
        ensures
            match self.lookup(uri@) {
                Some(x) => r matches Some(y) && y@ == x,
                None => r is None,
            },
    {
        match self.find_registered(uri) {
            Some(s) => {
                return Some(s);
            },
            None => {},
        }
        let t = to_chars(uri);
        let pat = to_chars("/schemas/");
        let found = find_chars(t.as_slice(), pat.as_slice());
        let i = match found {
            Some(i) => i,
            None => {
                return None;
            },
        };
        let n = t.len();
        let pl = pat.len();
        assert(i + pl <= n);
        let rem = slice_chars(t.as_slice(), i + pl, n);
        let j = find_char_pub(rem.as_slice(), '/');
        if j == rem.len() {
            return None;
        }
        let version = slice_chars(rem.as_slice(), 0, j);
        let rel = slice_chars(rem.as_slice(), j + 1, rem.len());
        let ghost m = pairs_view(self.mounts@);
        proof {
            assert(m.subrange(0, m.len() as int) =~= m);
        }
        let mut k: usize = 0;
        while k < self.mounts.len()
            invariant
                k <= self.mounts@.len(),
                m == pairs_view(self.mounts@),
                self.lookup(uri@) == mount_lookup(self.entries(), m, version@, rel@),
                mount_lookup(self.entries(), m, version@, rel@) == mount_lookup(
                    self.entries(),
                    m.subrange(k as int, m.len() as int),
                    version@,
                    rel@,
                ),
            decreases self.mounts.len() - k,
        {
            let ghost rest = m.subrange(k as int, m.len() as int);
            proof {
                assert(rest[0] == (self.mounts@[k as int].0@, self.mounts@[k as int].1@));
                assert(rest.drop_first() =~= m.subrange(k + 1, m.len() as int));
            }
            let u = mount_uri(
                self.mounts[k].0.as_str(),
                self.mounts[k].1.as_str(),
                &version,
                &rel,
            );
            match self.find_registered(u.as_str()) {
                Some(s) => {
                    return Some(s);
                },
                None => {},
            }
            k = k + 1;
        }
        proof {
            assert(m.subrange(m.len() as int, m.len() as int) =~= Seq::<(Seq<char>, Seq<char>)>::empty());
        }
        let u = mount_uri("_system", "_system", &version, &rel);
        self.find_registered(u.as_str())
    }

    /// The registered URIs, in order.
    pub fn list_uris(&self) -> (r: Vec<String>)
        ensures
            strings_view(r@) == keys_of(self.entries()),
    {
        let mut out: Vec<String> = Vec::new();
        let mut i: usize = 0;
        proof {
            lemma_jents(self.by_uri@);
        }
        while i < self.by_uri.len()
            invariant
                i <= self.by_uri@.len(),
                self.entries().len() == self.by_uri@.len(),
                forall|j: int|
                    0 <= j < self.by_uri@.len() ==> #[trigger] self.entries()[j] == (
                        self.by_uri@[j].0@,
                        self.by_uri@[j].1@,
                    ),
                strings_view(out@) == keys_of(self.entries()).take(i as int),
            decreases self.by_uri.len() - i,
        {
            let ghost before = out@;
            let k = self.by_uri[i].0.clone();
            out.push(k);
            proof {
                assert(strings_view(out@) =~= strings_view(before).push(k@));
                assert(keys_of(self.entries()).take(i + 1) =~= keys_of(self.entries()).take(
                    i as int,
                ).push(self.entries()[i as int].0));
            }
            i = i + 1;
        }
        proof {
            assert(keys_of(self.entries()).take(self.by_uri@.len() as int) =~= keys_of(
                self.entries(),
            ));
        }
        out
    }

    /// The URI of a schema path under the registry's prefix.
    pub fn uri(&self, relative_path: &str) -> (r: String)
        ensures
            r@ == self.base_prefix@ + relative_path@,
    {
        let mut out = to_chars(self.base_prefix.as_str());
        crate::json_text::push_all(&to_chars(relative_path), &mut out);
        from_chars(out.as_slice())
    }

    /// Registers a new schema; a URI already registered is refused.
    pub fn create_schema(&mut self, uri: &str, schema: JsonValue) -> (r: Result<(), RaiseError>)
        ensures
            entry_get(old(self).entries(), uri@) is Some ==> (r matches Err(e) && e.code
                == ErrorCode::SchemaAlreadyExists && *final(self) == *old(self)),
            entry_get(old(self).entries(), uri@) is None ==> (r is Ok && final(self).entries()
                == entries_insert(old(self).entries(), uri@, schema@)),
            final(self).mounts == old(self).mounts,
            final(self).base_prefix == old(self).base_prefix,
    {
        if self.find_registered(uri).is_some() {
            return Err(RaiseError::new(ErrorCode::SchemaAlreadyExists, uri));
        }
        object_insert(&mut self.by_uri, uri, schema);
        Ok(())
    }

    /// Removes a schema; an unregistered URI is refused.
    pub fn drop_schema(&mut self, uri: &str) -> (r: Result<(), RaiseError>)
        ensures
            entry_get(old(self).entries(), uri@) is None ==> (r matches Err(e) && e.code
                == ErrorCode::SchemaNotFound),
            entry_get(old(self).entries(), uri@) is Some ==> r is Ok,
            final(self).entries() == entries_remove(old(self).entries(), uri@),
            final(self).mounts == old(self).mounts,
            final(self).base_prefix == old(self).base_prefix,
    {
        match object_remove(&mut self.by_uri, uri) {
            Some(_) => Ok(()),
            None => {
                proof {
                    lemma_entry_index(old(self).entries(), uri@);
                }
                Err(RaiseError::new(ErrorCode::SchemaNotFound, uri))
            },
        }
    }

    fn schema_copy(&self, uri: &str) -> (r: Result<JsonValue, RaiseError>)
        ensures
            match entry_get(self.entries(), uri@) {
                Some(s) => r matches Ok(x) && x@ == s,
                None => r matches Err(e) && e.code == ErrorCode::SchemaNotFound,
            },
    {
        match self.find_registered(uri) {
            Some(s) => Ok(s.deep_clone()),
            None => Err(RaiseError::new(ErrorCode::SchemaNotFound, uri)),
        }
    }

    /// Adds a property definition to a registered schema (see
    /// `add_property_spec`); an unregistered URI is refused.
    pub fn add_property(&mut self, uri: &str, prop_name: &str, prop_def: JsonValue) -> (r: Result<
        (),
        RaiseError,
    >)
        ensures
            final(self).mounts == old(self).mounts,
            final(self).base_prefix == old(self).base_prefix,
            match entry_get(old(self).entries(), uri@) {
                None => r matches Err(e) && e.code == ErrorCode::SchemaNotFound && *final(self)
                    == *old(self),
                Some(s) => match add_property_spec(s, prop_name@, prop_def@) {
                    Err(c) => r matches Err(e) && e.code == c && *final(self) == *old(self),
                    Ok(ns) => r is Ok && final(self).entries() == entries_insert(
                        old(self).entries(),
                        uri@,
                        ns,
                    ),
                },
            },
    {
        let mut schema = self.schema_copy(uri)?;
        if schema.get("properties").is_none() {
            schema.insert("properties", JsonValue::new_object());
        }
        let props = match schema.get("properties") {
            Some(p) => match p {
                JsonValue::Object(_) => Some(p.deep_clone()),
                _ => None,
            },
            None => None,
        };
        match props {
            Some(mut props) => {
                if props.contains_key(prop_name) {
                    return Err(RaiseError::new(ErrorCode::SchemaPropAlreadyExists, prop_name));
                }
                props.insert(prop_name, prop_def);
                schema.insert("properties", props);
            },
            None => {},
        }
        object_insert(&mut self.by_uri, uri, schema);
        Ok(())
    }

    /// Replaces a property definition of a registered schema (see
    /// `alter_property_spec`).
    pub fn alter_property(&mut self, uri: &str, prop_name: &str, prop_def: JsonValue) -> (r: Result<
        (),
        RaiseError,
    >)
        ensures
            final(self).mounts == old(self).mounts,
            final(self).base_prefix == old(self).base_prefix,
            match entry_get(old(self).entries(), uri@) {
                None => r matches Err(e) && e.code == ErrorCode::SchemaNotFound && *final(self)
                    == *old(self),
                Some(s) => match alter_property_spec(s, prop_name@, prop_def@) {
                    Err(c) => r matches Err(e) && e.code == c && *final(self) == *old(self),
                    Ok(ns) => r is Ok && final(self).entries() == entries_insert(
                        old(self).entries(),
                        uri@,
                        ns,
                    ),
                },
            },
    {
        let mut schema = self.schema_copy(uri)?;
        let props = match schema.get("properties") {
            Some(p) => match p {
                JsonValue::Object(_) => Some(p.deep_clone()),
                _ => None,
            },
            None => None,
        };
        match props {
            Some(mut props) => {
                if !props.contains_key(prop_name) {
                    return Err(RaiseError::new(ErrorCode::SchemaPropNotFound, prop_name));
                }
                props.insert(prop_name, prop_def);
                schema.insert("properties", props);
            },
            None => {},
        }
        object_insert(&mut self.by_uri, uri, schema);
        Ok(())
    }

    /// Removes a property definition of a registered schema (see
    /// `drop_property_spec`).
    pub fn drop_property(&mut self, uri: &str, prop_name: &str) -> (r: Result<(), RaiseError>)
        ensures
            final(self).mounts == old(self).mounts,
            final(self).base_prefix == old(self).base_prefix,
            match entry_get(old(self).entries(), uri@) {
                None => r matches Err(e) && e.code == ErrorCode::SchemaNotFound && *final(self)
                    == *old(self),
                Some(s) => match drop_property_spec(s, prop_name@) {
                    Err(c) => r matches Err(e) && e.code == c && *final(self) == *old(self),
                    Ok(ns) => r is Ok && final(self).entries() == entries_insert(
                        old(self).entries(),
                        uri@,
                        ns,
                    ),
                },
            },
    {
        let mut schema = self.schema_copy(uri)?;
        let props = match schema.get("properties") {
            Some(p) => match p {
                JsonValue::Object(_) => Some(p.deep_clone()),
                _ => None,
            },
            None => None,
        };
        match props {
            Some(mut props) => {
                match props.remove(prop_name) {
                    Some(_) => {},
                    None => {
                        return Err(RaiseError::new(ErrorCode::SchemaPropNotFound, prop_name));
                    },
                }
                schema.insert("properties", props);
            },
            None => {},
        }
        object_insert(&mut self.by_uri, uri, schema);
        Ok(())
    }
}

/// After a schema is registered, its URI gives it back.
pub proof fn law_register_then_lookup(
    by: Seq<(Seq<char>, JVal)>,
    mounts: Seq<(Seq<char>, Seq<char>)>,
    uri: Seq<char>,
    s: JVal,
)
    ensures
        schema_lookup(entries_insert(by, uri, s), mounts, uri) == Some(s),
{
    crate::json::law_entries_insert_get(by, uri, s);
}

impl crate::collections::CollectionsManager {
    /// The URIs of the schemas of the database's registry, in increasing
    /// order, each once.
    pub fn list_schemas(&self, registry: &SchemaRegistry) -> (r: Vec<String>)
        ensures
            crate::processor::sorted_strict(strings_view(r@)),
            forall|x: Seq<char>|
                strings_view(r@).contains(x) <==> keys_of(registry.entries()).contains(x),
    {
        let uris = registry.list_uris();
        let mut out: Vec<String> = Vec::new();
        let mut i: usize = 0;
        while i < uris.len()
            invariant
                i <= uris@.len(),
                strings_view(uris@) == keys_of(registry.entries()),
                crate::processor::sorted_strict(strings_view(out@)),
                forall|x: Seq<char>|
                    strings_view(out@).contains(x) <==> strings_view(uris@).take(i as int).contains(
                        x,
                    ),
            decreases uris.len() - i,
        {
            crate::processor::insert_sorted(&mut out, &uris[i]);
            proof {
                let pre = strings_view(uris@).take(i as int);
                let next = strings_view(uris@).take(i + 1);
                assert(next =~= pre.push(uris@[i as int]@));
                assert forall|x: Seq<char>| next.contains(x) <==> (pre.contains(x) || x
                    == uris@[i as int]@) by {
                    if next.contains(x) {
                        let k = choose|k: int| 0 <= k < next.len() && next[k] == x;
                        if k < i {
                            assert(pre[k] == x);
                        }
                    }
                    if pre.contains(x) {
                        let k = choose|k: int| 0 <= k < pre.len() && pre[k] == x;
                        assert(next[k] == x);
                    }
                    if x == uris@[i as int]@ {
                        assert(next[i as int] == x);
                    }
                }
            }
            i = i + 1;
        }
        assert(strings_view(uris@).take(uris@.len() as int) =~= strings_view(uris@));
        out
    }
}

/// The entries after registering `schemas[i]` under `uris[i]`, in order,
/// into a registry with no schema.
pub open spec fn register_all(uris: Seq<Seq<char>>, schemas: Seq<JVal>) -> Seq<(Seq<char>, JVal)>
    decreases uris.len(),
{
    if uris.len() == 0 {
        Seq::empty()
    } else {
        entries_insert(
            register_all(uris.drop_last(), schemas),
            uris.last(),
            schemas[uris.len() - 1],
        )
    }
}

proof fn lemma_insert_keys(e: Seq<(Seq<char>, JVal)>, k: Seq<char>, x: JVal)
    requires
        keys_of(e).no_duplicates(),
    ensures
        keys_of(entries_insert(e, k, x)).no_duplicates(),
        forall|y: Seq<char>|
            keys_of(entries_insert(e, k, x)).contains(y) <==> (keys_of(e).contains(y) || y == k),
{
    lemma_entry_index(e, k);
    let i = entry_index(e, k);
    let n = entries_insert(e, k, x);
    if i >= 0 {
        assert(keys_of(n) =~= keys_of(e));
        assert(keys_of(e)[i] == k);
    } else {
        assert(keys_of(n) =~= keys_of(e).push(k));
        assert(!keys_of(e).contains(k)) by {
            if keys_of(e).contains(k) {
                let j = choose|j: int| 0 <= j < keys_of(e).len() && keys_of(e)[j] == k;
                assert(e[j].0 == k);
            }
        }
        assert forall|y: Seq<char>| keys_of(n).contains(y) <==> (keys_of(e).contains(y) || y == k) by {
            if keys_of(n).contains(y) {
                let j = choose|j: int| 0 <= j < keys_of(n).len() && keys_of(n)[j] == y;
                if j < e.len() {
                    assert(keys_of(e)[j] == y);
                }
            }
            if keys_of(e).contains(y) {
                let j = choose|j: int| 0 <= j < keys_of(e).len() && keys_of(e)[j] == y;
                assert(keys_of(n)[j] == y);
            }
            if y == k {
                assert(keys_of(n)[e.len() as int] == y);
            }
        }
    }
}

/// After any series of registrations into a registry with no schema, the
/// registered URIs (what `list_uris` gives) never repeat, and they are
/// exactly the URIs that were registered.
pub proof fn law_registered_uris_distinct(uris: Seq<Seq<char>>, schemas: Seq<JVal>)
    ensures
        keys_of(register_all(uris, schemas)).no_duplicates(),
        forall|y: Seq<char>| keys_of(register_all(uris, schemas)).contains(y) <==> uris.contains(y),
    decreases uris.len(),
{
    if uris.len() == 0 {
        assert(keys_of(register_all(uris, schemas)) =~= Seq::<Seq<char>>::empty());
    } else {
        let pre = uris.drop_last();
        law_registered_uris_distinct(pre, schemas);
        lemma_insert_keys(register_all(pre, schemas), uris.last(), schemas[uris.len() - 1]);
        assert forall|y: Seq<char>| uris.contains(y) <==> (pre.contains(y) || y == uris.last()) by {
            if uris.contains(y) {
                let j = choose|j: int| 0 <= j < uris.len() && uris[j] == y;
                if j < uris.len() - 1 {
                    assert(pre[j] == y);
                }
            }
            if pre.contains(y) {
                let j = choose|j: int| 0 <= j < pre.len() && pre[j] == y;
                assert(uris[j] == y);
            }
        }
    }
}

} // verus!
