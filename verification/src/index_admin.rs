//! The index definitions of a collection, kept in its metadata: declaring,
//! dropping, listing and finding them, and the indexes a configuration
//! document asks for.
use vstd::prelude::*;
use crate::error::{ErrorCode, RaiseError};
use crate::json::{jents, jvs, lemma_jents, lemma_jvs, member, JVal, JsonValue};
use crate::json_text::{json_text, push_all};
use crate::paths::{index_type_name, IndexDefinition, IndexType};
use crate::system_index::str_of;
use crate::text::{from_chars, has_prefix, lowercase_spec, starts_with, str_equal, to_chars, to_lowercase};

verus! {

/// The kind of index named `s` (in lower case).
pub open spec fn index_type_of(s: Seq<char>) -> Option<IndexType> {
    if s == "hash"@ {
        Some(IndexType::Hash)
    } else if s == "btree"@ {
        Some(IndexType::BTree)
    } else if s == "text"@ {
        Some(IndexType::Text)
    } else {
        None
    }
}

impl IndexType {
    /// The kind of index named `s` (see `index_type_of`).
    pub fn from_name(s: &str) -> (r: Option<IndexType>)
        ensures
            r == index_type_of(s@),
    {
        if str_equal(s, "hash") {
            Some(IndexType::Hash)
        } else if str_equal(s, "btree") {
            Some(IndexType::BTree)
        } else if str_equal(s, "text") {
            Some(IndexType::Text)
        } else {
            None
        }
    }
}

/// The pointer of an indexed field: the field itself when it starts with
/// `/`, else the field behind a `/`.
pub open spec fn field_pointer(field: Seq<char>) -> Seq<char> {
    if has_prefix(field, "/"@) {
        field
    } else {
        "/"@ + field
    }
}

/// The definition of a new index on `field` of the kind named `kind`
/// (whatever its case): named after the field, on the field's pointer, not
/// unique; refused for an unknown kind.
pub fn index_definition_for(field: &str, kind: &str) -> (r: Result<IndexDefinition, RaiseError>)
    ensures
        match index_type_of(lowercase_spec(kind@)) {
            Some(t) => r matches Ok(d) && d.name@ == field@ && d.field_path@ == field_pointer(field@)
                && d.index_type == t && !d.unique,
            None => r matches Err(e) && e.code == ErrorCode::DbIndexTypeUnknown,
        },
{
    let low = to_lowercase(kind);
    let t = match IndexType::from_name(low.as_str()) {
        Some(t) => t,
        None => return Err(RaiseError::new(ErrorCode::DbIndexTypeUnknown, kind)),
    };
    let fc = to_chars(field);
    let field_path = if starts_with(fc.as_slice(), to_chars("/").as_slice()) {
        field.to_owned()
    } else {
        let mut out = to_chars("/");
        push_all(&fc, &mut out);
        from_chars(out.as_slice())
    };
    Ok(IndexDefinition { name: field.to_owned(), field_path, index_type: t, unique: false })
}

/// The metadata of a collection: its schema and its index definitions.
#[derive(Debug)]
pub struct CollectionMeta {
    pub schema: Option<String>,
    pub indexes: Vec<IndexDefinition>,
}

/// The names of index definitions, in order.
pub open spec fn names_of(defs: Seq<IndexDefinition>) -> Seq<Seq<char>> {
    defs.map_values(|d: IndexDefinition| d.name@)
}

fn position_of_name(defs: &Vec<IndexDefinition>, name: &str) -> (p: usize)
    ensures
        p <= defs@.len(),
        forall|j: int| 0 <= j < p ==> defs@[j].name@ != name@,
        p < defs@.len() ==> defs@[p as int].name@ == name@,
{
    let mut i: usize = 0;
    while i < defs.len()
        invariant
            i <= defs@.len(),
            forall|j: int| 0 <= j < i ==> defs@[j].name@ != name@,
        decreases defs.len() - i,
    {
        if str_equal(defs[i].name.as_str(), name) {
            return i;
        }
        i = i + 1;
    }
    i
}

/// Whether an index is declared under `name`.
pub fn has_index(defs: &Vec<IndexDefinition>, name: &str) -> (b: bool)
    ensures
        b == names_of(defs@).contains(name@),
{
    let p = position_of_name(defs, name);
    proof {
        if p < defs@.len() {
            assert(names_of(defs@)[p as int] == name@);
        } else if names_of(defs@).contains(name@) {
            let j = choose|j: int| 0 <= j < names_of(defs@).len() && names_of(defs@)[j] == name@;
            assert(defs@[j].name@ == name@);
        }
    }
    p < defs.len()
}

impl CollectionMeta {
    /// Declares the index `def` unless one of its name is declared; tells
    /// whether it was added (and the metadata must be written).
    pub fn add_index_definition(&mut self, def: IndexDefinition) -> (added: bool)
        ensures
            added == !names_of(old(self).indexes@).contains(def.name@),
            added ==> final(self).indexes@ == old(self).indexes@.push(def),
            !added ==> final(self).indexes@ == old(self).indexes@,
            final(self).schema == old(self).schema,
    {
        if has_index(&self.indexes, def.name.as_str()) {
            false
        } else {
            self.indexes.push(def);
            true
        }
    }

    /// Drops the first index declared under `name`, giving it back; refused
    /// when there is none.
    pub fn drop_index_definition(&mut self, name: &str) -> (r: Result<IndexDefinition, RaiseError>)
        ensures
            final(self).schema == old(self).schema,
            names_of(old(self).indexes@).contains(name@) ==> (r matches Ok(d) && exists|p: int|
                0 <= p < old(self).indexes@.len() && old(self).indexes@[p] == d && d.name@ == name@
                    && (forall|j: int| 0 <= j < p ==> old(self).indexes@[j].name@ != name@)
                    && final(self).indexes@ == old(self).indexes@.remove(p)),
            !names_of(old(self).indexes@).contains(name@) ==> (r matches Err(e) && e.code
                == ErrorCode::DbIndexNotFound && final(self).indexes@ == old(self).indexes@),
    {
        let p = position_of_name(&self.indexes, name);
        proof {
            if p < self.indexes@.len() {
                assert(names_of(self.indexes@)[p as int] == name@);
            } else if names_of(self.indexes@).contains(name@) {
                let j = choose|j: int| 0 <= j < names_of(self.indexes@).len() && names_of(self.indexes@)[j] == name@;
                assert(self.indexes@[j].name@ == name@);
            }
        }
        if p < self.indexes.len() {
            let ghost before = self.indexes@;
            let d = self.indexes.remove(p);
            assert(before[p as int] == d);
            Ok(d)
        } else {
            Err(RaiseError::new(ErrorCode::DbIndexNotFound, name))
        }
    }
}

/// The first index declared under `name`; refused when there is none.
pub fn find_index<'a>(defs: &'a Vec<IndexDefinition>, name: &str) -> (r: Result<&'a IndexDefinition, RaiseError>)
    ensures
        match r {
            Ok(d) => exists|p: int|
                0 <= p < defs@.len() && defs@[p] == *d && d.name@ == name@ && forall|j: int|
                    0 <= j < p ==> defs@[j].name@ != name@,
            Err(e) => e.code == ErrorCode::DbIndexDefinitionNotFound && !names_of(defs@).contains(
                name@,
            ),
        },
{
    let p = position_of_name(defs, name);
    if p < defs.len() {
        Ok(&defs[p])
    } else {
        proof {
            if names_of(defs@).contains(name@) {
                let j = choose|j: int| 0 <= j < names_of(defs@).len() && names_of(defs@)[j] == name@;
                assert(defs@[j].name@ == name@);
            }
        }
        Err(RaiseError::new(ErrorCode::DbIndexDefinitionNotFound, name))
    }
}

/// The definitions under `filter`'s name, or all of them without a filter.
pub open spec fn filtered_defs(defs: Seq<IndexDefinition>, filter: Seq<char>) -> Seq<IndexDefinition>
    decreases defs.len(),
{
    if defs.len() == 0 {
        Seq::empty()
    } else {
        let rest = filtered_defs(defs.drop_last(), filter);
        if defs.last().name@ == filter {
            rest.push(defs.last())
        } else {
            rest
        }
    }
}

fn clone_def(d: &IndexDefinition) -> (r: IndexDefinition)
    ensures
        r.name@ == d.name@,
        r.field_path@ == d.field_path@,
        r.index_type == d.index_type,
        r.unique == d.unique,
{
    IndexDefinition {
        name: d.name.clone(),
        field_path: d.field_path.clone(),
        index_type: d.index_type,
        unique: d.unique,
    }
}

/// Whether two definitions are the same.
pub open spec fn same_def(a: IndexDefinition, b: IndexDefinition) -> bool {
    a.name@ == b.name@ && a.field_path@ == b.field_path@ && a.index_type == b.index_type && a.unique
        == b.unique
}

/// The index definitions, only those under the name `field_filter` when it
/// is given.
pub fn list_indexes(defs: &Vec<IndexDefinition>, field_filter: Option<&str>) -> (r: Vec<IndexDefinition>)
    ensures
        ({
            let want = match field_filter {
                Some(f) => filtered_defs(defs@, f@),
                None => defs@,
            };
            r@.len() == want.len() && forall|i: int| 0 <= i < want.len() ==> same_def(#[trigger] r@[i], want[i])
        }),
{
    let mut out: Vec<IndexDefinition> = Vec::new();
    let mut i: usize = 0;
    proof {
        assert(defs@.subrange(0, 0) =~= Seq::<IndexDefinition>::empty());
    }
    while i < defs.len()
        invariant
            i <= defs@.len(),
            ({
                let want = match field_filter {
                    Some(f) => filtered_defs(defs@.subrange(0, i as int), f@),
                    None => defs@.subrange(0, i as int),
                };
                out@.len() == want.len() && forall|j: int| 0 <= j < want.len() ==> same_def(#[trigger] out@[j], want[j])
            }),
        decreases defs.len() - i,
    {
        proof {
            assert(defs@.subrange(0, i + 1).drop_last() =~= defs@.subrange(0, i as int));
            assert(defs@.subrange(0, i + 1).last() == defs@[i as int]);
            assert(defs@.subrange(0, i + 1) =~= defs@.subrange(0, i as int).push(defs@[i as int]));
        }
        let keep = match field_filter {
            Some(f) => str_equal(defs[i].name.as_str(), f),
            None => true,
        };
        if keep {
            out.push(clone_def(&defs[i]));
        }
        i = i + 1;
    }
    proof {
        assert(defs@.subrange(0, defs@.len() as int) =~= defs@);
    }
    out
}

/// The key an index is searched with for `value`: its compact JSON text
/// for hash and ordered indexes; for the keyword index, the value's text
/// (empty when it is not a string) in lower case.
pub open spec fn search_key_spec(t: IndexType, value: JVal) -> Seq<char> {
    match t {
        IndexType::Text => lowercase_spec(
            match value {
                JVal::Str(s) => s,
                _ => Seq::empty(),
            },
        ),
        _ => json_text(value),
    }
}

/// The key an index of kind `t` is searched with for `value` (see
/// `search_key_spec`).
pub fn search_key(t: IndexType, value: &JsonValue) -> (r: String)
    ensures
        r@ == search_key_spec(t, value@),
{
    match t {
        IndexType::Text => {
            let s = match value {
                JsonValue::String(s) => s.clone(),
                _ => String::new(),
            };
            to_lowercase(s.as_str())
        },
        _ => value.stringify(),
    }
}

/// The indexes a configuration document asks for, as (collection, field)
/// in member order: the string entries of each collection's `x_indexes`.
pub open spec fn config_requests(cols: Seq<(Seq<char>, JVal)>) -> Seq<(Seq<char>, Seq<char>)>
    decreases cols.len(),
{
    if cols.len() == 0 {
        Seq::empty()
    } else {
        config_requests(cols.drop_last()) + match member(cols.last().1, "x_indexes"@) {
            Some(JVal::Arr(items)) => crate::frontend::strings_of(items).map_values(
                |f: Seq<char>| (cols.last().0, f),
            ),
            _ => Seq::empty(),
        }
    }
}

/// The indexes a configuration document asks for (see `config_requests`);
/// none when its `collections` is not an object.
pub fn index_requests(index_doc: &JsonValue) -> (r: Vec<(String, String)>)
    ensures
        crate::vocabulary::pairs_view(r@) == match member(index_doc@, "collections"@) {
            Some(JVal::Obj(cols)) => config_requests(cols),
            _ => Seq::empty(),
        },
{
    let mut out: Vec<(String, String)> = Vec::new();
    match index_doc.get("collections") {
        Some(JsonValue::Object(cols)) => {
            let ghost jc = jents(cols@);
            proof {
                lemma_jents(cols@);
                assert(jc.subrange(0, 0) =~= Seq::<(Seq<char>, JVal)>::empty());
                assert(crate::vocabulary::pairs_view(out@) =~= Seq::<(Seq<char>, Seq<char>)>::empty());
            }
            let mut i: usize = 0;
            while i < cols.len()
                invariant
                    i <= cols@.len(),
                    jc == jents(cols@),
                    jc.len() == cols@.len(),
                    forall|j: int| 0 <= j < cols@.len() ==> #[trigger] jc[j] == (cols@[j].0@, cols@[j].1@),
                    crate::vocabulary::pairs_view(out@) == config_requests(jc.subrange(0, i as int)),
                decreases cols.len() - i,
            {
                let ghost start = crate::vocabulary::pairs_view(out@);
                proof {
                    assert(jc.subrange(0, i + 1).drop_last() =~= jc.subrange(0, i as int));
                    assert(jc.subrange(0, i + 1).last() == jc[i as int]);
                }
                match cols[i].1.get("x_indexes") {
                    Some(JsonValue::Array(items)) => {
                        let ghost want = crate::frontend::strings_of(jvs(items@)).map_values(
                            |f: Seq<char>| (cols@[i as int].0@, f),
                        );
                        let fields = crate::frontend::strings_exec(items);
                        let mut j: usize = 0;
                        proof {
                            assert(want.take(0) =~= Seq::<(Seq<char>, Seq<char>)>::empty());
                            assert(start + want.take(0) =~= start);
                        }
                        while j < fields.len()
                            invariant
                                j <= fields@.len(),
                                crate::changes::strs(fields@) == crate::frontend::strings_of(jvs(items@)),
                                want == crate::frontend::strings_of(jvs(items@)).map_values(
                                    |f: Seq<char>| (cols@[i as int].0@, f),
                                ),
                                i < cols@.len(),
                                crate::vocabulary::pairs_view(out@) == start + want.take(j as int),
                            decreases fields.len() - j,
                        {
                            let ghost before = crate::vocabulary::pairs_view(out@);
                            out.push((cols[i].0.clone(), fields[j].clone()));
                            proof {
                                assert(crate::changes::strs(fields@)[j as int] == fields@[j as int]@);
                                assert(want.take(j + 1) =~= want.take(j as int).push(want[j as int]));
                                assert(crate::vocabulary::pairs_view(out@) =~= before.push(
                                    (cols@[i as int].0@, fields@[j as int]@),
                                ));
                            }
                            j = j + 1;
                        }
                        proof {
                            assert(want.take(fields@.len() as int) =~= want);
                        }
                    },
                    _ => {
                        assert(start + Seq::<(Seq<char>, Seq<char>)>::empty() =~= start);
                    },
                }
                i = i + 1;
            }
            proof {
                assert(jc.subrange(0, cols@.len() as int) =~= jc);
            }
        },
        _ => {
            assert(crate::vocabulary::pairs_view(out@) =~= Seq::<(Seq<char>, Seq<char>)>::empty());
        },
    }
    out
}

/// The definition as JSON: `name`, `field_path`, `index_type` (its
/// lower-case name) and `unique`.
pub open spec fn def_json(d: IndexDefinition) -> JVal {
    JVal::Obj(
        seq![
            ("name"@, JVal::Str(d.name@)),
            ("field_path"@, JVal::Str(d.field_path@)),
            ("index_type"@, JVal::Str(index_type_name(d.index_type))),
            ("unique"@, JVal::Bool(d.unique)),
        ],
    )
}

impl IndexDefinition {
    /// The definition as JSON (see `def_json`).
    pub fn to_json(&self) -> (r: JsonValue)
        ensures
            r@ == def_json(*self),
    {
        let o = vec![
            ("name".to_owned(), JsonValue::String(self.name.clone())),
            ("field_path".to_owned(), JsonValue::String(self.field_path.clone())),
            ("index_type".to_owned(), JsonValue::String(self.index_type.as_str().to_owned())),
            ("unique".to_owned(), JsonValue::Bool(self.unique)),
        ];
        proof {
            lemma_jents(o@);
            assert(jents(o@) =~= match def_json(*self) {
                JVal::Obj(e) => e,
                _ => Seq::empty(),
            });
        }
        JsonValue::Object(o)
    }

    /// The definition a JSON object describes: string `name` and
    /// `field_path`, a known `index_type` and a boolean `unique`.
    pub fn from_json(v: &JsonValue) -> (r: Option<IndexDefinition>)
        ensures
            match (
                str_of(member(v@, "name"@)),
                str_of(member(v@, "field_path"@)),
                str_of(member(v@, "index_type"@)),
                member(v@, "unique"@),
            ) {
                (Some(n), Some(f), Some(t), Some(JVal::Bool(u))) => match index_type_of(t) {
                    Some(k) => r matches Some(d) && d.name@ == n && d.field_path@ == f && d.index_type
                        == k && d.unique == u,
                    None => r is None,
                },
                _ => r is None,
            },
    {
        let name = match v.get("name") {
            Some(JsonValue::String(s)) => s.clone(),
            _ => return None,
        };
        let field_path = match v.get("field_path") {
            Some(JsonValue::String(s)) => s.clone(),
            _ => return None,
        };
        let t = match v.get("index_type") {
            Some(JsonValue::String(s)) => s.clone(),
            _ => return None,
        };
        let unique = match v.get("unique") {
            Some(JsonValue::Bool(b)) => *b,
            _ => return None,
        };
        match IndexType::from_name(t.as_str()) {
            Some(k) => Some(IndexDefinition { name, field_path, index_type: k, unique }),
            None => None,
        }
    }
}

/// A definition read back from its JSON is the same definition.
pub proof fn law_def_json_round_trip(d: IndexDefinition)
    ensures
        str_of(member(def_json(d), "name"@)) == Some(d.name@),
        str_of(member(def_json(d), "field_path"@)) == Some(d.field_path@),
        str_of(member(def_json(d), "index_type"@)) == Some(index_type_name(d.index_type)),
        member(def_json(d), "unique"@) == Some(JVal::Bool(d.unique)),
        index_type_of(index_type_name(d.index_type)) == Some(d.index_type),
{
    let e = seq![
        ("name"@, JVal::Str(d.name@)),
        ("field_path"@, JVal::Str(d.field_path@)),
        ("index_type"@, JVal::Str(index_type_name(d.index_type))),
        ("unique"@, JVal::Bool(d.unique)),
    ];
    reveal_strlit("name");
    reveal_strlit("field_path");
    reveal_strlit("index_type");
    reveal_strlit("unique");
    reveal_strlit("hash");
    reveal_strlit("btree");
    reveal_strlit("text");
    crate::json::lemma_entry_index(e, "name"@);
    crate::json::lemma_entry_index(e, "field_path"@);
    crate::json::lemma_entry_index(e, "index_type"@);
    crate::json::lemma_entry_index(e, "unique"@);
    assert(e[0].0 != "field_path"@ && e[0].0 != "index_type"@ && e[0].0 != "unique"@) by {
        assert("name"@.len() != "field_path"@.len());
        assert("name"@.len() != "index_type"@.len());
        assert("name"@[0] != "unique"@[0]);
    }
    assert(e[1].0 != "index_type"@ && e[1].0 != "unique"@) by {
        assert("field_path"@[0] != "index_type"@[0]);
        assert("field_path"@.len() != "unique"@.len());
    }
    assert(e[2].0 != "unique"@) by {
        assert("index_type"@.len() != "unique"@.len());
    }
    assert("btree"@ != "hash"@) by {
        assert("btree"@.len() != "hash"@.len());
    }
    assert("text"@ != "hash"@) by {
        assert("text"@[0] != "hash"@[0]);
    }
    assert("text"@ != "btree"@) by {
        assert("text"@.len() != "btree"@.len());
    }
}

} // verus!
