//! Where the database keeps its files: database roots, collections and
//! index files, as `/`-separated paths.
use vstd::prelude::*;
use crate::text::{from_chars, to_chars};

verus! {

/// `base` joined with `seg` as a path: a segment that starts with `/`
/// replaces the base; otherwise a `/` separates them unless the base is
/// empty or already ends with one.
pub open spec fn path_join(base: Seq<char>, seg: Seq<char>) -> Seq<char> {
    if seg.len() > 0 && seg[0] == '/' {
        seg
    } else if base.len() == 0 {
        seg
    } else if base.last() == '/' {
        base + seg
    } else {
        base + seq!['/'] + seg
    }
}

/// Joins two path pieces (see `path_join`).
pub fn join(base: &str, seg: &str) -> (r: String)
    ensures
        r@ == path_join(base@, seg@),
{
    let b = to_chars(base);
    let s = to_chars(seg);
    if s.len() > 0 && s[0] == '/' {
        return seg.to_owned();
    }
    if b.len() == 0 {
        return seg.to_owned();
    }
    let mut out = b;
    if out[out.len() - 1] != '/' {
        out.push('/');
    }
    crate::json_text::push_all(&s, &mut out);
    assert(out@ =~= path_join(base@, seg@));
    from_chars(out.as_slice())
}

/// The storage layout of a database instance: everything lives under
/// `data_root`.
#[derive(Debug, Clone)]
pub struct JsonDbConfig {
    pub data_root: String,
}

pub open spec fn db_root_spec(root: Seq<char>, space: Seq<char>, db: Seq<char>) -> Seq<char> {
    path_join(path_join(root, space), db)
}

pub open spec fn collection_root_spec(
    root: Seq<char>,
    space: Seq<char>,
    db: Seq<char>,
    collection: Seq<char>,
) -> Seq<char> {
    path_join(path_join(db_root_spec(root, space, db), "collections"@), collection)
}

pub open spec fn indexes_root_spec(
    root: Seq<char>,
    space: Seq<char>,
    db: Seq<char>,
    collection: Seq<char>,
) -> Seq<char> {
    path_join(collection_root_spec(root, space, db, collection), "_indexes"@)
}

impl JsonDbConfig {
    pub fn new(data_root: &str) -> (c: JsonDbConfig)
        ensures
            c.data_root@ == data_root@,
    {
        JsonDbConfig { data_root: data_root.to_owned() }
    }

    /// `{data_root}/{space}/{db}`.
    pub fn db_root(&self, space: &str, db: &str) -> (p: String)
        ensures
            p@ == db_root_spec(self.data_root@, space@, db@),
    {
        let s = join(self.data_root.as_str(), space);
        join(s.as_str(), db)
    }

    /// `{db_root}/collections/{collection}`.
    pub fn db_collection_path(&self, space: &str, db: &str, collection: &str) -> (p: String)
        ensures
            p@ == collection_root_spec(self.data_root@, space@, db@, collection@),
    {
        let r = self.db_root(space, db);
        let c = join(r.as_str(), "collections");
        join(c.as_str(), collection)
    }

    /// `{db_root}/schemas`.
    pub fn db_schemas_root(&self, space: &str, db: &str) -> (p: String)
        ensures
            p@ == path_join(db_root_spec(self.data_root@, space@, db@), "schemas"@),
    {
        let r = self.db_root(space, db);
        join(r.as_str(), "schemas")
    }
}

/// The root of a database.
pub fn db_root_path(cfg: &JsonDbConfig, space: &str, db: &str) -> (p: String)
    ensures
        p@ == db_root_spec(cfg.data_root@, space@, db@),
{
    cfg.db_root(space, db)
}

/// The folder of a collection: `{db_root}/collections/{collection}`.
pub fn collection_root(cfg: &JsonDbConfig, space: &str, db: &str, collection: &str) -> (p: String)
    ensures
        p@ == collection_root_spec(cfg.data_root@, space@, db@, collection@),
{
    cfg.db_collection_path(space, db, collection)
}

/// The folder of a collection's indexes: `{collection_root}/_indexes`.
pub fn indexes_root(cfg: &JsonDbConfig, space: &str, db: &str, collection: &str) -> (p: String)
    ensures
        p@ == indexes_root_spec(cfg.data_root@, space@, db@, collection@),
{
    let c = collection_root(cfg, space, db, collection);
    join(c.as_str(), "_indexes")
}

/// The kinds of index.
#[derive(Debug, Clone, Copy, PartialEq, Eq, Structural)]
pub enum IndexType {
    /// Exact match (ids, emails, codes).
    Hash,
    /// Ordered (dates, numbers, ranges).
    BTree,
    /// Keyword search.
    Text,
}

/// The file name suffix of an index kind.
pub open spec fn index_extension(t: IndexType) -> Seq<char> {
    match t {
        IndexType::Hash => "hash.idx"@,
        IndexType::BTree => "btree.idx"@,
        IndexType::Text => "text.idx"@,
    }
}

/// The lowercase name by which an index kind is stored.
pub open spec fn index_type_name(t: IndexType) -> Seq<char> {
    match t {
        IndexType::Hash => "hash"@,
        IndexType::BTree => "btree"@,
        IndexType::Text => "text"@,
    }
}

impl IndexType {
    pub fn as_str(&self) -> (s: &'static str)
        ensures
            s@ == index_type_name(*self),
    {
        match self {
            IndexType::Hash => "hash",
            IndexType::BTree => "btree",
            IndexType::Text => "text",
        }
    }
}

/// The file of an index: `{indexes_root}/{index_name}.{kind}.idx`.
pub fn index_path(
    cfg: &JsonDbConfig,
    space: &str,
    db: &str,
    collection: &str,
    index_name: &str,
    index_type: IndexType,
) -> (p: String)
    ensures
        p@ == path_join(
            indexes_root_spec(cfg.data_root@, space@, db@, collection@),
            index_name@ + seq!['.'] + index_extension(index_type),
        ),
{
    let extension = match index_type {
        IndexType::Hash => "hash.idx",
        IndexType::BTree => "btree.idx",
        IndexType::Text => "text.idx",
    };
    let mut file = to_chars(index_name);
    file.push('.');
    let ext = to_chars(extension);
    crate::json_text::push_all(&ext, &mut file);
    let f = from_chars(file.as_slice());
    let root = indexes_root(cfg, space, db, collection);
    join(root.as_str(), f.as_str())
}

/// An index declared on a collection.
#[derive(Debug, Clone)]
pub struct IndexDefinition {
    pub name: String,
    pub field_path: String,
    pub index_type: IndexType,
    pub unique: bool,
}

/// One entry of an index: a key and the document that holds it.
#[derive(Debug, Clone)]
pub struct IndexRecord {
    pub key: String,
    pub document_id: String,
}

} // verus!
