//! The documents read while business rules are evaluated: each is read
//! once per evaluation and then served from memory, and values are picked
//! from them by dotted path or pointer.
use vstd::prelude::*;
use crate::json::{JVal, JsonValue};
use crate::json_text::push_all;
use crate::schema_uri::{json_pointer, pointer};
use crate::text::{from_chars, has_prefix, starts_with, to_chars};

verus! {

/// A document read (or found missing) earlier in this evaluation.
#[derive(Debug)]
pub struct CachedDataProvider {
    pub space: String,
    pub db: String,
    pub cache: Vec<(String, String, Option<JsonValue>)>,
}

/// What the cache holds for a document, the latest entry first.
pub open spec fn cache_get(c: Seq<(String, String, Option<JsonValue>)>, col: Seq<char>, id: Seq<char>) -> Option<
    Option<JVal>,
>
    decreases c.len(),
{
    if c.len() == 0 {
        None
    } else if c.last().0@ == col && c.last().1@ == id {
        Some(
            match c.last().2 {
                Some(d) => Some(d@),
                None => None,
            },
        )
    } else {
        cache_get(c.drop_last(), col, id)
    }
}

/// The pointer of a field: a pointer as it is, a dotted path with its dots
/// made slashes behind a `/`.
pub open spec fn field_to_pointer(field: Seq<char>) -> Seq<char> {
    if has_prefix(field, "/"@) {
        field
    } else {
        seq!['/'] + field.map_values(|c: char| if c == '.' { '/' } else { c })
    }
}

impl CachedDataProvider {
    /// A provider with nothing read yet.
    pub fn new(space: &str, db: &str) -> (r: CachedDataProvider)
        ensures
            r.space@ == space@,
            r.db@ == db@,
            r.cache@.len() == 0,
    {
        CachedDataProvider { space: space.to_owned(), db: db.to_owned(), cache: Vec::new() }
    }

    /// What was read for the document `id` of `collection`, when it was.
    pub fn cached(&self, collection: &str, id: &str) -> (r: Option<Option<JsonValue>>)
        ensures
            match cache_get(self.cache@, collection@, id@) {
                Some(Some(d)) => r matches Some(Some(x)) && x@ == d,
                Some(None) => r matches Some(None),
                None => r is None,
            },
    {
        let mut i = self.cache.len();
        assert(self.cache@.subrange(0, i as int) =~= self.cache@);
        while i > 0
            invariant
                i <= self.cache@.len(),
                cache_get(self.cache@, collection@, id@) == cache_get(self.cache@.subrange(0, i as int), collection@, id@),
            decreases i,
        {
            let ghost pre = self.cache@.subrange(0, i as int);
            assert(pre.drop_last() =~= self.cache@.subrange(0, i - 1));
            assert(pre.last() == self.cache@[i - 1]);
            let e = &self.cache[i - 1];
            if crate::text::str_equal(e.0.as_str(), collection) && crate::text::str_equal(e.1.as_str(), id) {
                return match &e.2 {
                    Some(d) => Some(Some(d.deep_clone())),
                    None => Some(None),
                };
            }
            i = i - 1;
        }
        assert(self.cache@.subrange(0, 0).len() == 0);
        None
    }

    /// Remembers what was read for the document `id` of `collection`.
    pub fn remember(&mut self, collection: &str, id: &str, doc: Option<JsonValue>)
        ensures
            final(self).cache@.len() == old(self).cache@.len() + 1,
            final(self).cache@.drop_last() == old(self).cache@,
            final(self).cache@.last().0@ == collection@,
            final(self).cache@.last().1@ == id@,
            final(self).cache@.last().2 == doc,
            final(self).space == old(self).space,
            final(self).db == old(self).db,
    {
        self.cache.push((collection.to_owned(), id.to_owned(), doc));
    }
}

fn pointer_of_field(field: &str) -> (r: String)
    ensures
        r@ == field_to_pointer(field@),
{
    let fc = to_chars(field);
    if starts_with(fc.as_slice(), to_chars("/").as_slice()) {
        return field.to_owned();
    }
    let mut out: Vec<char> = vec!['/'];
    let mut i: usize = 0;
    while i < fc.len()
        invariant
            i <= fc@.len(),
            out@ == seq!['/'] + fc@.subrange(0, i as int).map_values(|c: char| if c == '.' { '/' } else { c }),
        decreases fc.len() - i,
    {
        let c = fc[i];
        out.push(if c == '.' { '/' } else { c });
        assert(fc@.subrange(0, i + 1).map_values(|c: char| if c == '.' { '/' } else { c }) =~= fc@.subrange(
            0,
            i as int,
        ).map_values(|c: char| if c == '.' { '/' } else { c }).push(if c == '.' { '/' } else { c }));
        i = i + 1;
    }
    assert(fc@.subrange(0, fc@.len() as int) =~= fc@);
    from_chars(out.as_slice())
}

/// The value at the field `field` (a dotted path or a pointer) of a
/// document.
pub fn value_of(doc: &JsonValue, field: &str) -> (r: Option<JsonValue>)
    ensures
        match json_pointer(doc@, field_to_pointer(field@)) {
            Some(v) => r matches Some(x) && x@ == v,
            None => r is None,
        },
{
    let p = pointer_of_field(field);
    match pointer(doc, p.as_str()) {
        Some(v) => Some(v.deep_clone()),
        None => None,
    }
}

/// A document remembered is served from memory.
pub proof fn law_remember_then_cached(
    c: Seq<(String, String, Option<JsonValue>)>,
    col: Seq<char>,
    id: Seq<char>,
    doc: Option<JsonValue>,
)
    requires
        c.len() > 0,
        c.last().0@ == col,
        c.last().1@ == id,
        c.last().2 == doc,
    ensures
        cache_get(c, col, id) == Some(
            match doc {
                Some(d) => Some(d@),
                None => None,
            },
        ),
{
}

} // verus!
