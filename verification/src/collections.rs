//! Naming rules of collections and schemas, and smart links between
//! documents (`ref:collection:field:value`).
use vstd::prelude::*;
use crate::paths::JsonDbConfig;
use crate::text::{
    ends_with, from_chars, has_prefix, has_suffix, slice_chars, split_chars, split_spec,
    starts_with, to_chars,
};

verus! {

/// `s` with every trailing repetition of `p` removed (`trim_end_matches`).
pub open spec fn trim_end_all(s: Seq<char>, p: Seq<char>) -> Seq<char>
    decreases s.len(),
{
    if p.len() > 0 && has_suffix(s, p) {
        trim_end_all(s.subrange(0, s.len() - p.len()), p)
    } else {
        s
    }
}

/// `s` with every leading repetition of `p` removed (`trim_start_matches`).
pub open spec fn trim_start_all(s: Seq<char>, p: Seq<char>) -> Seq<char>
    decreases s.len(),
{
    if p.len() > 0 && has_prefix(s, p) {
        trim_start_all(s.subrange(p.len() as int, s.len() as int), p)
    } else {
        s
    }
}

pub fn trim_end_matches(s: &[char], p: &[char]) -> (r: Vec<char>)
    ensures
        r@ == trim_end_all(s@, p@),
{
    let mut end: usize = s.len();
    assert(s@.subrange(0, s@.len() as int) =~= s@);
    loop
        invariant
            end <= s@.len(),
            trim_end_all(s@, p@) == trim_end_all(s@.subrange(0, end as int), p@),
        decreases end,
    {
        let cur = slice_chars(s, 0, end);
        if p.len() > 0 && ends_with(cur.as_slice(), p) {
            proof {
                assert(cur@.subrange(0, cur@.len() - p@.len()) =~= s@.subrange(
                    0,
                    end - p@.len(),
                ));
            }
            end = end - p.len();
        } else {
            return cur;
        }
    }
}

pub fn trim_start_matches(s: &[char], p: &[char]) -> (r: Vec<char>)
    ensures
        r@ == trim_start_all(s@, p@),
{
    let mut start: usize = 0;
    assert(s@.subrange(0, s@.len() as int) =~= s@);
    loop
        invariant
            start <= s@.len(),
            trim_start_all(s@, p@) == trim_start_all(s@.subrange(start as int, s@.len() as int), p@),
        decreases s@.len() - start,
    {
        let cur = slice_chars(s, start, s.len());
        if p.len() > 0 && starts_with(cur.as_slice(), p) {
            proof {
                assert(cur@.subrange(p@.len() as int, cur@.len() as int) =~= s@.subrange(
                    start + p@.len(),
                    s@.len() as int,
                ));
            }
            start = start + p.len();
        } else {
            return cur;
        }
    }
}

/// The collection a schema path belongs to: its first segment, without a
/// trailing `.json`.
pub open spec fn collection_of_schema(rel: Seq<char>) -> Seq<char> {
    let first = split_spec(rel, '/')[0];
    if has_suffix(first, ".json"@) {
        trim_end_all(first, ".json"@)
    } else {
        first
    }
}

/// The collection a schema path belongs to (`users/user.json` → `users`).
pub fn collection_from_schema_rel(schema_rel: &str) -> (r: String)
    ensures
        r@ == collection_of_schema(schema_rel@),
{
    let cs = to_chars(schema_rel);
    let parts = split_chars(cs.as_slice(), '/');
    proof {
        crate::text::lemma_split_nonempty(cs@, '/');
    }
    let first = &parts[0];
    let ext = to_chars(".json");
    if ends_with(first.as_slice(), ext.as_slice()) {
        let t = trim_end_matches(first.as_slice(), ext.as_slice());
        from_chars(t.as_slice())
    } else {
        from_chars(first.as_slice())
    }
}

/// Index of the first `c` in `s`, or -1.
pub open spec fn index_of_char(s: Seq<char>, c: char) -> int {
    crate::parser::first_index_of(s, c)
}

/// The parts of a smart link `ref:{collection}:{field}:{value}`; the value
/// keeps any further colons.
pub open spec fn smart_link_spec(s: Seq<char>) -> Option<(Seq<char>, Seq<char>, Seq<char>)> {
    if !has_prefix(s, "ref:"@) {
        None
    } else {
        let r = s.subrange(4, s.len() as int);
        let i = index_of_char(r, ':');
        if i < 0 {
            None
        } else {
            let r2 = r.subrange(i + 1, r.len() as int);
            let j = index_of_char(r2, ':');
            if j < 0 {
                None
            } else {
                Some((r.subrange(0, i), r2.subrange(0, j), r2.subrange(j + 1, r2.len() as int)))
            }
        }
    }
}

fn index_of(s: &[char], c: char) -> (i: usize)
    ensures
        i <= s@.len(),
        i < s@.len() ==> i as int == index_of_char(s@, c),
        i == s@.len() ==> index_of_char(s@, c) == -1,
{
    crate::parser::find_char_pub(s, c)
}

/// Reads a smart link `ref:{collection}:{field}:{value}`.
pub fn parse_smart_link(s: &str) -> (r: Option<(String, String, String)>)
    ensures
        match smart_link_spec(s@) {
            Some((c, f, v)) => r matches Some(x) && x.0@ == c && x.1@ == f && x.2@ == v,
            None => r is None,
        },
{
    let cs = to_chars(s);
    let prefix = to_chars("ref:");
    if !starts_with(cs.as_slice(), prefix.as_slice()) {
        return None;
    }
    proof {
        reveal_strlit("ref:");
    }
    let r = slice_chars(cs.as_slice(), 4, cs.len());
    let i = index_of(r.as_slice(), ':');
    if i == r.len() {
        return None;
    }
    let r2 = slice_chars(r.as_slice(), i + 1, r.len());
    let j = index_of(r2.as_slice(), ':');
    if j == r2.len() {
        return None;
    }
    let col = slice_chars(r.as_slice(), 0, i);
    let field = slice_chars(r2.as_slice(), 0, j);
    let val = slice_chars(r2.as_slice(), j + 1, r2.len());
    Some((from_chars(col.as_slice()), from_chars(field.as_slice()), from_chars(val.as_slice())))
}

/// How a caller designates a document: by id or by its `name` field.
pub enum EntityIdentity {
    Id(String),
    Name(String),
}

/// The collections of one database of one space.
#[derive(Debug, Clone)]
pub struct CollectionsManager {
    pub config: JsonDbConfig,
    pub space: String,
    pub db: String,
}

/// Index of the first occurrence of `p` in `s` at or after `i`, or -1.
pub open spec fn find_from(s: Seq<char>, p: Seq<char>, i: int) -> int
    decreases s.len() + 1 - i,
{
    if i < 0 || i + p.len() > s.len() {
        -1
    } else if s.subrange(i, i + p.len()) == p {
        i
    } else {
        find_from(s, p, i + 1)
    }
}

/// Index of the first occurrence of `p` in `s` (`str::find`), or -1.
pub open spec fn find_spec(s: Seq<char>, p: Seq<char>) -> int {
    find_from(s, p, 0)
}

proof fn lemma_find_from(s: Seq<char>, p: Seq<char>, i: int)
    requires
        0 <= i,
    ensures
        find_from(s, p, i) == -1 || (i <= find_from(s, p, i) && find_from(s, p, i) + p.len()
            <= s.len()),
    decreases s.len() + 1 - i,
{
    if i + p.len() <= s.len() && s.subrange(i, i + p.len()) != p {
        lemma_find_from(s, p, i + 1);
    }
}

/// `str::find` on characters: the first position of `p` in `s`, or `None`.
pub fn find_chars(s: &[char], p: &[char]) -> (r: Option<usize>)
    ensures
        match r {
            Some(i) => i as int == find_spec(s@, p@) && i + p@.len() <= s@.len(),
            None => find_spec(s@, p@) == -1,
        },
{
    let n = s.len();
    let m = p.len();
    if m > n {
        return None;
    }
    let mut i: usize = 0;
    proof {
        lemma_find_from(s@, p@, 0);
    }
    loop
        invariant
            n == s@.len(),
            m == p@.len(),
            m <= n,
            i <= n - m,
            find_spec(s@, p@) == find_from(s@, p@, i as int),
        decreases n - m - i,
    {
        let w = slice_chars(s, i, i + m);
        if crate::text::chars_equal(w.as_slice(), p) {
            return Some(i);
        }
        if i == n - m {
            assert(find_from(s@, p@, i + 1) == -1);
            assert(find_from(s@, p@, i as int) == -1);
            return None;
        }
        i = i + 1;
    }
}

/// The URI of a schema of the manager's database: full URIs
/// (`db://`, `http://`, `https://`) are kept; other names are reduced to the
/// path after `/schemas/v1/` (or stripped of leading `/`, `schemas/`, `v1/`,
/// `/`) and placed under `db://{space}/{db}/schemas/v1/`.
pub open spec fn schema_uri_spec(space: Seq<char>, db: Seq<char>, name: Seq<char>) -> Seq<char> {
    if has_prefix(name, "db://"@) || has_prefix(name, "http://"@) || has_prefix(
        name,
        "https://"@,
    ) {
        name
    } else {
        let rel = if find_spec(name, "/schemas/v1/"@) >= 0 {
            name.subrange(find_spec(name, "/schemas/v1/"@) + 12, name.len() as int)
        } else {
            trim_start_all(
                trim_start_all(trim_start_all(trim_start_all(name, "/"@), "schemas/"@), "v1/"@),
                "/"@,
            )
        };
        "db://"@ + space + "/"@ + db + "/schemas/v1/"@ + rel
    }
}

impl CollectionsManager {
    pub fn new(config: &JsonDbConfig, space: &str, db: &str) -> (m: CollectionsManager)
        ensures
            m.config.data_root@ == config.data_root@,
            m.space@ == space@,
            m.db@ == db@,
    {
        CollectionsManager {
            config: JsonDbConfig { data_root: config.data_root.clone() },
            space: space.to_owned(),
            db: db.to_owned(),
        }
    }

    /// The URI of the schema `schema_name` (see `schema_uri_spec`).
    pub fn build_schema_uri(&self, schema_name: &str) -> (r: String)
        ensures
            r@ == schema_uri_spec(self.space@, self.db@, schema_name@),
    {
        let n = to_chars(schema_name);
        if starts_with(n.as_slice(), to_chars("db://").as_slice()) || starts_with(
            n.as_slice(),
            to_chars("http://").as_slice(),
        ) || starts_with(n.as_slice(), to_chars("https://").as_slice()) {
            return schema_name.to_owned();
        }
        let marker = to_chars("/schemas/v1/");
        proof {
            reveal_strlit("/schemas/v1/");
        }
        assert(marker@.len() == 12);
        let rel = match find_chars(n.as_slice(), marker.as_slice()) {
            Some(idx) => {
                let nl = n.len();
                assert(idx + 12 <= nl);
                slice_chars(n.as_slice(), idx + 12, nl)
            },
            None => {
                let a = trim_start_matches(n.as_slice(), to_chars("/").as_slice());
                let b = trim_start_matches(a.as_slice(), to_chars("schemas/").as_slice());
                let c = trim_start_matches(b.as_slice(), to_chars("v1/").as_slice());
                trim_start_matches(c.as_slice(), to_chars("/").as_slice())
            },
        };
        let mut out = to_chars("db://");
        crate::json_text::push_all(&to_chars(self.space.as_str()), &mut out);
        crate::json_text::push_all(&to_chars("/"), &mut out);
        crate::json_text::push_all(&to_chars(self.db.as_str()), &mut out);
        crate::json_text::push_all(&marker, &mut out);
        crate::json_text::push_all(&rel, &mut out);
        assert(out@ =~= schema_uri_spec(self.space@, self.db@, schema_name@));
        from_chars(out.as_slice())
    }
}

/// The modelling layer a schema URI belongs to, found by the first of
/// `/oa/`, `/sa/`, `/la/`, `/pa/`, `/epbs/`, `/data/` that it contains.
pub open spec fn layer_hint_spec(uri: Seq<char>) -> Option<Seq<char>> {
    if find_spec(uri, "/oa/"@) >= 0 {
        Some("oa"@)
    } else if find_spec(uri, "/sa/"@) >= 0 {
        Some("sa"@)
    } else if find_spec(uri, "/la/"@) >= 0 {
        Some("la"@)
    } else if find_spec(uri, "/pa/"@) >= 0 {
        Some("pa"@)
    } else if find_spec(uri, "/epbs/"@) >= 0 {
        Some("epbs"@)
    } else if find_spec(uri, "/data/"@) >= 0 {
        Some("data"@)
    } else {
        None
    }
}

pub fn contains_lit(s: &Vec<char>, p: &str) -> (b: bool)
    ensures
        b == (find_spec(s@, p@) >= 0),
{
    let pc = to_chars(p);
    find_chars(s.as_slice(), pc.as_slice()).is_some()
}

/// The modelling layer a schema URI belongs to (see `layer_hint_spec`).
pub fn schema_layer_hint(uri: &str) -> (r: Option<&'static str>)
    ensures
        match layer_hint_spec(uri@) {
            Some(l) => r matches Some(x) && x@ == l,
            None => r is None,
        },
{
    let cs = to_chars(uri);
    if contains_lit(&cs, "/oa/") {
        Some("oa")
    } else if contains_lit(&cs, "/sa/") {
        Some("sa")
    } else if contains_lit(&cs, "/la/") {
        Some("la")
    } else if contains_lit(&cs, "/pa/") {
        Some("pa")
    } else if contains_lit(&cs, "/epbs/") {
        Some("epbs")
    } else if contains_lit(&cs, "/data/") {
        Some("data")
    } else {
        None
    }
}

} // verus!
