//! The pieces of computed fields (`x_compute`) that decide without
//! arithmetic: which schemas compute or default values, how a plan reads
//! its inputs by pointer (relative to the node, with `../` and a fall back
//! to the root), and which values count as true.
use vstd::prelude::*;
use crate::collections::{trim_start_all, trim_start_matches};
use crate::json::{jvs, lemma_jvs, member, JVal, JsonValue};
use crate::text::{has_prefix, parse_u32, parse_u32_spec, split_chars, split_spec, starts_with, to_chars};

verus! {

/// How computed fields run: how many passes at most, and whether a pointer
/// relative to the node may fall back to the root.
#[derive(Debug, Clone, Copy)]
pub struct ComputeOptions {
    pub max_passes: usize,
    pub strict_ptr: bool,
}

impl ComputeOptions {
    /// The options computed fields run with unless told otherwise: four
    /// passes, pointers that may fall back to the root.
    pub fn new() -> (o: ComputeOptions)
        ensures
            o.max_passes == 4,
            !o.strict_ptr,
    {
        ComputeOptions { max_passes: 4, strict_ptr: false }
    }
}

/// Where a plan's pointers start: the document's root, or the node.
#[derive(Debug, Clone, Copy, PartialEq, Eq, Structural)]
pub enum Scope {
    Root,
    SelfNode,
}

/// When a computed field is written.
#[derive(Debug, Clone, Copy, PartialEq, Eq, Structural)]
pub enum Update {
    Always,
    IfMissing,
    IfNull,
}

/// The scope named `s`: `root`, else the node.
pub fn parse_scope(s: Option<&str>) -> (r: Scope)
    ensures
        r == (if s matches Some(x) && x@ == "root"@ {
            Scope::Root
        } else {
            Scope::SelfNode
        }),
{
    match s {
        Some(x) => if crate::text::str_equal(x, "root") {
            Scope::Root
        } else {
            Scope::SelfNode
        },
        None => Scope::SelfNode,
    }
}

/// The update mode named `s`: `always`, `if_null`, else if missing.
pub fn parse_update(s: Option<&str>) -> (r: Update)
    ensures
        r == (if s matches Some(x) && x@ == "always"@ {
            Update::Always
        } else if s matches Some(x) && x@ == "if_null"@ {
            Update::IfNull
        } else {
            Update::IfMissing
        }),
{
    match s {
        Some(x) => if crate::text::str_equal(x, "always") {
            Update::Always
        } else if crate::text::str_equal(x, "if_null") {
            Update::IfNull
        } else {
            Update::IfMissing
        },
        None => Update::IfMissing,
    }
}

/// The texts of a list of keys.
pub open spec fn key_views(keys: Seq<&str>) -> Seq<Seq<char>> {
    keys.map_values(|k: &str| k@)
}

/// The character sequences of a list of segments.
pub open spec fn views(s: Seq<Vec<char>>) -> Seq<Seq<char>> {
    s.map_values(|p: Vec<char>| p@)
}

proof fn lemma_views_push(s: Seq<Vec<char>>, c: Vec<char>)
    ensures
        views(s.push(c)) == views(s).push(c@),
{
    assert(views(s.push(c)) =~= views(s).push(c@));
}

proof fn lemma_strs_prefix(s: Seq<String>, k: int)
    requires
        0 <= k < s.len(),
    ensures
        crate::changes::strs(s).subrange(0, k + 1) == crate::changes::strs(s).subrange(0, k).push(s[k]@),
{
    assert(crate::changes::strs(s).subrange(0, k + 1) =~= crate::changes::strs(s).subrange(0, k).push(s[k]@));
}

/// Whether a schema, or one of the schemas of its `allOf`, `oneOf` or
/// `anyOf` arrays (at any depth), has a member `key` among `keys`.
pub open spec fn schema_has(s: JVal, keys: Seq<Seq<char>>) -> bool
    decreases s, 2nat,
{
    (exists|i: int| 0 <= i < keys.len() && #[trigger] member(s, keys[i]) is Some) || combinator_has(
        s,
        keys,
        "allOf"@,
    ) || combinator_has(s, keys, "oneOf"@) || combinator_has(s, keys, "anyOf"@)
}

pub open spec fn combinator_has(s: JVal, keys: Seq<Seq<char>>, comb: Seq<char>) -> bool
    decreases s, 1nat,
{
    match s {
        JVal::Obj(e) => match crate::json::entry_get(e, comb) {
            Some(JVal::Arr(items)) => {
                proof {
                    crate::json::lemma_member_decreases(s, comb);
                }
                items_have(items, keys)
            },
            _ => false,
        },
        _ => false,
    }
}

pub open spec fn items_have(items: Seq<JVal>, keys: Seq<Seq<char>>) -> bool
    decreases items, 0nat,
{
    if items.len() == 0 {
        false
    } else {
        proof {
            vstd::seq::axiom_seq_index_decreases(items, items.len() - 1);
            vstd::seq::axiom_seq_subrange_decreases(items, 0, items.len() - 1);
        }
        items_have(items.subrange(0, items.len() - 1), keys) || schema_has(items[items.len() - 1], keys)
    }
}

proof fn lemma_items_have_prefix(items: Seq<JVal>, keys: Seq<Seq<char>>, k: int)
    requires
        0 <= k <= items.len(),
        items_have(items.subrange(0, k), keys),
    ensures
        items_have(items, keys),
    decreases items.len(),
{
    if k < items.len() {
        assert(items.drop_last().subrange(0, k) =~= items.subrange(0, k));
        lemma_items_have_prefix(items.drop_last(), keys, k);
        assert(items.subrange(0, items.len() - 1) =~= items.drop_last());
    } else {
        assert(items.subrange(0, k) =~= items);
    }
}

fn copy_chars(v: &Vec<char>) -> (r: Vec<char>)
    ensures
        r@ == v@,
{
    let r = crate::text::slice_chars(v.as_slice(), 0, v.len());
    assert(v@.subrange(0, v@.len() as int) =~= v@);
    r
}

fn has_any_key(s: &JsonValue, keys: &Vec<&str>) -> (b: bool)
    ensures
        b == exists|i: int| 0 <= i < keys@.len() && #[trigger] member(s@, keys@[i]@) is Some,
{
    let mut i: usize = 0;
    while i < keys.len()
        invariant
            i <= keys@.len(),
            forall|j: int| 0 <= j < i ==> member(s@, #[trigger] keys@[j]@) is None,
        decreases keys.len() - i,
    {
        if s.contains_key(keys[i]) {
            return true;
        }
        i = i + 1;
    }
    false
}

fn schema_has_exec(s: &JsonValue, keys: &Vec<&str>) -> (b: bool)
    ensures
        b == schema_has(s@, key_views(keys@)),
    decreases s, 2nat,
{
    let ghost ks = key_views(keys@);
    let direct = has_any_key(s, keys);
    proof {
        if direct {
            let i = choose|i: int| 0 <= i < keys@.len() && #[trigger] member(s@, keys@[i]@) is Some;
            assert(member(s@, ks[i]) is Some);
        } else {
            assert forall|i: int| 0 <= i < ks.len() implies !(#[trigger] member(s@, ks[i]) is Some) by {
                assert(ks[i] == keys@[i]@);
            }
        }
    }
    if direct {
        return true;
    }
    let combs = vec!["allOf", "oneOf", "anyOf"];
    let mut c: usize = 0;
    while c < 3
        invariant
            c <= 3,
            combs@.len() == 3,
            combs@[0]@ == "allOf"@,
            combs@[1]@ == "oneOf"@,
            combs@[2]@ == "anyOf"@,
            ks == key_views(keys@),
            forall|j: int| 0 <= j < c ==> !combinator_has(s@, ks, #[trigger] combs@[j]@),
        decreases 3 - c,
    {
        if combinator_exec(s, keys, combs[c]) {
            return true;
        }
        c = c + 1;
    }
    proof {
        assert(!combinator_has(s@, ks, combs@[0]@));
        assert(!combinator_has(s@, ks, combs@[1]@));
        assert(!combinator_has(s@, ks, combs@[2]@));
    }
    false
}

fn combinator_exec(s: &JsonValue, keys: &Vec<&str>, comb: &str) -> (b: bool)
    ensures
        b == combinator_has(s@, key_views(keys@), comb@),
    decreases s, 1nat,
{
    let ghost ks = key_views(keys@);
    match crate::json::member_ref(s, comb) {
        Some(JsonValue::Array(items)) => {
            proof {
                lemma_jvs(items@);
            }
            let ghost ji = jvs(items@);
            let mut i: usize = 0;
            assert(ji.subrange(0, 0) =~= Seq::<JVal>::empty());
            while i < items.len()
                invariant
                    i <= items@.len(),
                    ji == jvs(items@),
                    ji.len() == items@.len(),
                    forall|j: int| 0 <= j < items@.len() ==> #[trigger] ji[j] == items@[j]@,
                    ks == key_views(keys@),
                    member(s@, comb@) == Some(JVal::Arr(ji)),
                    !items_have(ji.subrange(0, i as int), ks),
                    decreases_to!(*s => *items),
                decreases items.len() - i,
            {
                proof {
                    vstd::std_specs::vec::axiom_vec_decreases_to_view(*items);
                    vstd::seq::axiom_seq_index_decreases(items@, i as int);
                    assert(decreases_to!(*items => items@));
                    assert(decreases_to!(items@ => items@[i as int]));
                    assert(ji.subrange(0, i + 1).subrange(0, i as int) =~= ji.subrange(0, i as int));
                    assert(ji.subrange(0, i + 1)[i as int] == ji[i as int]);
                }
                if schema_has_exec(&items[i], keys) {
                    proof {
                        let p = ji.subrange(0, i + 1);
                        assert(p.subrange(0, i as int) =~= ji.subrange(0, i as int));
                        assert(items_have(p, ks));
                        lemma_items_have_prefix(ji, ks, i + 1);
                    }
                    return true;
                }
                i = i + 1;
            }
            assert(ji.subrange(0, items@.len() as int) =~= ji);
            false
        },
        _ => false,
    }
}

/// Whether a schema (or one it combines) computes a value (`x_compute`).
pub fn schema_has_x_compute(s: &JsonValue) -> (b: bool)
    ensures
        b == schema_has(s@, seq!["x_compute"@]),
{
    let keys = vec!["x_compute"];
    let r = schema_has_exec(s, &keys);
    assert(key_views(keys@) =~= seq!["x_compute"@]);
    r
}

/// Whether a schema (or one it combines) gives a value of its own
/// (`default`, `const` or `enum`).
pub fn schema_has_default_like(s: &JsonValue) -> (b: bool)
    ensures
        b == schema_has(s@, seq!["default"@, "const"@, "enum"@]),
{
    let keys = vec!["default", "const", "enum"];
    let r = schema_has_exec(s, &keys);
    assert(key_views(keys@) =~= seq!["default"@, "const"@, "enum"@]);
    r
}

/// Whether a value counts as true: `true`, a non-zero number, a string
/// other than empty, `false` and `0`, a non-empty array or object.
pub open spec fn truthy(v: JVal) -> bool {
    match v {
        JVal::Bool(b) => b,
        JVal::Null => false,
        JVal::Num(n) => n.mantissa != 0,
        JVal::Str(s) => s.len() > 0 && s != "false"@ && s != "0"@,
        JVal::Arr(a) => a.len() > 0,
        JVal::Obj(e) => e.len() > 0,
    }
}

/// Whether a value counts as true (see `truthy`).
pub fn is_truthy(v: &JsonValue) -> (b: bool)
    ensures
        b == truthy(v@),
{
    match v {
        JsonValue::Bool(b) => *b,
        JsonValue::Null => false,
        JsonValue::Number(n) => n.mantissa != 0,
        JsonValue::String(s) => {
            let c = to_chars(s.as_str());
            c.len() > 0 && !crate::text::str_equal(s.as_str(), "false") && !crate::text::str_equal(
                s.as_str(),
                "0",
            )
        },
        JsonValue::Array(a) => {
            proof {
                lemma_jvs(a@);
            }
            a.len() > 0
        },
        JsonValue::Object(o) => {
            proof {
                crate::json::lemma_jents(o@);
            }
            o.len() > 0
        },
    }
}

/// The value reached from `v` through the segments `path`: object members
/// by name, array items by a decimal index.
pub open spec fn walk(v: JVal, path: Seq<Seq<char>>) -> Option<JVal>
    decreases path.len(),
{
    if path.len() == 0 {
        Some(v)
    } else {
        let next = match v {
            JVal::Obj(e) => crate::json::entry_get(e, path[0]),
            JVal::Arr(a) => match parse_u32_spec(path[0]) {
                Some(i) => if i < a.len() {
                    Some(a[i as int])
                } else {
                    None
                },
                None => None,
            },
            _ => None,
        };
        match next {
            Some(n) => walk(n, path.drop_first()),
            None => None,
        }
    }
}

/// The number of leading `..` segments.
pub open spec fn ups(segs: Seq<Seq<char>>) -> nat
    decreases segs.len(),
{
    if segs.len() > 0 && segs[0] == ".."@ {
        1 + ups(segs.drop_first())
    } else {
        0
    }
}

/// The value a plan pointer `#/…` designates: from the node at `base`
/// (after going up one level per leading `..`), falling back to the root
/// when it has no `..` and pointers are not strict; from the root in the
/// root scope.
pub open spec fn resolve_ptr_spec(
    root: JVal,
    base: Seq<Seq<char>>,
    ptr: Seq<char>,
    scope: Scope,
    strict: bool,
) -> Option<JVal> {
    if !has_prefix(ptr, "#/"@) {
        None
    } else {
        let segs = split_spec(trim_start_all(ptr, "#/"@), '/');
        let up = ups(segs);
        let tail = segs.subrange(up as int, segs.len() as int);
        match scope {
            Scope::SelfNode => {
                let kept = if up <= base.len() {
                    base.subrange(0, base.len() - up)
                } else {
                    Seq::empty()
                };
                match walk(root, kept + tail) {
                    Some(v) => Some(v),
                    None => if up == 0 && !strict {
                        walk(root, tail)
                    } else {
                        None
                    },
                }
            },
            Scope::Root => walk(root, tail),
        }
    }
}

fn walk_exec<'a>(v: &'a JsonValue, path: &Vec<Vec<char>>, from: usize) -> (r: Option<&'a JsonValue>)
    requires
        from <= path@.len(),
    ensures
        match walk(v@, views(path@).subrange(from as int, path@.len() as int)) {
            Some(x) => r matches Some(y) && y@ == x,
            None => r is None,
        },
    decreases path.len() - from,
{
    let ghost ps = views(path@).subrange(from as int, path@.len() as int);
    if from == path.len() {
        return Some(v);
    }
    assert(ps[0] == path@[from as int]@);
    assert(ps.drop_first() =~= views(path@).subrange(from + 1, path@.len() as int));
    let seg = crate::text::from_chars(path[from].as_slice());
    let next: Option<&'a JsonValue> = match v {
        JsonValue::Object(_) => crate::json::member_ref(v, seg.as_str()),
        JsonValue::Array(a) => {
            proof {
                lemma_jvs(a@);
            }
            match parse_u32(path[from].as_slice()) {
                Some(i) => {
                    if (i as usize) < a.len() {
                        Some(&a[i as usize])
                    } else {
                        None
                    }
                },
                None => None,
            }
        },
        _ => None,
    };
    match next {
        Some(n) => walk_exec(n, path, from + 1),
        None => None,
    }
}

/// The value a plan pointer designates (see `resolve_ptr_spec`).
pub fn resolve_ptr<'a>(
    root: &'a JsonValue,
    base_path: &Vec<String>,
    ptr: &str,
    scope: Scope,
    strict: bool,
) -> (r: Option<&'a JsonValue>)
    ensures
        match resolve_ptr_spec(root@, crate::changes::strs(base_path@), ptr@, scope, strict) {
            Some(x) => r matches Some(y) && y@ == x,
            None => r is None,
        },
{
    let pc = to_chars(ptr);
    if !starts_with(pc.as_slice(), to_chars("#/").as_slice()) {
        return None;
    }
    let trimmed = trim_start_matches(pc.as_slice(), to_chars("#/").as_slice());
    let segs = split_chars(trimmed.as_slice(), '/');
    let ghost sv = split_spec(trim_start_all(ptr@, "#/"@), '/');
    proof {
        assert(views(segs@) =~= sv);
    }
    let mut up: usize = 0;
    assert(sv.subrange(0, sv.len() as int) =~= sv);
    while up < segs.len() && crate::text::chars_equal(segs[up].as_slice(), to_chars("..").as_slice())
        invariant
            up <= segs@.len(),
            views(segs@) == sv,
            ups(sv) == up + ups(sv.subrange(up as int, sv.len() as int)),
        decreases segs.len() - up,
    {
        proof {
            let rest = sv.subrange(up as int, sv.len() as int);
            assert(rest[0] == sv[up as int]);
            assert(rest.drop_first() =~= sv.subrange(up + 1, sv.len() as int));
        }
        up = up + 1;
    }
    proof {
        let rest = sv.subrange(up as int, sv.len() as int);
        if up < sv.len() {
            assert(rest[0] == sv[up as int]);
        }
        assert(ups(rest) == 0);
    }
    let mut tail: Vec<Vec<char>> = Vec::new();
    let mut j: usize = up;
    while j < segs.len()
        invariant
            up <= j <= segs@.len(),
            views(segs@) == sv,
            views(tail@) == sv.subrange(up as int, j as int),
        decreases segs.len() - j,
    {
        assert(views(segs@)[j as int] == segs@[j as int]@);
        let c = copy_chars(&segs[j]);
        let ghost before = tail@;
        tail.push(c);
        proof {
            lemma_views_push(before, c);
            assert(sv.subrange(up as int, j + 1) =~= sv.subrange(up as int, j as int).push(sv[j as int]));
        }
        j = j + 1;
    }
    proof {
        assert(views(tail@).subrange(0, tail@.len() as int) =~= views(tail@));
    }
    match scope {
        Scope::Root => walk_exec(root, &tail, 0),
        Scope::SelfNode => {
            let keep = if up <= base_path.len() {
                base_path.len() - up
            } else {
                0
            };
            let mut path: Vec<Vec<char>> = Vec::new();
            let mut k: usize = 0;
            while k < keep
                invariant
                    k <= keep,
                    keep <= base_path@.len(),
                    views(path@) == crate::changes::strs(base_path@).subrange(0, k as int),
                decreases keep - k,
            {
                assert(crate::changes::strs(base_path@)[k as int] == base_path@[k as int]@);
                let c = to_chars(base_path[k].as_str());
                let ghost before = path@;
                path.push(c);
                proof {
                    lemma_views_push(before, c);
                    lemma_strs_prefix(base_path@, k as int);
                }
                k = k + 1;
            }
            let mut t: usize = 0;
            let ghost kept = crate::changes::strs(base_path@).subrange(0, keep as int);
            while t < tail.len()
                invariant
                    t <= tail@.len(),
                    views(path@) == kept + views(tail@).subrange(
                        0,
                        t as int,
                    ),
                decreases tail.len() - t,
            {
                assert(views(tail@)[t as int] == tail@[t as int]@);
                let c = copy_chars(&tail[t]);
                let ghost before = path@;
                path.push(c);
                proof {
                    lemma_views_push(before, c);
                    assert(views(tail@).subrange(0, t + 1) =~= views(tail@).subrange(0, t as int).push(
                        views(tail@)[t as int],
                    ));
                    assert(kept + views(tail@).subrange(0, t + 1) =~= (kept + views(tail@).subrange(
                        0,
                        t as int,
                    )).push(views(tail@)[t as int]));
                }
                t = t + 1;
            }
            proof {
                assert(views(path@).subrange(0, path@.len() as int) =~= views(path@));
                assert(views(tail@).subrange(0, tail@.len() as int) =~= views(tail@));
                if up <= base_path@.len() {
                    assert(kept =~= crate::changes::strs(base_path@).subrange(
                        0,
                        crate::changes::strs(base_path@).len() - up,
                    ));
                } else {
                    assert(kept =~= Seq::<Seq<char>>::empty());
                }
            }
            match walk_exec(root, &path, 0) {
                Some(v) => Some(v),
                None => {
                    if up == 0 && !strict {
                        walk_exec(root, &tail, 0)
                    } else {
                        None
                    }
                },
            }
        },
    }
}

} // verus!
