//! Filling an instance with the defaults its schema declares, and the
//! validator that fills then checks instances against a registered schema.
use vstd::prelude::*;
use crate::error::{ErrorCode, RaiseError};
use crate::json::{
    JVal, JsonValue, entries_insert, entry_get, find_key, jents, jvs, lemma_entry_index,
    lemma_jents, lemma_jvs, lemma_member_decreases, member, member_ref, object_insert,
};
use crate::schema_registry::SchemaRegistry;
use crate::schema_uri::{json_pointer, pointer, resolve_path_uri, split_uri_fragment};
use crate::schema_validator::{
    MAX_REF_DEPTH, ref_parts, remove_hashes, validate_node, validate_spec,
};
use crate::text::{from_chars, str_equal, to_chars};
use crate::vocabulary::pairs_view;

verus! {

/// The schema a `$ref` of `schema` leads to, with its URI, when the
/// referenced schema is registered; a fragment that designates nothing
/// leads to the referenced schema itself.
pub open spec fn ref_target(reg: SchemaRegistry, schema: JVal, uri: Seq<char>) -> Option<
    (JVal, Seq<char>),
> {
    match member(schema, "$ref"@) {
        Some(JVal::Str(rs)) => {
            let parts = ref_parts(uri, rs);
            match reg.lookup(parts.0) {
                Some(root) => Some(
                    (
                        match parts.1 {
                            Some(f) => match json_pointer(root, remove_hashes(f)) {
                                Some(t) => t,
                                None => root,
                            },
                            None => root,
                        },
                        parts.0,
                    ),
                ),
                None => None,
            }
        },
        _ => None,
    }
}

/// A property schema with its `$ref` followed, when it leads somewhere; a
/// fragment that designates nothing keeps the property schema.
pub open spec fn resolve_node(reg: SchemaRegistry, sub: JVal, uri: Seq<char>) -> JVal {
    match member(sub, "$ref"@) {
        Some(JVal::Str(rs)) => {
            let parts = ref_parts(uri, rs);
            match reg.lookup(parts.0) {
                Some(root) => match parts.1 {
                    Some(f) => match json_pointer(root, remove_hashes(f)) {
                        Some(t) => t,
                        None => sub,
                    },
                    None => root,
                },
                None => sub,
            }
        },
        _ => sub,
    }
}

/// The default of a property: its own, or else that of its resolved schema.
pub open spec fn default_of(sub: JVal, resolved: JVal) -> Option<JVal> {
    match member(sub, "default"@) {
        Some(d) => Some(d),
        None => member(resolved, "default"@),
    }
}

pub open spec fn allof_len(schema: JVal) -> int {
    match member(schema, "allOf"@) {
        Some(JVal::Arr(a)) => a.len() as int,
        _ => 0,
    }
}

pub open spec fn props_len(schema: JVal) -> int {
    match member(schema, "properties"@) {
        Some(JVal::Obj(ps)) => ps.len() as int,
        _ => 0,
    }
}

/// The outcome of filling an instance: the filled value with the number
/// of computed values used so far, the computation (operation and plan)
/// whose value is needed next, or a chain of `$ref` too long.
pub enum Fill {
    Done(JVal, nat),
    Need(Seq<char>, JVal),
    TooDeep,
}

/// The computation a property asks for: its `x_compute` (its own, else
/// that of its resolved schema), when it is an object whose `update`
/// (`if_missing` when absent or not a string) is `always`, or
/// `if_missing` while the member is missing or `null`, and whose `plan` is
/// an object with a string `op`: that operation and the plan.
pub open spec fn compute_request(sub: JVal, resolved: JVal, current: Option<JVal>) -> Option<
    (Seq<char>, JVal),
> {
    let node = match member(sub, "x_compute"@) {
        Some(v) => Some(v),
        None => member(resolved, "x_compute"@),
    };
    match node {
        Some(JVal::Obj(ce)) => {
            let strategy = match member(JVal::Obj(ce), "update"@) {
                Some(JVal::Str(st)) => st,
                _ => "if_missing"@,
            };
            let missing = match current {
                None => true,
                Some(JVal::Null) => true,
                _ => false,
            };
            if strategy == "always"@ || (strategy == "if_missing"@ && missing) {
                match member(JVal::Obj(ce), "plan"@) {
                    Some(JVal::Obj(pe)) => match member(JVal::Obj(pe), "op"@) {
                        Some(JVal::Str(op)) => Some((op, JVal::Obj(pe))),
                        _ => None,
                    },
                    _ => None,
                }
            } else {
                None
            }
        },
        _ => None,
    }
}

/// `inst` with the defaults and computed values of `schema` (found at
/// `uri`) filled in: through a registered `$ref` (at most `fuel` of them
/// in a row along a path), then each `allOf` schema in order, then each
/// declared property of an object (a missing or `null` member takes the
/// default; a computation it asks for takes the next value of `ans`,
/// counted by `n`, and stores it unless it is `null`; then the member is
/// filled from its schema), then each item of an array.
pub open spec fn defaults_spec(
    reg: SchemaRegistry,
    inst: JVal,
    schema: JVal,
    uri: Seq<char>,
    fuel: nat,
    ans: Seq<JVal>,
    n: nat,
) -> Fill
    decreases fuel, schema, 1int, 0int,
{
    match ref_target(reg, schema, uri) {
        Some(tf) => if fuel == 0 {
            Fill::TooDeep
        } else {
            defaults_spec(reg, inst, tf.0, tf.1, (fuel - 1) as nat, ans, n)
        },
        None => match allof_from(reg, inst, schema, uri, fuel, ans, 0, n) {
            Fill::Done(i1, n1) => match i1 {
                JVal::Obj(e) => if props_len(schema) > 0 {
                    props_from_d(reg, e, schema, uri, fuel, ans, 0, n1)
                } else {
                    Fill::Done(i1, n1)
                },
                JVal::Arr(a) => match member(schema, "items"@) {
                    Some(_) => items_from_d(reg, a, schema, uri, fuel, ans, 0, n1),
                    None => Fill::Done(i1, n1),
                },
                _ => Fill::Done(i1, n1),
            },
            other => other,
        },
    }
}

pub open spec fn allof_from(
    reg: SchemaRegistry,
    inst: JVal,
    schema: JVal,
    uri: Seq<char>,
    fuel: nat,
    ans: Seq<JVal>,
    j: int,
    n: nat,
) -> Fill
    decreases fuel, schema, 0int, allof_len(schema) - j,
{
    match member(schema, "allOf"@) {
        Some(JVal::Arr(a)) => if j < 0 || j >= a.len() {
            Fill::Done(inst, n)
        } else {
            proof {
                lemma_member_decreases(schema, "allOf"@);
                vstd::seq::axiom_seq_index_decreases(a, j);
            }
            match defaults_spec(reg, inst, a[j], uri, fuel, ans, n) {
                Fill::Done(i2, n2) => allof_from(reg, i2, schema, uri, fuel, ans, j + 1, n2),
                other => other,
            }
        },
        _ => Fill::Done(inst, n),
    }
}

/// The entries after the default of property `key` (of schema `sub`).
pub open spec fn with_default(
    reg: SchemaRegistry,
    cur: Seq<(Seq<char>, JVal)>,
    key: Seq<char>,
    sub: JVal,
    uri: Seq<char>,
) -> Seq<(Seq<char>, JVal)> {
    let missing = match entry_get(cur, key) {
        None => true,
        Some(JVal::Null) => true,
        _ => false,
    };
    if missing {
        match default_of(sub, resolve_node(reg, sub, uri)) {
            Some(d) => entries_insert(cur, key, d),
            None => cur,
        }
    } else {
        cur
    }
}

pub open spec fn props_from_d(
    reg: SchemaRegistry,
    cur: Seq<(Seq<char>, JVal)>,
    schema: JVal,
    uri: Seq<char>,
    fuel: nat,
    ans: Seq<JVal>,
    j: int,
    n: nat,
) -> Fill
    decreases fuel, schema, 0int, props_len(schema) - j,
{
    match member(schema, "properties"@) {
        Some(JVal::Obj(ps)) => if j < 0 || j >= ps.len() {
            Fill::Done(JVal::Obj(cur), n)
        } else {
            let key = ps[j].0;
            let sub = ps[j].1;
            let cur1 = with_default(reg, cur, key, sub, uri);
            let req = compute_request(sub, resolve_node(reg, sub, uri), entry_get(cur1, key));
            if req is Some && n >= ans.len() {
                Fill::Need(req.unwrap().0, req.unwrap().1)
            } else {
                let cur2 = if req is Some && ans[n as int] != JVal::Null {
                    entries_insert(cur1, key, ans[n as int])
                } else {
                    cur1
                };
                let n2: nat = if req is Some {
                    n + 1
                } else {
                    n
                };
                match entry_get(cur2, key) {
                    Some(val) => {
                        proof {
                            lemma_member_decreases(schema, "properties"@);
                            vstd::seq::axiom_seq_index_decreases(ps, j);
                        }
                        match defaults_spec(reg, val, sub, uri, fuel, ans, n2) {
                            Fill::Done(v2, n3) => props_from_d(
                                reg,
                                entries_insert(cur2, key, v2),
                                schema,
                                uri,
                                fuel,
                                ans,
                                j + 1,
                                n3,
                            ),
                            other => other,
                        }
                    },
                    None => props_from_d(reg, cur2, schema, uri, fuel, ans, j + 1, n2),
                }
            }
        },
        _ => Fill::Done(JVal::Obj(cur), n),
    }
}

pub open spec fn items_from_d(
    reg: SchemaRegistry,
    a: Seq<JVal>,
    schema: JVal,
    uri: Seq<char>,
    fuel: nat,
    ans: Seq<JVal>,
    j: int,
    n: nat,
) -> Fill
    decreases fuel, schema, 0int, a.len() - j,
{
    match member(schema, "items"@) {
        Some(is) => if j < 0 || j >= a.len() {
            Fill::Done(JVal::Arr(a), n)
        } else {
            proof {
                lemma_member_decreases(schema, "items"@);
            }
            match defaults_spec(reg, a[j], is, uri, fuel, ans, n) {
                Fill::Done(x, n2) => items_from_d(reg, a.update(j, x), schema, uri, fuel, ans, j + 1, n2),
                other => other,
            }
        },
        None => Fill::Done(JVal::Arr(a), n),
    }
}

fn ref_parts_of(uri: &str, rs: &String) -> (r: (String, Option<String>))
    ensures
        r.0@ == ref_parts(uri@, rs@).0,
        match ref_parts(uri@, rs@).1 {
            Some(f) => r.1 matches Some(x) && x@ == f,
            None => r.1 is None,
        },
{
    let rc = to_chars(rs.as_str());
    if rc.len() > 0 && rc[0] == '#' {
        (uri.to_owned(), Some(rs.clone()))
    } else {
        let resolved = resolve_path_uri(uri, rs.as_str());
        split_uri_fragment(resolved.as_str())
    }
}

fn fragment_pointer(f: &String) -> (r: String)
    ensures
        r@ == remove_hashes(f@),
{
    let mut out: Vec<char> = Vec::new();
    let s = to_chars(f.as_str());
    let mut i: usize = 0;
    while i < s.len()
        invariant
            i <= s@.len(),
            s@ == f@,
            out@ == remove_hashes(s@.take(i as int)),
        decreases s.len() - i,
    {
        proof {
            assert(s@.take(i + 1).drop_last() =~= s@.take(i as int));
        }
        if s[i] != '#' {
            out.push(s[i]);
        }
        i = i + 1;
    }
    proof {
        assert(s@.take(s@.len() as int) =~= s@);
    }
    from_chars(out.as_slice())
}

fn ref_target_of<'a>(reg: &'a SchemaRegistry, schema: &JsonValue, uri: &str) -> (r: Option<
    (&'a JsonValue, String),
>)
    ensures
        match ref_target(*reg, schema@, uri@) {
            Some(tf) => r matches Some(x) && x.0@ == tf.0 && x.1@ == tf.1,
            None => r is None,
        },
{
    match schema.get("$ref") {
        Some(JsonValue::String(rs)) => {
            let parts = ref_parts_of(uri, rs);
            match reg.get_by_uri(parts.0.as_str()) {
                Some(root) => {
                    let t = match &parts.1 {
                        Some(f) => match pointer(root, fragment_pointer(f).as_str()) {
                            Some(t) => t,
                            None => root,
                        },
                        None => root,
                    };
                    Some((t, parts.0))
                },
                None => None,
            }
        },
        _ => None,
    }
}

fn resolve_node_of<'a>(reg: &'a SchemaRegistry, sub: &'a JsonValue, uri: &str) -> (r: &'a JsonValue)
    ensures
        r@ == resolve_node(*reg, sub@, uri@),
{
    match sub.get("$ref") {
        Some(JsonValue::String(rs)) => {
            let parts = ref_parts_of(uri, rs);
            match reg.get_by_uri(parts.0.as_str()) {
                Some(root) => match &parts.1 {
                    Some(f) => match pointer(root, fragment_pointer(f).as_str()) {
                        Some(t) => t,
                        None => sub,
                    },
                    None => root,
                },
                None => sub,
            }
        },
        _ => sub,
    }
}

fn too_deep(uri: &str) -> (r: RaiseError)
    ensures
        r.code == ErrorCode::SchemaRefTooDeep,
{
    RaiseError::new(ErrorCode::SchemaRefTooDeep, uri)
}

/// A step of filling an instance: the filled value with the number of
/// computed values used so far, or the computation (operation and plan)
/// whose value is needed next.
pub enum FillStep {
    Done(JsonValue, usize),
    Need(String, JsonValue),
}

pub open spec fn fill_outcome(r: Result<FillStep, RaiseError>) -> Fill {
    match r {
        Ok(FillStep::Done(v, m)) => Fill::Done(v@, m as nat),
        Ok(FillStep::Need(op, p)) => Fill::Need(op@, p@),
        Err(_) => Fill::TooDeep,
    }
}

/// The computation a property asks for (see `compute_request`).
fn compute_request_of(sub: &JsonValue, resolved: &JsonValue, current: Option<&JsonValue>) -> (r:
    Option<(String, JsonValue)>)
    ensures
        match compute_request(
            sub@,
            resolved@,
            match current {
                Some(c) => Some(c@),
                None => None,
            },
        ) {
            Some(q) => r matches Some(x) && x.0@ == q.0 && x.1@ == q.1,
            None => r is None,
        },
{
    let c = match sub.get("x_compute") {
        Some(v) => v,
        None => match resolved.get("x_compute") {
            Some(v) => v,
            None => return None,
        },
    };
    if !c.is_object() {
        return None;
    }
    let strategy: &str = match c.get("update") {
        Some(JsonValue::String(st)) => st.as_str(),
        _ => "if_missing",
    };
    let missing = match current {
        None => true,
        Some(JsonValue::Null) => true,
        _ => false,
    };
    if !(str_equal(strategy, "always") || (str_equal(strategy, "if_missing") && missing)) {
        return None;
    }
    match c.get("plan") {
        Some(p) => {
            if !p.is_object() {
                return None;
            }
            match p.get("op") {
                Some(JsonValue::String(op)) => Some((op.clone(), p.deep_clone())),
                _ => None,
            }
        },
        None => None,
    }
}

/// `inst` with the defaults and computed values of `schema` filled in,
/// the computed values taken from `ans` from position `n` on (see
/// `defaults_spec`).
pub fn defaults_of(
    reg: &SchemaRegistry,
    inst: JsonValue,
    schema: &JsonValue,
    uri: &str,
    fuel: u64,
    ans: &Vec<JsonValue>,
    n: usize,
) -> (r: Result<FillStep, RaiseError>)
    requires
        n <= ans@.len(),
    ensures
        fill_outcome(r) == defaults_spec(*reg, inst@, schema@, uri@, fuel as nat, jvs(ans@), n as nat),
        r matches Err(e) ==> e.code == ErrorCode::SchemaRefTooDeep,
        r matches Ok(FillStep::Done(_, m)) ==> n <= m <= ans@.len(),
    decreases fuel, schema, 1int, 0int,
{
    match ref_target_of(reg, schema, uri) {
        Some((t, f)) => {
            if fuel == 0 {
                return Err(too_deep(f.as_str()));
            }
            return defaults_of(reg, inst, t, f.as_str(), fuel - 1, ans, n);
        },
        None => {},
    }
    proof {
        lemma_jvs(ans@);
    }
    let ghost av = jvs(ans@);
    let mut cur = inst;
    let mut k: usize = n;
    let ghost i0 = cur@;
    match member_ref(schema, "allOf") {
        Some(al) => match al {
            JsonValue::Array(a) => {
                proof {
                    lemma_jvs(a@);
                }
                let mut j: usize = 0;
                while j < a.len()
                    invariant
                        j <= a@.len(),
                        n <= k <= ans@.len(),
                        av == jvs(ans@),
                        member(schema@, "allOf"@) == Some(JVal::Arr(jvs(a@))),
                        jvs(a@).len() == a@.len(),
                        forall|m: int| 0 <= m < a@.len() ==> #[trigger] jvs(a@)[m] == a@[m]@,
                        decreases_to!(*schema => *al),
                        *al == JsonValue::Array(*a),
                        ref_target(*reg, schema@, uri@) is None,
                        i0 == inst@,
                        allof_from(*reg, i0, schema@, uri@, fuel as nat, av, 0, n as nat)
                            == allof_from(
                            *reg,
                            cur@,
                            schema@,
                            uri@,
                            fuel as nat,
                            av,
                            j as int,
                            k as nat,
                        ),
                    decreases a.len() - j,
                {
                    proof {
                        vstd::std_specs::vec::axiom_vec_decreases_to_view(*a);
                        vstd::seq::axiom_seq_index_decreases(a@, j as int);
                        assert(decreases_to!(*al => al->Array_0));
                        assert(decreases_to!(*a => a@));
                        assert(decreases_to!(a@ => a@[j as int]));
                        assert(decreases_to!(*schema => a@[j as int]));
                    }
                    match defaults_of(reg, cur, &a[j], uri, fuel, ans, k)? {
                        FillStep::Done(v, m) => {
                            cur = v;
                            k = m;
                        },
                        FillStep::Need(op, p) => {
                            return Ok(FillStep::Need(op, p));
                        },
                    }
                    j = j + 1;
                }
            },
            _ => {},
        },
        None => {},
    }
    let ghost i1 = cur@;
    let ghost n1 = k;
    assert(allof_from(*reg, i0, schema@, uri@, fuel as nat, av, 0, n as nat) == Fill::Done(
        i1,
        n1 as nat,
    ));
    match cur {
        JsonValue::Object(entries) => {
            let mut e = entries;
            match member_ref(schema, "properties") {
                Some(pv) => match pv {
                    JsonValue::Object(ps) => {
                        proof {
                            lemma_jents(ps@);
                        }
                        let ghost e0 = jents(e@);
                        let mut j: usize = 0;
                        while j < ps.len()
                            invariant
                                j <= ps@.len(),
                                n <= n1 <= k <= ans@.len(),
                                av == jvs(ans@),
                                jvs(ans@).len() == ans@.len(),
                                forall|m: int| 0 <= m < ans@.len() ==> #[trigger] jvs(ans@)[m] == ans@[m]@,
                                member(schema@, "properties"@) == Some(JVal::Obj(jents(ps@))),
                                jents(ps@).len() == ps@.len(),
                                forall|m: int|
                                    0 <= m < ps@.len() ==> #[trigger] jents(ps@)[m] == (
                                        ps@[m].0@,
                                        ps@[m].1@,
                                    ),
                                decreases_to!(*schema => *pv),
                                *pv == JsonValue::Object(*ps),
                                ref_target(*reg, schema@, uri@) is None,
                                i0 == inst@,
                                allof_from(*reg, i0, schema@, uri@, fuel as nat, av, 0, n as nat)
                                    == Fill::Done(JVal::Obj(e0), n1 as nat),
                                props_from_d(*reg, e0, schema@, uri@, fuel as nat, av, 0, n1 as nat)
                                    == props_from_d(
                                    *reg,
                                    jents(e@),
                                    schema@,
                                    uri@,
                                    fuel as nat,
                                    av,
                                    j as int,
                                    k as nat,
                                ),
                            decreases ps.len() - j,
                        {
                            let key = ps[j].0.as_str();
                            let sub = &ps[j].1;
                            let i = find_key(&e, key);
                            proof {
                                lemma_jents(e@);
                                lemma_entry_index(jents(e@), key@);
                            }
                            let missing = if i < e.len() {
                                match &e[i].1 {
                                    JsonValue::Null => true,
                                    _ => false,
                                }
                            } else {
                                true
                            };
                            let resolved = resolve_node_of(reg, sub, uri);
                            if missing {
                                let d = match sub.get("default") {
                                    Some(d) => Some(d),
                                    None => resolved.get("default"),
                                };
                                match d {
                                    Some(d) => object_insert(&mut e, key, d.deep_clone()),
                                    None => {},
                                }
                            }
                            let ghost cur1 = jents(e@);
                            let i2 = find_key(&e, key);
                            proof {
                                lemma_jents(e@);
                                lemma_entry_index(jents(e@), key@);
                            }
                            let req = if i2 < e.len() {
                                compute_request_of(sub, resolved, Some(&e[i2].1))
                            } else {
                                compute_request_of(sub, resolved, None)
                            };
                            match req {
                                Some((op, plan)) => {
                                    if k >= ans.len() {
                                        return Ok(FillStep::Need(op, plan));
                                    }
                                    let v = ans[k].deep_clone();
                                    if !v.is_null() {
                                        object_insert(&mut e, key, v);
                                    }
                                    k = k + 1;
                                },
                                None => {},
                            }
                            let kk = find_key(&e, key);
                            proof {
                                lemma_jents(e@);
                                lemma_entry_index(jents(e@), key@);
                            }
                            if kk < e.len() {
                                let val = e[kk].1.deep_clone();
                                proof {
                                    vstd::std_specs::vec::axiom_vec_decreases_to_view(*ps);
                                    vstd::seq::axiom_seq_index_decreases(ps@, j as int);
                                    assert(decreases_to!(*pv => pv->Object_0));
                                    assert(decreases_to!(*ps => ps@));
                                    assert(decreases_to!(ps@ => ps@[j as int]));
                                    assert(decreases_to!(ps@[j as int] => ps@[j as int].1));
                                    assert(decreases_to!(*schema => ps@[j as int].1));
                                }
                                match defaults_of(reg, val, sub, uri, fuel, ans, k)? {
                                    FillStep::Done(v2, m) => {
                                        object_insert(&mut e, key, v2);
                                        k = m;
                                    },
                                    FillStep::Need(op, p) => {
                                        return Ok(FillStep::Need(op, p));
                                    },
                                }
                            }
                            j = j + 1;
                        }
                    },
                    _ => {},
                },
                None => {},
            }
            Ok(FillStep::Done(JsonValue::Object(e), k))
        },
        JsonValue::Array(items) => {
            let mut a = items;
            match member_ref(schema, "items") {
                Some(is) => {
                    proof {
                        lemma_jvs(a@);
                    }
                    let ghost a0 = jvs(a@);
                    let mut j: usize = 0;
                    while j < a.len()
                        invariant
                            j <= a@.len(),
                            n <= n1 <= k <= ans@.len(),
                            av == jvs(ans@),
                            member(schema@, "items"@) == Some(is@),
                            decreases_to!(*schema => *is),
                            ref_target(*reg, schema@, uri@) is None,
                            i0 == inst@,
                            allof_from(*reg, i0, schema@, uri@, fuel as nat, av, 0, n as nat)
                                == Fill::Done(JVal::Arr(a0), n1 as nat),
                            jvs(a@).len() == a@.len(),
                            items_from_d(*reg, a0, schema@, uri@, fuel as nat, av, 0, n1 as nat)
                                == items_from_d(
                                *reg,
                                jvs(a@),
                                schema@,
                                uri@,
                                fuel as nat,
                                av,
                                j as int,
                                k as nat,
                            ),
                        decreases a.len() - j,
                    {
                        proof {
                            lemma_jvs(a@);
                        }
                        let item = a[j].deep_clone();
                        match defaults_of(reg, item, is, uri, fuel, ans, k)? {
                            FillStep::Done(x, m) => {
                                let ghost before = a@;
                                a.set(j, x);
                                k = m;
                                proof {
                                    lemma_jvs(a@);
                                    lemma_jvs(before);
                                    assert(jvs(a@) =~= jvs(before).update(j as int, x@));
                                }
                            },
                            FillStep::Need(op, p) => {
                                return Ok(FillStep::Need(op, p));
                            },
                        }
                        j = j + 1;
                    }
                    proof {
                        lemma_jvs(a@);
                    }
                },
                None => {},
            }
            Ok(FillStep::Done(JsonValue::Array(a), k))
        },
        other => Ok(FillStep::Done(other, k)),
    }
}

/// A schema compiled for validation: its URI, the schema, and the registry
/// its references are resolved in.
#[derive(Debug, Clone)]
pub struct SchemaValidator {
    pub root_uri: String,
    pub schema: JsonValue,
    pub reg: SchemaRegistry,
}

impl SchemaRegistry {
    /// A copy of the registry.
    pub fn duplicate(&self) -> (r: SchemaRegistry)
        ensures
            r.by_uri@.len() == self.by_uri@.len(),
            r.entries() == self.entries(),
            pairs_view(r.mounts@) == pairs_view(self.mounts@),
            r.base_prefix@ == self.base_prefix@,
    {
        let mut by: Vec<(String, JsonValue)> = Vec::new();
        let mut i: usize = 0;
        proof {
            lemma_jents(self.by_uri@);
        }
        while i < self.by_uri.len()
            invariant
                i <= self.by_uri@.len(),
                by@.len() == i,
                jents(self.by_uri@).len() == self.by_uri@.len(),
                forall|m: int|
                    0 <= m < self.by_uri@.len() ==> #[trigger] jents(self.by_uri@)[m] == (
                        self.by_uri@[m].0@,
                        self.by_uri@[m].1@,
                    ),
                forall|m: int|
                    0 <= m < i ==> (#[trigger] by@[m]).0@ == self.by_uri@[m].0@ && by@[m].1@
                        == self.by_uri@[m].1@,
            decreases self.by_uri.len() - i,
        {
            by.push((self.by_uri[i].0.clone(), self.by_uri[i].1.deep_clone()));
            i = i + 1;
        }
        proof {
            lemma_jents(by@);
            assert(jents(by@) =~= jents(self.by_uri@));
        }
        let mut mounts: Vec<(String, String)> = Vec::new();
        let mut k: usize = 0;
        while k < self.mounts.len()
            invariant
                k <= self.mounts@.len(),
                pairs_view(mounts@) == pairs_view(self.mounts@).take(k as int),
            decreases self.mounts.len() - k,
        {
            let ghost before = mounts@;
            let a = self.mounts[k].0.clone();
            let b = self.mounts[k].1.clone();
            mounts.push((a, b));
            proof {
                assert(pairs_view(mounts@) =~= pairs_view(before).push((a@, b@)));
                assert(pairs_view(self.mounts@).take(k + 1) =~= pairs_view(self.mounts@).take(
                    k as int,
                ).push(pairs_view(self.mounts@)[k as int]));
            }
            k = k + 1;
        }
        proof {
            assert(pairs_view(self.mounts@).take(self.mounts@.len() as int) =~= pairs_view(
                self.mounts@,
            ));
        }
        SchemaRegistry { by_uri: by, base_prefix: self.base_prefix.clone(), mounts }
    }
}

impl SchemaValidator {
    /// The validator of the schema registered at `root_uri` (see
    /// `SchemaRegistry::get_by_uri`); an unknown URI is refused.
    pub fn compile_with_registry(root_uri: &str, reg: &SchemaRegistry) -> (r: Result<
        SchemaValidator,
        RaiseError,
    >)
        ensures
            match reg.lookup(root_uri@) {
                Some(s) => r matches Ok(v) && v.schema@ == s && v.root_uri@ == root_uri@
                    && v.reg.entries() == reg.entries() && pairs_view(v.reg.mounts@) == pairs_view(
                    reg.mounts@,
                ),
                None => r matches Err(e) && e.code == ErrorCode::SchemaNotInRegistry,
            },
    {
        match reg.get_by_uri(root_uri) {
            Some(s) => Ok(
                SchemaValidator {
                    root_uri: root_uri.to_owned(),
                    schema: s.deep_clone(),
                    reg: reg.duplicate(),
                },
            ),
            None => Err(RaiseError::new(ErrorCode::SchemaNotInRegistry, root_uri)),
        }
    }

    /// Checks an instance against the schema (see `validate_spec`).
    pub fn validate(&self, instance: &JsonValue) -> (r: Result<(), RaiseError>)
        ensures
            match validate_spec(
                self.reg,
                instance@,
                self.schema@,
                self.root_uri@,
                MAX_REF_DEPTH as nat,
            ) {
                None => r is Ok,
                Some(c) => r matches Err(e) && e.code == c,
            },
    {
        validate_node(&self.reg, instance, &self.schema, self.root_uri.as_str(), MAX_REF_DEPTH)
    }

    /// Fills the instance with the schema's defaults and computed values
    /// (see `defaults_spec`), the values of the computations taken in order
    /// from `computed`, then checks it. When a computation beyond `computed`
    /// is reached, the instance stays as it was and that computation is
    /// asked for: its value is to be added to `computed` for the next call.
    pub fn compute_then_validate(&self, instance: &mut JsonValue, computed: &Vec<JsonValue>) -> (r:
        Result<ComputeStep, RaiseError>)
        ensures
            match defaults_spec(
                self.reg,
                old(instance)@,
                self.schema@,
                self.root_uri@,
                MAX_REF_DEPTH as nat,
                jvs(computed@),
                0,
            ) {
                Fill::TooDeep => r matches Err(e) && e.code == ErrorCode::SchemaRefTooDeep
                    && final(instance)@ == old(instance)@,
                Fill::Need(op, p) => r matches Ok(ComputeStep::NeedPlan { op: o, plan: q }) && o@
                    == op && q@ == p && final(instance)@ == old(instance)@,
                Fill::Done(v, _) => final(instance)@ == v && match validate_spec(
                    self.reg,
                    v,
                    self.schema@,
                    self.root_uri@,
                    MAX_REF_DEPTH as nat,
                ) {
                    None => r matches Ok(ComputeStep::Valid),
                    Some(c) => r matches Err(e) && e.code == c,
                },
            },
    {
        let step = defaults_of(
            &self.reg,
            instance.deep_clone(),
            &self.schema,
            self.root_uri.as_str(),
            MAX_REF_DEPTH,
            computed,
            0,
        )?;
        match step {
            FillStep::Need(op, plan) => Ok(ComputeStep::NeedPlan { op, plan }),
            FillStep::Done(filled, _) => {
                *instance = filled;
                self.validate(instance)?;
                Ok(ComputeStep::Valid)
            },
        }
    }
}

/// What filling and checking an instance gives: it was filled and is
/// valid, or the value of a computation (its operation and plan) is
/// needed first.
pub enum ComputeStep {
    Valid,
    NeedPlan { op: String, plan: JsonValue },
}

} // verus!
