//! JSON schema validation: `$ref` resolution through the registry, types,
//! required and pattern properties, closed objects, and the string, number
//! and array bounds.
use vstd::prelude::*;
use crate::error::{ErrorCode, RaiseError};
use crate::json::{
    JVal, JsonNumber, JsonValue, entry_get, entry_index, find_key, jents, jvs, keys_of,
    lemma_entry_index, lemma_jents, lemma_jvs, member,
};
use crate::schema_registry::SchemaRegistry;
use crate::schema_uri::{json_pointer, pointer, resolve_path_spec, resolve_path_uri, split_fragment,
    split_uri_fragment};
use crate::text::{str_equal, to_chars};

verus! {

/// How many `$ref`s one value may follow in a row.
pub const MAX_REF_DEPTH: u64 = 32;

/// Whether a regular expression compiles (std's default limits); names the
/// outcome of `regex::Regex::new`.
pub uninterp spec fn regex_compiles(pattern: Seq<char>) -> bool;

/// Whether the compiled pattern matches somewhere in the text; names the
/// result of `regex::Regex::is_match`.
pub uninterp spec fn regex_matches(pattern: Seq<char>, text: Seq<char>) -> bool;

/// `regex::Regex::new(pattern).is_ok()`: whether the pattern compiles.
#[verifier::external_body]
fn regex_is_valid(pattern: &str) -> (b: bool)
    ensures
        b == regex_compiles(pattern@),
{
    regex::Regex::new(pattern).is_ok()
}

/// `regex::Regex::is_match` of the regex compiled from `pattern` (which
/// compiles) on `text`.
#[verifier::external_body]
fn regex_is_match(pattern: &str, text: &str) -> (b: bool)
    requires
        regex_compiles(pattern@),
    ensures
        b == regex_matches(pattern@, text@),
{
    match regex::Regex::new(pattern) {
        Ok(re) => re.is_match(text),
        Err(_) => false,
    }
}

/// The characters of `s` but `#`.
pub open spec fn remove_hashes(s: Seq<char>) -> Seq<char>
    decreases s.len(),
{
    if s.len() == 0 {
        Seq::empty()
    } else {
        let r = remove_hashes(s.drop_last());
        if s.last() == '#' {
            r
        } else {
            r.push(s.last())
        }
    }
}

/// The schema URI and fragment a `$ref` names from the schema at `uri`:
/// `#...` stays in the same schema; anything else is resolved as a path.
pub open spec fn ref_parts(uri: Seq<char>, rs: Seq<char>) -> (Seq<char>, Option<Seq<char>>) {
    if rs.len() > 0 && rs[0] == '#' {
        (uri, Some(rs))
    } else {
        split_fragment(resolve_path_spec(uri, rs))
    }
}

/// A member read as an unsigned integer (a non-negative integer number).
pub open spec fn as_u64_val(v: Option<JVal>) -> Option<u64> {
    match v {
        Some(JVal::Num(n)) => if !n.is_float && n.mantissa >= 0 {
            Some(n.mantissa as u64)
        } else {
            None
        },
        _ => None,
    }
}

/// A member read as a number.
pub open spec fn as_num_val(v: Option<JVal>) -> Option<JsonNumber> {
    match v {
        Some(JVal::Num(n)) => Some(n),
        _ => None,
    }
}

/// The bounds and pattern of a string schema.
pub open spec fn string_errors(s: Seq<char>, schema: JVal) -> Option<ErrorCode> {
    let min = as_u64_val(member(schema, "minLength"@));
    let max = as_u64_val(member(schema, "maxLength"@));
    if min is Some && s.len() < min.unwrap() {
        Some(ErrorCode::ValidationStringTooShort)
    } else if max is Some && s.len() > max.unwrap() {
        Some(ErrorCode::ValidationStringTooLong)
    } else {
        match member(schema, "pattern"@) {
            Some(JVal::Str(p)) => if !regex_compiles(p) {
                Some(ErrorCode::SchemaInvalidRegex)
            } else if !regex_matches(p, s) {
                Some(ErrorCode::ValidationPatternMismatch)
            } else {
                None
            },
            _ => None,
        }
    }
}

/// The bounds of a number schema.
pub open spec fn number_errors(n: JsonNumber, schema: JVal) -> Option<ErrorCode> {
    let min = as_num_val(member(schema, "minimum"@));
    let max = as_num_val(member(schema, "maximum"@));
    if min is Some && JsonNumber::order_spec(n, min.unwrap()) < 0 {
        Some(ErrorCode::ValidationNumberTooSmall)
    } else if max is Some && JsonNumber::order_spec(n, max.unwrap()) > 0 {
        Some(ErrorCode::ValidationNumberTooLarge)
    } else {
        None
    }
}

/// The first required key (from position `j` on) the object lacks.
pub open spec fn required_from(e: Seq<(Seq<char>, JVal)>, req: Seq<JVal>, j: int) -> Option<
    ErrorCode,
>
    decreases req.len() - j,
{
    if j < 0 || j >= req.len() {
        None
    } else {
        match req[j] {
            JVal::Str(k) => if entry_get(e, k) is None {
                Some(ErrorCode::ValidationRequiredFieldMissing)
            } else {
                required_from(e, req, j + 1)
            },
            _ => required_from(e, req, j + 1),
        }
    }
}

pub open spec fn required_errors(e: Seq<(Seq<char>, JVal)>, schema: JVal) -> Option<ErrorCode> {
    match member(schema, "required"@) {
        Some(JVal::Arr(a)) => required_from(e, a, 0),
        _ => None,
    }
}

/// Whether one of the patterns (from position `j` on) matches `k`.
pub open spec fn any_pattern_from(pats: Seq<Seq<char>>, k: Seq<char>, j: int) -> bool
    decreases pats.len() - j,
{
    if j < 0 || j >= pats.len() {
        false
    } else {
        regex_matches(pats[j], k) || any_pattern_from(pats, k, j + 1)
    }
}

/// The first key (from position `j` on) that a closed object does not
/// allow: neither a declared property, nor matched by a pattern, nor
/// `$schema` or `@context`.
pub open spec fn extra_from(
    e: Seq<(Seq<char>, JVal)>,
    defined: Seq<Seq<char>>,
    pats: Seq<Seq<char>>,
    j: int,
) -> Option<ErrorCode>
    decreases e.len() - j,
{
    if j < 0 || j >= e.len() {
        None
    } else {
        let k = e[j].0;
        if !defined.contains(k) && !any_pattern_from(pats, k, 0) && k != "$schema"@ && k
            != "@context"@ {
            Some(ErrorCode::ValidationAdditionalPropertyForbidden)
        } else {
            extra_from(e, defined, pats, j + 1)
        }
    }
}

pub open spec fn obj_keys(v: Option<JVal>) -> Seq<Seq<char>> {
    match v {
        Some(JVal::Obj(ps)) => keys_of(ps),
        _ => Seq::empty(),
    }
}

pub open spec fn additional_errors(e: Seq<(Seq<char>, JVal)>, schema: JVal) -> Option<ErrorCode> {
    match member(schema, "additionalProperties"@) {
        Some(JVal::Bool(false)) => extra_from(
            e,
            obj_keys(member(schema, "properties"@)),
            obj_keys(member(schema, "patternProperties"@)),
            0,
        ),
        _ => None,
    }
}

/// The number of members or items of a value.
pub open spec fn count(v: JVal) -> int {
    match v {
        JVal::Obj(e) => e.len() as int,
        JVal::Arr(a) => a.len() as int,
        _ => 0,
    }
}

/// Validation of `inst` against `schema` (found at `uri`): `None` when it
/// conforms, else the error. At most `fuel` more `$ref`s are followed.
pub open spec fn validate_spec(
    reg: SchemaRegistry,
    inst: JVal,
    schema: JVal,
    uri: Seq<char>,
    fuel: nat,
) -> Option<ErrorCode>
    decreases inst, fuel, 3int, 0int,
{
    match member(schema, "$ref"@) {
        Some(JVal::Str(rs)) => {
            let parts = ref_parts(uri, rs);
            match reg.lookup(parts.0) {
                None => Some(ErrorCode::SchemaRefNotFound),
                Some(root) => {
                    let target = match parts.1 {
                        Some(f) => json_pointer(root, remove_hashes(f)),
                        None => Some(root),
                    };
                    match target {
                        None => Some(ErrorCode::SchemaPointerNotFound),
                        Some(t) => if fuel == 0 {
                            Some(ErrorCode::SchemaRefTooDeep)
                        } else {
                            validate_spec(reg, inst, t, parts.0, (fuel - 1) as nat)
                        },
                    }
                },
            }
        },
        _ => match member(schema, "type"@) {
            Some(JVal::Str(t)) => {
                if t == "object"@ {
                    if inst is Obj {
                        object_errors(reg, inst, schema, uri)
                    } else {
                        Some(ErrorCode::ValidationTypeMismatch)
                    }
                } else if t == "string"@ {
                    match inst {
                        JVal::Str(s) => string_errors(s, schema),
                        _ => Some(ErrorCode::ValidationTypeMismatch),
                    }
                } else if t == "number"@ {
                    match inst {
                        JVal::Num(n) => number_errors(n, schema),
                        _ => Some(ErrorCode::ValidationTypeMismatch),
                    }
                } else if t == "integer"@ {
                    match inst {
                        JVal::Num(n) => if !n.is_float {
                            number_errors(n, schema)
                        } else {
                            Some(ErrorCode::ValidationTypeMismatch)
                        },
                        _ => Some(ErrorCode::ValidationTypeMismatch),
                    }
                } else if t == "boolean"@ {
                    if inst is Bool {
                        None
                    } else {
                        Some(ErrorCode::ValidationTypeMismatch)
                    }
                } else if t == "array"@ {
                    if inst is Arr {
                        array_errors(reg, inst, schema, uri)
                    } else {
                        Some(ErrorCode::ValidationTypeMismatch)
                    }
                } else if t == "null"@ {
                    if inst is Null {
                        None
                    } else {
                        Some(ErrorCode::ValidationTypeMismatch)
                    }
                } else {
                    None
                }
            },
            _ => None,
        },
    }
}

/// The checks of an object: required keys, then declared properties, then
/// pattern properties, then closedness.
pub open spec fn object_errors(reg: SchemaRegistry, inst: JVal, schema: JVal, uri: Seq<char>) -> Option<
    ErrorCode,
>
    decreases inst, 0nat, 2int, 0int,
{
    match inst {
        JVal::Obj(e) => {
            let req = required_errors(e, schema);
            if req is Some {
                req
            } else {
                let pe = match member(schema, "properties"@) {
                    Some(JVal::Obj(ps)) => props_from(reg, inst, ps, uri, 0),
                    _ => None,
                };
                if pe is Some {
                    pe
                } else {
                    let pp = match member(schema, "patternProperties"@) {
                        Some(JVal::Obj(pats)) => patterns_from(reg, inst, pats, uri, 0),
                        _ => None,
                    };
                    if pp is Some {
                        pp
                    } else {
                        additional_errors(e, schema)
                    }
                }
            }
        },
        _ => None,
    }
}

/// The first declared property (from position `j` on) whose value, when
/// present, does not conform.
pub open spec fn props_from(
    reg: SchemaRegistry,
    inst: JVal,
    ps: Seq<(Seq<char>, JVal)>,
    uri: Seq<char>,
    j: int,
) -> Option<ErrorCode>
    decreases inst, 0nat, 0int, ps.len() - j,
{
    if j < 0 || j >= ps.len() {
        None
    } else {
        match inst {
            JVal::Obj(e) => {
                let i = entry_index(e, ps[j].0);
                if 0 <= i < e.len() {
                    proof {
                        vstd::seq::axiom_seq_index_decreases(e, i);
                    }
                    if validate_spec(reg, e[i].1, ps[j].1, uri, MAX_REF_DEPTH as nat) is Some {
                        Some(ErrorCode::ValidationNestedPropertyFail)
                    } else {
                        props_from(reg, inst, ps, uri, j + 1)
                    }
                } else {
                    props_from(reg, inst, ps, uri, j + 1)
                }
            },
            _ => None,
        }
    }
}

/// The first pattern (from position `j` on) that does not compile, or
/// whose matching members do not conform.
pub open spec fn patterns_from(
    reg: SchemaRegistry,
    inst: JVal,
    pats: Seq<(Seq<char>, JVal)>,
    uri: Seq<char>,
    j: int,
) -> Option<ErrorCode>
    decreases inst, 0nat, 1int, pats.len() - j,
{
    if j < 0 || j >= pats.len() {
        None
    } else if !regex_compiles(pats[j].0) {
        Some(ErrorCode::SchemaInvalidRegexPattern)
    } else {
        let ke = keys_from(reg, inst, pats[j].0, pats[j].1, uri, 0);
        if ke is Some {
            ke
        } else {
            patterns_from(reg, inst, pats, uri, j + 1)
        }
    }
}

/// The first member (from position `j` on) whose key matches `p` and whose
/// value does not conform to `sub`.
pub open spec fn keys_from(
    reg: SchemaRegistry,
    inst: JVal,
    p: Seq<char>,
    sub: JVal,
    uri: Seq<char>,
    j: int,
) -> Option<ErrorCode>
    decreases inst, 0nat, 0int, count(inst) - j,
{
    match inst {
        JVal::Obj(e) => if j < 0 || j >= e.len() {
            None
        } else {
            proof {
                vstd::seq::axiom_seq_index_decreases(e, j);
            }
            if regex_matches(p, e[j].0) && validate_spec(reg, e[j].1, sub, uri, MAX_REF_DEPTH as nat)
                is Some {
                Some(ErrorCode::ValidationPatternPropertyFail)
            } else {
                keys_from(reg, inst, p, sub, uri, j + 1)
            }
        },
        _ => None,
    }
}

/// The checks of an array: item bounds, then each item against `items`
/// when it is an object schema.
pub open spec fn array_errors(reg: SchemaRegistry, inst: JVal, schema: JVal, uri: Seq<char>) -> Option<
    ErrorCode,
>
    decreases inst, 0nat, 2int, 0int,
{
    match inst {
        JVal::Arr(a) => {
            let min = as_u64_val(member(schema, "minItems"@));
            let max = as_u64_val(member(schema, "maxItems"@));
            if min is Some && a.len() < min.unwrap() {
                Some(ErrorCode::ValidationArrayTooSmall)
            } else if max is Some && a.len() > max.unwrap() {
                Some(ErrorCode::ValidationArrayTooLarge)
            } else {
                match member(schema, "items"@) {
                    Some(s) => if s is Obj {
                        items_from(reg, inst, s, uri, 0)
                    } else {
                        None
                    },
                    None => None,
                }
            }
        },
        _ => None,
    }
}

/// The first item (from position `j` on) that does not conform to `sub`.
pub open spec fn items_from(reg: SchemaRegistry, inst: JVal, sub: JVal, uri: Seq<char>, j: int) -> Option<
    ErrorCode,
>
    decreases inst, 0nat, 0int, count(inst) - j,
{
    match inst {
        JVal::Arr(a) => if j < 0 || j >= a.len() {
            None
        } else {
            proof {
                vstd::seq::axiom_seq_index_decreases(a, j);
            }
            if validate_spec(reg, a[j], sub, uri, MAX_REF_DEPTH as nat) is Some {
                Some(ErrorCode::ValidationArrayItemFail)
            } else {
                items_from(reg, inst, sub, uri, j + 1)
            }
        },
        _ => None,
    }
}

fn remove_hash_chars(s: &Vec<char>) -> (r: Vec<char>)
    ensures
        r@ == remove_hashes(s@),
{
    let mut out: Vec<char> = Vec::new();
    let mut i: usize = 0;
    while i < s.len()
        invariant
            i <= s@.len(),
            out@ == remove_hashes(s@.take(i as int)),
        decreases s.len() - i,
    {
        proof {
            assert(s@.take(i + 1).drop_last() =~= s@.take(i as int));
        }
        if s[i] != '#' {
            out.push(s[i]);
        }
        i = i + 1;
    }
    proof {
        assert(s@.take(s@.len() as int) =~= s@);
    }
    out
}

fn as_u64_member(schema: &JsonValue, key: &str) -> (r: Option<u64>)
    ensures
        r == as_u64_val(member(schema@, key@)),
{
    match schema.get(key) {
        Some(JsonValue::Number(n)) => n.as_u64(),
        _ => None,
    }
}

fn as_num_member(schema: &JsonValue, key: &str) -> (r: Option<JsonNumber>)
    ensures
        r == as_num_val(member(schema@, key@)),
{
    match schema.get(key) {
        Some(JsonValue::Number(n)) => Some(*n),
        _ => None,
    }
}

fn fail(code: ErrorCode, detail: &str) -> (r: Result<(), RaiseError>)
    ensures
        r matches Err(e) && e.code == code,
{
    Err(RaiseError::new(code, detail))
}

fn string_check(s: &String, schema: &JsonValue) -> (r: Result<(), RaiseError>)
    ensures
        match string_errors(s@, schema@) {
            None => r is Ok,
            Some(c) => r matches Err(e) && e.code == c,
        },
{
    let n = to_chars(s.as_str()).len();
    match as_u64_member(schema, "minLength") {
        Some(min) => if (n as u64) < min {
            return fail(ErrorCode::ValidationStringTooShort, s.as_str());
        },
        None => {},
    }
    match as_u64_member(schema, "maxLength") {
        Some(max) => if (n as u64) > max {
            return fail(ErrorCode::ValidationStringTooLong, s.as_str());
        },
        None => {},
    }
    match schema.get("pattern") {
        Some(JsonValue::String(p)) => {
            if !regex_is_valid(p.as_str()) {
                return fail(ErrorCode::SchemaInvalidRegex, p.as_str());
            }
            if !regex_is_match(p.as_str(), s.as_str()) {
                return fail(ErrorCode::ValidationPatternMismatch, s.as_str());
            }
            Ok(())
        },
        _ => Ok(()),
    }
}

fn number_check(n: JsonNumber, schema: &JsonValue) -> (r: Result<(), RaiseError>)
    ensures
        match number_errors(n, schema@) {
            None => r is Ok,
            Some(c) => r matches Err(e) && e.code == c,
        },
{
    match as_num_member(schema, "minimum") {
        Some(min) => if n.compare(&min) < 0 {
            return fail(ErrorCode::ValidationNumberTooSmall, "minimum");
        },
        None => {},
    }
    match as_num_member(schema, "maximum") {
        Some(max) => if n.compare(&max) > 0 {
            return fail(ErrorCode::ValidationNumberTooLarge, "maximum");
        },
        None => {},
    }
    Ok(())
}

fn required_check(o: &Vec<(String, JsonValue)>, schema: &JsonValue) -> (r: Result<(), RaiseError>)
    ensures
        match required_errors(jents(o@), schema@) {
            None => r is Ok,
            Some(c) => r matches Err(e) && e.code == c,
        },
{
    match schema.get("required") {
        Some(JsonValue::Array(req)) => {
            proof {
                lemma_jvs(req@);
                lemma_jents(o@);
            }
            let ghost rv = jvs(req@);
            let mut j: usize = 0;
            while j < req.len()
                invariant
                    j <= req@.len(),
                    rv == jvs(req@),
                    rv.len() == req@.len(),
                    forall|k: int| 0 <= k < req@.len() ==> #[trigger] rv[k] == req@[k]@,
                    required_from(jents(o@), rv, 0) == required_from(jents(o@), rv, j as int),
                    required_errors(jents(o@), schema@) == required_from(jents(o@), rv, 0),
                decreases req.len() - j,
            {
                match &req[j] {
                    JsonValue::String(k) => {
                        let i = find_key(o, k.as_str());
                        if i == o.len() {
                            proof {
                                lemma_entry_index(jents(o@), k@);
                            }
                            return fail(ErrorCode::ValidationRequiredFieldMissing, k.as_str());
                        }
                        proof {
                            lemma_entry_index(jents(o@), k@);
                        }
                    },
                    _ => {},
                }
                j = j + 1;
            }
            Ok(())
        },
        _ => Ok(()),
    }
}

/// `keys_of(e)` holds `k` exactly when `k` has an entry.
proof fn lemma_keys_contains(e: Seq<(Seq<char>, JVal)>, k: Seq<char>)
    ensures
        keys_of(e).contains(k) <==> entry_index(e, k) >= 0,
{
    lemma_entry_index(e, k);
    if entry_index(e, k) >= 0 {
        assert(keys_of(e)[entry_index(e, k)] == k);
    } else if keys_of(e).contains(k) {
        let w = choose|w: int| 0 <= w < keys_of(e).len() && keys_of(e)[w] == k;
        assert(e[w].0 == k);
    }
}

fn any_pattern(pats: &Vec<(String, JsonValue)>, key: &str) -> (b: bool)
    requires
        forall|j: int| 0 <= j < pats@.len() ==> regex_compiles(#[trigger] pats@[j].0@),
    ensures
        b == any_pattern_from(keys_of(jents(pats@)), key@, 0),
{
    proof {
        lemma_jents(pats@);
    }
    let ghost ks = keys_of(jents(pats@));
    let mut j: usize = 0;
    while j < pats.len()
        invariant
            j <= pats@.len(),
            ks == keys_of(jents(pats@)),
            jents(pats@).len() == pats@.len(),
            forall|m: int| 0 <= m < pats@.len() ==> #[trigger] ks[m] == pats@[m].0@,
            forall|m: int| 0 <= m < pats@.len() ==> regex_compiles(#[trigger] pats@[m].0@),
            any_pattern_from(ks, key@, 0) == any_pattern_from(ks, key@, j as int),
        decreases pats.len() - j,
    {
        assert(ks[j as int] == pats@[j as int].0@);
        if regex_is_match(pats[j].0.as_str(), key) {
            return true;
        }
        j = j + 1;
    }
    false
}

fn additional_check(o: &Vec<(String, JsonValue)>, schema: &JsonValue) -> (r: Result<(), RaiseError>)
    requires
        match member(schema@, "patternProperties"@) {
            Some(JVal::Obj(pp)) => forall|j: int| 0 <= j < pp.len() ==> regex_compiles(#[trigger] pp[j].0),
            _ => true,
        },
    ensures
        match additional_errors(jents(o@), schema@) {
            None => r is Ok,
            Some(c) => r matches Err(e) && e.code == c,
        },
{
    match schema.get("additionalProperties") {
        Some(JsonValue::Bool(b)) => {
            if *b {
                return Ok(());
            }
        },
        _ => {
            return Ok(());
        },
    }
    let empty: Vec<(String, JsonValue)> = Vec::new();
    let defs: &Vec<(String, JsonValue)> = match schema.get("properties") {
        Some(JsonValue::Object(ps)) => ps,
        _ => &empty,
    };
    let pats: &Vec<(String, JsonValue)> = match schema.get("patternProperties") {
        Some(JsonValue::Object(pp)) => pp,
        _ => &empty,
    };
    proof {
        lemma_jents(o@);
        lemma_jents(defs@);
        lemma_jents(pats@);
        assert(jents(empty@) =~= Seq::<(Seq<char>, JVal)>::empty());
        assert forall|j: int| 0 <= j < pats@.len() implies regex_compiles(#[trigger] pats@[j].0@) by {
            assert(jents(pats@)[j].0 == pats@[j].0@);
        }
    }
    let ghost e = jents(o@);
    let ghost dk = obj_keys(member(schema@, "properties"@));
    let ghost pk = obj_keys(member(schema@, "patternProperties"@));
    assert(dk == keys_of(jents(defs@)));
    assert(pk == keys_of(jents(pats@)));
    let mut k: usize = 0;
    while k < o.len()
        invariant
            k <= o@.len(),
            e == jents(o@),
            e.len() == o@.len(),
            forall|m: int| 0 <= m < o@.len() ==> #[trigger] e[m] == (o@[m].0@, o@[m].1@),
            dk == keys_of(jents(defs@)),
            pk == keys_of(jents(pats@)),
            forall|m: int| 0 <= m < pats@.len() ==> regex_compiles(#[trigger] pats@[m].0@),
            extra_from(e, dk, pk, 0) == extra_from(e, dk, pk, k as int),
            additional_errors(e, schema@) == extra_from(e, dk, pk, 0),
        decreases o.len() - k,
    {
        let key = &o[k].0;
        let i = find_key(defs, key.as_str());
        proof {
            lemma_keys_contains(jents(defs@), key@);
        }
        let defined = i < defs.len();
        let matched = any_pattern(pats, key.as_str());
        if !defined && !matched && !str_equal(key.as_str(), "$schema") && !str_equal(
            key.as_str(),
            "@context",
        ) {
            return fail(ErrorCode::ValidationAdditionalPropertyForbidden, key.as_str());
        }
        k = k + 1;
    }
    Ok(())
}

/// Validates `inst` against `schema`, found at `uri` (see `validate_spec`).
pub fn validate_node(
    reg: &SchemaRegistry,
    inst: &JsonValue,
    schema: &JsonValue,
    uri: &str,
    fuel: u64,
) -> (r: Result<(), RaiseError>)
    ensures
        match validate_spec(*reg, inst@, schema@, uri@, fuel as nat) {
            None => r is Ok,
            Some(c) => r matches Err(e) && e.code == c,
        },
    decreases inst, fuel as nat, 3int, 0int,
{
    match schema.get("$ref") {
        Some(JsonValue::String(rs)) => {
            let rc = to_chars(rs.as_str());
            let parts: (String, Option<String>) = if rc.len() > 0 && rc[0] == '#' {
                (uri.to_owned(), Some(rs.clone()))
            } else {
                let resolved = resolve_path_uri(uri, rs.as_str());
                split_uri_fragment(resolved.as_str())
            };
            proof {
                let sp = ref_parts(uri@, rs@);
                assert(parts.0@ == sp.0);
            }
            let root = match reg.get_by_uri(parts.0.as_str()) {
                Some(x) => x,
                None => {
                    return fail(ErrorCode::SchemaRefNotFound, parts.0.as_str());
                },
            };
            let target = match &parts.1 {
                Some(f) => {
                    let ptr = crate::text::from_chars(remove_hash_chars(&to_chars(f.as_str())).as_slice());
                    pointer(root, ptr.as_str())
                },
                None => Some(root),
            };
            match target {
                None => fail(ErrorCode::SchemaPointerNotFound, parts.0.as_str()),
                Some(t) => {
                    if fuel == 0 {
                        fail(ErrorCode::SchemaRefTooDeep, parts.0.as_str())
                    } else {
                        validate_node(reg, inst, t, parts.0.as_str(), fuel - 1)
                    }
                },
            }
        },
        _ => match schema.get("type") {
            Some(JsonValue::String(t)) => {
                let ts = t.as_str();
                if str_equal(ts, "object") {
                    match inst {
                        JsonValue::Object(_) => object_check(reg, inst, schema, uri),
                        _ => fail(ErrorCode::ValidationTypeMismatch, "object"),
                    }
                } else if str_equal(ts, "string") {
                    match inst {
                        JsonValue::String(s) => string_check(s, schema),
                        _ => fail(ErrorCode::ValidationTypeMismatch, "string"),
                    }
                } else if str_equal(ts, "number") {
                    match inst {
                        JsonValue::Number(n) => number_check(*n, schema),
                        _ => fail(ErrorCode::ValidationTypeMismatch, "number"),
                    }
                } else if str_equal(ts, "integer") {
                    match inst {
                        JsonValue::Number(n) => if !n.is_float {
                            number_check(*n, schema)
                        } else {
                            fail(ErrorCode::ValidationTypeMismatch, "integer")
                        },
                        _ => fail(ErrorCode::ValidationTypeMismatch, "integer"),
                    }
                } else if str_equal(ts, "boolean") {
                    match inst {
                        JsonValue::Bool(_) => Ok(()),
                        _ => fail(ErrorCode::ValidationTypeMismatch, "boolean"),
                    }
                } else if str_equal(ts, "array") {
                    match inst {
                        JsonValue::Array(_) => array_check(reg, inst, schema, uri),
                        _ => fail(ErrorCode::ValidationTypeMismatch, "array"),
                    }
                } else if str_equal(ts, "null") {
                    match inst {
                        JsonValue::Null => Ok(()),
                        _ => fail(ErrorCode::ValidationTypeMismatch, "null"),
                    }
                } else {
                    Ok(())
                }
            },
            _ => Ok(()),
        },
    }
}

fn object_check(reg: &SchemaRegistry, inst: &JsonValue, schema: &JsonValue, uri: &str) -> (r: Result<
    (),
    RaiseError,
>)
    requires
        inst@ is Obj,
    ensures
        match object_errors(*reg, inst@, schema@, uri@) {
            None => r is Ok,
            Some(c) => r matches Err(e) && e.code == c,
        },
    decreases inst, 0nat, 2int, 0int,
{
    let o = match inst {
        JsonValue::Object(o) => o,
        _ => {
            return Ok(());
        },
    };
    proof {
        lemma_jents(o@);
    }
    let ghost e = jents(o@);
    required_check(o, schema)?;
    match schema.get("properties") {
        Some(JsonValue::Object(ps)) => {
            proof {
                lemma_jents(ps@);
            }
            let ghost pv = jents(ps@);
            let mut j: usize = 0;
            while j < ps.len()
                invariant
                    *inst == JsonValue::Object(*o),
                    e == jents(o@),
                    e.len() == o@.len(),
                    forall|m: int| 0 <= m < o@.len() ==> #[trigger] e[m] == (o@[m].0@, o@[m].1@),
                    j <= ps@.len(),
                    pv == jents(ps@),
                    pv.len() == ps@.len(),
                    forall|m: int| 0 <= m < ps@.len() ==> #[trigger] pv[m] == (ps@[m].0@, ps@[m].1@),
                    props_from(*reg, inst@, pv, uri@, 0) == props_from(*reg, inst@, pv, uri@, j as int),
                    required_errors(e, schema@) is None,
                    member(schema@, "properties"@) == Some(JVal::Obj(pv)),
                decreases ps.len() - j,
            {
                let i = find_key(o, ps[j].0.as_str());
                proof {
                    lemma_entry_index(e, ps@[j as int].0@);
                }
                if i < o.len() {
                    proof {
                        vstd::std_specs::vec::axiom_vec_decreases_to_view(*o);
                        vstd::seq::axiom_seq_index_decreases(o@, i as int);
                        assert(decreases_to!(*inst => inst->Object_0));
                        assert(decreases_to!(*o => o@));
                        assert(decreases_to!(o@ => o@[i as int]));
                        assert(decreases_to!(o@[i as int] => o@[i as int].1));
                        assert(decreases_to!(*inst => o@[i as int].1));
                    }
                    match validate_node(reg, &o[i].1, &ps[j].1, uri, MAX_REF_DEPTH) {
                        Err(_) => {
                            return fail(ErrorCode::ValidationNestedPropertyFail, ps[j].0.as_str());
                        },
                        Ok(()) => {},
                    }
                }
                j = j + 1;
            }
        },
        _ => {},
    }
    let empty: Vec<(String, JsonValue)> = Vec::new();
    match schema.get("patternProperties") {
        Some(JsonValue::Object(pats)) => {
            proof {
                lemma_jents(pats@);
            }
            let ghost pv = jents(pats@);
            let mut j: usize = 0;
            while j < pats.len()
                invariant
                    *inst == JsonValue::Object(*o),
                    e == jents(o@),
                    e.len() == o@.len(),
                    forall|m: int| 0 <= m < o@.len() ==> #[trigger] e[m] == (o@[m].0@, o@[m].1@),
                    j <= pats@.len(),
                    pv == jents(pats@),
                    pv.len() == pats@.len(),
                    forall|m: int|
                        0 <= m < pats@.len() ==> #[trigger] pv[m] == (pats@[m].0@, pats@[m].1@),
                    forall|m: int| 0 <= m < j ==> regex_compiles(#[trigger] pv[m].0),
                    required_errors(e, schema@) is None,
                    (match member(schema@, "properties"@) {
                        Some(JVal::Obj(ps)) => props_from(*reg, inst@, ps, uri@, 0),
                        _ => None,
                    }) is None,
                    member(schema@, "patternProperties"@) == Some(JVal::Obj(pv)),
                    patterns_from(*reg, inst@, pv, uri@, 0) == patterns_from(
                        *reg,
                        inst@,
                        pv,
                        uri@,
                        j as int,
                    ),
                decreases pats.len() - j,
            {
                let p = pats[j].0.as_str();
                if !regex_is_valid(p) {
                    return fail(ErrorCode::SchemaInvalidRegexPattern, p);
                }
                let sub = &pats[j].1;
                let mut k: usize = 0;
                while k < o.len()
                    invariant
                        *inst == JsonValue::Object(*o),
                        e == jents(o@),
                        e.len() == o@.len(),
                        forall|m: int|
                            0 <= m < o@.len() ==> #[trigger] e[m] == (o@[m].0@, o@[m].1@),
                        k <= o@.len(),
                        regex_compiles(p@),
                        j < pv.len(),
                        p@ == pv[j as int].0,
                        sub@ == pv[j as int].1,
                        forall|m: int| 0 <= m < j ==> regex_compiles(#[trigger] pv[m].0),
                        required_errors(e, schema@) is None,
                        (match member(schema@, "properties"@) {
                            Some(JVal::Obj(ps)) => props_from(*reg, inst@, ps, uri@, 0),
                            _ => None,
                        }) is None,
                        member(schema@, "patternProperties"@) == Some(JVal::Obj(pv)),
                        patterns_from(*reg, inst@, pv, uri@, 0) == patterns_from(
                            *reg,
                            inst@,
                            pv,
                            uri@,
                            j as int,
                        ),
                        keys_from(*reg, inst@, p@, sub@, uri@, 0) == keys_from(
                            *reg,
                            inst@,
                            p@,
                            sub@,
                            uri@,
                            k as int,
                        ),
                    decreases o.len() - k,
                {
                    if regex_is_match(p, o[k].0.as_str()) {
                        proof {
                            vstd::std_specs::vec::axiom_vec_decreases_to_view(*o);
                            vstd::seq::axiom_seq_index_decreases(o@, k as int);
                            assert(decreases_to!(*inst => inst->Object_0));
                            assert(decreases_to!(*o => o@));
                            assert(decreases_to!(o@ => o@[k as int]));
                            assert(decreases_to!(o@[k as int] => o@[k as int].1));
                            assert(decreases_to!(*inst => o@[k as int].1));
                        }
                        match validate_node(reg, &o[k].1, sub, uri, MAX_REF_DEPTH) {
                            Err(_) => {
                                return fail(
                                    ErrorCode::ValidationPatternPropertyFail,
                                    o[k].0.as_str(),
                                );
                            },
                            Ok(()) => {},
                        }
                    }
                    k = k + 1;
                }
                j = j + 1;
            }
            proof {
                assert forall|m: int| 0 <= m < pv.len() implies regex_compiles(#[trigger] pv[m].0) by {}
            }
        },
        _ => {},
    }
    additional_check(o, schema)
}

fn array_check(reg: &SchemaRegistry, inst: &JsonValue, schema: &JsonValue, uri: &str) -> (r: Result<
    (),
    RaiseError,
>)
    requires
        inst@ is Arr,
    ensures
        match array_errors(*reg, inst@, schema@, uri@) {
            None => r is Ok,
            Some(c) => r matches Err(e) && e.code == c,
        },
    decreases inst, 0nat, 2int, 0int,
{
    let a = match inst {
        JsonValue::Array(a) => a,
        _ => {
            return Ok(());
        },
    };
    proof {
        lemma_jvs(a@);
    }
    match as_u64_member(schema, "minItems") {
        Some(min) => if (a.len() as u64) < min {
            return fail(ErrorCode::ValidationArrayTooSmall, "minItems");
        },
        None => {},
    }
    match as_u64_member(schema, "maxItems") {
        Some(max) => if (a.len() as u64) > max {
            return fail(ErrorCode::ValidationArrayTooLarge, "maxItems");
        },
        None => {},
    }
    match schema.get("items") {
        Some(sub) => {
            if !sub.is_object() {
                return Ok(());
            }
            let mut j: usize = 0;
            while j < a.len()
                invariant
                    *inst == JsonValue::Array(*a),
                    j <= a@.len(),
                    jvs(a@).len() == a@.len(),
                    forall|m: int| 0 <= m < a@.len() ==> #[trigger] jvs(a@)[m] == a@[m]@,
                    items_from(*reg, inst@, sub@, uri@, 0) == items_from(
                        *reg,
                        inst@,
                        sub@,
                        uri@,
                        j as int,
                    ),
                    array_errors(*reg, inst@, schema@, uri@) == items_from(
                        *reg,
                        inst@,
                        sub@,
                        uri@,
                        0,
                    ),
                decreases a.len() - j,
            {
                proof {
                    vstd::std_specs::vec::axiom_vec_decreases_to_view(*a);
                    vstd::seq::axiom_seq_index_decreases(a@, j as int);
                    assert(decreases_to!(*inst => inst->Array_0));
                    assert(decreases_to!(*a => a@));
                    assert(decreases_to!(a@ => a@[j as int]));
                    assert(decreases_to!(*inst => a@[j as int]));
                }
                match validate_node(reg, &a[j], sub, uri, MAX_REF_DEPTH) {
                    Err(_) => {
                        return fail(ErrorCode::ValidationArrayItemFail, "items");
                    },
                    Ok(()) => {},
                }
                j = j + 1;
            }
            Ok(())
        },
        None => Ok(()),
    }
}

} // verus!
