//! Evaluation of query conditions on documents: tolerant field lookup,
//! quote stripping, JSON equality and ordering, and `LIKE` patterns.
use vstd::prelude::*;
use crate::collections::{find_chars, find_spec};
use crate::json::{
    pow10, JVal, JsonNumber, JsonValue, entry_get, find_key, jents, jvs, lemma_entry_index, lemma_jents,
    lemma_jvs,
};
use crate::json_text::json_text;
use crate::query::{ComparisonOperator, CondV, Condition, FilterOperator, QueryFilter, conds_view};
use crate::text::{
    chars_less, ends_with, lemma_lex_irreflexive, from_chars, has_prefix, has_suffix, lex_lt, lowercase_spec, slice_chars,
    split_chars, split_spec, starts_with, to_chars, to_lowercase, trim_chars, trim_spec,
};

verus! {

/// The code of a character with ASCII letters lowered.
pub open spec fn lower_code(c: char) -> u32 {
    let n = c as u32;
    if 65 <= n <= 90 {
        (n + 32) as u32
    } else {
        n
    }
}

/// `str::eq_ignore_ascii_case`.
pub open spec fn eq_ascii_ci(a: Seq<char>, b: Seq<char>) -> bool {
    a.len() == b.len() && forall|i: int| 0 <= i < a.len() ==> lower_code(#[trigger] a[i]) == lower_code(b[i])
}

/// Whether a trimmed text is wrapped in a pair of single or double quotes.
pub open spec fn is_quoted(t: Seq<char>) -> bool {
    t.len() >= 2 && ((t[0] == '\'' && t.last() == '\'') || (t[0] == '"' && t.last() == '"'))
}

/// A field name trimmed, without one pair of surrounding quotes.
pub open spec fn clean_quotes(s: Seq<char>) -> Seq<char> {
    let t = trim_spec(s);
    if is_quoted(t) {
        t.subrange(1, t.len() - 1)
    } else {
        t
    }
}

/// A field path cleaned, without a leading `collection.` (any ASCII case).
pub open spec fn normalize_path(raw: Seq<char>, coll: Seq<char>) -> Seq<char> {
    let field = clean_quotes(raw);
    let prefix = coll.push('.');
    if field.len() > prefix.len() && eq_ascii_ci(field.subrange(0, prefix.len() as int), prefix) {
        field.subrange(prefix.len() as int, field.len() as int)
    } else {
        field
    }
}

/// The last dot-separated segment of a path.
pub open spec fn leaf_of(p: Seq<char>) -> Seq<char> {
    split_spec(p, '.').last()
}

/// A string value with every surrounding pair of quotes removed (trimming
/// before each check).
pub open spec fn strip_loop(p: Seq<char>) -> Seq<char>
    decreases p.len(),
{
    let t = trim_spec(p);
    if is_quoted(t) && t.len() <= p.len() {
        strip_loop(t.subrange(1, t.len() - 1))
    } else {
        p
    }
}

pub open spec fn strip_quotes_spec(v: JVal) -> JVal {
    match v {
        JVal::Str(s) => JVal::Str(strip_loop(s)),
        _ => v,
    }
}

/// The first member whose key matches `k` exactly, else the first whose key
/// matches ignoring ASCII case.
pub open spec fn member_ci(e: Seq<(Seq<char>, JVal)>, k: Seq<char>) -> Option<JVal> {
    match entry_get(e, k) {
        Some(v) => Some(v),
        None => first_ci(e, k, 0),
    }
}

pub open spec fn first_ci(e: Seq<(Seq<char>, JVal)>, k: Seq<char>, j: int) -> Option<JVal>
    decreases e.len() - j,
{
    if j < 0 || j >= e.len() {
        None
    } else if eq_ascii_ci(e[j].0, k) {
        Some(e[j].1)
    } else {
        first_ci(e, k, j + 1)
    }
}

/// The value at a dot-separated path, each step tolerant of ASCII case.
pub open spec fn walk_ci(v: JVal, parts: Seq<Seq<char>>) -> Option<JVal>
    decreases parts.len(),
{
    if parts.len() == 0 {
        Some(v)
    } else {
        match v {
            JVal::Obj(e) => match member_ci(e, parts[0]) {
                Some(x) => walk_ci(x, parts.drop_first()),
                None => None,
            },
            _ => None,
        }
    }
}

pub open spec fn deep_ci(v: JVal, path: Seq<char>) -> Option<JVal> {
    walk_ci(v, split_spec(path, '.'))
}

/// Looks a member up in the object values of a document, by the normalized
/// path then by the leaf (from position `j` on).
pub open spec fn nested_lookup(
    e: Seq<(Seq<char>, JVal)>,
    norm: Seq<char>,
    leaf: Seq<char>,
    j: int,
) -> Option<JVal>
    decreases e.len() - j,
{
    if j < 0 || j >= e.len() {
        None
    } else if e[j].1 is Obj && deep_ci(e[j].1, norm) is Some {
        deep_ci(e[j].1, norm)
    } else if e[j].1 is Obj && deep_ci(e[j].1, leaf) is Some {
        deep_ci(e[j].1, leaf)
    } else {
        nested_lookup(e, norm, leaf, j + 1)
    }
}

/// The value of a field in a document: at the normalized path, else at
/// its leaf, else inside one of the document's object members.
pub open spec fn field_value(doc: JVal, raw: Seq<char>, coll: Seq<char>) -> Option<JVal> {
    let clean = clean_quotes(raw);
    let norm = normalize_path(clean, coll);
    let leaf = leaf_of(clean);
    if deep_ci(doc, norm) is Some {
        deep_ci(doc, norm)
    } else if leaf != norm && deep_ci(doc, leaf) is Some {
        deep_ci(doc, leaf)
    } else {
        match doc {
            JVal::Obj(e) => nested_lookup(e, norm, leaf, 0),
            _ => None,
        }
    }
}

/// JSON equality: objects compare as maps (member order aside).
pub open spec fn json_eq(a: JVal, b: JVal) -> bool
    decreases a, 0nat,
{
    match a {
        JVal::Null => b is Null,
        JVal::Bool(x) => b matches JVal::Bool(y) && x == y,
        JVal::Num(x) => b matches JVal::Num(y) && x == y,
        JVal::Str(x) => b matches JVal::Str(y) && x == y,
        JVal::Arr(x) => b matches JVal::Arr(y) && items_eq(x, y),
        JVal::Obj(x) => b matches JVal::Obj(y) && x.len() == y.len() && ents_eq(x, y),
    }
}

pub open spec fn items_eq(x: Seq<JVal>, y: Seq<JVal>) -> bool
    decreases x, 1nat,
{
    if x.len() == 0 {
        y.len() == 0
    } else {
        proof {
            vstd::seq::axiom_seq_index_decreases(x, x.len() - 1);
            vstd::seq::axiom_seq_subrange_decreases(x, 0, x.len() - 1);
        }
        y.len() == x.len() && items_eq(x.subrange(0, x.len() - 1), y.subrange(0, y.len() - 1))
            && json_eq(x[x.len() - 1], y[y.len() - 1])
    }
}

/// Every member of `x` is in `y` with an equal value.
pub open spec fn ents_eq(x: Seq<(Seq<char>, JVal)>, y: Seq<(Seq<char>, JVal)>) -> bool
    decreases x, 1nat,
{
    if x.len() == 0 {
        true
    } else {
        proof {
            vstd::seq::axiom_seq_index_decreases(x, x.len() - 1);
            vstd::seq::axiom_seq_subrange_decreases(x, 0, x.len() - 1);
        }
        ents_eq(x.subrange(0, x.len() - 1), y) && match entry_get(y, x[x.len() - 1].0) {
            Some(v) => json_eq(x[x.len() - 1].1, v),
            None => false,
        }
    }
}

/// Whether a list holds a value equal to `v`.
pub open spec fn list_has(list: Seq<JVal>, v: JVal) -> bool {
    exists|i: int| 0 <= i < list.len() && json_eq(#[trigger] list[i], v)
}

/// Equality of two optional values; numbers compare by value.
pub open spec fn values_equal(a: Option<JVal>, b: Option<JVal>) -> bool {
    match (a, b) {
        (Some(x), Some(y)) => json_eq(x, y) || (x matches JVal::Num(n1) && y matches JVal::Num(n2)
            && JsonNumber::order_spec(n1, n2) == 0),
        (None, None) => true,
        _ => false,
    }
}

/// Ordering of two optional values (-1, 0, 1): numbers by value, strings
/// lexicographically, `false` before `true`; a missing value first; values
/// of other kinds compare equal.
pub open spec fn compare_json(a: Option<JVal>, b: Option<JVal>) -> int {
    match (a, b) {
        (Some(x), Some(y)) => match (x, y) {
            (JVal::Num(n1), JVal::Num(n2)) => JsonNumber::order_spec(n1, n2),
            (JVal::Str(s1), JVal::Str(s2)) => if lex_lt(s1, s2) {
                -1
            } else if s1 == s2 {
                0
            } else {
                1
            },
            (JVal::Bool(b1), JVal::Bool(b2)) => if b1 == b2 {
                0
            } else if !b1 {
                -1
            } else {
                1
            },
            _ => 0,
        },
        (None, Some(_)) => -1,
        (Some(_), None) => 1,
        (None, None) => 0,
    }
}

/// The lowered text a `contains` test compares for a list item.
pub open spec fn item_text(v: JVal) -> Seq<char> {
    match v {
        JVal::Str(s) => lowercase_spec(s),
        _ => lowercase_spec(json_text(v)),
    }
}

/// The text a `LIKE` test reads from a list item.
pub open spec fn like_text(v: JVal) -> Seq<char> {
    match v {
        JVal::Str(s) => s,
        _ => json_text(v),
    }
}

/// A `LIKE` pattern (case-insensitive): without `%`, a substring test;
/// otherwise the text starts with the first piece, holds the middle pieces
/// in order after it, and ends with the last piece.
pub open spec fn like_match(text: Seq<char>, pattern: Seq<char>) -> bool {
    let t = lowercase_spec(text);
    let p = lowercase_spec(pattern);
    if !p.contains('%') {
        find_spec(t, p) >= 0
    } else {
        let parts = split_spec(p, '%');
        let first = parts[0];
        let start = if first.len() > 0 {
            first.len() as int
        } else {
            0
        };
        (first.len() == 0 || has_prefix(t, first)) && middle_pos(t, parts, start, 1) >= 0 && (
        parts.last().len() == 0 || has_suffix(t, parts.last()))
    }
}

/// The position after matching the pieces `parts[k..len-1]` in order from
/// `pos`, or -1 when one is missing.
pub open spec fn middle_pos(t: Seq<char>, parts: Seq<Seq<char>>, pos: int, k: int) -> int
    decreases parts.len() - k,
{
    if k < 1 || k >= parts.len() - 1 {
        pos
    } else if parts[k].len() == 0 {
        middle_pos(t, parts, pos, k + 1)
    } else if pos < 0 || pos > t.len() {
        -1
    } else {
        let off = find_spec(t.subrange(pos, t.len() as int), parts[k]);
        if off < 0 {
            -1
        } else {
            middle_pos(t, parts, pos + off + parts[k].len(), k + 1)
        }
    }
}

/// The `contains` test: a case-insensitive substring of a string, or an
/// item of a list (equal, or with the same lowered text).
pub open spec fn contains_holds(val: Option<JVal>, cv: JVal) -> bool {
    match val {
        Some(JVal::Str(s)) => match cv {
            JVal::Str(sub) => find_spec(lowercase_spec(s), lowercase_spec(sub)) >= 0,
            _ => false,
        },
        Some(JVal::Arr(arr)) => list_has(arr, cv) || exists|i: int|
            0 <= i < arr.len() && #[trigger] item_text(arr[i]) == item_text(cv),
        _ => false,
    }
}

/// The `LIKE` test on a string, or on any item of a list.
pub open spec fn like_holds(val: Option<JVal>, cv: JVal) -> bool {
    &&& cv is Str
    &&& val is Some
    &&& {
        ||| (val->0 is Str && like_match(val->0->Str_0, cv->Str_0))
        ||| (val->0 is Arr && exists|i: int|
            0 <= i < val->0->Arr_0.len() && like_match(
                like_text(#[trigger] val->0->Arr_0[i]),
                cv->Str_0,
            ))
    }
}

proof fn lemma_like_holds_item(a: Seq<JVal>, p: Seq<char>, k: int)
    requires
        0 <= k < a.len(),
        like_match(like_text(a[k]), p),
    ensures
        like_holds(Some(JVal::Arr(a)), JVal::Str(p)),
{
    let val = Some(JVal::Arr(a));
    let cv = JVal::Str(p);
    assert(val->0->Arr_0 == a);
    assert(like_match(like_text(val->0->Arr_0[k]), cv->Str_0));
    assert(val->0 is Arr);
    assert(cv is Str);
}

/// Whether a document satisfies one condition (`IsA` and `AstRule` are
/// not evaluated on documents: never satisfied).
pub open spec fn condition_holds(doc: JVal, c: CondV, coll: Seq<char>) -> bool {
    let val = field_value(doc, c.field, coll);
    let cv = strip_quotes_spec(c.value);
    match c.op {
        ComparisonOperator::Eq => values_equal(val, Some(cv)),
        ComparisonOperator::Ne => !values_equal(val, Some(cv)),
        ComparisonOperator::Matches => values_equal(val, Some(cv)),
        ComparisonOperator::Gt => compare_json(val, Some(cv)) == 1,
        ComparisonOperator::Gte => compare_json(val, Some(cv)) >= 0,
        ComparisonOperator::Lt => compare_json(val, Some(cv)) == -1,
        ComparisonOperator::Lte => compare_json(val, Some(cv)) <= 0,
        ComparisonOperator::Contains => contains_holds(val, cv),
        ComparisonOperator::StartsWith => match (val, cv) {
            (Some(JVal::Str(s)), JVal::Str(p)) => has_prefix(s, p),
            _ => false,
        },
        ComparisonOperator::EndsWith => match (val, cv) {
            (Some(JVal::Str(s)), JVal::Str(p)) => has_suffix(s, p),
            _ => false,
        },
        ComparisonOperator::In => match (val, cv) {
            (Some(dv), JVal::Arr(list)) => list_has(list, dv),
            _ => false,
        },
        ComparisonOperator::Like => like_holds(val, cv),
        _ => false,
    }
}

/// Whether a document satisfies a filter: all conditions (`And`), one
/// (`Or`), or none (`Not`).
pub open spec fn filter_holds(doc: JVal, op: FilterOperator, cs: Seq<CondV>, coll: Seq<char>) -> bool {
    match op {
        FilterOperator::And => forall|i: int|
            0 <= i < cs.len() ==> condition_holds(doc, #[trigger] cs[i], coll),
        FilterOperator::Or => exists|i: int|
            0 <= i < cs.len() && condition_holds(doc, #[trigger] cs[i], coll),
        FilterOperator::Not => !exists|i: int|
            0 <= i < cs.len() && condition_holds(doc, #[trigger] cs[i], coll),
    }
}

fn lower_code_of(c: char) -> (r: u32)
    ensures
        r == lower_code(c),
{
    let n = c as u32;
    if 65 <= n && n <= 90 {
        n + 32
    } else {
        n
    }
}

/// Equality ignoring ASCII case.
pub fn chars_eq_ci(a: &[char], b: &[char]) -> (r: bool)
    ensures
        r == eq_ascii_ci(a@, b@),
{
    if a.len() != b.len() {
        return false;
    }
    let mut i: usize = 0;
    while i < a.len()
        invariant
            i <= a@.len(),
            a@.len() == b@.len(),
            forall|j: int| 0 <= j < i ==> lower_code(#[trigger] a@[j]) == lower_code(b@[j]),
        decreases a.len() - i,
    {
        if lower_code_of(a[i]) != lower_code_of(b[i]) {
            return false;
        }
        i = i + 1;
    }
    true
}

fn quoted_exec(t: &Vec<char>) -> (r: bool)
    ensures
        r == is_quoted(t@),
{
    let n = t.len();
    n >= 2 && ((t[0] == '\'' && t[n - 1] == '\'') || (t[0] == '"' && t[n - 1] == '"'))
}

/// A field name cleaned (see `clean_quotes`).
pub fn clean_field_name_quotes(s: &[char]) -> (r: Vec<char>)
    ensures
        r@ == clean_quotes(s@),
{
    let t = trim_chars(s);
    if quoted_exec(&t) {
        slice_chars(t.as_slice(), 1, t.len() - 1)
    } else {
        t
    }
}

/// A field path normalized (see `normalize_path`).
pub fn normalize_field_path(raw: &[char], coll: &[char]) -> (r: Vec<char>)
    ensures
        r@ == normalize_path(raw@, coll@),
{
    let field = clean_field_name_quotes(raw);
    let mut prefix = slice_chars(coll, 0, coll.len());
    prefix.push('.');
    proof {
        assert(prefix@ =~= coll@.push('.'));
    }
    if field.len() > prefix.len() && chars_eq_ci(
        slice_chars(field.as_slice(), 0, prefix.len()).as_slice(),
        prefix.as_slice(),
    ) {
        slice_chars(field.as_slice(), prefix.len(), field.len())
    } else {
        field
    }
}

/// The last dot-separated segment of a path.
pub fn leaf_segment(p: &[char]) -> (r: Vec<char>)
    ensures
        r@ == leaf_of(p@),
{
    let parts = split_chars(p, '.');
    proof {
        crate::text::lemma_split_nonempty(p@, '.');
    }
    let n = parts.len();
    slice_chars(parts[n - 1].as_slice(), 0, parts[n - 1].len())
}

/// A string value with its surrounding quotes removed (see
/// `strip_quotes_spec`).
pub fn strip_quotes(v: &JsonValue) -> (r: JsonValue)
    ensures
        r@ == strip_quotes_spec(v@),
{
    match v {
        JsonValue::String(s) => {
            let mut p = to_chars(s.as_str());
            loop
                invariant
                    strip_loop(s@) == strip_loop(p@),
                ensures
                    strip_loop(s@) == p@,
                decreases p@.len(),
            {
                let t = trim_chars(p.as_slice());
                proof {
                    crate::text::lemma_trim_len(p@);
                }
                if quoted_exec(&t) {
                    p = slice_chars(t.as_slice(), 1, t.len() - 1);
                } else {
                    break;
                }
            }
            JsonValue::String(from_chars(p.as_slice()))
        },
        _ => v.deep_clone(),
    }
}

fn member_ci_of<'a>(o: &'a Vec<(String, JsonValue)>, k: &[char]) -> (r: Option<&'a JsonValue>)
    ensures
        match member_ci(jents(o@), k@) {
            Some(x) => r matches Some(y) && y@ == x,
            None => r is None,
        },
{
    let key = from_chars(k);
    let i = find_key(o, key.as_str());
    proof {
        lemma_jents(o@);
        lemma_entry_index(jents(o@), k@);
    }
    if i < o.len() {
        return Some(&o[i].1);
    }
    let mut j: usize = 0;
    while j < o.len()
        invariant
            j <= o@.len(),
            jents(o@).len() == o@.len(),
            forall|m: int| 0 <= m < o@.len() ==> #[trigger] jents(o@)[m] == (o@[m].0@, o@[m].1@),
            first_ci(jents(o@), k@, 0) == first_ci(jents(o@), k@, j as int),
            entry_get(jents(o@), k@) is None,
        decreases o.len() - j,
    {
        if chars_eq_ci(to_chars(o[j].0.as_str()).as_slice(), k) {
            return Some(&o[j].1);
        }
        j = j + 1;
    }
    None
}

/// The value at a dot-separated path, tolerant of ASCII case.
pub fn get_field_value_deep_case_insensitive<'a>(doc: &'a JsonValue, path: &[char]) -> (r: Option<
    &'a JsonValue,
>)
    ensures
        match deep_ci(doc@, path@) {
            Some(x) => r matches Some(y) && y@ == x,
            None => r is None,
        },
{
    let parts = split_chars(path, '.');
    let ghost ps = split_spec(path@, '.');
    let mut cur: &JsonValue = doc;
    let mut i: usize = 0;
    proof {
        assert(ps.subrange(0, ps.len() as int) =~= ps);
    }
    while i < parts.len()
        invariant
            i <= parts@.len(),
            parts@.len() == ps.len(),
            forall|m: int| 0 <= m < parts@.len() ==> (#[trigger] parts@[m])@ == ps[m],
            walk_ci(doc@, ps) == walk_ci(cur@, ps.subrange(i as int, ps.len() as int)),
            deep_ci(doc@, path@) == walk_ci(doc@, ps),
        decreases parts.len() - i,
    {
        let ghost rest = ps.subrange(i as int, ps.len() as int);
        proof {
            assert(rest[0] == parts@[i as int]@);
            assert(rest.drop_first() =~= ps.subrange(i + 1, ps.len() as int));
        }
        match cur {
            JsonValue::Object(o) => match member_ci_of(o, parts[i].as_slice()) {
                Some(x) => {
                    cur = x;
                },
                None => {
                    return None;
                },
            },
            _ => {
                return None;
            },
        }
        i = i + 1;
    }
    proof {
        assert(ps.subrange(ps.len() as int, ps.len() as int) =~= Seq::<Seq<char>>::empty());
    }
    Some(cur)
}

/// The value of a field in a document (see `field_value`).
pub fn get_field_value_smart<'a>(doc: &'a JsonValue, raw_path: &str, collection_name: &str) -> (r: Option<
    &'a JsonValue,
>)
    ensures
        match field_value(doc@, raw_path@, collection_name@) {
            Some(x) => r matches Some(y) && y@ == x,
            None => r is None,
        },
{
    let clean = clean_field_name_quotes(to_chars(raw_path).as_slice());
    let norm = normalize_field_path(clean.as_slice(), to_chars(collection_name).as_slice());
    let leaf = leaf_segment(clean.as_slice());
    match get_field_value_deep_case_insensitive(doc, norm.as_slice()) {
        Some(v) => {
            return Some(v);
        },
        None => {},
    }
    if !crate::text::chars_equal(leaf.as_slice(), norm.as_slice()) {
        match get_field_value_deep_case_insensitive(doc, leaf.as_slice()) {
            Some(v) => {
                return Some(v);
            },
            None => {},
        }
    }
    match doc {
        JsonValue::Object(o) => {
            proof {
                lemma_jents(o@);
                assert(doc@ == JVal::Obj(jents(o@)));
            }
            let mut j: usize = 0;
            while j < o.len()
                invariant
                    j <= o@.len(),
                    jents(o@).len() == o@.len(),
                    forall|m: int|
                        0 <= m < o@.len() ==> #[trigger] jents(o@)[m] == (o@[m].0@, o@[m].1@),
                    nested_lookup(jents(o@), norm@, leaf@, 0) == nested_lookup(
                        jents(o@),
                        norm@,
                        leaf@,
                        j as int,
                    ),
                    field_value(doc@, raw_path@, collection_name@) == nested_lookup(
                        jents(o@),
                        norm@,
                        leaf@,
                        0,
                    ),
                decreases o.len() - j,
            {
                let val = &o[j].1;
                if val.is_object() {
                    match get_field_value_deep_case_insensitive(val, norm.as_slice()) {
                        Some(v) => {
                            return Some(v);
                        },
                        None => {},
                    }
                    match get_field_value_deep_case_insensitive(val, leaf.as_slice()) {
                        Some(v) => {
                            return Some(v);
                        },
                        None => {},
                    }
                }
                j = j + 1;
            }
            None
        },
        _ => None,
    }
}

/// JSON equality (see `json_eq`).
pub fn json_equal(a: &JsonValue, b: &JsonValue) -> (r: bool)
    ensures
        r == json_eq(a@, b@),
    decreases a,
{
    match (a, b) {
        (JsonValue::Null, JsonValue::Null) => true,
        (JsonValue::Bool(x), JsonValue::Bool(y)) => *x == *y,
        (JsonValue::Number(x), JsonValue::Number(y)) => x.mantissa == y.mantissa && x.scale
            == y.scale && x.is_float == y.is_float,
        (JsonValue::String(x), JsonValue::String(y)) => crate::text::str_equal(x.as_str(), y.as_str()),
        (JsonValue::Array(x), JsonValue::Array(y)) => {
            proof {
                lemma_jvs(x@);
                lemma_jvs(y@);
                assert(a@ == JVal::Arr(jvs(x@)));
                assert(b@ == JVal::Arr(jvs(y@)));
            }
            if x.len() != y.len() {
                proof {
                    lemma_items_eq_len(jvs(x@), jvs(y@));
                }
                return false;
            }
            let mut i: usize = 0;
            while i < x.len()
                invariant
                    *a == JsonValue::Array(*x),
                    i <= x@.len(),
                    x@.len() == y@.len(),
                    jvs(x@).len() == x@.len(),
                    jvs(y@).len() == y@.len(),
                    forall|m: int| 0 <= m < x@.len() ==> #[trigger] jvs(x@)[m] == x@[m]@,
                    forall|m: int| 0 <= m < y@.len() ==> #[trigger] jvs(y@)[m] == y@[m]@,
                    items_eq(jvs(x@).subrange(0, i as int), jvs(y@).subrange(0, i as int)),
                    a@ == JVal::Arr(jvs(x@)),
                    b@ == JVal::Arr(jvs(y@)),
                decreases x.len() - i,
            {
                proof {
                    vstd::std_specs::vec::axiom_vec_decreases_to_view(*x);
                    vstd::seq::axiom_seq_index_decreases(x@, i as int);
                    assert(decreases_to!(*a => a->Array_0));
                    assert(decreases_to!(*x => x@));
                    assert(decreases_to!(x@ => x@[i as int]));
                    assert(decreases_to!(*a => x@[i as int]));
                }
                let eq = json_equal(&x[i], &y[i]);
                proof {
                    let sx = jvs(x@).subrange(0, i + 1);
                    let sy = jvs(y@).subrange(0, i + 1);
                    assert(sx.subrange(0, sx.len() - 1) =~= jvs(x@).subrange(0, i as int));
                    assert(sy.subrange(0, sy.len() - 1) =~= jvs(y@).subrange(0, i as int));
                    if !eq {
                        lemma_items_eq_prefix(jvs(x@), jvs(y@), i + 1);
                    }
                }
                if !eq {
                    return false;
                }
                i = i + 1;
            }
            proof {
                assert(jvs(x@).subrange(0, x@.len() as int) =~= jvs(x@));
                assert(jvs(y@).subrange(0, y@.len() as int) =~= jvs(y@));
            }
            true
        },
        (JsonValue::Object(x), JsonValue::Object(y)) => {
            proof {
                lemma_jents(x@);
                lemma_jents(y@);
                assert(a@ == JVal::Obj(jents(x@)));
                assert(b@ == JVal::Obj(jents(y@)));
            }
            if x.len() != y.len() {
                return false;
            }
            let mut i: usize = 0;
            while i < x.len()
                invariant
                    *a == JsonValue::Object(*x),
                    i <= x@.len(),
                    x@.len() == y@.len(),
                    jents(x@).len() == x@.len(),
                    jents(y@).len() == y@.len(),
                    forall|m: int|
                        0 <= m < x@.len() ==> #[trigger] jents(x@)[m] == (x@[m].0@, x@[m].1@),
                    forall|m: int|
                        0 <= m < y@.len() ==> #[trigger] jents(y@)[m] == (y@[m].0@, y@[m].1@),
                    ents_eq(jents(x@).subrange(0, i as int), jents(y@)),
                    a@ == JVal::Obj(jents(x@)),
                    b@ == JVal::Obj(jents(y@)),
                decreases x.len() - i,
            {
                proof {
                    vstd::std_specs::vec::axiom_vec_decreases_to_view(*x);
                    vstd::seq::axiom_seq_index_decreases(x@, i as int);
                    assert(decreases_to!(*a => a->Object_0));
                    assert(decreases_to!(*x => x@));
                    assert(decreases_to!(x@ => x@[i as int]));
                    assert(decreases_to!(x@[i as int] => x@[i as int].1));
                    assert(decreases_to!(*a => x@[i as int].1));
                }
                let k = find_key(y, x[i].0.as_str());
                proof {
                    lemma_entry_index(jents(y@), x@[i as int].0@);
                    let sx = jents(x@).subrange(0, i + 1);
                    assert(sx.subrange(0, sx.len() - 1) =~= jents(x@).subrange(0, i as int));
                    assert(sx[sx.len() - 1] == jents(x@)[i as int]);
                }
                if k == y.len() {
                    proof {
                        lemma_ents_eq_prefix(jents(x@), jents(y@), i + 1);
                    }
                    return false;
                }
                let eq = json_equal(&x[i].1, &y[k].1);
                if !eq {
                    proof {
                        lemma_ents_eq_prefix(jents(x@), jents(y@), i + 1);
                    }
                    return false;
                }
                i = i + 1;
            }
            proof {
                assert(jents(x@).subrange(0, x@.len() as int) =~= jents(x@));
            }
            true
        },
        _ => false,
    }
}

proof fn lemma_items_eq_len(x: Seq<JVal>, y: Seq<JVal>)
    ensures
        items_eq(x, y) ==> x.len() == y.len(),
{
}

/// A prefix of equal item lists is equal.
proof fn lemma_items_eq_prefix(x: Seq<JVal>, y: Seq<JVal>, n: int)
    requires
        0 <= n <= x.len(),
        x.len() == y.len(),
    ensures
        items_eq(x, y) ==> items_eq(x.subrange(0, n), y.subrange(0, n)),
    decreases x.len() - n,
{
    if n < x.len() {
        lemma_items_eq_prefix(x, y, n + 1);
        let sx = x.subrange(0, n + 1);
        let sy = y.subrange(0, n + 1);
        assert(sx.subrange(0, sx.len() - 1) =~= x.subrange(0, n));
        assert(sy.subrange(0, sy.len() - 1) =~= y.subrange(0, n));
    } else {
        assert(x.subrange(0, n) =~= x);
        assert(y.subrange(0, n) =~= y);
    }
}

/// Members equal in `y` for all of `x` are so for a prefix of `x`.
proof fn lemma_ents_eq_prefix(x: Seq<(Seq<char>, JVal)>, y: Seq<(Seq<char>, JVal)>, n: int)
    requires
        0 <= n <= x.len(),
    ensures
        ents_eq(x, y) ==> ents_eq(x.subrange(0, n), y),
    decreases x.len() - n,
{
    if n < x.len() {
        lemma_ents_eq_prefix(x, y, n + 1);
        let sx = x.subrange(0, n + 1);
        assert(sx.subrange(0, sx.len() - 1) =~= x.subrange(0, n));
    } else {
        assert(x.subrange(0, n) =~= x);
    }
}

/// Whether the list holds a value equal to `v`.
pub fn list_contains(list: &Vec<JsonValue>, v: &JsonValue) -> (r: bool)
    ensures
        r == list_has(jvs(list@), v@),
{
    proof {
        lemma_jvs(list@);
    }
    let mut i: usize = 0;
    while i < list.len()
        invariant
            i <= list@.len(),
            jvs(list@).len() == list@.len(),
            forall|m: int| 0 <= m < list@.len() ==> #[trigger] jvs(list@)[m] == list@[m]@,
            forall|m: int| 0 <= m < i ==> !json_eq(#[trigger] jvs(list@)[m], v@),
        decreases list.len() - i,
    {
        if json_equal(&list[i], v) {
            assert(json_eq(jvs(list@)[i as int], v@));
            return true;
        }
        i = i + 1;
    }
    false
}

/// Equality of optional values (see `values_equal`).
pub fn values_equal_of(a: Option<&JsonValue>, b: Option<&JsonValue>) -> (r: bool)
    ensures
        r == values_equal(
            match a {
                Some(x) => Some(x@),
                None => None,
            },
            match b {
                Some(x) => Some(x@),
                None => None,
            },
        ),
{
    match (a, b) {
        (Some(x), Some(y)) => {
            if json_equal(x, y) {
                return true;
            }
            match (x, y) {
                (JsonValue::Number(n1), JsonValue::Number(n2)) => n1.compare(n2) == 0,
                _ => false,
            }
        },
        (None, None) => true,
        _ => false,
    }
}

/// Ordering of optional values (see `compare_json`).
pub fn compare_json_values(a: Option<&JsonValue>, b: Option<&JsonValue>) -> (r: i8)
    ensures
        r as int == compare_json(
            match a {
                Some(x) => Some(x@),
                None => None,
            },
            match b {
                Some(x) => Some(x@),
                None => None,
            },
        ),
{
    match (a, b) {
        (Some(x), Some(y)) => match (x, y) {
            (JsonValue::Number(n1), JsonValue::Number(n2)) => n1.compare(n2),
            (JsonValue::String(s1), JsonValue::String(s2)) => {
                let c1 = to_chars(s1.as_str());
                let c2 = to_chars(s2.as_str());
                if chars_less(c1.as_slice(), c2.as_slice()) {
                    -1
                } else if crate::text::chars_equal(c1.as_slice(), c2.as_slice()) {
                    0
                } else {
                    1
                }
            },
            (JsonValue::Bool(b1), JsonValue::Bool(b2)) => if *b1 == *b2 {
                0
            } else if !*b1 {
                -1
            } else {
                1
            },
            _ => 0,
        },
        (None, Some(_)) => -1,
        (Some(_), None) => 1,
        (None, None) => 0,
    }
}

fn item_text_of(v: &JsonValue) -> (r: String)
    ensures
        r@ == item_text(v@),
{
    match v {
        JsonValue::String(s) => to_lowercase(s.as_str()),
        _ => to_lowercase(v.stringify().as_str()),
    }
}

fn like_text_of(v: &JsonValue) -> (r: String)
    ensures
        r@ == like_text(v@),
{
    match v {
        JsonValue::String(s) => s.clone(),
        _ => v.stringify(),
    }
}

/// A `LIKE` pattern test (see `like_match`).
pub fn match_like_smart(text: &str, pattern: &str) -> (r: bool)
    ensures
        r == like_match(text@, pattern@),
{
    let t = to_chars(to_lowercase(text).as_str());
    let p = to_chars(to_lowercase(pattern).as_str());
    let pc = crate::parser::find_char_pub(p.as_slice(), '%');
    proof {
        crate::parser::lemma_first_index_of(p@, '%');
        if p@.contains('%') {
            let w = choose|w: int| 0 <= w < p@.len() && p@[w] == '%';
            assert(p@[w] == '%');
        }
    }
    if pc == p.len() {
        return find_chars(t.as_slice(), p.as_slice()).is_some();
    }
    let parts = split_chars(p.as_slice(), '%');
    let ghost ps = split_spec(p@, '%');
    proof {
        crate::text::lemma_split_nonempty(p@, '%');
    }
    let n = parts.len();
    let first = &parts[0];
    let mut pos: usize = 0;
    if first.len() > 0 {
        if !starts_with(t.as_slice(), first.as_slice()) {
            return false;
        }
        pos = first.len();
    }
    let ghost start: int = pos as int;
    let mut k: usize = 1;
    while k < n - 1
        invariant
            1 <= k,
            k <= n,
            n >= 1,
            t@ == lowercase_spec(text@),
            p@ == lowercase_spec(pattern@),
            ps == split_spec(p@, '%'),
            p@.contains('%'),
            ps[0].len() == 0 || has_prefix(t@, ps[0]),
            start == (if ps[0].len() > 0 {
                ps[0].len() as int
            } else {
                0
            }),
            n == parts@.len(),
            n == ps.len(),
            forall|m: int| 0 <= m < n ==> (#[trigger] parts@[m])@ == ps[m],
            pos <= t@.len(),
            middle_pos(t@, ps, start, 1) == middle_pos(t@, ps, pos as int, k as int),
        decreases n - k,
    {
        if parts[k].len() > 0 {
            let rest = slice_chars(t.as_slice(), pos, t.len());
            match find_chars(rest.as_slice(), parts[k].as_slice()) {
                Some(off) => {
                    pos = pos + off + parts[k].len();
                },
                None => {
                    return false;
                },
            }
        }
        k = k + 1;
    }
    let last = &parts[n - 1];
    if last.len() > 0 && !ends_with(t.as_slice(), last.as_slice()) {
        return false;
    }
    true
}

/// Whether a document satisfies one condition (see `condition_holds`).
pub fn evaluate_condition(document: &JsonValue, condition: &Condition, collection_name: &str) -> (r: bool)
    ensures
        r == condition_holds(document@, condition@, collection_name@),
{
    let val = get_field_value_smart(document, condition.field.as_str(), collection_name);
    let cv = strip_quotes(&condition.value);
    let ghost vv = match val {
        Some(x) => Some(x@),
        None => None::<JVal>,
    };
    match condition.operator {
        ComparisonOperator::Eq => values_equal_of(val, Some(&cv)),
        ComparisonOperator::Ne => !values_equal_of(val, Some(&cv)),
        ComparisonOperator::Matches => values_equal_of(val, Some(&cv)),
        ComparisonOperator::Gt => compare_json_values(val, Some(&cv)) == 1,
        ComparisonOperator::Gte => compare_json_values(val, Some(&cv)) >= 0,
        ComparisonOperator::Lt => compare_json_values(val, Some(&cv)) == -1,
        ComparisonOperator::Lte => compare_json_values(val, Some(&cv)) <= 0,
        ComparisonOperator::Contains => match val {
            Some(JsonValue::String(s)) => match &cv {
                JsonValue::String(sub) => find_chars(
                    to_chars(to_lowercase(s.as_str()).as_str()).as_slice(),
                    to_chars(to_lowercase(sub.as_str()).as_str()).as_slice(),
                ).is_some(),
                _ => false,
            },
            Some(JsonValue::Array(arr)) => {
                if list_contains(arr, &cv) {
                    return true;
                }
                proof {
                    lemma_jvs(arr@);
                }
                let target = item_text_of(&cv);
                let mut i: usize = 0;
                while i < arr.len()
                    invariant
                        i <= arr@.len(),
                        jvs(arr@).len() == arr@.len(),
                        forall|m: int| 0 <= m < arr@.len() ==> #[trigger] jvs(arr@)[m] == arr@[m]@,
                        target@ == item_text(cv@),
                        condition.operator == ComparisonOperator::Contains,
                        field_value(document@, condition.field@, collection_name@) == Some(
                            JVal::Arr(jvs(arr@)),
                        ),
                        cv@ == strip_quotes_spec(condition.value@),
                        forall|m: int|
                            0 <= m < i ==> #[trigger] item_text(jvs(arr@)[m]) != item_text(cv@),
                    decreases arr.len() - i,
                {
                    if crate::text::str_equal(item_text_of(&arr[i]).as_str(), target.as_str()) {
                        assert(item_text(jvs(arr@)[i as int]) == item_text(cv@));
                        return true;
                    }
                    i = i + 1;
                }
                false
            },
            _ => false,
        },
        ComparisonOperator::StartsWith => match (val, &cv) {
            (Some(JsonValue::String(s)), JsonValue::String(p)) => starts_with(
                to_chars(s.as_str()).as_slice(),
                to_chars(p.as_str()).as_slice(),
            ),
            _ => false,
        },
        ComparisonOperator::EndsWith => match (val, &cv) {
            (Some(JsonValue::String(s)), JsonValue::String(p)) => ends_with(
                to_chars(s.as_str()).as_slice(),
                to_chars(p.as_str()).as_slice(),
            ),
            _ => false,
        },
        ComparisonOperator::In => match (val, &cv) {
            (Some(dv), JsonValue::Array(list)) => list_contains(list, dv),
            _ => false,
        },
        ComparisonOperator::Like => match &cv {
            JsonValue::String(p) => match val {
                Some(JsonValue::String(s)) => match_like_smart(s.as_str(), p.as_str()),
                Some(JsonValue::Array(arr)) => {
                    proof {
                        lemma_jvs(arr@);
                    }
                    let mut i: usize = 0;
                    while i < arr.len()
                        invariant
                            i <= arr@.len(),
                            jvs(arr@).len() == arr@.len(),
                            forall|m: int|
                                0 <= m < arr@.len() ==> #[trigger] jvs(arr@)[m] == arr@[m]@,
                            forall|m: int|
                                0 <= m < i ==> !like_match(like_text(#[trigger] jvs(arr@)[m]), p@),
                            condition.operator == ComparisonOperator::Like,
                            field_value(document@, condition.field@, collection_name@) == Some(
                                JVal::Arr(jvs(arr@)),
                            ),
                            cv@ == strip_quotes_spec(condition.value@),
                            cv@ == JVal::Str(p@),
                        decreases arr.len() - i,
                    {
                        if match_like_smart(like_text_of(&arr[i]).as_str(), p.as_str()) {
                            assert(like_match(like_text(jvs(arr@)[i as int]), p@));
                            assert(condition@.op == ComparisonOperator::Like);
                            assert(strip_quotes_spec(condition@.value) == JVal::Str(p@));
                            assert(field_value(document@, condition@.field, collection_name@)
                                == Some(JVal::Arr(jvs(arr@))));
                            assert(exists|m: int|
                                0 <= m < jvs(arr@).len() && like_match(
                                    like_text(#[trigger] jvs(arr@)[m]),
                                    p@,
                                ));
                            proof {
                                lemma_like_holds_item(jvs(arr@), p@, i as int);
                            }
                            return true;
                        }
                        i = i + 1;
                    }
                    false
                },
                _ => false,
            },
            _ => false,
        },
        _ => false,
    }
}

/// Whether a document satisfies a filter (see `filter_holds`).
pub fn evaluate_filter(document: &JsonValue, filter: &QueryFilter, collection_name: &str) -> (r: bool)
    ensures
        r == filter_holds(document@, filter.operator, conds_view(filter.conditions@), collection_name@),
{
    let ghost cs = conds_view(filter.conditions@);
    let mut any = false;
    let mut all = true;
    let mut i: usize = 0;
    while i < filter.conditions.len()
        invariant
            i <= filter.conditions@.len(),
            cs == conds_view(filter.conditions@),
            all == forall|m: int| 0 <= m < i ==> condition_holds(document@, #[trigger] cs[m], collection_name@),
            any == exists|m: int| 0 <= m < i && condition_holds(document@, #[trigger] cs[m], collection_name@),
        decreases filter.conditions.len() - i,
    {
        let h = evaluate_condition(document, &filter.conditions[i], collection_name);
        proof {
            assert(cs[i as int] == filter.conditions@[i as int]@);
        }
        if h {
            any = true;
        } else {
            all = false;
        }
        i = i + 1;
    }
    match filter.operator {
        FilterOperator::And => all,
        FilterOperator::Or => any,
        FilterOperator::Not => !any,
    }
}

/// A condition on `field` with operator `op` and value `value`.
pub open spec fn cond_of(field: Seq<char>, op: ComparisonOperator, value: JVal) -> CondV {
    CondV { field, op, value }
}

/// The comparison of two values is -1, 0 or 1.
pub proof fn lemma_compare_json_sign(a: Option<JVal>, b: Option<JVal>)
    ensures
        compare_json(a, b) == -1 || compare_json(a, b) == 0 || compare_json(a, b) == 1,
{
}

/// `<=` is the negation of `>`, and `>=` the negation of `<`: on every
/// document, exactly one of each pair holds for the same field and value.
pub proof fn law_inclusive_bounds_negate_strict_ones(
    doc: JVal,
    field: Seq<char>,
    value: JVal,
    coll: Seq<char>,
)
    ensures
        condition_holds(doc, cond_of(field, ComparisonOperator::Lte, value), coll)
            <==> !condition_holds(doc, cond_of(field, ComparisonOperator::Gt, value), coll),
        condition_holds(doc, cond_of(field, ComparisonOperator::Gte, value), coll)
            <==> !condition_holds(doc, cond_of(field, ComparisonOperator::Lt, value), coll),
{
    lemma_compare_json_sign(field_value(doc, field, coll), Some(strip_quotes_spec(value)));
}

/// A field whose value equals the condition's value satisfies `<=` and
/// `>=`, and neither `<` nor `>`.
pub proof fn law_equal_value_meets_inclusive_bounds(
    doc: JVal,
    field: Seq<char>,
    value: JVal,
    coll: Seq<char>,
)
    requires
        field_value(doc, field, coll) == Some(strip_quotes_spec(value)),
    ensures
        condition_holds(doc, cond_of(field, ComparisonOperator::Lte, value), coll),
        condition_holds(doc, cond_of(field, ComparisonOperator::Gte, value), coll),
        !condition_holds(doc, cond_of(field, ComparisonOperator::Lt, value), coll),
        !condition_holds(doc, cond_of(field, ComparisonOperator::Gt, value), coll),
{
    let v = strip_quotes_spec(value);
    match v {
        JVal::Str(s) => {
            lemma_lex_irreflexive(s);
        },
        _ => {},
    }
}

/// On numbers the ordering conditions compare the values as numbers:
/// `a <= b` exactly when `a.mantissa / 10^a.scale <= b.mantissa / 10^b.scale`,
/// and so for `<`, `>=` and `>`.
pub proof fn law_ordering_conditions_on_numbers(
    doc: JVal,
    field: Seq<char>,
    coll: Seq<char>,
    a: JsonNumber,
    b: JsonNumber,
)
    requires
        field_value(doc, field, coll) == Some(JVal::Num(a)),
    ensures
        condition_holds(doc, cond_of(field, ComparisonOperator::Lte, JVal::Num(b)), coll)
            <==> a.mantissa * pow10(b.scale as nat) <= b.mantissa * pow10(a.scale as nat),
        condition_holds(doc, cond_of(field, ComparisonOperator::Lt, JVal::Num(b)), coll)
            <==> a.mantissa * pow10(b.scale as nat) < b.mantissa * pow10(a.scale as nat),
        condition_holds(doc, cond_of(field, ComparisonOperator::Gte, JVal::Num(b)), coll)
            <==> a.mantissa * pow10(b.scale as nat) >= b.mantissa * pow10(a.scale as nat),
        condition_holds(doc, cond_of(field, ComparisonOperator::Gt, JVal::Num(b)), coll)
            <==> a.mantissa * pow10(b.scale as nat) > b.mantissa * pow10(a.scale as nat),
{
}

/// `!=` holds exactly when `==` does not.
pub proof fn law_ne_negates_eq(doc: JVal, field: Seq<char>, value: JVal, coll: Seq<char>)
    ensures
        condition_holds(doc, cond_of(field, ComparisonOperator::Ne, value), coll)
            <==> !condition_holds(doc, cond_of(field, ComparisonOperator::Eq, value), coll),
{
}

/// On numbers `==` compares values, not their written form: `2.50 == 2.5`.
pub proof fn law_eq_on_numbers(
    doc: JVal,
    field: Seq<char>,
    coll: Seq<char>,
    a: JsonNumber,
    b: JsonNumber,
)
    requires
        field_value(doc, field, coll) == Some(JVal::Num(a)),
    ensures
        condition_holds(doc, cond_of(field, ComparisonOperator::Eq, JVal::Num(b)), coll)
            <==> a.mantissa * pow10(b.scale as nat) == b.mantissa * pow10(a.scale as nat),
{
}

/// `starts_with` and `ends_with` test that the field's text begins, or
/// ends, with the value's text.
pub proof fn law_prefix_and_suffix_conditions(
    doc: JVal,
    field: Seq<char>,
    value: JVal,
    coll: Seq<char>,
    text: Seq<char>,
    p: Seq<char>,
)
    requires
        field_value(doc, field, coll) == Some(JVal::Str(text)),
        strip_quotes_spec(value) == JVal::Str(p),
    ensures
        condition_holds(doc, cond_of(field, ComparisonOperator::StartsWith, value), coll)
            <==> (p.len() <= text.len() && forall|i: int| 0 <= i < p.len() ==> text[i] == p[i]),
        condition_holds(doc, cond_of(field, ComparisonOperator::EndsWith, value), coll)
            <==> (p.len() <= text.len() && forall|i: int|
            0 <= i < p.len() ==> text[text.len() - p.len() + i] == p[i]),
{
    if p.len() <= text.len() {
        if forall|i: int| 0 <= i < p.len() ==> text[i] == p[i] {
            assert(text.subrange(0, p.len() as int) =~= p);
        }
        if forall|i: int| 0 <= i < p.len() ==> text[text.len() - p.len() + i] == p[i] {
            assert(text.subrange(text.len() - p.len(), text.len() as int) =~= p);
        }
        if has_prefix(text, p) {
            assert forall|i: int| 0 <= i < p.len() implies text[i] == p[i] by {
                assert(text.subrange(0, p.len() as int)[i] == p[i]);
            }
        }
        if has_suffix(text, p) {
            assert forall|i: int| 0 <= i < p.len() implies text[text.len() - p.len() + i] == p[i] by {
                assert(text.subrange(text.len() - p.len(), text.len() as int)[i] == p[i]);
            }
        }
    }
}

/// A `Not` filter holds exactly when the `Or` filter of the same
/// conditions does not; `And` holds when every condition holds, and for a
/// single condition `And` and `Or` both mean that condition.
pub proof fn law_filter_operators(doc: JVal, cs: Seq<CondV>, coll: Seq<char>)
    ensures
        filter_holds(doc, FilterOperator::Not, cs, coll) <==> !filter_holds(
            doc,
            FilterOperator::Or,
            cs,
            coll,
        ),
        filter_holds(doc, FilterOperator::And, cs, coll) ==> !filter_holds(
            doc,
            FilterOperator::Not,
            cs,
            coll,
        ) || cs.len() == 0,
        cs.len() == 1 ==> (filter_holds(doc, FilterOperator::And, cs, coll) <==> condition_holds(
            doc,
            cs[0],
            coll,
        )),
        cs.len() == 1 ==> (filter_holds(doc, FilterOperator::Or, cs, coll) <==> condition_holds(
            doc,
            cs[0],
            coll,
        )),
        cs.len() == 0 ==> filter_holds(doc, FilterOperator::And, cs, coll),
        cs.len() == 0 ==> !filter_holds(doc, FilterOperator::Or, cs, coll),
{
    if cs.len() > 0 && filter_holds(doc, FilterOperator::And, cs, coll) {
        assert(condition_holds(doc, cs[0], coll));
    }
    if cs.len() == 1 && condition_holds(doc, cs[0], coll) {
        assert forall|i: int| 0 <= i < cs.len() implies condition_holds(doc, #[trigger] cs[i], coll) by {
            assert(i == 0);
        }
    }
}

} // verus!
