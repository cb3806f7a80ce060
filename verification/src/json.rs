//! The JSON value model shared by every part of the database: documents,
//! schemas, query values and JSON-LD contexts are all `JsonValue`s.
use vstd::prelude::*;

verus! {

/// Ten to the power `n`.
pub open spec fn pow10(n: nat) -> int
    decreases n,
{
    if n == 0 {
        1
    } else {
        10 * pow10((n - 1) as nat)
    }
}

pub proof fn lemma_pow10_pos(n: nat)
    ensures
        pow10(n) >= 1,
    decreases n,
{
    if n > 0 {
        lemma_pow10_pos((n - 1) as nat);
    }
}

pub proof fn lemma_pow10_mono(a: nat, b: nat)
    requires
        a <= b,
    ensures
        pow10(a) <= pow10(b),
    decreases b,
{
    if a < b {
        lemma_pow10_mono(a, (b - 1) as nat);
        lemma_pow10_pos((b - 1) as nat);
    }
}

/// A JSON number: the decimal `mantissa / 10^scale`. `is_float` tells a
/// number written with a fraction or an exponent (`2.5`, `20.0`) from an
/// integer (`20`), as JSON parsers do.
#[derive(Debug, Clone, Copy, PartialEq, Eq)]
pub struct JsonNumber {
    pub mantissa: i64,
    pub scale: u32,
    pub is_float: bool,
}

/// Largest number of fractional digits a `JsonNumber` holds.
pub const MAX_SCALE: u32 = 18;

impl JsonNumber {
    pub open spec fn wf(self) -> bool {
        self.scale <= MAX_SCALE
    }

    /// The number scaled to `s` fractional digits: `mantissa * 10^(s - scale)`.
    pub open spec fn scaled(self, s: nat) -> int {
        self.mantissa * pow10((s - self.scale) as nat)
    }

    /// Sign of `a - b` as real numbers.
    pub open spec fn order_spec(a: JsonNumber, b: JsonNumber) -> int {
        let l = a.mantissa * pow10(b.scale as nat);
        let r = b.mantissa * pow10(a.scale as nat);
        if l < r {
            -1
        } else if l == r {
            0
        } else {
            1
        }
    }

    pub fn from_int(i: i64) -> (n: JsonNumber)
        ensures
            n.wf(),
            n.mantissa == i,
            n.scale == 0,
            !n.is_float,
    {
        JsonNumber { mantissa: i, scale: 0, is_float: false }
    }

    /// The decimal `mantissa / 10^scale` written as a fraction, with
    /// trailing zero digits of the fraction dropped.
    pub fn decimal(mantissa: i64, scale: u32) -> (n: JsonNumber)
        requires
            scale <= MAX_SCALE,
        ensures
            n.wf(),
            n.is_float,
            n.mantissa * pow10(scale as nat) == mantissa * pow10(n.scale as nat),
            n.scale <= scale,
            n.scale > 0 ==> n.mantissa % 10 != 0,
    {
        let mut m = mantissa;
        let mut s = scale;
        while s > 0 && m % 10 == 0
            invariant
                s <= scale <= MAX_SCALE,
                m * pow10(scale as nat) == mantissa * pow10(s as nat),
            decreases s,
        {
            proof {
                let q = m / 10;
                assert(m == q * 10);
                assert(pow10(scale as nat) == pow10((scale - s) as nat) * pow10(s as nat)) by {
                    lemma_pow10_split(scale as nat, s as nat);
                }
                assert(pow10(s as nat) == 10 * pow10((s - 1) as nat));
                assert(pow10(scale as nat) == pow10((scale - (s - 1)) as nat) * pow10(
                    (s - 1) as nat,
                )) by {
                    lemma_pow10_split(scale as nat, (s - 1) as nat);
                }
                assert(pow10((scale - (s - 1)) as nat) == 10 * pow10((scale - s) as nat));
                assert(q * pow10(scale as nat) == mantissa * pow10((s - 1) as nat)) by (
                nonlinear_arith)
                    requires
                        m == q * 10,
                        m * pow10(scale as nat) == mantissa * pow10(s as nat),
                        pow10(s as nat) == 10 * pow10((s - 1) as nat),
                ;
            }
            m = m / 10;
            s = s - 1;
        }
        JsonNumber { mantissa: m, scale: s, is_float: true }
    }

    pub fn is_integer(&self) -> (b: bool)
        ensures
            b == !self.is_float,
    {
        !self.is_float
    }

    /// The number as an unsigned integer, when it is a non-negative integer.
    pub fn as_u64(&self) -> (r: Option<u64>)
        ensures
            r == (if !self.is_float && self.mantissa >= 0 {
                Some(self.mantissa as u64)
            } else {
                None
            }),
    {
        if !self.is_float && self.mantissa >= 0 {
            Some(self.mantissa as u64)
        } else {
            None
        }
    }

    /// Three-way comparison of the two numbers' values: -1, 0 or 1.
    pub fn compare(&self, other: &JsonNumber) -> (c: i8)
        ensures
            c as int == JsonNumber::order_spec(*self, *other),
    {
        if self.scale >= other.scale {
            let d = self.scale - other.scale;
            let c = sign_diff_scaled(self.mantissa, other.mantissa, d);
            proof {
                lemma_order_by_scale(*self, *other);
            }
            c
        } else {
            let d = other.scale - self.scale;
            let c = sign_diff_scaled(other.mantissa, self.mantissa, d);
            proof {
                lemma_order_by_scale(*other, *self);
                lemma_order_antisym(*self, *other);
            }
            -c
        }
    }
}

/// The sign of an integer: -1, 0 or 1.
pub open spec fn sgn(v: int) -> int {
    if v < 0 {
        -1
    } else if v == 0 {
        0
    } else {
        1
    }
}

proof fn lemma_order_antisym(a: JsonNumber, b: JsonNumber)
    ensures
        JsonNumber::order_spec(a, b) == -JsonNumber::order_spec(b, a),
{
}

/// Comparing at the larger scale: the order of `a` and `b` is the sign of
/// `a.mantissa - b.mantissa * 10^(a.scale - b.scale)`.
proof fn lemma_order_by_scale(a: JsonNumber, b: JsonNumber)
    requires
        a.scale >= b.scale,
    ensures
        JsonNumber::order_spec(a, b) == sgn(
            a.mantissa - b.mantissa * pow10((a.scale - b.scale) as nat),
        ),
{
    let d = (a.scale - b.scale) as nat;
    let pb = pow10(b.scale as nat);
    let pd = pow10(d);
    lemma_pow10_split(a.scale as nat, b.scale as nat);
    assert(pow10(a.scale as nat) == pd * pb);
    lemma_pow10_pos(b.scale as nat);
    let x = a.mantissa as int;
    let y = b.mantissa as int;
    assert(x * pb - y * (pd * pb) == pb * (x - y * pd)) by (nonlinear_arith);
    assert(sgn(x * pb - y * (pd * pb)) == sgn(x - y * pd)) by (nonlinear_arith)
        requires
            pb >= 1,
            x * pb - y * (pd * pb) == pb * (x - y * pd),
    {
        if x - y * pd > 0 {
            assert(pb * (x - y * pd) > 0);
        } else if x - y * pd < 0 {
            assert(pb * (x - y * pd) < 0);
        }
    }
}

proof fn lemma_pow10_19()
    ensures
        pow10(19) == 10000000000000000000,
{
    reveal_with_fuel(pow10, 20);
}

/// The sign of `x - y * 10^d`.
fn sign_diff_scaled(x: i64, y: i64, d: u32) -> (c: i8)
    ensures
        c as int == sgn(x - y * pow10(d as nat)),
{
    if y == 0 {
        proof {
            assert(y * pow10(d as nat) == 0);
        }
        return if x < 0 {
            -1
        } else if x == 0 {
            0
        } else {
            1
        };
    }
    if d > 18 {
        proof {
            lemma_pow10_mono(19, d as nat);
            lemma_pow10_19();
            let p = pow10(d as nat);
            if y > 0 {
                assert(y * p >= p) by (nonlinear_arith)
                    requires
                        y >= 1,
                        p >= 1,
                ;
            } else {
                assert(y * p <= -p) by (nonlinear_arith)
                    requires
                        y <= -1,
                        p >= 1,
                ;
            }
        }
        return if y > 0 {
            -1
        } else {
            1
        };
    }
    let p = pow10_exec(d);
    proof {
        lemma_pow10_mono(d as nat, 18);
        lemma_pow10_18();
        lemma_pow10_pos(d as nat);
        lemma_mul_bound(y as int, p as int);
    }
    let l: i128 = x as i128;
    let r: i128 = (y as i128) * (p as i128);
    if l < r {
        -1
    } else if l == r {
        0
    } else {
        1
    }
}

pub proof fn lemma_pow10_18()
    ensures
        pow10(18) == 1000000000000000000,
{
    reveal_with_fuel(pow10, 19);
}

proof fn lemma_mul_bound(m: int, p: int)
    requires
        -9223372036854775808 <= m <= 9223372036854775807,
        1 <= p <= 1000000000000000000,
    ensures
        -170141183460469231731687303715884105728 <= m * p <= 170141183460469231731687303715884105727,
{
    assert(-9223372036854775808 * p <= m * p <= 9223372036854775807 * p) by (nonlinear_arith)
        requires
            -9223372036854775808 <= m <= 9223372036854775807,
            1 <= p,
    ;
}

pub proof fn lemma_pow10_split(a: nat, b: nat)
    requires
        b <= a,
    ensures
        pow10(a) == pow10((a - b) as nat) * pow10(b),
    decreases b,
{
    if b > 0 {
        lemma_pow10_split((a - 1) as nat, (b - 1) as nat);
        assert(pow10(a) == 10 * pow10((a - 1) as nat));
        assert(pow10(b) == 10 * pow10((b - 1) as nat));
        assert(pow10(a) == pow10((a - b) as nat) * pow10(b)) by (nonlinear_arith)
            requires
                pow10((a - 1) as nat) == pow10((a - b) as nat) * pow10((b - 1) as nat),
                pow10(a) == 10 * pow10((a - 1) as nat),
                pow10(b) == 10 * pow10((b - 1) as nat),
        ;
    }
}

pub(crate) fn pow10_exec(n: u32) -> (r: u64)
    requires
        n <= 18,
    ensures
        r as int == pow10(n as nat),
{
    let mut r: u64 = 1;
    let mut i: u32 = 0;
    while i < n
        invariant
            i <= n <= 18,
            r as int == pow10(i as nat),
        decreases n - i,
    {
        proof {
            lemma_pow10_mono((i + 1) as nat, 18);
            lemma_pow10_18();
            assert(pow10((i + 1) as nat) == 10 * pow10(i as nat));
        }
        r = r * 10;
        i = i + 1;
    }
    r
}

/// A JSON document. Objects keep their entries in insertion order and hold
/// each key at most once (see `JVal::wf`).
#[derive(Debug)]
pub enum JsonValue {
    Null,
    Bool(bool),
    Number(JsonNumber),
    String(String),
    Array(Vec<JsonValue>),
    Object(Vec<(String, JsonValue)>),
}

/// The mathematical value of a `JsonValue`: strings as character sequences.
pub enum JVal {
    Null,
    Bool(bool),
    Num(JsonNumber),
    Str(Seq<char>),
    Arr(Seq<JVal>),
    Obj(Seq<(Seq<char>, JVal)>),
}

pub open spec fn jv(v: JsonValue) -> JVal
    decreases v, 0nat,
{
    match v {
        JsonValue::Null => JVal::Null,
        JsonValue::Bool(b) => JVal::Bool(b),
        JsonValue::Number(n) => JVal::Num(n),
        JsonValue::String(s) => JVal::Str(s@),
        JsonValue::Array(a) => JVal::Arr(jvs(a@)),
        JsonValue::Object(o) => JVal::Obj(jents(o@)),
    }
}

pub open spec fn jvs(s: Seq<JsonValue>) -> Seq<JVal>
    decreases s, 1nat,
{
    if s.len() == 0 {
        Seq::empty()
    } else {
        proof {
            vstd::seq::axiom_seq_index_decreases(s, s.len() - 1);
            vstd::seq::axiom_seq_subrange_decreases(s, 0, s.len() - 1);
        }
        jvs(s.subrange(0, s.len() - 1)).push(jv(s[s.len() - 1]))
    }
}

pub open spec fn jents(s: Seq<(String, JsonValue)>) -> Seq<(Seq<char>, JVal)>
    decreases s, 1nat,
{
    if s.len() == 0 {
        Seq::empty()
    } else {
        proof {
            vstd::seq::axiom_seq_index_decreases(s, s.len() - 1);
            vstd::seq::axiom_seq_subrange_decreases(s, 0, s.len() - 1);
        }
        jents(s.subrange(0, s.len() - 1)).push(
            (s[s.len() - 1].0@, jv(s[s.len() - 1].1)),
        )
    }
}

pub proof fn lemma_jvs(s: Seq<JsonValue>)
    ensures
        jvs(s).len() == s.len(),
        forall|i: int| 0 <= i < s.len() ==> #[trigger] jvs(s)[i] == jv(s[i]),
    decreases s.len(),
{
    if s.len() > 0 {
        lemma_jvs(s.subrange(0, s.len() - 1));
        assert forall|i: int| 0 <= i < s.len() implies #[trigger] jvs(s)[i] == jv(s[i]) by {
            if i < s.len() - 1 {
                assert(s.subrange(0, s.len() - 1)[i] == s[i]);
            }
        }
    }
}

pub proof fn lemma_jents(s: Seq<(String, JsonValue)>)
    ensures
        jents(s).len() == s.len(),
        forall|i: int|
            0 <= i < s.len() ==> #[trigger] jents(s)[i] == (s[i].0@, jv(s[i].1)),
    decreases s.len(),
{
    if s.len() > 0 {
        lemma_jents(s.subrange(0, s.len() - 1));
        assert forall|i: int| 0 <= i < s.len() implies #[trigger] jents(s)[i] == (
            s[i].0@,
            jv(s[i].1),
        ) by {
            if i < s.len() - 1 {
                assert(s.subrange(0, s.len() - 1)[i] == s[i]);
            }
        }
    }
}

impl View for JsonValue {
    type V = JVal;

    open spec fn view(&self) -> JVal {
        jv(*self)
    }
}

/// Keys of an object's entries, in order.
pub open spec fn keys_of(e: Seq<(Seq<char>, JVal)>) -> Seq<Seq<char>> {
    e.map_values(|p: (Seq<char>, JVal)| p.0)
}

/// Index of the first entry at or after `i` with key `k`, or -1.
pub open spec fn entry_index_from(e: Seq<(Seq<char>, JVal)>, k: Seq<char>, i: int) -> int
    decreases e.len() - i,
{
    if i < 0 || i >= e.len() {
        -1
    } else if e[i].0 == k {
        i
    } else {
        entry_index_from(e, k, i + 1)
    }
}

/// Index of the first entry with key `k`, or -1.
pub open spec fn entry_index(e: Seq<(Seq<char>, JVal)>, k: Seq<char>) -> int {
    entry_index_from(e, k, 0)
}

/// The value stored under `k` in an object's entries (the first one).
pub open spec fn entry_get(e: Seq<(Seq<char>, JVal)>, k: Seq<char>) -> Option<JVal> {
    let i = entry_index(e, k);
    if i >= 0 {
        Some(e[i].1)
    } else {
        None
    }
}

pub proof fn lemma_entry_index_from(e: Seq<(Seq<char>, JVal)>, k: Seq<char>, i: int)
    requires
        0 <= i,
    ensures
        entry_index_from(e, k, i) == -1 || i <= entry_index_from(e, k, i) < e.len(),
        entry_index_from(e, k, i) >= 0 ==> e[entry_index_from(e, k, i)].0 == k,
        entry_index_from(e, k, i) >= 0 ==> forall|j: int|
            i <= j < entry_index_from(e, k, i) ==> e[j].0 != k,
        entry_index_from(e, k, i) == -1 ==> forall|j: int| i <= j < e.len() ==> e[j].0 != k,
    decreases e.len() - i,
{
    if i < e.len() && e[i].0 != k {
        lemma_entry_index_from(e, k, i + 1);
    }
}

pub proof fn lemma_entry_index(e: Seq<(Seq<char>, JVal)>, k: Seq<char>)
    ensures
        -1 <= entry_index(e, k) < e.len(),
        entry_index(e, k) >= 0 ==> e[entry_index(e, k)].0 == k,
        entry_index(e, k) >= 0 ==> forall|j: int|
            0 <= j < entry_index(e, k) ==> e[j].0 != k,
        entry_index(e, k) == -1 ==> forall|j: int| 0 <= j < e.len() ==> e[j].0 != k,
{
    lemma_entry_index_from(e, k, 0);
}

/// The member `k` of an object value; `None` for other values.
pub open spec fn member(v: JVal, k: Seq<char>) -> Option<JVal> {
    match v {
        JVal::Obj(e) => entry_get(e, k),
        _ => None,
    }
}

/// The entries `e` with `(k, x)` stored: replaced in place when `k` is
/// present, appended otherwise.
pub open spec fn entries_insert(e: Seq<(Seq<char>, JVal)>, k: Seq<char>, x: JVal) -> Seq<
    (Seq<char>, JVal),
> {
    let i = entry_index(e, k);
    if i >= 0 {
        e.update(i, (k, x))
    } else {
        e.push((k, x))
    }
}

impl JsonValue {
    pub fn null() -> (v: JsonValue)
        ensures
            v@ == JVal::Null,
    {
        JsonValue::Null
    }

    pub fn from_bool(b: bool) -> (v: JsonValue)
        ensures
            v@ == JVal::Bool(b),
    {
        JsonValue::Bool(b)
    }

    pub fn from_i64(i: i64) -> (v: JsonValue)
        ensures
            v@ == JVal::Num(JsonNumber { mantissa: i, scale: 0, is_float: false }),
    {
        JsonValue::Number(JsonNumber::from_int(i))
    }

    pub fn from_str(s: &str) -> (v: JsonValue)
        ensures
            v@ == JVal::Str(s@),
    {
        JsonValue::String(s.to_owned())
    }

    pub fn new_object() -> (v: JsonValue)
        ensures
            v@ == JVal::Obj(Seq::empty()),
    {
        proof {
            lemma_jents(Seq::<(String, JsonValue)>::empty());
        }
        JsonValue::Object(Vec::new())
    }

    pub fn new_array() -> (v: JsonValue)
        ensures
            v@ == JVal::Arr(Seq::empty()),
    {
        proof {
            lemma_jvs(Seq::<JsonValue>::empty());
        }
        JsonValue::Array(Vec::new())
    }

    pub fn is_null(&self) -> (b: bool)
        ensures
            b == (self@ is Null),
    {
        match self {
            JsonValue::Null => true,
            _ => false,
        }
    }

    pub fn is_object(&self) -> (b: bool)
        ensures
            b == (self@ is Obj),
    {
        match self {
            JsonValue::Object(_) => true,
            _ => false,
        }
    }

    pub fn is_array(&self) -> (b: bool)
        ensures
            b == (self@ is Arr),
    {
        match self {
            JsonValue::Array(_) => true,
            _ => false,
        }
    }

    pub fn is_string(&self) -> (b: bool)
        ensures
            b == (self@ is Str),
    {
        match self {
            JsonValue::String(_) => true,
            _ => false,
        }
    }

    pub fn is_number(&self) -> (b: bool)
        ensures
            b == (self@ is Num),
    {
        match self {
            JsonValue::Number(_) => true,
            _ => false,
        }
    }

    pub fn is_boolean(&self) -> (b: bool)
        ensures
            b == (self@ is Bool),
    {
        match self {
            JsonValue::Bool(_) => true,
            _ => false,
        }
    }

    pub fn as_str(&self) -> (r: Option<&String>)
        ensures
            match self@ {
                JVal::Str(s) => r is Some && r.unwrap()@ == s,
                _ => r is None,
            },
    {
        match self {
            JsonValue::String(s) => Some(s),
            _ => None,
        }
    }

    pub fn as_bool(&self) -> (r: Option<bool>)
        ensures
            match self@ {
                JVal::Bool(b) => r == Some(b),
                _ => r is None,
            },
    {
        match self {
            JsonValue::Bool(b) => Some(*b),
            _ => None,
        }
    }

    pub fn as_number(&self) -> (r: Option<JsonNumber>)
        ensures
            match self@ {
                JVal::Num(n) => r == Some(n),
                _ => r is None,
            },
    {
        match self {
            JsonValue::Number(n) => Some(*n),
            _ => None,
        }
    }

    pub fn as_array(&self) -> (r: Option<&Vec<JsonValue>>)
        ensures
            match self@ {
                JVal::Arr(a) => r is Some && jvs(r.unwrap()@) == a,
                _ => r is None,
            },
    {
        match self {
            JsonValue::Array(a) => Some(a),
            _ => None,
        }
    }

    pub fn as_object(&self) -> (r: Option<&Vec<(String, JsonValue)>>)
        ensures
            match self@ {
                JVal::Obj(e) => r is Some && jents(r.unwrap()@) == e,
                _ => r is None,
            },
    {
        match self {
            JsonValue::Object(o) => Some(o),
            _ => None,
        }
    }

    /// The member `key` of an object; `None` for a missing key or a value
    /// that is not an object.
    pub fn get(&self, key: &str) -> (r: Option<&JsonValue>)
        ensures
            match member(self@, key@) {
                Some(x) => r is Some && r.unwrap()@ == x,
                None => r is None,
            },
    {
        match self {
            JsonValue::Object(o) => {
                let i = find_key(o, key);
                proof {
                    lemma_jents(o@);
                }
                if i < o.len() {
                    Some(&o[i].1)
                } else {
                    None
                }
            },
            _ => None,
        }
    }

    /// Whether the object holds the member `key`.
    pub fn contains_key(&self, key: &str) -> (b: bool)
        ensures
            b == (member(self@, key@) is Some),
    {
        self.get(key).is_some()
    }

    /// Stores `value` under `key` when `self` is an object; other values are
    /// left unchanged. Returns whether the value is an object.
    pub fn insert(&mut self, key: &str, value: JsonValue) -> (b: bool)
        ensures
            b == (old(self)@ is Obj),
            match old(self)@ {
                JVal::Obj(e) => final(self)@ == JVal::Obj(entries_insert(e, key@, value@)),
                _ => final(self)@ == old(self)@,
            },
    {
        match self {
            JsonValue::Object(o) => {
                object_insert(o, key, value);
                true
            },
            _ => false,
        }
    }

    /// Removes the member `key` when `self` is an object, giving its value
    /// back; other values are left unchanged.
    pub fn remove(&mut self, key: &str) -> (r: Option<JsonValue>)
        ensures
            match old(self)@ {
                JVal::Obj(e) => final(self)@ == JVal::Obj(entries_remove(e, key@)) && match entry_get(
                    e,
                    key@,
                ) {
                    Some(x) => r matches Some(y) && y@ == x,
                    None => r is None,
                },
                _ => final(self)@ == old(self)@ && r is None,
            },
    {
        match self {
            JsonValue::Object(o) => object_remove(o, key),
            _ => None,
        }
    }

    /// A copy of the value.
    pub fn deep_clone(&self) -> (r: JsonValue)
        ensures
            r@ == self@,
        decreases self,
    {
        match self {
            JsonValue::Null => JsonValue::Null,
            JsonValue::Bool(b) => JsonValue::Bool(*b),
            JsonValue::Number(n) => JsonValue::Number(*n),
            JsonValue::String(s) => JsonValue::String(s.clone()),
            JsonValue::Array(a) => {
                let mut out: Vec<JsonValue> = Vec::new();
                let mut i: usize = 0;
                proof {
                    lemma_jvs(a@);
                }
                while i < a.len()
                    invariant
                        *self == JsonValue::Array(*a),
                        i <= a.len(),
                        out@.len() == i,
                        forall|j: int| 0 <= j < i ==> (#[trigger] out@[j])@ == a@[j]@,
                    decreases a.len() - i,
                {
                    proof {
                        vstd::std_specs::vec::axiom_vec_decreases_to_view(*a);
                        vstd::seq::axiom_seq_index_decreases(a@, i as int);
                        assert(decreases_to!(*self => self->Array_0));
                        assert(decreases_to!(*a => a@));
                        assert(decreases_to!(a@ => a@[i as int]));
                        assert(decreases_to!(*self => a@[i as int]));
                    }
                    let c = a[i].deep_clone();
                    out.push(c);
                    i = i + 1;
                }
                proof {
                    lemma_jvs(out@);
                    lemma_jvs(a@);
                    assert(jvs(out@) =~= jvs(a@));
                }
                JsonValue::Array(out)
            },
            JsonValue::Object(o) => {
                let mut out: Vec<(String, JsonValue)> = Vec::new();
                let mut i: usize = 0;
                while i < o.len()
                    invariant
                        *self == JsonValue::Object(*o),
                        i <= o.len(),
                        out@.len() == i,
                        forall|j: int|
                            0 <= j < i ==> (#[trigger] out@[j]).0@ == o@[j].0@ && out@[j].1@
                                == o@[j].1@,
                    decreases o.len() - i,
                {
                    proof {
                        vstd::std_specs::vec::axiom_vec_decreases_to_view(*o);
                        vstd::seq::axiom_seq_index_decreases(o@, i as int);
                        assert(decreases_to!(*self => self->Object_0));
                        assert(decreases_to!(*o => o@));
                        assert(decreases_to!(o@ => o@[i as int]));
                        assert(decreases_to!(o@[i as int] => o@[i as int].1));
                        assert(decreases_to!(*self => o@[i as int].1));
                    }
                    let k = o[i].0.clone();
                    let c = o[i].1.deep_clone();
                    out.push((k, c));
                    i = i + 1;
                }
                proof {
                    lemma_jents(out@);
                    lemma_jents(o@);
                    assert(jents(out@) =~= jents(o@));
                }
                JsonValue::Object(out)
            },
        }
    }
}

impl Clone for JsonValue {
    fn clone(&self) -> (r: JsonValue)
        ensures
            r@ == self@,
    {
        self.deep_clone()
    }
}

/// Position of the first entry with key `key`, or `o.len()`.
pub fn find_key(o: &Vec<(String, JsonValue)>, key: &str) -> (i: usize)
    ensures
        i <= o@.len(),
        i < o@.len() ==> i as int == entry_index(jents(o@), key@),
        i == o@.len() ==> entry_index(jents(o@), key@) == -1,
{
    let mut i: usize = 0;
    proof {
        lemma_jents(o@);
        lemma_entry_index(jents(o@), key@);
    }
    while i < o.len()
        invariant
            i <= o@.len(),
            jents(o@).len() == o@.len(),
            forall|j: int| 0 <= j < i ==> o@[j].0@ != key@,
        decreases o.len() - i,
    {
        if crate::text::str_equal(o[i].0.as_str(), key) {
            proof {
                lemma_jents(o@);
                lemma_entry_index(jents(o@), key@);
                let k = entry_index(jents(o@), key@);
                assert(jents(o@)[i as int].0 == key@);
                if k != i {
                    if k == -1 {
                    } else if k < i {
                        assert(jents(o@)[k].0 == o@[k].0@);
                    } else {
                    }
                }
            }
            return i;
        }
        i = i + 1;
    }
    proof {
        lemma_jents(o@);
        lemma_entry_index(jents(o@), key@);
        if entry_index(jents(o@), key@) != -1 {
            let k = entry_index(jents(o@), key@);
            assert(jents(o@)[k].0 == key@);
        }
    }
    i
}

/// Stores `value` under `key` in the entries `o`.
pub fn object_insert(o: &mut Vec<(String, JsonValue)>, key: &str, value: JsonValue)
    ensures
        jents(final(o)@) == entries_insert(jents(old(o)@), key@, value@),
{
    let i = find_key(o, key);
    proof {
        lemma_jents(o@);
    }
    if i < o.len() {
        let ghost old_o = o@;
        o.set(i, (key.to_owned(), value));
        proof {
            lemma_jents(o@);
            assert(jents(o@) =~= jents(old_o).update(i as int, (key@, value@)));
        }
    } else {
        let ghost old_o = o@;
        o.push((key.to_owned(), value));
        proof {
            lemma_jents(o@);
            assert(jents(o@) =~= jents(old_o).push((key@, value@)));
        }
    }
}

/// The entries without the first entry of key `k`.
pub open spec fn entries_remove(e: Seq<(Seq<char>, JVal)>, k: Seq<char>) -> Seq<(Seq<char>, JVal)> {
    let i = entry_index(e, k);
    if i >= 0 {
        e.remove(i)
    } else {
        e
    }
}

/// Removes the first entry of key `key`, giving its value back.
pub fn object_remove(o: &mut Vec<(String, JsonValue)>, key: &str) -> (r: Option<JsonValue>)
    ensures
        jents(final(o)@) == entries_remove(jents(old(o)@), key@),
        match entry_get(jents(old(o)@), key@) {
            Some(x) => r matches Some(y) && y@ == x,
            None => r is None,
        },
{
    let i = find_key(o, key);
    proof {
        lemma_jents(o@);
        lemma_entry_index(jents(o@), key@);
    }
    if i < o.len() {
        let ghost before = o@;
        let (_, v) = o.remove(i);
        proof {
            lemma_jents(o@);
            lemma_jents(before);
            assert(jents(o@) =~= jents(before).remove(i as int));
        }
        Some(v)
    } else {
        None
    }
}

/// After `(k, x)` is stored, looking `k` up gives `x`.
pub proof fn law_entries_insert_get(e: Seq<(Seq<char>, JVal)>, k: Seq<char>, x: JVal)
    ensures
        entry_get(entries_insert(e, k, x), k) == Some(x),
{
    lemma_entry_index(e, k);
    let i = entry_index(e, k);
    let e2 = entries_insert(e, k, x);
    lemma_entry_index(e2, k);
    if i >= 0 {
        assert(e2[i].0 == k);
        let i2 = entry_index(e2, k);
        if i2 != i {
            if i2 >= 0 && i2 < i {
                assert(e2[i2] == e[i2]);
            }
        }
    } else {
        assert(e2[e.len() as int].0 == k);
        let i2 = entry_index(e2, k);
        if i2 >= 0 && i2 < e.len() {
            assert(e2[i2] == e[i2]);
        }
    }
}

/// Storing under one key leaves the lookup of every other key unchanged.
pub proof fn law_entries_insert_other(e: Seq<(Seq<char>, JVal)>, k: Seq<char>, x: JVal, o: Seq<char>)
    requires
        o != k,
    ensures
        entry_get(entries_insert(e, k, x), o) == entry_get(e, o),
{
    lemma_entry_index(e, k);
    lemma_entry_index(e, o);
    let e2 = entries_insert(e, k, x);
    lemma_entry_index(e2, o);
    let i = entry_index(e, o);
    let i2 = entry_index(e2, o);
    if i >= 0 {
        assert(e2[i].0 == o);
        if i2 >= 0 && i2 < i {
            assert(e2[i2].0 == e[i2].0 || e2[i2].0 == k);
        }
    }
    if i2 >= 0 {
        assert(e2[i2].0 == o);
        assert(i2 < e.len());
        assert(e[i2] == e2[i2]);
    }
}

} // verus!

verus! {

/// A member of an object is smaller than the object.
pub proof fn lemma_member_decreases(v: JVal, k: Seq<char>)
    ensures
        member(v, k) matches Some(x) ==> decreases_to!(v => x),
{
    match v {
        JVal::Obj(e) => {
            lemma_entry_index(e, k);
            let i = entry_index(e, k);
            if i >= 0 {
                vstd::seq::axiom_seq_index_decreases(e, i);
                assert(decreases_to!(v => e));
                assert(decreases_to!(e => e[i]));
                assert(decreases_to!(e[i] => e[i].1));
            }
        },
        _ => {},
    }
}

/// The member `key` of an object, as a reference into it.
pub fn member_ref<'a>(v: &'a JsonValue, key: &str) -> (r: Option<&'a JsonValue>)
    ensures
        match member(v@, key@) {
            Some(x) => r matches Some(y) && y@ == x,
            None => r is None,
        },
        r matches Some(y) ==> decreases_to!(*v => *y),
{
    match v {
        JsonValue::Object(o) => {
            let i = find_key(o, key);
            proof {
                lemma_jents(o@);
            }
            if i < o.len() {
                proof {
                    vstd::std_specs::vec::axiom_vec_decreases_to_view(*o);
                    vstd::seq::axiom_seq_index_decreases(o@, i as int);
                    assert(decreases_to!(*v => v->Object_0));
                    assert(decreases_to!(*o => o@));
                    assert(decreases_to!(o@ => o@[i as int]));
                    assert(decreases_to!(o@[i as int] => o@[i as int].1));
                }
                Some(&o[i].1)
            } else {
                None
            }
        },
        _ => None,
    }
}

} // verus!
