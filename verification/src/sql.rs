//! SQL access to the database: a `SELECT` becomes a query, an
//! `INSERT ... VALUES` a list of insertions, each insertion a document built
//! from the columns and the literal values of one row.
use vstd::prelude::*;
use crate::error::{ErrorCode, RaiseError};
use crate::json::{
    JVal, JsonNumber, JsonValue, entries_insert, jents, lemma_jents, object_insert, pow10, pow10_exec, lemma_pow10_18, lemma_pow10_pos,
    lemma_pow10_mono,
};
use crate::text::{
    all_digits, digit_value, digits_value, is_digit, is_white, is_whitespace, lead_white,
    lemma_digits_value_grows, lemma_lead_white, slice_chars, to_chars, from_chars,
    to_uppercase, uppercase_spec,
};
use crate::collections::{find_chars, find_spec};
use crate::json_text::push_all;
use crate::query_exec::{ProjV, proj_view, sort_view};
use crate::query_eval::{
    compare_json, condition_holds, field_value, filter_holds, lemma_compare_json_sign, strip_quotes_spec,
    values_equal,
};
use crate::parser::strings_view;
use crate::query::{
    ComparisonOperator, CondV, Condition, FilterOperator, Projection, Query, QueryFilter,
    SortField, SortOrder, conds_view,
};
use crate::sql_ast::{
    SqlBinaryOp, SqlExpr, SqlInsert, SqlLiteral, SqlOrderItem, SqlQuery, SqlSelect,
    SqlSelectItem, SqlSetExpr, SqlStatement, SqlTable, parse_statements, sql_parse_tree,
};

verus! {

/// The result of a computation that gives a JSON value, by its value and
/// the code of its error.
pub open spec fn json_outcome(r: Result<JsonValue, RaiseError>) -> Result<JVal, ErrorCode> {
    match r {
        Ok(v) => Ok(v@),
        Err(e) => Err(e.code),
    }
}

/// The value of the digits `ds` where it is at most `cap`, else `None`.
fn digits_upto(ds: &[char], cap: u128) -> (r: Option<u128>)
    requires
        all_digits(ds@),
    ensures
        match r {
            Some(v) => v == digits_value(ds@) && v <= cap,
            None => digits_value(ds@) > cap,
        },
{
    let mut v: u128 = 0;
    let mut k: usize = 0;
    while k < ds.len()
        invariant
            k <= ds@.len(),
            all_digits(ds@),
            v == digits_value(ds@.subrange(0, k as int)),
            v <= cap,
        decreases ds.len() - k,
    {
        let c = ds[k];
        assert(is_digit(ds@[k as int]));
        let d: u128 = (c as u32 - 48u32) as u128;
        let ghost t = ds@.subrange(0, k + 1);
        proof {
            assert(t.drop_last() =~= ds@.subrange(0, k as int));
            assert(t.last() == c);
            assert(digit_value(c) == d);
            assert(digits_value(t) == v * 10 + d);
        }
        if d > cap || v > (cap - d) / 10 {
            proof {
                assert(v * 10 + d > cap) by (nonlinear_arith)
                    requires
                        d > cap || v > (cap - d) / 10,
                        d <= 9,
                ;
                lemma_digits_value_grows(ds@, k + 1);
            }
            return None;
        }
        proof {
            assert(v * 10 + d <= cap) by (nonlinear_arith)
                requires
                    d <= cap,
                    v <= (cap - d) / 10,
            ;
        }
        v = v * 10 + d;
        k = k + 1;
    }
    assert(ds@.subrange(0, ds@.len() as int) =~= ds@);
    Some(v)
}

/// Whether every character of `s` is a decimal digit.
fn only_digits(s: &[char]) -> (b: bool)
    ensures
        b == all_digits(s@),
{
    let mut k: usize = 0;
    while k < s.len()
        invariant
            k <= s@.len(),
            forall|i: int| 0 <= i < k ==> is_digit(#[trigger] s@[i]),
        decreases s.len() - k,
    {
        if !('0' <= s[k] && s[k] <= '9') {
            return false;
        }
        k = k + 1;
    }
    true
}

/// The length of a leading `+` or `-` (0 or 1).
pub open spec fn sign_len(s: Seq<char>) -> int {
    if s.len() > 0 && (s[0] == '+' || s[0] == '-') {
        1
    } else {
        0
    }
}

/// `i64::from_str`: an optional sign, then one or more decimal digits whose
/// value is in range.
pub open spec fn int_text(s: Seq<char>) -> Option<i64> {
    let d = s.subrange(sign_len(s), s.len() as int);
    let v = if s.len() > 0 && s[0] == '-' {
        -digits_value(d)
    } else {
        digits_value(d)
    };
    if d.len() > 0 && all_digits(d) && i64::MIN <= v <= i64::MAX {
        Some(v as i64)
    } else {
        None
    }
}

/// `i64::from_str` on characters.
pub fn parse_i64_text(s: &[char]) -> (r: Option<i64>)
    ensures
        r == int_text(s@),
{
    let neg = s.len() > 0 && s[0] == '-';
    let p: usize = if s.len() > 0 && (s[0] == '+' || s[0] == '-') {
        1
    } else {
        0
    };
    let d = slice_chars(s, p, s.len());
    if d.len() == 0 || !only_digits(d.as_slice()) {
        return None;
    }
    let cap: u128 = if neg {
        9223372036854775808u128
    } else {
        9223372036854775807u128
    };
    match digits_upto(d.as_slice(), cap) {
        None => None,
        Some(v) => {
            if neg {
                Some((0i128 - v as i128) as i64)
            } else {
                Some(v as i64)
            }
        },
    }
}

/// The end of the run of decimal digits of `s` that starts at `i`.
pub open spec fn digits_end(s: Seq<char>, i: int) -> int
    decreases s.len() - i,
{
    if 0 <= i < s.len() && is_digit(s[i]) {
        digits_end(s, i + 1)
    } else {
        i
    }
}

proof fn lemma_digits_end(s: Seq<char>, i: int)
    requires
        0 <= i <= s.len(),
    ensures
        i <= digits_end(s, i) <= s.len(),
        forall|k: int| i <= k < digits_end(s, i) ==> is_digit(#[trigger] s[k]),
        digits_end(s, i) < s.len() ==> !is_digit(s[digits_end(s, i)]),
    decreases s.len() - i,
{
    if i < s.len() && is_digit(s[i]) {
        lemma_digits_end(s, i + 1);
    }
}

/// The end of the run of decimal digits of `s` that starts at `i`.
fn scan_digits(s: &[char], i: usize) -> (e: usize)
    requires
        i <= s@.len(),
    ensures
        e as int == digits_end(s@, i as int),
        i <= e <= s@.len(),
        forall|k: int| i <= k < e ==> is_digit(#[trigger] s@[k]),
{
    proof {
        lemma_digits_end(s@, i as int);
    }
    let mut e = i;
    while e < s.len() && '0' <= s[e] && s[e] <= '9'
        invariant
            i <= e <= s@.len(),
            digits_end(s@, e as int) == digits_end(s@, i as int),
            forall|k: int| i <= k < e ==> is_digit(#[trigger] s@[k]),
        decreases s.len() - e,
    {
        e = e + 1;
    }
    e
}

/// Whether `s` spells the lowercase word `w`, letters in either case.
pub open spec fn word_matches(s: Seq<char>, w: Seq<char>) -> bool {
    s.len() == w.len() && forall|i: int|
        0 <= i < s.len() ==> (s[i] == w[i] || (s[i] as u32) as int + 32 == #[trigger] (w[i] as u32) as int)
}

/// `inf`, `infinity` or `nan`, in any case: the texts that `f64::from_str`
/// reads as a value that is not finite.
pub open spec fn is_special(s: Seq<char>) -> bool {
    word_matches(s, seq!['i', 'n', 'f']) || word_matches(
        s,
        seq!['i', 'n', 'f', 'i', 'n', 'i', 't', 'y'],
    ) || word_matches(s, seq!['n', 'a', 'n'])
}

fn word_at(s: &[char], from: usize, w: &Vec<char>) -> (b: bool)
    requires
        from <= s@.len(),
        forall|i: int| 0 <= i < w@.len() ==> 'a' <= #[trigger] w@[i] <= 'z',
    ensures
        b == word_matches(s@.subrange(from as int, s@.len() as int), w@),
{
    let ghost t = s@.subrange(from as int, s@.len() as int);
    let n = s.len();
    if n - from != w.len() {
        return false;
    }
    let mut k: usize = 0;
    while k < w.len()
        invariant
            from <= s@.len(),
            s@.len() - from == w@.len(),
            from + w@.len() == s@.len(),
            s@.len() <= usize::MAX,
            t == s@.subrange(from as int, s@.len() as int),
            k <= w@.len(),
            forall|i: int| 0 <= i < w@.len() ==> 'a' <= #[trigger] w@[i] <= 'z',
            forall|i: int|
                0 <= i < k ==> (t[i] == w@[i] || (t[i] as u32) as int + 32 == #[trigger] (w@[i] as u32) as int),
        decreases w.len() - k,
    {
        assert(from + k < s@.len());
        let c = s[from + k];
        assert(t[k as int] == c);
        let l = w[k];
        let cu: u32 = c as u32;
        let lu: u32 = l as u32;
        if !(c == l || cu as u64 + 32 == lu as u64) {
            return false;
        }
        k = k + 1;
    }
    true
}

/// How `f64::from_str` reads a text: a finite decimal (its sign, its digits
/// before and after the point, the number of digits after the point, and
/// the exponent), a value that is not finite, or no number.
pub enum FloatForm {
    Finite { neg: bool, digits: Seq<char>, frac: nat, exp: int },
    NonFinite,
    Invalid,
}

/// The grammar of `f64::from_str`: an optional sign, then `inf`,
/// `infinity` or `nan` in any case, or digits with at most one point and at
/// least one digit, then optionally `e` or `E`, an optional sign and one or
/// more digits.
pub open spec fn float_form(s: Seq<char>) -> FloatForm {
    let p = sign_len(s);
    let neg = s.len() > 0 && s[0] == '-';
    let i = digits_end(s, p);
    let fs = if i < s.len() && s[i] == '.' {
        i + 1
    } else {
        i
    };
    let fe = digits_end(s, fs);
    let digits = s.subrange(p, i) + s.subrange(fs, fe);
    if is_special(s.subrange(p, s.len() as int)) {
        FloatForm::NonFinite
    } else if digits.len() == 0 {
        FloatForm::Invalid
    } else if fe == s.len() {
        FloatForm::Finite { neg, digits, frac: (fe - fs) as nat, exp: 0 }
    } else if s[fe] == 'e' || s[fe] == 'E' {
        let q = fe + 1;
        let es = q + sign_len(s.subrange(q, s.len() as int));
        let ee = digits_end(s, es);
        if ee == s.len() && ee > es {
            let ev = digits_value(s.subrange(es, ee));
            FloatForm::Finite {
                neg,
                digits,
                frac: (fe - fs) as nat,
                exp: if q < s.len() && s[q] == '-' {
                    -ev
                } else {
                    ev
                },
            }
        } else {
            FloatForm::Invalid
        }
    } else {
        FloatForm::Invalid
    }
}

/// The digits `m` with `s` of them after the point, without the zero digits
/// that end the fraction.
pub open spec fn trimmed(m: int, s: nat) -> (int, nat)
    decreases s,
{
    if s > 0 && m % 10 == 0 {
        trimmed(m / 10, (s - 1) as nat)
    } else {
        (m, s)
    }
}

/// The decimal `±d * 10^(exp - frac)` as a fractional JSON number, where
/// one holds it exactly (zero whatever the exponent), its fraction without
/// trailing zero digits, as `f64` prints it.
pub open spec fn decimal_number(neg: bool, d: int, frac: int, exp: int) -> Option<JsonNumber> {
    if d == 0 {
        Some(JsonNumber { mantissa: 0, scale: 0, is_float: true })
    } else if exp - frac >= 0 {
        let m = d * pow10((exp - frac) as nat);
        if m <= i64::MAX {
            Some(
                JsonNumber {
                    mantissa: (if neg {
                        -m
                    } else {
                        m
                    }) as i64,
                    scale: 0,
                    is_float: true,
                },
            )
        } else {
            None
        }
    } else if frac - exp <= 18 && d <= i64::MAX {
        let t = trimmed(d, (frac - exp) as nat);
        Some(
            JsonNumber {
                mantissa: (if neg {
                    -t.0
                } else {
                    t.0
                }) as i64,
                scale: t.1 as u32,
                is_float: true,
            },
        )
    } else {
        None
    }
}

/// The JSON value of a numeric literal: `i64::from_str` first, an integer;
/// else `f64::from_str`, a fractional number, or null where the value is not
/// finite. A text that is no number, and a decimal that a `JsonNumber`
/// cannot hold exactly, are refused.
pub open spec fn number_literal_spec(t: Seq<char>) -> Result<JVal, ErrorCode> {
    match int_text(t) {
        Some(i) => Ok(JVal::Num(JsonNumber { mantissa: i, scale: 0, is_float: false })),
        None => match float_form(t) {
            FloatForm::Invalid => Err(ErrorCode::NumericParseFail),
            FloatForm::NonFinite => Ok(JVal::Null),
            FloatForm::Finite { neg, digits, frac, exp } => match decimal_number(
                neg,
                digits_value(digits),
                frac as int,
                exp,
            ) {
                Some(n) => Ok(JVal::Num(n)),
                None => Err(ErrorCode::NumericParseFail),
            },
        },
    }
}

proof fn lemma_big_mantissa(d: int, shift: nat)
    requires
        d >= 1,
        shift >= 19,
    ensures
        d * pow10(shift) > i64::MAX,
{
    lemma_pow10_18();
    lemma_pow10_mono(19, shift);
    assert(pow10(19) == 10 * pow10(18));
    assert(d * pow10(shift) >= pow10(shift)) by (nonlinear_arith)
        requires
            d >= 1,
            pow10(shift) >= 0,
    ;
}

/// The reading of `s` by `float_form`: a code (0: no number, 1: not
/// finite, 2: finite), the sign, the digits, the number of digits after the
/// point, the exponent's sign and its magnitude (`None`: beyond `u128`).
#[verifier::rlimit(40)]
fn scan_float(s: &[char]) -> (r: (u8, bool, Vec<char>, usize, bool, Option<u128>))
    ensures
        r.0 <= 2,
        (r.0 == 0) == (float_form(s@) is Invalid),
        (r.0 == 1) == (float_form(s@) is NonFinite),
        r.0 == 2 ==> all_digits(r.2@),
        r.0 == 2 ==> (float_form(s@) matches FloatForm::Finite { neg, digits, frac, exp } && neg
            == r.1 && digits == r.2@ && frac == r.3 && (r.5 matches Some(e) ==> exp == (if r.4 {
            -(e as int)
        } else {
            e as int
        })) && (r.5 is None ==> (if r.4 {
            -exp
        } else {
            exp
        }) > u128::MAX)),
{
    let ghost t = s@;
    let n = s.len();
    let neg = n > 0 && s[0] == '-';
    let p: usize = if n > 0 && (s[0] == '+' || s[0] == '-') {
        1
    } else {
        0
    };
    assert(p == sign_len(t));
    let inf = vec!['i', 'n', 'f'];
    let infinity = vec!['i', 'n', 'f', 'i', 'n', 'i', 't', 'y'];
    let nan = vec!['n', 'a', 'n'];
    assert(inf@ =~= seq!['i', 'n', 'f']);
    assert(infinity@ =~= seq!['i', 'n', 'f', 'i', 'n', 'i', 't', 'y']);
    assert(nan@ =~= seq!['n', 'a', 'n']);
    if word_at(s, p, &inf) || word_at(s, p, &infinity) || word_at(s, p, &nan) {
        return (1, false, Vec::new(), 0, false, None);
    }
    let i = scan_digits(s, p);
    let fs = if i < n && s[i] == '.' {
        i + 1
    } else {
        i
    };
    let fe = scan_digits(s, fs);
    if i == p && fe == fs {
        return (0, false, Vec::new(), 0, false, None);
    }
    let mut digits = slice_chars(s, p, i);
    let mut fraction = slice_chars(s, fs, fe);
    digits.append(&mut fraction);
    let ghost dg = t.subrange(p as int, i as int) + t.subrange(fs as int, fe as int);
    assert(digits@ =~= dg);
    assert(all_digits(dg)) by {
        assert forall|k: int| 0 <= k < dg.len() implies is_digit(#[trigger] dg[k]) by {
            if k < i - p {
                assert(dg[k] == t[p + k]);
            } else {
                assert(dg[k] == t[fs + k - (i - p)]);
            }
        }
    }
    if fe == n {
        return (2, neg, digits, fe - fs, false, Some(0));
    }
    if !(s[fe] == 'e' || s[fe] == 'E') {
        return (0, false, Vec::new(), 0, false, None);
    }
    let q = fe + 1;
    let es = if q < n && (s[q] == '+' || s[q] == '-') {
        q + 1
    } else {
        q
    };
    assert(es == q + sign_len(t.subrange(q as int, t.len() as int)));
    let exp_neg = q < n && s[q] == '-';
    let ee = scan_digits(s, es);
    if !(ee == n && ee > es) {
        return (0, false, Vec::new(), 0, false, None);
    }
    let ed = slice_chars(s, es, ee);
    assert(all_digits(ed@)) by {
        assert forall|k: int| 0 <= k < ed@.len() implies is_digit(#[trigger] ed@[k]) by {
            assert(ed@[k] == t[es + k]);
        }
    }
    let exp_mag = digits_upto(ed.as_slice(), u128::MAX);
    (2, neg, digits, fe - fs, exp_neg, exp_mag)
}

/// The digits `d` with `sc` of them after the point, without the zero
/// digits that end the fraction (see `trimmed`).
fn trim_fraction(d: u128, sc: u128) -> (r: (u128, u128))
    ensures
        (r.0 as int, r.1 as nat) == trimmed(d as int, sc as nat),
        r.0 <= d,
        r.1 <= sc,
{
    let mut m = d;
    let mut k = sc;
    while k > 0 && m % 10 == 0
        invariant
            k <= sc,
            m <= d,
            trimmed(m as int, k as nat) == trimmed(d as int, sc as nat),
        decreases k,
    {
        m = m / 10;
        k = k - 1;
    }
    (m, k)
}

/// `decimal_number` of the digits `digits`, the exponent given by its sign
/// and its magnitude (`None`: beyond `u128`).
fn decimal_exec(
    neg: bool,
    digits: &[char],
    frac: usize,
    exp_neg: bool,
    exp_mag: Option<u128>,
    Ghost(exp): Ghost<int>,
) -> (r: Option<JsonNumber>)
    requires
        all_digits(digits@),
        exp_mag matches Some(e) ==> exp == (if exp_neg {
            -(e as int)
        } else {
            e as int
        }),
        exp_mag is None ==> (if exp_neg {
            -exp
        } else {
            exp
        }) > u128::MAX,
    ensures
        r == decimal_number(neg, digits_value(digits@), frac as int, exp),
{
    let ghost dv = digits_value(digits@);
    let d = match digits_upto(digits, 9223372036854775807u128) {
        Some(d) => d,
        None => {
            proof {
                if exp - frac >= 0 {
                    lemma_pow10_pos((exp - frac) as nat);
                    assert(dv * pow10((exp - frac) as nat) >= dv) by (nonlinear_arith)
                        requires
                            dv >= 0,
                            pow10((exp - frac) as nat) >= 1,
                    ;
                }
            }
            return None;
        },
    };
    if d == 0 {
        return Some(JsonNumber { mantissa: 0, scale: 0, is_float: true });
    }
    let ev = match exp_mag {
        Some(e) => e,
        None => {
            proof {
                if !exp_neg {
                    lemma_big_mantissa(d as int, (exp - frac) as nat);
                }
            }
            return None;
        },
    };
    let fr = frac as u128;
    if !exp_neg && ev >= fr {
        let shift = ev - fr;
        if shift > 18 {
            proof {
                lemma_big_mantissa(d as int, shift as nat);
            }
            return None;
        }
        let p10 = pow10_exec(shift as u32);
        proof {
            lemma_pow10_18();
            lemma_pow10_mono(shift as nat, 18);
            assert(d * p10 <= 9223372036854775807u128 * 1000000000000000000u128) by (
            nonlinear_arith)
                requires
                    d <= 9223372036854775807u128,
                    p10 <= 1000000000000000000u128,
            ;
        }
        let m: u128 = d * (p10 as u128);
        assert(exp - frac == shift);
        assert(m == dv * pow10((exp - frac) as nat));
        if m > 9223372036854775807u128 {
            return None;
        }
        let mi = m as i64;
        assert(mi == m);
        Some(JsonNumber {
            mantissa: if neg {
                -mi
            } else {
                mi
            },
            scale: 0,
            is_float: true,
        })
    } else {
        if exp_neg && ev > 18 {
            return None;
        }
        let sc: u128 = if exp_neg {
            ev + fr
        } else {
            fr - ev
        };
        if sc > 18 {
            return None;
        }
        assert(sc == frac - exp);
        assert(exp - frac < 0 || (exp - frac == 0 && sc == 0));
        let (m, k) = trim_fraction(d, sc);
        proof {
            if exp - frac == 0 {
                assert(trimmed(d as int, 0) == (d as int, 0nat));
                assert(pow10(0) == 1);
                assert(dv * pow10(0) == dv * 1);
            }
        }
        let mi = m as i64;
        Some(JsonNumber {
            mantissa: if neg {
                -mi
            } else {
                mi
            },
            scale: k as u32,
            is_float: true,
        })
    }
}

/// The JSON value of a numeric literal (see `number_literal_spec`).
pub fn number_literal(text: &str) -> (r: Result<JsonValue, RaiseError>)
    ensures
        json_outcome(r) == number_literal_spec(text@),
{
    let s = to_chars(text);
    if let Some(i) = parse_i64_text(s.as_slice()) {
        return Ok(JsonValue::Number(JsonNumber::from_int(i)));
    }
    let (code, neg, digits, frac, exp_neg, exp_mag) = scan_float(s.as_slice());
    if code == 0 {
        return Err(RaiseError::new(ErrorCode::NumericParseFail, text));
    }
    if code == 1 {
        return Ok(JsonValue::Null);
    }
    let ghost exp = match float_form(s@) {
        FloatForm::Finite { exp, .. } => exp,
        _ => 0,
    };
    match decimal_exec(neg, digits.as_slice(), frac, exp_neg, exp_mag, Ghost(exp)) {
        Some(num) => Ok(JsonValue::Number(num)),
        None => Err(RaiseError::new(ErrorCode::NumericParseFail, text)),
    }
}

/// The JSON value of a literal: a number by `number_literal_spec`, a
/// quoted string, a boolean; null for any other literal.
pub open spec fn literal_spec(l: SqlLiteral) -> Result<JVal, ErrorCode> {
    match l {
        SqlLiteral::Number(t) => number_literal_spec(t@),
        SqlLiteral::SingleQuoted(s) => Ok(JVal::Str(s@)),
        SqlLiteral::Boolean(b) => Ok(JVal::Bool(b)),
        SqlLiteral::Other => Ok(JVal::Null),
    }
}

/// The JSON value of a literal (see `literal_spec`).
pub fn sql_value_to_json(val: &SqlLiteral) -> (r: Result<JsonValue, RaiseError>)
    ensures
        json_outcome(r) == literal_spec(*val),
{
    match val {
        SqlLiteral::Number(t) => number_literal(t.as_str()),
        SqlLiteral::SingleQuoted(s) => Ok(JsonValue::String(s.clone())),
        SqlLiteral::Boolean(b) => Ok(JsonValue::Bool(*b)),
        SqlLiteral::Other => Ok(JsonValue::Null),
    }
}

/// The number with its sign changed, as a fraction (the negation of its
/// `f64`); `None` for the one mantissa whose negation leaves `i64`.
pub open spec fn negated(n: JsonNumber) -> Option<JsonNumber> {
    if n.mantissa == i64::MIN {
        None
    } else {
        Some(JsonNumber { mantissa: (-n.mantissa) as i64, scale: n.scale, is_float: true })
    }
}

/// The value of an expression that stands for a value: a literal, or a
/// literal number under unary minus.
pub open spec fn value_spec(e: SqlExpr) -> Result<JVal, ErrorCode>
    decreases e,
{
    match e {
        SqlExpr::Literal(l) => literal_spec(l),
        SqlExpr::Negate(x) => match value_spec(*x) {
            Ok(JVal::Num(n)) => match negated(n) {
                Some(m) => Ok(JVal::Num(m)),
                None => Err(ErrorCode::NumericParseFail),
            },
            Ok(_) => Err(ErrorCode::SqlUnaryMinusTypeMismatch),
            Err(c) => Err(c),
        },
        _ => Err(ErrorCode::SqlLiteralExpected),
    }
}

/// The value of an expression (see `value_spec`).
pub fn expr_to_value(e: &SqlExpr) -> (r: Result<JsonValue, RaiseError>)
    ensures
        json_outcome(r) == value_spec(*e),
    decreases e,
{
    match e {
        SqlExpr::Literal(l) => sql_value_to_json(l),
        SqlExpr::Negate(x) => {
            let inner = expr_to_value(x);
            match inner {
                Ok(JsonValue::Number(n)) => {
                    if n.mantissa == i64::MIN {
                        Err(RaiseError::new(ErrorCode::NumericParseFail, "-"))
                    } else {
                        Ok(
                            JsonValue::Number(
                                JsonNumber { mantissa: -n.mantissa, scale: n.scale, is_float: true },
                            ),
                        )
                    }
                },
                Ok(_) => Err(RaiseError::new(ErrorCode::SqlUnaryMinusTypeMismatch, "-")),
                Err(err) => Err(err),
            }
        },
        _ => Err(RaiseError::new(ErrorCode::SqlLiteralExpected, "")),
    }
}

/// The parts joined by dots (`[].join(".")`).
pub open spec fn dotted(parts: Seq<Seq<char>>) -> Seq<char>
    decreases parts.len(),
{
    if parts.len() == 0 {
        Seq::empty()
    } else if parts.len() == 1 {
        parts[0]
    } else {
        dotted(parts.drop_last()) + seq!['.'] + parts.last()
    }
}

/// The parts joined by dots.
fn join_dotted(parts: &Vec<String>) -> (r: String)
    ensures
        r@ == dotted(strings_view(parts@)),
{
    let mut out: Vec<char> = Vec::new();
    let mut k: usize = 0;
    while k < parts.len()
        invariant
            k <= parts@.len(),
            out@ == dotted(strings_view(parts@.subrange(0, k as int))),
        decreases parts.len() - k,
    {
        let ghost before = strings_view(parts@.subrange(0, k as int));
        let ghost after = strings_view(parts@.subrange(0, k + 1));
        assert(after.drop_last() =~= before);
        assert(after.last() == parts@[k as int]@);
        if k > 0 {
            out.push('.');
        }
        let part = to_chars(parts[k].as_str());
        push_all(&part, &mut out);
        proof {
            if k == 0 {
                assert(out@ =~= after[0]);
            } else {
                assert(out@ =~= dotted(before) + seq!['.'] + after.last());
            }
        }
        k = k + 1;
    }
    assert(parts@.subrange(0, parts@.len() as int) =~= parts@);
    from_chars(out.as_slice())
}

/// The field an expression names: an identifier, or identifiers joined by
/// dots.
pub open spec fn field_spec(e: SqlExpr) -> Result<Seq<char>, ErrorCode> {
    match e {
        SqlExpr::Identifier(s) => Ok(s@),
        SqlExpr::CompoundIdentifier(v) => Ok(dotted(strings_view(v@))),
        _ => Err(ErrorCode::SqlIdentifierExpected),
    }
}

/// The result of a computation that gives a text, by its characters and
/// the code of its error.
pub open spec fn text_outcome(r: Result<String, RaiseError>) -> Result<Seq<char>, ErrorCode> {
    match r {
        Ok(s) => Ok(s@),
        Err(e) => Err(e.code),
    }
}

/// The field an expression names (see `field_spec`).
pub fn expr_to_field_name(e: &SqlExpr) -> (r: Result<String, RaiseError>)
    ensures
        text_outcome(r) == field_spec(*e),
{
    match e {
        SqlExpr::Identifier(s) => Ok(s.clone()),
        SqlExpr::CompoundIdentifier(v) => Ok(join_dotted(v)),
        _ => Err(RaiseError::new(ErrorCode::SqlIdentifierExpected, "")),
    }
}

/// A filter by its operator and the values of its conditions.
pub struct FilterV {
    pub op: FilterOperator,
    pub conds: Seq<CondV>,
}

pub open spec fn filter_view(f: QueryFilter) -> FilterV {
    FilterV { op: f.operator, conds: conds_view(f.conditions@) }
}

/// The comparison a binary operator stands for; an operator the engine
/// does not know compares for equality.
pub open spec fn comparison_of(op: SqlBinaryOp) -> ComparisonOperator {
    match op {
        SqlBinaryOp::NotEq => ComparisonOperator::Ne,
        SqlBinaryOp::Gt => ComparisonOperator::Gt,
        SqlBinaryOp::GtEq => ComparisonOperator::Gte,
        SqlBinaryOp::Lt => ComparisonOperator::Lt,
        SqlBinaryOp::LtEq => ComparisonOperator::Lte,
        _ => ComparisonOperator::Eq,
    }
}

/// One condition, alone under `And`.
pub open spec fn single(field: Seq<char>, op: ComparisonOperator, value: JVal) -> FilterV {
    FilterV { op: FilterOperator::And, conds: seq![CondV { field, op, value }] }
}

/// The filter of a `WHERE` expression: parentheses are dropped; `AND` and
/// `OR` put the conditions of both sides, left first, under the operator
/// of the outer one; a comparison or a `LIKE` of a field with a value is
/// one condition.
pub open spec fn filter_spec(e: SqlExpr) -> Result<FilterV, ErrorCode>
    decreases e,
{
    match e {
        SqlExpr::Nested(x) => filter_spec(*x),
        SqlExpr::BinaryOp { left, op, right } => {
            if op == SqlBinaryOp::And || op == SqlBinaryOp::Or {
                match filter_spec(*left) {
                    Err(c) => Err(c),
                    Ok(l) => match filter_spec(*right) {
                        Err(c) => Err(c),
                        Ok(r) => Ok(
                            FilterV {
                                op: if op == SqlBinaryOp::And {
                                    FilterOperator::And
                                } else {
                                    FilterOperator::Or
                                },
                                conds: l.conds + r.conds,
                            },
                        ),
                    },
                }
            } else {
                match field_spec(*left) {
                    Err(c) => Err(c),
                    Ok(f) => match value_spec(*right) {
                        Err(c) => Err(c),
                        Ok(v) => Ok(single(f, comparison_of(op), v)),
                    },
                }
            }
        },
        SqlExpr::Like { expr, pattern } => match field_spec(*expr) {
            Err(c) => Err(c),
            Ok(f) => match value_spec(*pattern) {
                Err(c) => Err(c),
                Ok(v) => Ok(single(f, ComparisonOperator::Like, v)),
            },
        },
        _ => Err(ErrorCode::SqlExpressionUnsupported),
    }
}

pub open spec fn filter_outcome(r: Result<QueryFilter, RaiseError>) -> Result<FilterV, ErrorCode> {
    match r {
        Ok(f) => Ok(filter_view(f)),
        Err(e) => Err(e.code),
    }
}

/// The filter of a `WHERE` expression (see `filter_spec`).
pub fn translate_expr(e: &SqlExpr) -> (r: Result<QueryFilter, RaiseError>)
    ensures
        filter_outcome(r) == filter_spec(*e),
    decreases e,
{
    match e {
        SqlExpr::Nested(x) => translate_expr(x),
        SqlExpr::BinaryOp { left, op, right } => {
            if *op == SqlBinaryOp::And || *op == SqlBinaryOp::Or {
                let l = match translate_expr(left) {
                    Ok(f) => f,
                    Err(err) => return Err(err),
                };
                let r = match translate_expr(right) {
                    Ok(f) => f,
                    Err(err) => return Err(err),
                };
                let ghost lc = l.conditions@;
                let ghost rc = r.conditions@;
                let mut conditions = l.conditions;
                let mut rest = r.conditions;
                conditions.append(&mut rest);
                assert(conds_view(conditions@) =~= conds_view(lc) + conds_view(rc));
                let operator = if *op == SqlBinaryOp::And {
                    FilterOperator::And
                } else {
                    FilterOperator::Or
                };
                Ok(QueryFilter { operator, conditions })
            } else {
                let field = match expr_to_field_name(left) {
                    Ok(f) => f,
                    Err(err) => return Err(err),
                };
                let value = match expr_to_value(right) {
                    Ok(v) => v,
                    Err(err) => return Err(err),
                };
                let condition = match op {
                    SqlBinaryOp::NotEq => Condition::ne(field.as_str(), value),
                    SqlBinaryOp::Gt => Condition::gt(field.as_str(), value),
                    SqlBinaryOp::GtEq => Condition::gte(field.as_str(), value),
                    SqlBinaryOp::Lt => Condition::lt(field.as_str(), value),
                    SqlBinaryOp::LtEq => Condition::lte(field.as_str(), value),
                    _ => Condition::eq(field.as_str(), value),
                };
                let mut conditions: Vec<Condition> = Vec::new();
                conditions.push(condition);
                assert(conds_view(conditions@) =~= seq![condition@]);
                Ok(QueryFilter { operator: FilterOperator::And, conditions })
            }
        },
        SqlExpr::Like { expr, pattern } => {
            let field = match expr_to_field_name(expr) {
                Ok(f) => f,
                Err(err) => return Err(err),
            };
            let value = match expr_to_value(pattern) {
                Ok(v) => v,
                Err(err) => return Err(err),
            };
            let condition = Condition::new(field.as_str(), ComparisonOperator::Like, value);
            let mut conditions: Vec<Condition> = Vec::new();
            conditions.push(condition);
            assert(conds_view(conditions@) =~= seq![condition@]);
            Ok(QueryFilter { operator: FilterOperator::And, conditions })
        },
        _ => Err(RaiseError::new(ErrorCode::SqlExpressionUnsupported, "")),
    }
}

/// The order an `ORDER BY` key asks for: descending only for `DESC`.
pub open spec fn order_of(asc: Option<bool>) -> SortOrder {
    if asc == Some(false) {
        SortOrder::Desc
    } else {
        SortOrder::Asc
    }
}

/// The sort keys of an `ORDER BY` list, in order; the first key that names
/// no field refuses the list.
pub open spec fn sort_spec(items: Seq<SqlOrderItem>) -> Result<Seq<(Seq<char>, SortOrder)>, ErrorCode>
    decreases items.len(),
{
    if items.len() == 0 {
        Ok(Seq::empty())
    } else {
        match sort_spec(items.drop_last()) {
            Err(c) => Err(c),
            Ok(keys) => match field_spec(items.last().expr) {
                Err(c) => Err(c),
                Ok(f) => Ok(keys.push((f, order_of(items.last().asc)))),
            },
        }
    }
}

proof fn lemma_sort_error(items: Seq<SqlOrderItem>, k: int)
    requires
        0 <= k <= items.len(),
        sort_spec(items.subrange(0, k)) is Err,
    ensures
        sort_spec(items) == sort_spec(items.subrange(0, k)),
    decreases items.len() - k,
{
    if k < items.len() {
        assert(items.subrange(0, k + 1).drop_last() =~= items.subrange(0, k));
        lemma_sort_error(items, k + 1);
    } else {
        assert(items.subrange(0, k) =~= items);
    }
}

/// One key of an `ORDER BY` list.
pub fn translate_order_by(item: &SqlOrderItem) -> (r: Result<SortField, RaiseError>)
    ensures
        match r {
            Ok(f) => field_spec(item.expr) == Ok::<Seq<char>, ErrorCode>(f.field@) && f.order
                == order_of(item.asc),
            Err(e) => field_spec(item.expr) == Err::<Seq<char>, ErrorCode>(e.code),
        },
{
    let field = match expr_to_field_name(&item.expr) {
        Ok(f) => f,
        Err(err) => return Err(err),
    };
    let order = match item.asc {
        Some(false) => SortOrder::Desc,
        _ => SortOrder::Asc,
    };
    Ok(SortField { field, order })
}

/// The sort keys of an `ORDER BY` list (see `sort_spec`).
fn translate_order_keys(items: &Vec<SqlOrderItem>) -> (r: Result<Vec<SortField>, RaiseError>)
    ensures
        match r {
            Ok(v) => sort_spec(items@) == Ok::<Seq<(Seq<char>, SortOrder)>, ErrorCode>(
                sort_view(v@),
            ),
            Err(e) => sort_spec(items@) == Err::<Seq<(Seq<char>, SortOrder)>, ErrorCode>(e.code),
        },
{
    let mut keys: Vec<SortField> = Vec::new();
    let mut k: usize = 0;
    assert(items@.subrange(0, 0) =~= Seq::<SqlOrderItem>::empty());
    assert(sort_view(keys@) =~= Seq::<(Seq<char>, SortOrder)>::empty());
    while k < items.len()
        invariant
            k <= items@.len(),
            sort_spec(items@.subrange(0, k as int)) == Ok::<
                Seq<(Seq<char>, SortOrder)>,
                ErrorCode,
            >(sort_view(keys@)),
        decreases items.len() - k,
    {
        let ghost pre = items@.subrange(0, k + 1);
        assert(pre.drop_last() =~= items@.subrange(0, k as int));
        assert(pre.last() == items@[k as int]);
        match translate_order_by(&items[k]) {
            Ok(f) => {
                let ghost before = keys@;
                keys.push(f);
                assert(sort_view(keys@) =~= sort_view(before).push((f.field@, f.order)));
            },
            Err(err) => {
                proof {
                    lemma_sort_error(items@, k + 1);
                }
                return Err(err);
            },
        }
        k = k + 1;
    }
    assert(items@.subrange(0, items@.len() as int) =~= items@);
    Ok(keys)
}

/// The field a `SELECT` item names, if it is a plain identifier or
/// identifiers joined by dots.
pub open spec fn item_field(it: SqlSelectItem) -> Option<Seq<char>> {
    match it {
        SqlSelectItem::Unnamed(SqlExpr::Identifier(s)) => Some(s@),
        SqlSelectItem::Unnamed(SqlExpr::CompoundIdentifier(v)) => Some(dotted(strings_view(v@))),
        _ => None,
    }
}

/// The fields that the items of a `SELECT` list name, in order.
pub open spec fn select_fields(items: Seq<SqlSelectItem>) -> Seq<Seq<char>>
    decreases items.len(),
{
    if items.len() == 0 {
        Seq::empty()
    } else {
        let f = select_fields(items.drop_last());
        match item_field(items.last()) {
            Some(x) => f.push(x),
            None => f,
        }
    }
}

pub open spec fn has_wildcard(items: Seq<SqlSelectItem>) -> bool {
    exists|i: int| 0 <= i < items.len() && #[trigger] items[i] is Wildcard
}

/// The projection of a `SELECT` list: the fields it names, or none where
/// it holds `*` or names no field.
pub open spec fn projection_spec(items: Seq<SqlSelectItem>) -> Option<Seq<Seq<char>>> {
    if has_wildcard(items) || select_fields(items).len() == 0 {
        None
    } else {
        Some(select_fields(items))
    }
}

/// The projection of a `SELECT` list (see `projection_spec`).
fn select_projection(items: &Vec<SqlSelectItem>) -> (r: Option<Projection>)
    ensures
        match projection_spec(items@) {
            None => r is None,
            Some(fs) => r matches Some(p) && proj_view(p) == ProjV::Include(fs),
        },
{
    let mut fields: Vec<String> = Vec::new();
    let mut wildcard = false;
    let mut k: usize = 0;
    assert(items@.subrange(0, 0) =~= Seq::<SqlSelectItem>::empty());
    while k < items.len()
        invariant
            k <= items@.len(),
            strings_view(fields@) == select_fields(items@.subrange(0, k as int)),
            wildcard == has_wildcard(items@.subrange(0, k as int)),
        decreases items.len() - k,
    {
        let ghost pre = items@.subrange(0, k + 1);
        assert(pre.drop_last() =~= items@.subrange(0, k as int));
        assert(pre.last() == items@[k as int]);
        let ghost before = fields@;
        match &items[k] {
            SqlSelectItem::Unnamed(SqlExpr::Identifier(s)) => {
                fields.push(s.clone());
            },
            SqlSelectItem::Unnamed(SqlExpr::CompoundIdentifier(v)) => {
                fields.push(join_dotted(v));
            },
            SqlSelectItem::Wildcard => {
                wildcard = true;
            },
            _ => {},
        }
        assert(strings_view(fields@) =~= select_fields(pre));
        assert(wildcard == has_wildcard(pre)) by {
            if items@[k as int] is Wildcard {
                assert(pre[k as int] is Wildcard);
            }
            if has_wildcard(items@.subrange(0, k as int)) {
                let i = choose|i: int|
                    0 <= i < k && #[trigger] items@.subrange(0, k as int)[i] is Wildcard;
                assert(pre[i] is Wildcard);
            }
            if has_wildcard(pre) {
                let i = choose|i: int| 0 <= i < k + 1 && #[trigger] pre[i] is Wildcard;
                if i < k {
                    assert(items@.subrange(0, k as int)[i] is Wildcard);
                }
            }
        }
        k = k + 1;
    }
    assert(items@.subrange(0, items@.len() as int) =~= items@);
    if wildcard || fields.len() == 0 {
        None
    } else {
        Some(Projection::Include(fields))
    }
}

/// A query by the values of its parts.
pub struct ReadV {
    pub collection: Seq<char>,
    pub filter: Option<FilterV>,
    pub sort: Option<Seq<(Seq<char>, SortOrder)>>,
    pub limit: Option<usize>,
    pub offset: Option<usize>,
    pub projection: Option<ProjV>,
}

pub open spec fn read_view(q: Query) -> ReadV {
    ReadV {
        collection: q.collection@,
        filter: match q.filter {
            Some(f) => Some(filter_view(f)),
            None => None,
        },
        sort: match q.sort {
            Some(v) => Some(sort_view(v@)),
            None => None,
        },
        limit: q.limit,
        offset: q.offset,
        projection: match q.projection {
            Some(p) => Some(proj_view(p)),
            None => None,
        },
    }
}

pub open spec fn read_outcome(r: Result<Query, RaiseError>) -> Result<ReadV, ErrorCode> {
    match r {
        Ok(q) => Ok(read_view(q)),
        Err(e) => Err(e.code),
    }
}

pub open spec fn sort_option(sort: Option<Vec<SortField>>) -> Option<Seq<(Seq<char>, SortOrder)>> {
    match sort {
        Some(v) => Some(sort_view(v@)),
        None => None,
    }
}

/// The query of a `SELECT` block: one table by its name, the projection of
/// its list, the filter of its `WHERE`, with the paging and the sort keys
/// given.
pub open spec fn select_spec(
    s: SqlSelect,
    limit: Option<usize>,
    offset: Option<usize>,
    sort: Option<Seq<(Seq<char>, SortOrder)>>,
) -> Result<ReadV, ErrorCode> {
    if s.from@.len() != 1 {
        Err(ErrorCode::SqlMultipleSourcesUnsupported)
    } else {
        match s.from@[0] {
            SqlTable::Other => Err(ErrorCode::SqlFromRelationUnsupported),
            SqlTable::Named(name) => {
                let projection = match projection_spec(s.projection@) {
                    Some(fs) => Some(ProjV::Include(fs)),
                    None => None,
                };
                match s.selection {
                    None => Ok(
                        ReadV { collection: name@, filter: None, sort, limit, offset, projection },
                    ),
                    Some(e) => match filter_spec(e) {
                        Err(c) => Err(c),
                        Ok(f) => Ok(
                            ReadV {
                                collection: name@,
                                filter: Some(f),
                                sort,
                                limit,
                                offset,
                                projection,
                            },
                        ),
                    },
                }
            },
        }
    }
}

/// The query of a `SELECT` block (see `select_spec`).
pub fn translate_select(
    select: &SqlSelect,
    limit: Option<usize>,
    offset: Option<usize>,
    sort: Option<Vec<SortField>>,
) -> (r: Result<Query, RaiseError>)
    ensures
        read_outcome(r) == select_spec(*select, limit, offset, sort_option(sort)),
{
    if select.from.len() != 1 {
        return Err(RaiseError::new(ErrorCode::SqlMultipleSourcesUnsupported, ""));
    }
    let collection = match &select.from[0] {
        SqlTable::Named(name) => name.clone(),
        SqlTable::Other => {
            return Err(RaiseError::new(ErrorCode::SqlFromRelationUnsupported, ""));
        },
    };
    let projection = select_projection(&select.projection);
    let filter = match &select.selection {
        None => None,
        Some(e) => match translate_expr(e) {
            Ok(f) => Some(f),
            Err(err) => return Err(err),
        },
    };
    Ok(Query { collection, filter, sort, limit, offset, projection })
}

/// The number written after the first `key` in `text`: whitespace skipped,
/// then the decimal digits that follow, read as a `usize`; none where there
/// is no key, no digit, or a value beyond `usize`.
pub open spec fn number_after(text: Seq<char>, key: Seq<char>) -> Option<usize> {
    let i = find_spec(text, key);
    if i < 0 {
        None
    } else {
        let rest = text.subrange(i + key.len(), text.len() as int);
        let w = lead_white(rest) as int;
        let ds = rest.subrange(w, digits_end(rest, w));
        if ds.len() > 0 && digits_value(ds) <= usize::MAX {
            Some(digits_value(ds) as usize)
        } else {
            None
        }
    }
}

/// The number written after the first `key` in `text` (see `number_after`).
fn number_after_exec(text: &[char], key: &[char]) -> (r: Option<usize>)
    ensures
        r == number_after(text@, key@),
{
    let n = text.len();
    let m = key.len();
    let i = match find_chars(text, key) {
        Some(i) => i,
        None => return None,
    };
    let rest = slice_chars(text, i + m, n);
    let mut w: usize = 0;
    while w < rest.len() && is_whitespace(rest[w])
        invariant
            w <= rest@.len(),
            forall|j: int| 0 <= j < w ==> is_white(#[trigger] rest@[j]),
        decreases rest.len() - w,
    {
        w = w + 1;
    }
    proof {
        lemma_lead_white(rest@, w as int);
        if w < rest@.len() {
            assert(!is_white(rest@.subrange(w as int, rest@.len() as int)[0]));
        }
    }
    let e = scan_digits(rest.as_slice(), w);
    let ds = slice_chars(rest.as_slice(), w, e);
    assert(all_digits(ds@)) by {
        assert forall|k: int| 0 <= k < ds@.len() implies is_digit(#[trigger] ds@[k]) by {
            assert(ds@[k] == rest@[w + k]);
        }
    }
    if ds.len() == 0 {
        return None;
    }
    match digits_upto(ds.as_slice(), usize::MAX as u128) {
        Some(v) => Some(v as usize),
        None => None,
    }
}

/// The query of a parsed query: `LIMIT` and `OFFSET` read from its printed
/// text in upper case, the sort keys of its `ORDER BY` (none for an empty
/// list), and the `SELECT` block of its body.
pub open spec fn query_spec(q: SqlQuery) -> Result<ReadV, ErrorCode> {
    let upper = uppercase_spec(q.text@);
    let limit = number_after(upper, "LIMIT "@);
    let offset = number_after(upper, "OFFSET "@);
    match sort_spec(q.order_by@) {
        Err(c) => Err(c),
        Ok(keys) => match q.body {
            SqlSetExpr::Select(s) => select_spec(
                s,
                limit,
                offset,
                if keys.len() == 0 {
                    None
                } else {
                    Some(keys)
                },
            ),
            _ => Err(ErrorCode::SqlSelectExprUnsupported),
        },
    }
}

/// The query of a parsed query (see `query_spec`).
pub fn translate_query(q: &SqlQuery) -> (r: Result<Query, RaiseError>)
    ensures
        read_outcome(r) == query_spec(*q),
{
    let upper = to_uppercase(q.text.as_str());
    let text = to_chars(upper.as_str());
    let limit_key = to_chars("LIMIT ");
    let offset_key = to_chars("OFFSET ");
    let limit = number_after_exec(text.as_slice(), limit_key.as_slice());
    let offset = number_after_exec(text.as_slice(), offset_key.as_slice());
    let keys = match translate_order_keys(&q.order_by) {
        Ok(k) => k,
        Err(err) => return Err(err),
    };
    let sort = if keys.len() == 0 {
        None
    } else {
        Some(keys)
    };
    match &q.body {
        SqlSetExpr::Select(s) => translate_select(s, limit, offset, sort),
        _ => Err(RaiseError::new(ErrorCode::SqlSelectExprUnsupported, "")),
    }
}

/// One write of a transaction: a document to insert into a collection,
/// under an identity of its own or one that the store gives it.
pub enum TransactionRequest {
    Insert { collection: String, id: Option<String>, document: JsonValue },
}

/// An insertion by its values.
pub struct InsertV {
    pub collection: Seq<char>,
    pub id: Option<Seq<char>>,
    pub document: JVal,
}

pub open spec fn insert_view(t: TransactionRequest) -> InsertV {
    match t {
        TransactionRequest::Insert { collection, id, document } => InsertV {
            collection: collection@,
            id: match id {
                Some(s) => Some(s@),
                None => None,
            },
            document: document@,
        },
    }
}

/// The members that the first `n` columns of a row give: each column's
/// value stored under its name, a later column of the same name replacing
/// the earlier value; the first value that is no literal refuses the row.
pub open spec fn row_entries(cols: Seq<Seq<char>>, row: Seq<SqlExpr>, n: int) -> Result<
    Seq<(Seq<char>, JVal)>,
    ErrorCode,
>
    decreases n,
{
    if n <= 0 {
        Ok(Seq::empty())
    } else {
        match row_entries(cols, row, n - 1) {
            Err(c) => Err(c),
            Ok(e) => match value_spec(row[n - 1]) {
                Err(c) => Err(c),
                Ok(v) => Ok(entries_insert(e, cols[n - 1], v)),
            },
        }
    }
}

proof fn lemma_row_error(cols: Seq<Seq<char>>, row: Seq<SqlExpr>, k: int, n: int)
    requires
        0 <= k <= n,
        row_entries(cols, row, k) is Err,
    ensures
        row_entries(cols, row, n) == row_entries(cols, row, k),
    decreases n - k,
{
    if k < n {
        lemma_row_error(cols, row, k, n - 1);
    }
}

/// The documents of the first `n` rows of an `INSERT`: each row must give
/// one value per column.
pub open spec fn rows_documents(cols: Seq<Seq<char>>, rows: Seq<Vec<SqlExpr>>, n: int) -> Result<
    Seq<JVal>,
    ErrorCode,
>
    decreases n,
{
    if n <= 0 {
        Ok(Seq::empty())
    } else {
        match rows_documents(cols, rows, n - 1) {
            Err(c) => Err(c),
            Ok(docs) => {
                let row = rows[n - 1]@;
                if row.len() != cols.len() {
                    Err(ErrorCode::SqlInsertColumnsMismatch)
                } else {
                    match row_entries(cols, row, cols.len() as int) {
                        Err(c) => Err(c),
                        Ok(e) => Ok(docs.push(JVal::Obj(e))),
                    }
                }
            },
        }
    }
}

proof fn lemma_rows_error(cols: Seq<Seq<char>>, rows: Seq<Vec<SqlExpr>>, k: int, n: int)
    requires
        0 <= k <= n,
        rows_documents(cols, rows, k) is Err,
    ensures
        rows_documents(cols, rows, n) == rows_documents(cols, rows, k),
    decreases n - k,
{
    if k < n {
        lemma_rows_error(cols, rows, k, n - 1);
    }
}

/// The documents of an `INSERT`: it needs a `VALUES` list.
pub open spec fn insert_spec(ins: SqlInsert) -> Result<Seq<JVal>, ErrorCode> {
    match ins.source {
        None => Err(ErrorCode::SqlInsertSourceMissing),
        Some(SqlSetExpr::Values(rows)) => rows_documents(
            strings_view(ins.columns@),
            rows@,
            rows@.len() as int,
        ),
        Some(_) => Err(ErrorCode::SqlInsertTypeUnsupported),
    }
}

/// One insertion into `table` per document, each without an identity.
pub open spec fn inserts_of(table: Seq<char>, docs: Seq<JVal>) -> Seq<InsertV> {
    docs.map_values(|d: JVal| InsertV { collection: table, id: None, document: d })
}

pub open spec fn insert_views(v: Seq<TransactionRequest>) -> Seq<InsertV> {
    v.map_values(|t: TransactionRequest| insert_view(t))
}

pub open spec fn write_outcome(r: Result<Vec<TransactionRequest>, RaiseError>) -> Result<
    Seq<InsertV>,
    ErrorCode,
> {
    match r {
        Ok(v) => Ok(insert_views(v@)),
        Err(e) => Err(e.code),
    }
}

/// The document of one row (see `row_entries`).
fn row_document(cols: &Vec<String>, row: &Vec<SqlExpr>) -> (r: Result<JsonValue, RaiseError>)
    requires
        row@.len() == cols@.len(),
    ensures
        json_outcome(r) == match row_entries(strings_view(cols@), row@, cols@.len() as int) {
            Ok(e) => Ok(JVal::Obj(e)),
            Err(c) => Err(c),
        },
{
    let ghost names = strings_view(cols@);
    let mut entries: Vec<(String, JsonValue)> = Vec::new();
    let mut k: usize = 0;
    assert(jents(entries@) =~= Seq::<(Seq<char>, JVal)>::empty()) by {
        lemma_jents(entries@);
    }
    while k < cols.len()
        invariant
            k <= cols@.len(),
            row@.len() == cols@.len(),
            names == strings_view(cols@),
            row_entries(names, row@, k as int) == Ok::<Seq<(Seq<char>, JVal)>, ErrorCode>(
                jents(entries@),
            ),
        decreases cols.len() - k,
    {
        let v = match expr_to_value(&row[k]) {
            Ok(v) => v,
            Err(err) => {
                proof {
                    lemma_row_error(names, row@, k + 1, cols@.len() as int);
                }
                return Err(err);
            },
        };
        assert(names[k as int] == cols@[k as int]@);
        object_insert(&mut entries, cols[k].as_str(), v);
        k = k + 1;
    }
    Ok(JsonValue::Object(entries))
}

/// The insertions of an `INSERT ... VALUES`: one per row, into the named
/// table, each without an identity (see `insert_spec`).
pub fn translate_insert(ins: &SqlInsert) -> (r: Result<Vec<TransactionRequest>, RaiseError>)
    ensures
        write_outcome(r) == match insert_spec(*ins) {
            Ok(docs) => Ok(inserts_of(ins.table@, docs)),
            Err(c) => Err(c),
        },
{
    let rows = match &ins.source {
        None => return Err(RaiseError::new(ErrorCode::SqlInsertSourceMissing, ins.table.as_str())),
        Some(SqlSetExpr::Values(rows)) => rows,
        Some(_) => {
            return Err(RaiseError::new(ErrorCode::SqlInsertTypeUnsupported, ins.table.as_str()));
        },
    };
    let ghost names = strings_view(ins.columns@);
    let mut ops: Vec<TransactionRequest> = Vec::new();
    let ghost mut docs: Seq<JVal> = Seq::empty();
    let mut k: usize = 0;
    while k < rows.len()
        invariant
            k <= rows@.len(),
            names == strings_view(ins.columns@),
            rows_documents(names, rows@, k as int) == Ok::<Seq<JVal>, ErrorCode>(docs),
            insert_views(ops@) == inserts_of(ins.table@, docs),
            ops@.len() == docs.len(),
            insert_spec(*ins) == rows_documents(names, rows@, rows@.len() as int),
        decreases rows.len() - k,
    {
        if rows[k].len() != ins.columns.len() {
            proof {
                assert(rows@[k as int]@.len() != names.len());
                assert(rows_documents(names, rows@, k + 1) is Err);
                lemma_rows_error(names, rows@, k + 1, rows@.len() as int);
            }
            return Err(RaiseError::new(ErrorCode::SqlInsertColumnsMismatch, ins.table.as_str()));
        }
        let document = match row_document(&ins.columns, &rows[k]) {
            Ok(d) => d,
            Err(err) => {
                proof {
                    assert(rows@[k as int]@.len() == names.len());
                    assert(rows_documents(names, rows@, k + 1) == Err::<Seq<JVal>, ErrorCode>(
                        err.code,
                    ));
                    lemma_rows_error(names, rows@, k + 1, rows@.len() as int);
                }
                return Err(err);
            },
        };
        let ghost old_docs = docs;
        let ghost before = ops@;
        let ghost d = document@;
        ops.push(TransactionRequest::Insert { collection: ins.table.clone(), id: None, document });
        proof {
            docs = docs.push(d);
            assert(rows@[k as int]@.len() == names.len());
            assert(rows_documents(names, rows@, k + 1) == Ok::<Seq<JVal>, ErrorCode>(docs));
            assert forall|i: int| 0 <= i < ops@.len() implies #[trigger] insert_views(ops@)[i]
                == inserts_of(ins.table@, docs)[i] by {
                if i < before.len() {
                    assert(ops@[i] == before[i]);
                    assert(insert_views(before)[i] == inserts_of(ins.table@, old_docs)[i]);
                }
            }
            assert(insert_views(ops@) =~= inserts_of(ins.table@, docs));
        }
        k = k + 1;
    }
    Ok(ops)
}

/// What an SQL text asks for: a query to read, or insertions to write.
pub enum SqlRequest {
    Read(Query),
    Write(Vec<TransactionRequest>),
}

/// A request by its values.
pub enum RequestV {
    Read(ReadV),
    Write(Seq<InsertV>),
}

pub open spec fn request_outcome(r: Result<SqlRequest, RaiseError>) -> Result<RequestV, ErrorCode> {
    match r {
        Ok(SqlRequest::Read(q)) => Ok(RequestV::Read(read_view(q))),
        Ok(SqlRequest::Write(v)) => Ok(RequestV::Write(insert_views(v@))),
        Err(e) => Err(e.code),
    }
}

/// The request of the statements of an SQL text: there must be exactly
/// one, a query (a read) or an `INSERT` (writes).
pub open spec fn statements_spec(st: Seq<SqlStatement>) -> Result<RequestV, ErrorCode> {
    if st.len() != 1 {
        Err(ErrorCode::SqlSingleStatementOnly)
    } else {
        match st[0] {
            SqlStatement::Query(q) => match query_spec(q) {
                Ok(r) => Ok(RequestV::Read(r)),
                Err(c) => Err(c),
            },
            SqlStatement::Insert(i) => match insert_spec(i) {
                Ok(docs) => Ok(RequestV::Write(inserts_of(i.table@, docs))),
                Err(c) => Err(c),
            },
            SqlStatement::Other => Err(ErrorCode::SqlStatementUnsupported),
        }
    }
}

/// The request of parsed statements (see `statements_spec`).
pub fn translate_statements(statements: &Vec<SqlStatement>) -> (r: Result<SqlRequest, RaiseError>)
    ensures
        request_outcome(r) == statements_spec(statements@),
{
    if statements.len() != 1 {
        return Err(RaiseError::new(ErrorCode::SqlSingleStatementOnly, ""));
    }
    match &statements[0] {
        SqlStatement::Query(q) => match translate_query(q) {
            Ok(query) => Ok(SqlRequest::Read(query)),
            Err(err) => Err(err),
        },
        SqlStatement::Insert(i) => match translate_insert(i) {
            Ok(ops) => Ok(SqlRequest::Write(ops)),
            Err(err) => Err(err),
        },
        SqlStatement::Other => Err(RaiseError::new(ErrorCode::SqlStatementUnsupported, "")),
    }
}

/// The request of an SQL text: a text that sqlparser refuses is a syntax
/// error; otherwise its statements decide (see `statements_spec`).
pub open spec fn sql_spec(sql: Seq<char>) -> Result<RequestV, ErrorCode> {
    match sql_parse_tree(sql) {
        None => Err(ErrorCode::SqlSyntax),
        Some(st) => statements_spec(st),
    }
}

/// Reads an SQL text: a `SELECT` gives the query it stands for, an
/// `INSERT ... VALUES` one insertion per row (see `sql_spec`).
pub fn parse_sql(sql: &str) -> (r: Result<SqlRequest, RaiseError>)
    ensures
        request_outcome(r) == sql_spec(sql@),
{
    match parse_statements(sql) {
        Ok(statements) => translate_statements(&statements),
        Err(message) => Err(RaiseError::new(ErrorCode::SqlSyntax, message.as_str())),
    }
}

/// What a `WHERE field <op> literal` filter means on a document: `>`,
/// `>=`, `<` and `<=` order the field's value against the literal, `=`
/// (and an operator the engine does not know) tests equality and `<>` its
/// negation.
pub proof fn law_sql_comparison_meaning(
    left: SqlExpr,
    op: SqlBinaryOp,
    right: SqlExpr,
    doc: JVal,
    coll: Seq<char>,
)
    requires
        field_spec(left) is Ok,
        value_spec(right) is Ok,
        op != SqlBinaryOp::And,
        op != SqlBinaryOp::Or,
    ensures
        ({
            let e = SqlExpr::BinaryOp { left: Box::new(left), op, right: Box::new(right) };
            let val = field_value(doc, field_spec(left)->Ok_0, coll);
            let cv = Some(strip_quotes_spec(value_spec(right)->Ok_0));
            &&& filter_spec(e) is Ok
            &&& filter_holds(doc, filter_spec(e)->Ok_0.op, filter_spec(e)->Ok_0.conds, coll)
                <==> match op {
                SqlBinaryOp::Gt => compare_json(val, cv) > 0,
                SqlBinaryOp::GtEq => compare_json(val, cv) >= 0,
                SqlBinaryOp::Lt => compare_json(val, cv) < 0,
                SqlBinaryOp::LtEq => compare_json(val, cv) <= 0,
                SqlBinaryOp::NotEq => !values_equal(val, cv),
                _ => values_equal(val, cv),
            }
        }),
{
    let e = SqlExpr::BinaryOp { left: Box::new(left), op, right: Box::new(right) };
    let f = filter_spec(e)->Ok_0;
    let c = f.conds[0];
    assert(f.conds.len() == 1);
    assert(filter_holds(doc, f.op, f.conds, coll) <==> condition_holds(doc, c, coll)) by {
        if condition_holds(doc, c, coll) {
            assert forall|i: int| 0 <= i < f.conds.len() implies condition_holds(
                doc,
                #[trigger] f.conds[i],
                coll,
            ) by {
                assert(i == 0);
            }
        }
    }
    lemma_compare_json_sign(field_value(doc, field_spec(left)->Ok_0, coll), Some(strip_quotes_spec(value_spec(right)->Ok_0)));
}

/// `a AND b`, when each side is a conjunction (a single comparison is
/// one), holds on a document exactly when both sides hold.
pub proof fn law_sql_and(l: SqlExpr, r: SqlExpr, doc: JVal, coll: Seq<char>)
    requires
        filter_spec(l) is Ok,
        filter_spec(r) is Ok,
        filter_spec(l)->Ok_0.op == FilterOperator::And,
        filter_spec(r)->Ok_0.op == FilterOperator::And,
    ensures
        ({
            let e = SqlExpr::BinaryOp { left: Box::new(l), op: SqlBinaryOp::And, right: Box::new(r) };
            let fl = filter_spec(l)->Ok_0;
            let fr = filter_spec(r)->Ok_0;
            &&& filter_spec(e) is Ok
            &&& filter_spec(e)->Ok_0.op == FilterOperator::And
            &&& filter_holds(doc, filter_spec(e)->Ok_0.op, filter_spec(e)->Ok_0.conds, coll)
                <==> (filter_holds(doc, fl.op, fl.conds, coll) && filter_holds(doc, fr.op, fr.conds, coll))
        }),
{
    let e = SqlExpr::BinaryOp { left: Box::new(l), op: SqlBinaryOp::And, right: Box::new(r) };
    let a = filter_spec(l)->Ok_0.conds;
    let b = filter_spec(r)->Ok_0.conds;
    let c = filter_spec(e)->Ok_0.conds;
    assert(c == a + b);
    if filter_holds(doc, FilterOperator::And, c, coll) {
        assert forall|i: int| 0 <= i < a.len() implies condition_holds(doc, #[trigger] a[i], coll) by {
            assert(c[i] == a[i]);
        }
        assert forall|i: int| 0 <= i < b.len() implies condition_holds(doc, #[trigger] b[i], coll) by {
            assert(c[a.len() + i] == b[i]);
        }
    }
    if filter_holds(doc, FilterOperator::And, a, coll) && filter_holds(doc, FilterOperator::And, b, coll) {
        assert forall|i: int| 0 <= i < c.len() implies condition_holds(doc, #[trigger] c[i], coll) by {
            if i < a.len() {
                assert(c[i] == a[i]);
            } else {
                assert(c[i] == b[i - a.len()]);
            }
        }
    }
}

/// `a OR b`, when each side is a disjunction or a single comparison, holds
/// on a document exactly when either side holds.
pub proof fn law_sql_or(l: SqlExpr, r: SqlExpr, doc: JVal, coll: Seq<char>)
    requires
        filter_spec(l) is Ok,
        filter_spec(r) is Ok,
        filter_spec(l)->Ok_0.op == FilterOperator::Or || filter_spec(l)->Ok_0.conds.len() == 1,
        filter_spec(r)->Ok_0.op == FilterOperator::Or || filter_spec(r)->Ok_0.conds.len() == 1,
        filter_spec(l)->Ok_0.op != FilterOperator::Not,
        filter_spec(r)->Ok_0.op != FilterOperator::Not,
    ensures
        ({
            let e = SqlExpr::BinaryOp { left: Box::new(l), op: SqlBinaryOp::Or, right: Box::new(r) };
            let fl = filter_spec(l)->Ok_0;
            let fr = filter_spec(r)->Ok_0;
            &&& filter_spec(e) is Ok
            &&& filter_spec(e)->Ok_0.op == FilterOperator::Or
            &&& filter_holds(doc, filter_spec(e)->Ok_0.op, filter_spec(e)->Ok_0.conds, coll)
                <==> (filter_holds(doc, fl.op, fl.conds, coll) || filter_holds(doc, fr.op, fr.conds, coll))
        }),
{
    let e = SqlExpr::BinaryOp { left: Box::new(l), op: SqlBinaryOp::Or, right: Box::new(r) };
    let fl = filter_spec(l)->Ok_0;
    let fr = filter_spec(r)->Ok_0;
    let a = fl.conds;
    let b = fr.conds;
    let c = filter_spec(e)->Ok_0.conds;
    assert(c == a + b);
    assert(filter_holds(doc, fl.op, a, coll) <==> exists|i: int| 0 <= i < a.len() && condition_holds(doc, #[trigger] a[i], coll)) by {
        if fl.op == FilterOperator::And {
            if condition_holds(doc, a[0], coll) {
                assert forall|i: int| 0 <= i < a.len() implies condition_holds(doc, #[trigger] a[i], coll) by {
                    assert(i == 0);
                }
            }
        }
    }
    assert(filter_holds(doc, fr.op, b, coll) <==> exists|i: int| 0 <= i < b.len() && condition_holds(doc, #[trigger] b[i], coll)) by {
        if fr.op == FilterOperator::And {
            if condition_holds(doc, b[0], coll) {
                assert forall|i: int| 0 <= i < b.len() implies condition_holds(doc, #[trigger] b[i], coll) by {
                    assert(i == 0);
                }
            }
        }
    }
    if exists|i: int| 0 <= i < c.len() && condition_holds(doc, #[trigger] c[i], coll) {
        let i = choose|i: int| 0 <= i < c.len() && condition_holds(doc, #[trigger] c[i], coll);
        if i < a.len() {
            assert(c[i] == a[i]);
        } else {
            assert(c[i] == b[i - a.len()]);
        }
    }
    if exists|i: int| 0 <= i < a.len() && condition_holds(doc, #[trigger] a[i], coll) {
        let i = choose|i: int| 0 <= i < a.len() && condition_holds(doc, #[trigger] a[i], coll);
        assert(c[i] == a[i]);
    }
    if exists|i: int| 0 <= i < b.len() && condition_holds(doc, #[trigger] b[i], coll) {
        let i = choose|i: int| 0 <= i < b.len() && condition_holds(doc, #[trigger] b[i], coll);
        assert(c[a.len() + i] == b[i]);
    }
}

} // verus!
