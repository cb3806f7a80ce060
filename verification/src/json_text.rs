//! Compact JSON text of a `JsonValue` (no spaces, members in stored order).
use vstd::prelude::*;
use crate::json::{JsonValue, JsonNumber, JVal, jv, jvs, jents, lemma_jvs, lemma_jents};

verus! {

pub open spec fn digit_char(d: int) -> char {
    if d == 0 { '0' }
    else if d == 1 { '1' }
    else if d == 2 { '2' }
    else if d == 3 { '3' }
    else if d == 4 { '4' }
    else if d == 5 { '5' }
    else if d == 6 { '6' }
    else if d == 7 { '7' }
    else if d == 8 { '8' }
    else { '9' }
}

/// Decimal digits of a natural number, most significant first.
pub open spec fn nat_digits(n: nat) -> Seq<char>
    decreases n,
{
    if n < 10 {
        seq![digit_char(n as int)]
    } else {
        nat_digits(n / 10).push(digit_char((n % 10) as int))
    }
}

pub open spec fn abs(i: int) -> nat {
    if i < 0 { (-i) as nat } else { i as nat }
}

/// Decimal text of an integer.
pub open spec fn int_text(i: int) -> Seq<char> {
    if i < 0 {
        seq!['-'] + nat_digits(abs(i))
    } else {
        nat_digits(i as nat)
    }
}

/// `n` zero digits.
pub open spec fn zeros(n: nat) -> Seq<char> {
    Seq::new(n, |i: int| '0')
}

/// The digits with their trailing zeros dropped (the first digit is kept).
pub open spec fn trim_zeros(d: Seq<char>) -> Seq<char>
    decreases d.len(),
{
    if d.len() > 1 && d.last() == '0' {
        trim_zeros(d.drop_last())
    } else {
        d
    }
}

/// Shortest text of a nonzero decimal whose significant digits are `d` (no
/// trailing zero) and whose leading digit stands for `10^e`: plain notation
/// when `-5 <= e <= 15` (`20.0`, `10.5`, `0.05`), otherwise one digit before
/// the point and a signed exponent (`1e-7`, `1.5e+16`).
pub open spec fn float_text(d: Seq<char>, e: int) -> Seq<char> {
    if -5 <= e <= 15 {
        if d.len() - 1 <= e {
            d + zeros((e + 1 - d.len()) as nat) + seq!['.', '0']
        } else if e >= 0 {
            d.subrange(0, e + 1) + seq!['.'] + d.subrange(e + 1, d.len() as int)
        } else {
            seq!['0', '.'] + zeros((-e - 1) as nat) + d
        }
    } else {
        seq![d[0]] + (if d.len() > 1 {
            seq!['.'] + d.subrange(1, d.len() as int)
        } else {
            Seq::empty()
        }) + seq!['e', if e >= 0 { '+' } else { '-' }] + nat_digits(abs(e))
    }
}

/// Text of a JSON number: integers as decimal integers; fractions by their
/// shortest digits, in plain notation for magnitudes from `1e-5` below `1e16`
/// and with an exponent outside it; zero as `0.0`.
pub open spec fn num_text(n: JsonNumber) -> Seq<char> {
    if !n.is_float {
        int_text(n.mantissa as int)
    } else if n.mantissa == 0 {
        seq!['0', '.', '0']
    } else {
        let all = nat_digits(abs(n.mantissa as int));
        let body = float_text(trim_zeros(all), all.len() - 1 - n.scale);
        if n.mantissa < 0 {
            seq!['-'] + body
        } else {
            body
        }
    }
}

pub open spec fn hex_char(d: int) -> char {
    if d < 10 {
        digit_char(d)
    } else if d == 10 { 'a' }
    else if d == 11 { 'b' }
    else if d == 12 { 'c' }
    else if d == 13 { 'd' }
    else if d == 14 { 'e' }
    else { 'f' }
}

/// How a character is written inside a JSON string.
pub open spec fn escape_char(c: char) -> Seq<char> {
    if c == '"' {
        seq!['\\', '"']
    } else if c == '\\' {
        seq!['\\', '\\']
    } else if c == '\n' {
        seq!['\\', 'n']
    } else if c == '\r' {
        seq!['\\', 'r']
    } else if c == '\t' {
        seq!['\\', 't']
    } else if (c as int) == 8 {
        seq!['\\', 'b']
    } else if (c as int) == 12 {
        seq!['\\', 'f']
    } else if (c as int) < 32 {
        seq!['\\', 'u', '0', '0', hex_char((c as int) / 16), hex_char((c as int) % 16)]
    } else {
        seq![c]
    }
}

pub open spec fn escape_str(s: Seq<char>) -> Seq<char>
    decreases s.len(),
{
    if s.len() == 0 {
        Seq::empty()
    } else {
        escape_str(s.drop_last()) + escape_char(s.last())
    }
}

/// A JSON string literal.
pub open spec fn quoted(s: Seq<char>) -> Seq<char> {
    seq!['"'] + escape_str(s) + seq!['"']
}

/// Compact JSON text of a value.
pub open spec fn json_text(v: JVal) -> Seq<char>
    decreases v, 0nat,
{
    match v {
        JVal::Null => seq!['n', 'u', 'l', 'l'],
        JVal::Bool(b) => if b {
            seq!['t', 'r', 'u', 'e']
        } else {
            seq!['f', 'a', 'l', 's', 'e']
        },
        JVal::Num(n) => num_text(n),
        JVal::Str(s) => quoted(s),
        JVal::Arr(items) => seq!['['] + items_text(items) + seq![']'],
        JVal::Obj(entries) => seq!['{'] + entries_text(entries) + seq!['}'],
    }
}

/// The values' texts separated by commas.
pub open spec fn items_text(s: Seq<JVal>) -> Seq<char>
    decreases s, 1nat,
{
    if s.len() == 0 {
        Seq::empty()
    } else {
        proof {
            vstd::seq::axiom_seq_index_decreases(s, s.len() - 1);
            vstd::seq::axiom_seq_subrange_decreases(s, 0, s.len() - 1);
        }
        if s.len() == 1 {
            json_text(s[0])
        } else {
            items_text(s.subrange(0, s.len() - 1)) + seq![','] + json_text(s[s.len() - 1])
        }
    }
}

/// The members' texts (`"key":value`) separated by commas.
pub open spec fn entries_text(s: Seq<(Seq<char>, JVal)>) -> Seq<char>
    decreases s, 1nat,
{
    if s.len() == 0 {
        Seq::empty()
    } else {
        proof {
            vstd::seq::axiom_seq_index_decreases(s, s.len() - 1);
            vstd::seq::axiom_seq_subrange_decreases(s, 0, s.len() - 1);
        }
        let last = quoted(s[s.len() - 1].0) + seq![':'] + json_text(s[s.len() - 1].1);
        if s.len() == 1 {
            last
        } else {
            entries_text(s.subrange(0, s.len() - 1)) + seq![','] + last
        }
    }
}

fn digit_of(d: u64) -> (c: char)
    requires
        d < 10,
    ensures
        c == digit_char(d as int),
{
    if d == 0 { '0' }
    else if d == 1 { '1' }
    else if d == 2 { '2' }
    else if d == 3 { '3' }
    else if d == 4 { '4' }
    else if d == 5 { '5' }
    else if d == 6 { '6' }
    else if d == 7 { '7' }
    else if d == 8 { '8' }
    else { '9' }
}

/// Appends the decimal digits of `n`.
pub fn push_nat(n: u64, out: &mut Vec<char>)
    ensures
        final(out)@ == old(out)@ + nat_digits(n as nat),
    decreases n,
{
    if n < 10 {
        out.push(digit_of(n));
        proof {
            assert(final(out)@ =~= old(out)@ + nat_digits(n as nat));
        }
    } else {
        push_nat(n / 10, out);
        out.push(digit_of(n % 10));
        proof {
            assert(final(out)@ =~= old(out)@ + nat_digits(n as nat));
        }
    }
}

proof fn lemma_nat_digits_len(n: nat)
    ensures
        nat_digits(n).len() >= 1,
    decreases n,
{
    if n >= 10 {
        lemma_nat_digits_len(n / 10);
    }
}

proof fn lemma_nat_digits_len_bound(n: u64)
    ensures
        nat_digits(n as nat).len() <= 20,
{
    reveal_with_fuel(pow10_nat, 21);
    assert(pow10_nat(20) == 100000000000000000000nat);
    lemma_nat_digits_len_le(n as nat, 20);
}

proof fn lemma_nat_digits_len_le(n: nat, k: nat)
    requires
        k >= 1,
        n < pow10_nat(k),
    ensures
        nat_digits(n).len() <= k,
    decreases k,
{
    if n >= 10 {
        assert(k >= 2) by {
            if k == 1 {
                assert(pow10_nat(1) == 10 * pow10_nat(0));
            }
        }
        assert(n / 10 < pow10_nat((k - 1) as nat)) by {
            assert(pow10_nat(k) == 10 * pow10_nat((k - 1) as nat));
        }
        lemma_nat_digits_len_le(n / 10, (k - 1) as nat);
    }
}

spec fn pow10_nat(k: nat) -> nat
    decreases k,
{
    if k == 0 { 1 } else { 10 * pow10_nat((k - 1) as nat) }
}

fn abs_u64(i: i64) -> (r: u64)
    ensures
        r as int == abs(i as int),
{
    if i < 0 {
        if i == i64::MIN {
            9223372036854775808u64
        } else {
            (-i) as u64
        }
    } else {
        i as u64
    }
}

/// Appends `n` zero digits.
fn push_zeros(n: u64, out: &mut Vec<char>)
    ensures
        final(out)@ == old(out)@ + zeros(n as nat),
{
    let mut k: u64 = 0;
    while k < n
        invariant
            k <= n,
            out@ == old(out)@ + zeros(k as nat),
        decreases n - k,
    {
        out.push('0');
        k = k + 1;
        assert(out@ =~= old(out)@ + zeros(k as nat));
    }
}

/// Appends `src[lo..hi]`.
fn push_range(src: &Vec<char>, lo: usize, hi: usize, out: &mut Vec<char>)
    requires
        lo <= hi <= src@.len(),
    ensures
        final(out)@ == old(out)@ + src@.subrange(lo as int, hi as int),
{
    let mut i: usize = lo;
    while i < hi
        invariant
            lo <= i <= hi <= src@.len(),
            out@ == old(out)@ + src@.subrange(lo as int, i as int),
        decreases hi - i,
    {
        out.push(src[i]);
        i = i + 1;
        assert(out@ =~= old(out)@ + src@.subrange(lo as int, i as int));
    }
}

/// Number of digits of `d` left once its trailing zeros are dropped.
fn trimmed_len(d: &Vec<char>) -> (k: usize)
    requires
        d@.len() >= 1,
    ensures
        1 <= k <= d@.len(),
        d@.subrange(0, k as int) == trim_zeros(d@),
{
    let mut k: usize = d.len();
    assert(d@.subrange(0, k as int) =~= d@);
    while k > 1 && d[k - 1] == '0'
        invariant
            1 <= k <= d@.len(),
            trim_zeros(d@.subrange(0, k as int)) == trim_zeros(d@),
        decreases k,
    {
        assert(d@.subrange(0, k as int).drop_last() =~= d@.subrange(0, k - 1));
        k = k - 1;
    }
    k
}

/// Appends `float_text(d[..k], e)`.
fn push_float_text(d: &Vec<char>, k: usize, e: i64, out: &mut Vec<char>)
    requires
        1 <= k <= d@.len() <= 20,
        -0x1_0000_0000 <= e <= 0x1_0000_0000,
    ensures
        final(out)@ == old(out)@ + float_text(d@.subrange(0, k as int), e as int),
{
    let ghost ds = d@.subrange(0, k as int);
    let ghost before = out@;
    if -5 <= e && e <= 15 {
        if (k as i64) - 1 <= e {
            push_range(d, 0, k, out);
            push_zeros((e + 1 - (k as i64)) as u64, out);
            out.push('.');
            out.push('0');
        } else if e >= 0 {
            let cut = (e + 1) as usize;
            push_range(d, 0, cut, out);
            out.push('.');
            push_range(d, cut, k, out);
            assert(d@.subrange(0, cut as int) =~= ds.subrange(0, e + 1));
            assert(d@.subrange(cut as int, k as int) =~= ds.subrange(e + 1, ds.len() as int));
        } else {
            out.push('0');
            out.push('.');
            push_zeros((-e - 1) as u64, out);
            push_range(d, 0, k, out);
        }
    } else {
        out.push(d[0]);
        if k > 1 {
            out.push('.');
            push_range(d, 1, k, out);
            assert(d@.subrange(1, k as int) =~= ds.subrange(1, ds.len() as int));
        }
        out.push('e');
        if e >= 0 {
            out.push('+');
        } else {
            out.push('-');
        }
        let mag: u64 = if e >= 0 { e as u64 } else { (-e) as u64 };
        push_nat(mag, out);
    }
    proof {
        assert(final(out)@ =~= old(out)@ + float_text(ds, e as int));
    }
}

/// Appends the text of a JSON number.
pub fn push_number(n: JsonNumber, out: &mut Vec<char>)
    ensures
        final(out)@ == old(out)@ + num_text(n),
{
    if n.is_float && n.mantissa == 0 {
        out.push('0');
        out.push('.');
        out.push('0');
        proof {
            assert(final(out)@ =~= old(out)@ + num_text(n));
        }
        return;
    }
    if n.mantissa < 0 {
        out.push('-');
    }
    if !n.is_float {
        push_nat(abs_u64(n.mantissa), out);
    } else {
        let a = abs_u64(n.mantissa);
        let mut d: Vec<char> = Vec::new();
        push_nat(a, &mut d);
        assert(d@ =~= nat_digits(abs(n.mantissa as int)));
        proof {
            lemma_nat_digits_len(abs(n.mantissa as int));
            lemma_nat_digits_len_bound(a);
        }
        let k = trimmed_len(&d);
        let e: i64 = (d.len() as i64) - 1 - (n.scale as i64);
        push_float_text(&d, k, e, out);
    }
    proof {
        assert(final(out)@ =~= old(out)@ + num_text(n));
    }
}

/// Appends all of `src`.
pub fn push_all(src: &Vec<char>, out: &mut Vec<char>)
    ensures
        final(out)@ == old(out)@ + src@,
{
    let mut i: usize = 0;
    while i < src.len()
        invariant
            i <= src@.len(),
            out@ == old(out)@ + src@.subrange(0, i as int),
        decreases src.len() - i,
    {
        out.push(src[i]);
        i = i + 1;
        assert(out@ =~= old(out)@ + src@.subrange(0, i as int));
    }
    assert(src@.subrange(0, src@.len() as int) =~= src@);
}

pub(crate) fn hex_of(d: u32) -> (c: char)
    requires
        d < 16,
    ensures
        c == hex_char(d as int),
{
    if d < 10 {
        digit_of(d as u64)
    } else if d == 10 { 'a' }
    else if d == 11 { 'b' }
    else if d == 12 { 'c' }
    else if d == 13 { 'd' }
    else if d == 14 { 'e' }
    else { 'f' }
}

/// Appends the escaped form of one character.
pub fn push_escaped_char(c: char, out: &mut Vec<char>)
    ensures
        final(out)@ == old(out)@ + escape_char(c),
{
    let code = c as u32;
    if c == '"' {
        out.push('\\');
        out.push('"');
    } else if c == '\\' {
        out.push('\\');
        out.push('\\');
    } else if c == '\n' {
        out.push('\\');
        out.push('n');
    } else if c == '\r' {
        out.push('\\');
        out.push('r');
    } else if c == '\t' {
        out.push('\\');
        out.push('t');
    } else if code == 8 {
        out.push('\\');
        out.push('b');
    } else if code == 12 {
        out.push('\\');
        out.push('f');
    } else if code < 32 {
        out.push('\\');
        out.push('u');
        out.push('0');
        out.push('0');
        out.push(hex_of(code / 16));
        out.push(hex_of(code % 16));
    } else {
        out.push(c);
    }
    proof {
        assert(final(out)@ =~= old(out)@ + escape_char(c));
    }
}

/// Appends a JSON string literal for `s`.
pub fn push_quoted(s: &str, out: &mut Vec<char>)
    ensures
        final(out)@ == old(out)@ + quoted(s@),
{
    let cs = crate::text::to_chars(s);
    out.push('"');
    let ghost start = out@;
    let mut i: usize = 0;
    while i < cs.len()
        invariant
            i <= cs@.len(),
            out@ == start + escape_str(cs@.subrange(0, i as int)),
        decreases cs.len() - i,
    {
        proof {
            assert(cs@.subrange(0, i + 1).drop_last() =~= cs@.subrange(0, i as int));
        }
        push_escaped_char(cs[i], out);
        i = i + 1;
        proof {
            assert(out@ =~= start + escape_str(cs@.subrange(0, i as int)));
        }
    }
    out.push('"');
    proof {
        assert(cs@.subrange(0, cs@.len() as int) =~= cs@);
        assert(final(out)@ =~= old(out)@ + quoted(s@));
    }
}

/// Appends the compact JSON text of `v`.
pub fn push_json(v: &JsonValue, out: &mut Vec<char>)
    ensures
        final(out)@ == old(out)@ + json_text(v@),
    decreases v,
{
    match v {
        JsonValue::Null => {
            out.push('n');
            out.push('u');
            out.push('l');
            out.push('l');
            proof {
                assert(final(out)@ =~= old(out)@ + json_text(v@));
            }
        },
        JsonValue::Bool(b) => {
            if *b {
                out.push('t');
                out.push('r');
                out.push('u');
                out.push('e');
            } else {
                out.push('f');
                out.push('a');
                out.push('l');
                out.push('s');
                out.push('e');
            }
            proof {
                assert(final(out)@ =~= old(out)@ + json_text(v@));
            }
        },
        JsonValue::Number(n) => {
            push_number(*n, out);
        },
        JsonValue::String(s) => {
            push_quoted(s.as_str(), out);
        },
        JsonValue::Array(a) => {
            out.push('[');
            let ghost start = out@;
            let mut i: usize = 0;
            proof {
                lemma_jvs(a@);
            }
            while i < a.len()
                invariant
                    *v == JsonValue::Array(*a),
                    i <= a@.len(),
                    jvs(a@).len() == a@.len(),
                    forall|j: int| 0 <= j < a@.len() ==> #[trigger] jvs(a@)[j] == jv(a@[j]),
                    out@ == start + items_text(jvs(a@).subrange(0, i as int)),
                decreases a.len() - i,
            {
                proof {
                    vstd::std_specs::vec::axiom_vec_decreases_to_view(*a);
                    vstd::seq::axiom_seq_index_decreases(a@, i as int);
                    assert(decreases_to!(*v => v->Array_0));
                    assert(decreases_to!(*v => a@[i as int]));
                    let t = jvs(a@).subrange(0, i + 1);
                    assert(t.subrange(0, t.len() - 1) =~= jvs(a@).subrange(0, i as int));
                    assert(t[t.len() - 1] == jv(a@[i as int]));
                }
                if i > 0 {
                    out.push(',');
                }
                push_json(&a[i], out);
                i = i + 1;
                proof {
                    assert(out@ =~= start + items_text(jvs(a@).subrange(0, i as int)));
                }
            }
            out.push(']');
            proof {
                assert(jvs(a@).subrange(0, a@.len() as int) =~= jvs(a@));
                assert(final(out)@ =~= old(out)@ + json_text(v@));
            }
        },
        JsonValue::Object(o) => {
            out.push('{');
            let ghost start = out@;
            let mut i: usize = 0;
            proof {
                lemma_jents(o@);
            }
            while i < o.len()
                invariant
                    *v == JsonValue::Object(*o),
                    i <= o@.len(),
                    jents(o@).len() == o@.len(),
                    forall|j: int|
                        0 <= j < o@.len() ==> #[trigger] jents(o@)[j] == (o@[j].0@, jv(o@[j].1)),
                    out@ == start + entries_text(jents(o@).subrange(0, i as int)),
                decreases o.len() - i,
            {
                proof {
                    vstd::std_specs::vec::axiom_vec_decreases_to_view(*o);
                    vstd::seq::axiom_seq_index_decreases(o@, i as int);
                    assert(decreases_to!(*v => v->Object_0));
                    assert(decreases_to!(*v => o@[i as int].1));
                    let t = jents(o@).subrange(0, i + 1);
                    assert(t.subrange(0, t.len() - 1) =~= jents(o@).subrange(0, i as int));
                    assert(t[t.len() - 1] == (o@[i as int].0@, jv(o@[i as int].1)));
                }
                if i > 0 {
                    out.push(',');
                }
                push_quoted(o[i].0.as_str(), out);
                out.push(':');
                push_json(&o[i].1, out);
                i = i + 1;
                proof {
                    assert(out@ =~= start + entries_text(jents(o@).subrange(0, i as int)));
                }
            }
            out.push('}');
            proof {
                assert(jents(o@).subrange(0, o@.len() as int) =~= jents(o@));
                assert(final(out)@ =~= old(out)@ + json_text(v@));
            }
        },
    }
}

impl JsonValue {
    /// The compact JSON text of the value.
    pub fn stringify(&self) -> (r: String)
        ensures
            r@ == json_text(self@),
    {
        let mut out: Vec<char> = Vec::new();
        push_json(self, &mut out);
        assert(out@ =~= json_text(self@));
        crate::text::from_chars(out.as_slice())
    }
}

} // verus!
