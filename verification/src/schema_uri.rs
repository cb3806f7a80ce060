//! Schema references: resolving a `$ref` path against the current schema
//! URI, splitting off its fragment, and reading a JSON pointer.
use vstd::prelude::*;
use crate::json::{JVal, JsonValue, entry_get, jvs, lemma_jvs};
use crate::parser::{find_char_pub, first_index_of};
use crate::text::{
    all_digits, digits_value, from_chars, has_prefix, is_digit, lemma_digits_value_grows,
    slice_chars, split_chars, split_spec, starts_with, to_chars,
};

verus! {

/// A URI split at its first `#`: the part before, and the fragment with its
/// `#`.
pub open spec fn split_fragment(uri: Seq<char>) -> (Seq<char>, Option<Seq<char>>) {
    let i = first_index_of(uri, '#');
    if i >= 0 {
        (uri.subrange(0, i), Some(uri.subrange(i, uri.len() as int)))
    } else {
        (uri, None)
    }
}

/// The path components of the pieces between slashes: empty pieces and `.`
/// are dropped.
pub open spec fn path_comps(parts: Seq<Seq<char>>) -> Seq<Seq<char>>
    decreases parts.len(),
{
    if parts.len() == 0 {
        Seq::empty()
    } else {
        let rest = path_comps(parts.drop_last());
        let c = parts.last();
        if c.len() == 0 || c == seq!['.'] {
            rest
        } else {
            rest.push(c)
        }
    }
}

/// Components with each `..` removing the component before it.
pub open spec fn normalize_comps(cs: Seq<Seq<char>>) -> Seq<Seq<char>>
    decreases cs.len(),
{
    if cs.len() == 0 {
        Seq::empty()
    } else {
        let r = normalize_comps(cs.drop_last());
        if cs.last() == seq!['.', '.'] {
            if r.len() > 0 {
                r.drop_last()
            } else {
                r
            }
        } else {
            r.push(cs.last())
        }
    }
}

/// Components joined with slashes.
pub open spec fn join_slash(cs: Seq<Seq<char>>) -> Seq<char>
    decreases cs.len(),
{
    if cs.len() == 0 {
        Seq::empty()
    } else if cs.len() == 1 {
        cs[0]
    } else {
        join_slash(cs.drop_last()) + seq!['/'] + cs.last()
    }
}

/// Every backslash replaced by a slash.
pub open spec fn slashes(s: Seq<char>) -> Seq<char> {
    s.map_values(|c: char| if c == '\\' { '/' } else { c })
}

/// A `$ref` path resolved against the URI of the schema that holds it: a
/// `db://` URI or an empty path as it is; otherwise the path is taken
/// relative to the directory of the base (from the root when it starts
/// with `/`), `.` and `..` are resolved, and the base's `db://` is kept.
pub open spec fn resolve_path_spec(base: Seq<char>, target: Seq<char>) -> Seq<char> {
    if has_prefix(target, "db://"@) {
        target
    } else if target.len() == 0 {
        base
    } else {
        let scheme = has_prefix(base, "db://"@);
        let rest = if scheme {
            base.subrange("db://"@.len() as int, base.len() as int)
        } else {
            base
        };
        let bc = path_comps(split_spec(rest, '/'));
        let parent = if bc.len() > 0 {
            bc.drop_last()
        } else {
            bc
        };
        let tc = path_comps(split_spec(target, '/'));
        let joined = if target[0] == '/' {
            tc
        } else {
            parent + tc
        };
        let text = slashes(join_slash(normalize_comps(joined)));
        if scheme {
            "db://"@ + text
        } else {
            text
        }
    }
}

/// `s` with each non-overlapping `a b` (left to right) replaced by `c`.
pub open spec fn repl2(s: Seq<char>, a: char, b: char, c: char) -> Seq<char>
    decreases s.len(),
{
    if s.len() < 2 {
        s
    } else if s[0] == a && s[1] == b {
        seq![c] + repl2(s.subrange(2, s.len() as int), a, b, c)
    } else {
        seq![s[0]] + repl2(s.drop_first(), a, b, c)
    }
}

/// A pointer token unescaped: `~1` to `/`, then `~0` to `~`.
pub open spec fn unescape_token(t: Seq<char>) -> Seq<char> {
    repl2(repl2(t, '~', '1', '/'), '~', '0', '~')
}

/// The array index a token names: decimal digits without a leading zero.
pub open spec fn index_token(t: Seq<char>) -> Option<nat> {
    if t.len() == 0 || (t[0] == '0' && t.len() != 1) || !all_digits(t) {
        None
    } else {
        Some(digits_value(t) as nat)
    }
}

/// One pointer step into a value.
pub open spec fn pointer_step(v: JVal, t: Seq<char>) -> Option<JVal> {
    match v {
        JVal::Obj(e) => entry_get(e, unescape_token(t)),
        JVal::Arr(a) => match index_token(unescape_token(t)) {
            Some(i) => if i < a.len() {
                Some(a[i as int])
            } else {
                None
            },
            None => None,
        },
        _ => None,
    }
}

pub open spec fn pointer_walk(v: JVal, toks: Seq<Seq<char>>) -> Option<JVal>
    decreases toks.len(),
{
    if toks.len() == 0 {
        Some(v)
    } else {
        match pointer_step(v, toks[0]) {
            Some(n) => pointer_walk(n, toks.drop_first()),
            None => None,
        }
    }
}

/// The value a JSON pointer designates: the whole value for an empty
/// pointer; else the pointer must start with `/` and each token between
/// slashes selects an object member or an array item.
pub open spec fn json_pointer(v: JVal, p: Seq<char>) -> Option<JVal> {
    if p.len() == 0 {
        Some(v)
    } else if p[0] != '/' {
        None
    } else {
        pointer_walk(v, split_spec(p.drop_first(), '/'))
    }
}

/// Splits a URI at its first `#` (see `split_fragment`).
pub fn split_uri_fragment(uri: &str) -> (r: (String, Option<String>))
    ensures
        r.0@ == split_fragment(uri@).0,
        match split_fragment(uri@).1 {
            Some(f) => r.1 matches Some(x) && x@ == f,
            None => r.1 is None,
        },
{
    let t = to_chars(uri);
    let i = find_char_pub(t.as_slice(), '#');
    if i < t.len() {
        (
            from_chars(slice_chars(t.as_slice(), 0, i).as_slice()),
            Some(from_chars(slice_chars(t.as_slice(), i, t.len()).as_slice())),
        )
    } else {
        (uri.to_owned(), None)
    }
}

fn comps_of(s: &[char]) -> (r: Vec<Vec<char>>)
    ensures
        r@.map_values(|c: Vec<char>| c@) == path_comps(split_spec(s@, '/')),
{
    let parts = split_chars(s, '/');
    let ghost ps = split_spec(s@, '/');
    let mut out: Vec<Vec<char>> = Vec::new();
    let mut i: usize = 0;
    while i < parts.len()
        invariant
            i <= parts@.len(),
            parts@.len() == ps.len(),
            forall|j: int| 0 <= j < parts@.len() ==> (#[trigger] parts@[j])@ == ps[j],
            out@.map_values(|c: Vec<char>| c@) == path_comps(ps.take(i as int)),
        decreases parts.len() - i,
    {
        proof {
            assert(ps.take(i + 1).drop_last() =~= ps.take(i as int));
            assert(ps.take(i + 1).last() == parts@[i as int]@);
        }
        let c = &parts[i];
        let is_dot = c.len() == 1 && c[0] == '.';
        proof {
            assert(is_dot == (c@ == seq!['.'])) by {
                if c@.len() == 1 && c@[0] == '.' {
                    assert(c@ =~= seq!['.']);
                }
            }
        }
        if !(c.len() == 0 || is_dot) {
            let ghost before = out@;
            out.push(c.clone());
            proof {
                assert(out@.map_values(|c: Vec<char>| c@) =~= before.map_values(|c: Vec<char>| c@).push(
                    c@,
                ));
            }
        }
        i = i + 1;
    }
    proof {
        assert(ps.take(parts@.len() as int) =~= ps);
    }
    out
}

fn normalize(cs: &Vec<Vec<char>>) -> (r: Vec<Vec<char>>)
    ensures
        r@.map_values(|c: Vec<char>| c@) == normalize_comps(cs@.map_values(|c: Vec<char>| c@)),
{
    let ghost v = cs@.map_values(|c: Vec<char>| c@);
    let mut out: Vec<Vec<char>> = Vec::new();
    let mut i: usize = 0;
    while i < cs.len()
        invariant
            i <= cs@.len(),
            v == cs@.map_values(|c: Vec<char>| c@),
            out@.map_values(|c: Vec<char>| c@) == normalize_comps(v.take(i as int)),
        decreases cs.len() - i,
    {
        proof {
            assert(v.take(i + 1).drop_last() =~= v.take(i as int));
            assert(v.take(i + 1).last() == cs@[i as int]@);
        }
        let c = &cs[i];
        let is_up = c.len() == 2 && c[0] == '.' && c[1] == '.';
        proof {
            assert(is_up == (c@ == seq!['.', '.'])) by {
                if c@.len() == 2 && c@[0] == '.' && c@[1] == '.' {
                    assert(c@ =~= seq!['.', '.']);
                }
            }
        }
        let ghost before = out@;
        if is_up {
            if out.len() > 0 {
                out.pop();
                proof {
                    assert(out@.map_values(|c: Vec<char>| c@) =~= before.map_values(
                        |c: Vec<char>| c@,
                    ).drop_last());
                }
            }
        } else {
            out.push(c.clone());
            proof {
                assert(out@.map_values(|c: Vec<char>| c@) =~= before.map_values(|c: Vec<char>| c@).push(
                    c@,
                ));
            }
        }
        i = i + 1;
    }
    proof {
        assert(v.take(cs@.len() as int) =~= v);
    }
    out
}

fn join_with_slashes(cs: &Vec<Vec<char>>) -> (r: Vec<char>)
    ensures
        r@ == slashes(join_slash(cs@.map_values(|c: Vec<char>| c@))),
{
    let ghost v = cs@.map_values(|c: Vec<char>| c@);
    let mut out: Vec<char> = Vec::new();
    let mut i: usize = 0;
    while i < cs.len()
        invariant
            i <= cs@.len(),
            v == cs@.map_values(|c: Vec<char>| c@),
            out@ == join_slash(v.take(i as int)),
        decreases cs.len() - i,
    {
        proof {
            assert(v.take(i + 1).drop_last() =~= v.take(i as int));
        }
        if i > 0 {
            out.push('/');
        }
        crate::json_text::push_all(&cs[i], &mut out);
        proof {
            if i == 0 {
                assert(out@ =~= v.take(1)[0]);
            } else {
                assert(out@ =~= join_slash(v.take(i as int)) + seq!['/'] + v.take(i + 1).last());
            }
        }
        i = i + 1;
    }
    proof {
        assert(v.take(cs@.len() as int) =~= v);
    }
    let ghost joined = out@;
    let mut k: usize = 0;
    while k < out.len()
        invariant
            k <= out@.len(),
            out@.len() == joined.len(),
            forall|j: int| 0 <= j < k ==> out@[j] == slashes(joined)[j],
            forall|j: int| k <= j < out@.len() ==> out@[j] == joined[j],
        decreases out.len() - k,
    {
        if out[k] == '\\' {
            out.set(k, '/');
        }
        k = k + 1;
    }
    proof {
        assert(out@ =~= slashes(joined));
    }
    out
}

/// Resolves a `$ref` path against a base URI (see `resolve_path_spec`).
pub fn resolve_path_uri(base: &str, target_path: &str) -> (r: String)
    ensures
        r@ == resolve_path_spec(base@, target_path@),
{
    let t = to_chars(target_path);
    let b = to_chars(base);
    let scheme = to_chars("db://");
    if starts_with(t.as_slice(), scheme.as_slice()) {
        return target_path.to_owned();
    }
    if t.len() == 0 {
        return base.to_owned();
    }
    let has_scheme = starts_with(b.as_slice(), scheme.as_slice());
    let rest = if has_scheme {
        slice_chars(b.as_slice(), scheme.len(), b.len())
    } else {
        b.clone()
    };
    let mut bc = comps_of(rest.as_slice());
    if bc.len() > 0 {
        let ghost before = bc@;
        bc.pop();
        proof {
            assert(bc@.map_values(|c: Vec<char>| c@) =~= before.map_values(|c: Vec<char>| c@).drop_last());
        }
    }
    let tc = comps_of(t.as_slice());
    let joined = if t[0] == '/' {
        tc
    } else {
        let ghost pb = bc@.map_values(|c: Vec<char>| c@);
        let ghost tv = tc@.map_values(|c: Vec<char>| c@);
        let mut j = bc;
        let mut k: usize = 0;
        while k < tc.len()
            invariant
                k <= tc@.len(),
                tv == tc@.map_values(|c: Vec<char>| c@),
                j@.map_values(|c: Vec<char>| c@) == pb + tv.take(k as int),
            decreases tc.len() - k,
        {
            let x = tc[k].clone();
            assert(x@ =~= tc@[k as int]@);
            let ghost before = j@;
            j.push(x);
            proof {
                assert(j@.map_values(|c: Vec<char>| c@) =~= before.map_values(|c: Vec<char>| c@).push(
                    x@,
                ));
                assert(tv.take(k + 1) =~= tv.take(k as int).push(tv[k as int]));
            }
            k = k + 1;
        }
        proof {
            assert(tv.take(tc@.len() as int) =~= tv);
        }
        j
    };
    let normalized = normalize(&joined);
    let text = join_with_slashes(&normalized);
    let mut out: Vec<char> = Vec::new();
    if has_scheme {
        crate::json_text::push_all(&scheme, &mut out);
    }
    crate::json_text::push_all(&text, &mut out);
    proof {
        assert(has_scheme ==> out@ =~= "db://"@ + text@);
        assert(!has_scheme ==> out@ =~= text@);
    }
    from_chars(out.as_slice())
}

fn unescape(t: &Vec<char>, a: char, b: char, c: char) -> (r: Vec<char>)
    ensures
        r@ == repl2(t@, a, b, c),
{
    let mut out: Vec<char> = Vec::new();
    let mut i: usize = 0;
    proof {
        assert(t@.subrange(0, t@.len() as int) =~= t@);
        assert(out@ + t@ =~= t@);
    }
    while i < t.len()
        invariant
            i <= t@.len(),
            out@ + repl2(t@.subrange(i as int, t@.len() as int), a, b, c) == repl2(t@, a, b, c),
        decreases t.len() - i,
    {
        let ghost rest = t@.subrange(i as int, t@.len() as int);
        if i + 1 < t.len() && t[i] == a && t[i + 1] == b {
            proof {
                assert(rest.subrange(2, rest.len() as int) =~= t@.subrange(i + 2, t@.len() as int));
            }
            out.push(c);
            i = i + 2;
            proof {
                assert(out@ + repl2(t@.subrange(i as int, t@.len() as int), a, b, c) =~= repl2(
                    t@,
                    a,
                    b,
                    c,
                ));
            }
        } else {
            proof {
                if rest.len() >= 2 {
                    assert(rest.drop_first() =~= t@.subrange(i + 1, t@.len() as int));
                } else {
                    assert(rest =~= seq![t@[i as int]]);
                    assert(t@.subrange(i + 1, t@.len() as int) =~= Seq::<char>::empty());
                }
            }
            out.push(t[i]);
            i = i + 1;
            proof {
                assert(out@ + repl2(t@.subrange(i as int, t@.len() as int), a, b, c) =~= repl2(
                    t@,
                    a,
                    b,
                    c,
                ));
            }
        }
    }
    proof {
        assert(t@.subrange(t@.len() as int, t@.len() as int) =~= Seq::<char>::empty());
        assert(out@ + Seq::<char>::empty() =~= out@);
    }
    out
}

/// The index a token names when below `bound` (see `index_token`).
fn parse_index(t: &Vec<char>, bound: usize) -> (r: Option<usize>)
    ensures
        match index_token(t@) {
            Some(i) => if i < bound {
                r == Some(i as usize)
            } else {
                r is None
            },
            None => r is None,
        },
{
    if t.len() == 0 || (t[0] == '0' && t.len() != 1) || bound == 0 {
        return None;
    }
    let mut acc: usize = 0;
    let mut i: usize = 0;
    while i < t.len()
        invariant
            i <= t@.len(),
            t@.len() > 0,
            all_digits(t@.subrange(0, i as int)),
            acc as int == digits_value(t@.subrange(0, i as int)),
            bound > 0,
            acc < bound,
        decreases t.len() - i,
    {
        let c = t[i];
        if !('0' <= c && c <= '9') {
            proof {
                assert(!is_digit(t@[i as int]));
            }
            return None;
        }
        let dv = (c as u32 - '0' as u32) as usize;
        proof {
            assert(t@.subrange(0, i + 1).drop_last() =~= t@.subrange(0, i as int));
            assert(all_digits(t@.subrange(0, i + 1))) by {
                assert forall|k: int| 0 <= k < i + 1 implies is_digit(
                    #[trigger] t@.subrange(0, i + 1)[k],
                ) by {
                    if k < i {
                        assert(t@.subrange(0, i + 1)[k] == t@.subrange(0, i as int)[k]);
                    }
                }
            }
        }
        if dv >= bound || acc > (bound - 1 - dv) / 10 {
            proof {
                let full = t@;
                let pre = t@.subrange(0, i + 1);
                assert(digits_value(pre) == acc * 10 + dv);
                if dv < bound {
                    let q: int = (bound - 1 - dv) as int;
                    assert(acc * 10 + dv >= bound) by (nonlinear_arith)
                        requires
                            acc > q / 10,
                            q == bound - 1 - dv,
                            q >= 0,
                    {
                    }
                }
                if all_digits(full) {
                    assert(full.subrange(0, i + 1) =~= pre);
                    lemma_digits_value_grows(full, i + 1);
                }
            }
            return None;
        }
        proof {
            let q: int = (bound - 1 - dv) as int;
            assert(acc * 10 + dv <= bound - 1) by (nonlinear_arith)
                requires
                    acc <= q / 10,
                    q == bound - 1 - dv,
                    q >= 0,
            {
            }
        }
        acc = acc * 10 + dv;
        i = i + 1;
    }
    proof {
        assert(t@.subrange(0, t@.len() as int) =~= t@);
    }
    if acc < bound {
        Some(acc)
    } else {
        None
    }
}

/// The value a JSON pointer designates (see `json_pointer`).
pub fn pointer<'a>(v: &'a JsonValue, p: &str) -> (r: Option<&'a JsonValue>)
    ensures
        match json_pointer(v@, p@) {
            Some(x) => r matches Some(y) && y@ == x,
            None => r is None,
        },
{
    let pc = to_chars(p);
    if pc.len() == 0 {
        return Some(v);
    }
    if pc[0] != '/' {
        return None;
    }
    let tail = slice_chars(pc.as_slice(), 1, pc.len());
    assert(tail@ =~= pc@.drop_first());
    let toks = split_chars(tail.as_slice(), '/');
    let ghost ts = split_spec(pc@.drop_first(), '/');
    proof {
        assert(ts.subrange(0, ts.len() as int) =~= ts);
    }
    let mut cur: &JsonValue = v;
    let mut i: usize = 0;
    while i < toks.len()
        invariant
            i <= toks@.len(),
            toks@.len() == ts.len(),
            forall|j: int| 0 <= j < toks@.len() ==> (#[trigger] toks@[j])@ == ts[j],
            pointer_walk(v@, ts) == pointer_walk(cur@, ts.subrange(i as int, ts.len() as int)),
            json_pointer(v@, p@) == pointer_walk(v@, ts),
        decreases toks.len() - i,
    {
        let ghost rest = ts.subrange(i as int, ts.len() as int);
        proof {
            assert(rest[0] == toks@[i as int]@);
            assert(rest.drop_first() =~= ts.subrange(i + 1, ts.len() as int));
        }
        let tok = unescape(&unescape(&toks[i], '~', '1', '/'), '~', '0', '~');
        let next: Option<&JsonValue> = match cur {
            JsonValue::Object(_) => cur.get(from_chars(tok.as_slice()).as_str()),
            JsonValue::Array(a) => {
                proof {
                    lemma_jvs(a@);
                }
                match parse_index(&tok, a.len()) {
                    Some(k) => Some(&a[k]),
                    None => None,
                }
            },
            _ => None,
        };
        proof {
            assert(tok@ == unescape_token(rest[0]));
            match next {
                Some(n) => assert(pointer_step(cur@, rest[0]) == Some(n@)),
                None => assert(pointer_step(cur@, rest[0]) is None),
            }
        }
        match next {
            Some(n) => {
                cur = n;
            },
            None => {
                proof {
                    assert(rest.len() > 0);
                    assert(pointer_walk(cur@, rest) is None);
                    assert(json_pointer(v@, p@) == pointer_walk(v@, ts));
                }
                return None;
            },
        }
        i = i + 1;
    }
    proof {
        assert(ts.subrange(ts.len() as int, ts.len() as int) =~= Seq::<Seq<char>>::empty());
    }
    Some(cur)
}

} // verus!
