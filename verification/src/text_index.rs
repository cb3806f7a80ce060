//! The keyword index: the words of a text field, in lower case, each
//! listing the documents that contain it.
use vstd::prelude::*;
use crate::changes::strs;
use crate::index_maps::{
    ev_get, ev_of, find_entry, hash_insert, inserted, keys_unique, lemma_ev_get,
    lemma_ev_get_none, lemma_remove_lookup, lemma_update_lookup, lists_nonempty, HashIndex,
    IndexMap,
};
use crate::paths::IndexDefinition;
use crate::json::{JVal, JsonValue};
use crate::schema_uri::{json_pointer, pointer};
use crate::system_index::str_of;
use crate::text::{from_chars, lowercase_spec, to_chars, to_lowercase};

verus! {

/// Whether a character is alphabetic or numeric in Unicode.
pub uninterp spec fn alnum(c: char) -> bool;

/// `char::is_alphanumeric`; the contract names its result.
#[verifier::external_body]
fn is_alphanumeric(c: char) -> (b: bool)
    ensures
        b == alnum(c),
{
    c.is_alphanumeric()
}

/// The pieces of a text between the characters that are not alphanumeric.
pub open spec fn pieces(s: Seq<char>) -> Seq<Seq<char>>
    decreases s.len(),
{
    if s.len() == 0 {
        seq![Seq::<char>::empty()]
    } else {
        let p = pieces(s.drop_last());
        if !alnum(s.last()) {
            p.push(Seq::empty())
        } else {
            p.update(p.len() - 1, p.last().push(s.last()))
        }
    }
}

proof fn lemma_pieces_nonempty(s: Seq<char>)
    ensures
        pieces(s).len() >= 1,
    decreases s.len(),
{
    if s.len() > 0 {
        lemma_pieces_nonempty(s.drop_last());
    }
}

/// Whether `k` is a word of the text: a non-empty piece of the text in
/// lower case.
pub open spec fn is_token(text: Seq<char>, k: Seq<char>) -> bool {
    k.len() > 0 && pieces(lowercase_spec(text)).contains(k)
}

proof fn lemma_push_contains(s: Seq<Seq<char>>, x: Seq<char>, k: Seq<char>)
    ensures
        s.push(x).contains(k) <==> (s.contains(k) || k == x),
{
    if s.contains(k) {
        let a = choose|a: int| 0 <= a < s.len() && s[a] == k;
        assert(s.push(x)[a] == k);
    }
    if k == x {
        assert(s.push(x)[s.len() as int] == k);
    }
    if s.push(x).contains(k) && k != x {
        let a = choose|a: int| 0 <= a < s.push(x).len() && s.push(x)[a] == k;
        assert(a < s.len());
        assert(s[a] == k);
    }
}

/// Adds the word `w` to the words `out` unless it is empty or there.
fn add_word(out: &mut Vec<String>, w: &Vec<char>)
    requires
        forall|a: int, b: int| 0 <= a < b < old(out)@.len() ==> old(out)@[a]@ != old(out)@[b]@,
    ensures
        forall|a: int, b: int| 0 <= a < b < final(out)@.len() ==> final(out)@[a]@ != final(out)@[b]@,
        forall|k: Seq<char>|
            strs(final(out)@).contains(k) <==> (strs(old(out)@).contains(k) || (k == w@ && w@.len()
                > 0)),
{
    let ghost prev = strs(out@);
    if w.len() == 0 {
        return;
    }
    let mut known = false;
    let mut j: usize = 0;
    while j < out.len()
        invariant
            j <= out@.len(),
            prev == strs(out@),
            known == exists|a: int| 0 <= a < j && #[trigger] out@[a]@ == w@,
        decreases out.len() - j,
    {
        if crate::text::chars_equal(to_chars(out[j].as_str()).as_slice(), w.as_slice()) {
            known = true;
        }
        j = j + 1;
    }
    if !known {
        out.push(from_chars(w.as_slice()));
        proof {
            assert(strs(out@) =~= prev.push(w@));
            assert forall|k: Seq<char>| strs(out@).contains(k) <==> (prev.contains(k) || (k == w@ && w@.len() > 0)) by {
                lemma_push_contains(prev, w@, k);
            }
        }
    } else {
        proof {
            let a = choose|a: int| 0 <= a < out@.len() && #[trigger] out@[a]@ == w@;
            assert(prev[a] == w@);
        }
    }
}

/// The words of a text (see `is_token`), each once.
pub fn tokenize(text: &str) -> (r: Vec<String>)
    ensures
        forall|k: Seq<char>| strs(r@).contains(k) <==> is_token(text@, k),
        forall|i: int, j: int| 0 <= i < j < r@.len() ==> r@[i]@ != r@[j]@,
{
    let low = to_lowercase(text);
    let cs = to_chars(low.as_str());
    let ghost ls = lowercase_spec(text@);
    let mut out: Vec<String> = Vec::new();
    let mut cur: Vec<char> = Vec::new();
    let mut i: usize = 0;
    proof {
        assert(cs@.subrange(0, 0) =~= Seq::<char>::empty());
        assert(pieces(cs@.subrange(0, 0)).drop_last() =~= Seq::<Seq<char>>::empty());
        assert(strs(out@) =~= Seq::<Seq<char>>::empty());
    }
    while i < cs.len()
        invariant
            cs@ == ls,
            i <= cs@.len(),
            pieces(cs@.subrange(0, i as int)).len() >= 1,
            pieces(cs@.subrange(0, i as int)).last() == cur@,
            forall|k: Seq<char>|
                strs(out@).contains(k) <==> (k.len() > 0 && pieces(cs@.subrange(0, i as int)).drop_last().contains(k)),
            forall|a: int, b: int| 0 <= a < b < out@.len() ==> out@[a]@ != out@[b]@,
        decreases cs.len() - i,
    {
        let c = cs[i];
        let ghost before = pieces(cs@.subrange(0, i as int));
        let ghost w = cur@;
        proof {
            assert(cs@.subrange(0, i + 1).drop_last() =~= cs@.subrange(0, i as int));
            assert(cs@.subrange(0, i + 1).last() == c);
            lemma_pieces_nonempty(cs@.subrange(0, i + 1));
        }
        if is_alphanumeric(c) {
            cur.push(c);
            proof {
                let after = pieces(cs@.subrange(0, i + 1));
                assert(after =~= before.update(before.len() - 1, before.last().push(c)));
                assert(after.drop_last() =~= before.drop_last());
            }
        } else {
            add_word(&mut out, &cur);
            cur = Vec::new();
            proof {
                let after = pieces(cs@.subrange(0, i + 1));
                assert(after =~= before.push(Seq::<char>::empty()));
                assert(after.drop_last() =~= before);
                assert(before =~= before.drop_last().push(w));
                assert forall|k: Seq<char>| strs(out@).contains(k) <==> (k.len() > 0
                    && after.drop_last().contains(k)) by {
                    lemma_push_contains(before.drop_last(), w, k);
                }
            }
        }
        i = i + 1;
    }
    proof {
        assert(cs@.subrange(0, cs@.len() as int) =~= cs@);
    }
    let ghost all = pieces(ls);
    let ghost w = cur@;
    add_word(&mut out, &cur);
    proof {
        assert(all =~= all.drop_last().push(w));
        assert forall|k: Seq<char>| strs(out@).contains(k) <==> is_token(text@, k) by {
            lemma_push_contains(all.drop_last(), w, k);
        }
    }
    out
}

/// The first position of `id` in `ids`, or -1.
pub open spec fn first_pos(ids: Seq<Seq<char>>, id: Seq<char>) -> int
    decreases ids.len(),
{
    if ids.len() == 0 {
        -1
    } else if ids[0] == id {
        0
    } else {
        let r = first_pos(ids.drop_first(), id);
        if r < 0 {
            -1
        } else {
            r + 1
        }
    }
}

proof fn lemma_first_pos(ids: Seq<Seq<char>>, id: Seq<char>, i: int)
    requires
        0 <= i <= ids.len(),
        forall|j: int| 0 <= j < i ==> ids[j] != id,
        i < ids.len() ==> ids[i] == id,
    ensures
        first_pos(ids, id) == if i < ids.len() {
            i
        } else {
            -1
        },
    decreases ids.len(),
{
    if ids.len() > 0 && i > 0 {
        assert forall|j: int| 0 <= j < i - 1 implies ids.drop_first()[j] != id by {
            assert(ids.drop_first()[j] == ids[j + 1]);
        }
        lemma_first_pos(ids.drop_first(), id, i - 1);
    }
}

/// The list of a key with the first occurrence of `id` swapped out (the
/// last id takes its place); a key left with no document disappears.
pub open spec fn swap_out(o: Option<Seq<Seq<char>>>, id: Seq<char>) -> Option<Seq<Seq<char>>> {
    match o {
        Some(ids) => {
            let p = first_pos(ids, id);
            if p < 0 {
                o
            } else {
                let l = ids.update(p, ids.last()).drop_last();
                if l.len() == 0 {
                    None
                } else {
                    Some(l)
                }
            }
        },
        None => None,
    }
}

/// The list of a key with `id` appended unless it is there.
pub open spec fn add_once(o: Option<Seq<Seq<char>>>, id: Seq<char>) -> Option<Seq<Seq<char>>> {
    if o matches Some(ids) && ids.contains(id) {
        o
    } else {
        inserted(o, true, id)
    }
}

/// The text at the index's field of a document, when it is a string.
pub open spec fn field_text(doc: Option<JVal>, field_path: Seq<char>) -> Option<Seq<char>> {
    match doc {
        Some(d) => str_of(json_pointer(d, field_path)),
        None => None,
    }
}

/// The list of `k` once the words of the old text are taken out.
pub open spec fn after_old_text(lk: Option<Seq<Seq<char>>>, k: Seq<char>, old_text: Option<Seq<char>>, id: Seq<char>) -> Option<
    Seq<Seq<char>>,
> {
    match old_text {
        Some(t) => if is_token(t, k) {
            swap_out(lk, id)
        } else {
            lk
        },
        None => lk,
    }
}

/// The list of `k` once the document goes from the old text to the new.
pub open spec fn text_update_spec(
    lk: Option<Seq<Seq<char>>>,
    k: Seq<char>,
    old_text: Option<Seq<char>>,
    new_text: Option<Seq<char>>,
    id: Seq<char>,
) -> Option<Seq<Seq<char>>> {
    let m = after_old_text(lk, k, old_text, id);
    match new_text {
        Some(t) => if is_token(t, k) {
            add_once(m, id)
        } else {
            m
        },
        None => m,
    }
}

pub open spec fn lists(o: Option<Seq<Seq<char>>>, id: Seq<char>) -> bool {
    o matches Some(ids) && ids.contains(id)
}

fn position_of(ids: &Vec<String>, id: &str) -> (p: usize)
    ensures
        p <= ids@.len(),
        p < ids@.len() ==> first_pos(strs(ids@), id@) == p,
        p == ids@.len() ==> first_pos(strs(ids@), id@) == -1,
        p == ids@.len() <==> !strs(ids@).contains(id@),
{
    let mut i: usize = 0;
    while i < ids.len()
        invariant
            i <= ids@.len(),
            forall|j: int| 0 <= j < i ==> strs(ids@)[j] != id@,
        decreases ids.len() - i,
    {
        if crate::text::str_equal(ids[i].as_str(), id) {
            proof {
                lemma_first_pos(strs(ids@), id@, i as int);
            }
            return i;
        }
        i = i + 1;
    }
    proof {
        lemma_first_pos(strs(ids@), id@, i as int);
    }
    i
}

fn swap_out_token(e: &mut Vec<(String, Vec<String>)>, tok: &str, id: &str) -> (hit: bool)
    requires
        keys_unique(ev_of(old(e)@)),
        lists_nonempty(ev_of(old(e)@)),
    ensures
        keys_unique(ev_of(final(e)@)),
        lists_nonempty(ev_of(final(e)@)),
        forall|k: Seq<char>| #[trigger]
            ev_get(ev_of(final(e)@), k) == if k == tok@ {
                swap_out(ev_get(ev_of(old(e)@), k), id@)
            } else {
                ev_get(ev_of(old(e)@), k)
            },
        hit == lists(ev_get(ev_of(old(e)@), tok@), id@),
{
    let ghost ev = ev_of(e@);
    let i = find_entry(e, tok);
    proof {
        lemma_ev_get(ev, tok@);
    }
    if i == e.len() {
        proof {
            lemma_ev_get_none(ev, tok@);
        }
        return false;
    }
    assert(ev[i as int] == (e@[i as int].0@, strs(e@[i as int].1@)));
    let p = position_of(&e[i].1, id);
    if p == e[i].1.len() {
        return false;
    }
    let mut ids = e[i].1.clone();
    assert(ids@ == e@[i as int].1@);
    let _ = ids.swap_remove(p);
    let ghost before = e@;
    let ghost old_ids = strs(before[i as int].1@);
    proof {
        assert(strs(ids@) =~= old_ids.update(p as int, old_ids.last()).drop_last());
    }
    if ids.len() == 0 {
        let _ = e.remove(i);
        proof {
            assert(ev_of(e@) =~= ev.remove(i as int));
            let ev2 = ev_of(e@);
            assert forall|k: Seq<char>| #[trigger] ev_get(ev2, k) == if k == tok@ {
                swap_out(ev_get(ev, k), id@)
            } else {
                ev_get(ev, k)
            } by {
                lemma_remove_lookup(ev, i as int, k);
            }
            assert forall|j: int| 0 <= j < ev2.len() implies (#[trigger] ev2[j]).1.len() > 0 by {
                let j0 = if j < i { j } else { j + 1 };
                assert(ev2[j] == ev[j0]);
            }
            lemma_remove_lookup(ev, i as int, tok@);
        }
    } else {
        let k = e[i].0.clone();
        let ghost nl = strs(ids@);
        e.set(i, (k, ids));
        proof {
            assert(ev_of(e@) =~= ev.update(i as int, (ev[i as int].0, nl)));
            let ev2 = ev_of(e@);
            assert forall|k: Seq<char>| #[trigger] ev_get(ev2, k) == if k == tok@ {
                swap_out(ev_get(ev, k), id@)
            } else {
                ev_get(ev, k)
            } by {
                lemma_update_lookup(ev, i as int, nl, k);
            }
            assert forall|j: int| 0 <= j < ev2.len() implies (#[trigger] ev2[j]).1.len() > 0 by {
                if j != i {
                    assert(ev2[j] == ev[j]);
                }
            }
            lemma_update_lookup(ev, i as int, nl, tok@);
        }
    }
    true
}

fn add_token(e: &mut Vec<(String, Vec<String>)>, tok: &str, id: &str) -> (added: bool)
    requires
        keys_unique(ev_of(old(e)@)),
        lists_nonempty(ev_of(old(e)@)),
    ensures
        keys_unique(ev_of(final(e)@)),
        lists_nonempty(ev_of(final(e)@)),
        forall|k: Seq<char>| #[trigger]
            ev_get(ev_of(final(e)@), k) == if k == tok@ {
                add_once(ev_get(ev_of(old(e)@), k), id@)
            } else {
                ev_get(ev_of(old(e)@), k)
            },
        added == !lists(ev_get(ev_of(old(e)@), tok@), id@),
{
    let ghost ev = ev_of(e@);
    let i = find_entry(e, tok);
    proof {
        lemma_ev_get(ev, tok@);
    }
    if i < e.len() {
        assert(ev[i as int] == (e@[i as int].0@, strs(e@[i as int].1@)));
        let p = position_of(&e[i].1, id);
        if p < e[i].1.len() {
            return false;
        }
    } else {
        proof {
            lemma_ev_get_none(ev, tok@);
        }
    }
    hash_insert(e, tok.to_owned(), id.to_owned());
    true
}

/// Updates the keyword index `def` for the document `doc_id` going from
/// `old_doc` to `new_doc` (see `text_update_spec`): the document leaves the
/// lists of the words of its old text and joins those of the words of its
/// new text. Tells whether the index changed.
pub fn update_text_index(
    index: &mut HashIndex,
    def: &IndexDefinition,
    doc_id: &str,
    old_doc: Option<&JsonValue>,
    new_doc: Option<&JsonValue>,
) -> (changed: bool)
    requires
        old(index).wf(),
    ensures
        final(index).wf(),
        ({
            let ot = field_text(crate::index_ops::opt_jval(old_doc), def.field_path@);
            let nt = field_text(crate::index_ops::opt_jval(new_doc), def.field_path@);
            &&& forall|k: Seq<char>| #[trigger]
                final(index).lookup(k) == text_update_spec(old(index).lookup(k), k, ot, nt, doc_id@)
            &&& changed == ((ot matches Some(t) && exists|k: Seq<char>|
                is_token(t, k) && #[trigger] lists(old(index).lookup(k), doc_id@)) || (nt matches Some(
                t,
            ) && exists|k: Seq<char>|
                is_token(t, k) && !#[trigger] lists(after_old_text(old(index).lookup(k), k, ot, doc_id@), doc_id@)))
        }),
{
    let ghost l0 = ev_of(index.entries@);
    let ghost ot = field_text(crate::index_ops::opt_jval(old_doc), def.field_path@);
    let ghost nt = field_text(crate::index_ops::opt_jval(new_doc), def.field_path@);
    let old_text: Option<String> = match old_doc {
        Some(d) => match pointer(d, def.field_path.as_str()) {
            Some(JsonValue::String(s)) => Some(s.clone()),
            _ => None,
        },
        None => None,
    };
    let new_text: Option<String> = match new_doc {
        Some(d) => match pointer(d, def.field_path.as_str()) {
            Some(JsonValue::String(s)) => Some(s.clone()),
            _ => None,
        },
        None => None,
    };
    assert(match old_text {
        Some(t) => ot == Some(t@),
        None => ot is None,
    });
    assert(match new_text {
        Some(t) => nt == Some(t@),
        None => nt is None,
    });
    let mut changed_old = false;
    match &old_text {
        Some(t) => {
            let toks = tokenize(t.as_str());
            let mut j: usize = 0;
            while j < toks.len()
                invariant
                    j <= toks@.len(),
                    ot == Some(t@),
                    l0 == ev_of(old(index).entries@),
                    forall|k: Seq<char>| strs(toks@).contains(k) <==> is_token(t@, k),
                    forall|a: int, b: int| 0 <= a < b < toks@.len() ==> toks@[a]@ != toks@[b]@,
                    keys_unique(ev_of(index.entries@)),
                    lists_nonempty(ev_of(index.entries@)),
                    forall|k: Seq<char>| #[trigger]
                        ev_get(ev_of(index.entries@), k) == if strs(toks@).take(j as int).contains(k) {
                            swap_out(ev_get(l0, k), doc_id@)
                        } else {
                            ev_get(l0, k)
                        },
                    changed_old == exists|a: int| 0 <= a < j && #[trigger] lists(ev_get(l0, toks@[a]@), doc_id@),
                decreases toks.len() - j,
            {
                let ghost cur = ev_of(index.entries@);
                let ghost tj = toks@[j as int]@;
                proof {
                    assert(!strs(toks@).take(j as int).contains(tj)) by {
                        if strs(toks@).take(j as int).contains(tj) {
                            let a = choose|a: int| 0 <= a < j && strs(toks@).take(j as int)[a] == tj;
                            assert(toks@[a]@ == tj);
                        }
                    }
                }
                let hit = swap_out_token(&mut index.entries, toks[j].as_str(), doc_id);
                if hit {
                    changed_old = true;
                }
                proof {
                    assert(strs(toks@).take(j + 1) =~= strs(toks@).take(j as int).push(tj));
                    assert forall|k: Seq<char>| #[trigger]
                        ev_get(ev_of(index.entries@), k) == if strs(toks@).take(j + 1).contains(k) {
                            swap_out(ev_get(l0, k), doc_id@)
                        } else {
                            ev_get(l0, k)
                        } by {
                        lemma_push_contains(strs(toks@).take(j as int), tj, k);
                    }
                    assert(ev_get(cur, tj) == ev_get(l0, tj));
                    if hit {
                        assert(lists(ev_get(l0, toks@[j as int]@), doc_id@));
                    }
                }
                j = j + 1;
            }
            proof {
                assert(strs(toks@).take(toks@.len() as int) =~= strs(toks@));
                if changed_old {
                    let a = choose|a: int| 0 <= a < toks@.len() && #[trigger] lists(ev_get(l0, toks@[a]@), doc_id@);
                    assert(strs(toks@)[a] == toks@[a]@);
                    assert(is_token(t@, toks@[a]@));
                    assert(lists(old(index).lookup(toks@[a]@), doc_id@));
                }
                if exists|k: Seq<char>| is_token(t@, k) && #[trigger] lists(old(index).lookup(k), doc_id@) {
                    let k = choose|k: Seq<char>| is_token(t@, k) && #[trigger] lists(old(index).lookup(k), doc_id@);
                    assert(strs(toks@).contains(k));
                    let a = choose|a: int| 0 <= a < strs(toks@).len() && strs(toks@)[a] == k;
                    assert(lists(ev_get(l0, toks@[a]@), doc_id@));
                }
            }
        },
        None => {},
    }
    let ghost l1 = ev_of(index.entries@);
    assert(changed_old == (ot matches Some(t) && exists|k: Seq<char>|
        is_token(t, k) && #[trigger] lists(old(index).lookup(k), doc_id@)));
    proof {
        assert forall|k: Seq<char>| #[trigger] ev_get(l1, k) == after_old_text(ev_get(l0, k), k, ot, doc_id@) by {
            match old_text {
                Some(t) => {},
                None => {},
            }
        }
    }
    let mut changed_new = false;
    match &new_text {
        Some(t) => {
            let toks = tokenize(t.as_str());
            let mut j: usize = 0;
            while j < toks.len()
                invariant
                    j <= toks@.len(),
                    nt == Some(t@),
                    l0 == ev_of(old(index).entries@),
                    forall|k: Seq<char>| #[trigger] ev_get(l1, k) == after_old_text(ev_get(l0, k), k, ot, doc_id@),
                    forall|k: Seq<char>| strs(toks@).contains(k) <==> is_token(t@, k),
                    forall|a: int, b: int| 0 <= a < b < toks@.len() ==> toks@[a]@ != toks@[b]@,
                    keys_unique(ev_of(index.entries@)),
                    lists_nonempty(ev_of(index.entries@)),
                    forall|k: Seq<char>| #[trigger]
                        ev_get(ev_of(index.entries@), k) == if strs(toks@).take(j as int).contains(k) {
                            add_once(ev_get(l1, k), doc_id@)
                        } else {
                            ev_get(l1, k)
                        },
                    changed_new == exists|a: int| 0 <= a < j && !#[trigger] lists(ev_get(l1, toks@[a]@), doc_id@),
                decreases toks.len() - j,
            {
                let ghost cur = ev_of(index.entries@);
                let ghost tj = toks@[j as int]@;
                proof {
                    assert(!strs(toks@).take(j as int).contains(tj)) by {
                        if strs(toks@).take(j as int).contains(tj) {
                            let a = choose|a: int| 0 <= a < j && strs(toks@).take(j as int)[a] == tj;
                            assert(toks@[a]@ == tj);
                        }
                    }
                }
                let added = add_token(&mut index.entries, toks[j].as_str(), doc_id);
                if added {
                    changed_new = true;
                }
                proof {
                    assert(strs(toks@).take(j + 1) =~= strs(toks@).take(j as int).push(tj));
                    assert forall|k: Seq<char>| #[trigger]
                        ev_get(ev_of(index.entries@), k) == if strs(toks@).take(j + 1).contains(k) {
                            add_once(ev_get(l1, k), doc_id@)
                        } else {
                            ev_get(l1, k)
                        } by {
                        lemma_push_contains(strs(toks@).take(j as int), tj, k);
                    }
                    assert(ev_get(cur, tj) == ev_get(l1, tj));
                    if added {
                        assert(!lists(ev_get(l1, toks@[j as int]@), doc_id@));
                    }
                }
                j = j + 1;
            }
            proof {
                assert(strs(toks@).take(toks@.len() as int) =~= strs(toks@));
                if changed_new {
                    let a = choose|a: int| 0 <= a < toks@.len() && !#[trigger] lists(ev_get(l1, toks@[a]@), doc_id@);
                    assert(strs(toks@)[a] == toks@[a]@);
                    assert(is_token(t@, toks@[a]@));
                    assert(!lists(after_old_text(ev_get(l0, toks@[a]@), toks@[a]@, ot, doc_id@), doc_id@));
                    assert(!lists(after_old_text(old(index).lookup(toks@[a]@), toks@[a]@, ot, doc_id@), doc_id@));
                }
                if exists|k: Seq<char>| is_token(t@, k) && !#[trigger] lists(after_old_text(old(index).lookup(k), k, ot, doc_id@), doc_id@) {
                    let k = choose|k: Seq<char>| is_token(t@, k) && !#[trigger] lists(after_old_text(old(index).lookup(k), k, ot, doc_id@), doc_id@);
                    assert(strs(toks@).contains(k));
                    let a = choose|a: int| 0 <= a < strs(toks@).len() && strs(toks@)[a] == k;
                    assert(!lists(ev_get(l1, toks@[a]@), doc_id@));
                    assert(ev_get(l1, k) == after_old_text(ev_get(l0, k), k, ot, doc_id@));
                }
            }
        },
        None => {},
    }
    assert(changed_new == (nt matches Some(t) && exists|k: Seq<char>|
        is_token(t, k) && !#[trigger] lists(after_old_text(old(index).lookup(k), k, ot, doc_id@), doc_id@)));
    proof {
        assert forall|k: Seq<char>| #[trigger] index.lookup(k) == text_update_spec(ev_get(l0, k), k, ot, nt, doc_id@) by {
            match new_text {
                Some(t) => {},
                None => {},
            }
        }
    }
    changed_old || changed_new
}

/// The key under which the keyword index is searched: the query in lower
/// case.
pub fn text_search_key(query: &str) -> (r: String)
    ensures
        r@ == lowercase_spec(query@),
{
    to_lowercase(query)
}

} // verus!
