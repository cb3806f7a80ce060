//! Secondary indexes in memory: each key of the index lists the ids of the
//! documents that hold it. A hash index keeps its keys in the order they
//! came; an ordered index keeps them sorted. Both are stored as records
//! (key, document id) and read back from them.
use vstd::prelude::*;
use crate::changes::strs;
use crate::paths::IndexRecord;
use crate::text::{chars_less, lemma_lex_irreflexive, lemma_lex_total, lemma_lex_transitive, lex_lt, to_chars};

verus! {

/// The entries of an index: each key with the ids of its documents.
pub open spec fn ev_of(e: Seq<(String, Vec<String>)>) -> Seq<(Seq<char>, Seq<Seq<char>>)> {
    e.map_values(|p: (String, Vec<String>)| (p.0@, strs(p.1@)))
}

/// The ids listed under `k`, when the key is there.
pub open spec fn ev_get(ev: Seq<(Seq<char>, Seq<Seq<char>>)>, k: Seq<char>) -> Option<Seq<Seq<char>>>
    decreases ev.len(),
{
    if ev.len() == 0 {
        None
    } else if ev.last().0 == k {
        Some(ev.last().1)
    } else {
        ev_get(ev.drop_last(), k)
    }
}

/// No key is listed twice.
pub open spec fn keys_unique(ev: Seq<(Seq<char>, Seq<Seq<char>>)>) -> bool {
    forall|i: int, j: int| 0 <= i < j < ev.len() ==> ev[i].0 != ev[j].0
}

/// Every listed key has at least one document.
pub open spec fn lists_nonempty(ev: Seq<(Seq<char>, Seq<Seq<char>>)>) -> bool {
    forall|i: int| 0 <= i < ev.len() ==> (#[trigger] ev[i]).1.len() > 0
}

/// The keys are in increasing order.
pub open spec fn keys_sorted(ev: Seq<(Seq<char>, Seq<Seq<char>>)>) -> bool {
    forall|i: int, j: int| 0 <= i < j < ev.len() ==> lex_lt(ev[i].0, ev[j].0)
}

/// The ids `ids` without `id`, in order.
pub open spec fn remove_all(ids: Seq<Seq<char>>, id: Seq<char>) -> Seq<Seq<char>>
    decreases ids.len(),
{
    if ids.len() == 0 {
        Seq::empty()
    } else {
        let rest = remove_all(ids.drop_last(), id);
        if ids.last() == id {
            rest
        } else {
            rest.push(ids.last())
        }
    }
}

/// The lookup of a key after `id` is recorded under it (`hit`), or under
/// another key.
pub open spec fn inserted(o: Option<Seq<Seq<char>>>, hit: bool, id: Seq<char>) -> Option<Seq<Seq<char>>> {
    if hit {
        Some(
            match o {
                Some(ids) => ids,
                None => Seq::empty(),
            }.push(id),
        )
    } else {
        o
    }
}

/// The lookup of a key after `id` is removed from it (`hit`), or from
/// another key: a key left with no document disappears.
pub open spec fn removed(o: Option<Seq<Seq<char>>>, hit: bool, id: Seq<char>) -> Option<Seq<Seq<char>>> {
    if hit {
        match o {
            Some(ids) => if remove_all(ids, id).len() == 0 {
                None
            } else {
                Some(remove_all(ids, id))
            },
            None => None,
        }
    } else {
        o
    }
}

/// The records (key, document id) as character sequences.
pub open spec fn records_view(rs: Seq<IndexRecord>) -> Seq<(Seq<char>, Seq<char>)> {
    rs.map_values(|r: IndexRecord| (r.key@, r.document_id@))
}

/// The document ids of the records of key `k`, in order.
pub open spec fn rec_ids(rs: Seq<(Seq<char>, Seq<char>)>, k: Seq<char>) -> Seq<Seq<char>>
    decreases rs.len(),
{
    if rs.len() == 0 {
        Seq::empty()
    } else {
        let rest = rec_ids(rs.drop_last(), k);
        if rs.last().0 == k {
            rest.push(rs.last().1)
        } else {
            rest
        }
    }
}

/// The lookup of `k` in records: its ids, when there is one.
pub open spec fn records_lookup(rs: Seq<(Seq<char>, Seq<char>)>, k: Seq<char>) -> Option<Seq<Seq<char>>> {
    if rec_ids(rs, k).len() == 0 {
        None
    } else {
        Some(rec_ids(rs, k))
    }
}

/// The records of the entries: each key with each of its ids, in order.
pub open spec fn flat(ev: Seq<(Seq<char>, Seq<Seq<char>>)>) -> Seq<(Seq<char>, Seq<char>)>
    decreases ev.len(),
{
    if ev.len() == 0 {
        Seq::empty()
    } else {
        flat(ev.drop_last()) + ev.last().1.map_values(|id: Seq<char>| (ev.last().0, id))
    }
}

/// An index held in memory.
pub trait IndexMap: Sized {
    /// The index is well formed.
    spec fn wf(&self) -> bool;

    /// The ids the index lists under `key`, when the key is there.
    spec fn lookup(&self, key: Seq<char>) -> Option<Seq<Seq<char>>>;

    /// An empty index.
    fn empty() -> (r: Self)
        ensures
            r.wf(),
            forall|k: Seq<char>| #[trigger] r.lookup(k) is None,
    ;

    /// Lists the document `doc_id` under `key`, after those listed there.
    fn insert_record(&mut self, key: String, doc_id: String)
        requires
            old(self).wf(),
        ensures
            final(self).wf(),
            forall|k: Seq<char>| #[trigger]
                final(self).lookup(k) == inserted(old(self).lookup(k), k == key@, doc_id@),
    ;

    /// Takes the document `doc_id` out of the list of `key`; a key left
    /// with no document disappears.
    fn remove_record(&mut self, key: &str, doc_id: &str)
        requires
            old(self).wf(),
        ensures
            final(self).wf(),
            forall|k: Seq<char>| #[trigger]
                final(self).lookup(k) == removed(old(self).lookup(k), k == key@, doc_id@),
    ;

    /// The ids listed under `key`.
    fn get_doc_ids(&self, key: &str) -> (r: Option<&Vec<String>>)
        requires
            self.wf(),
        ensures
            match self.lookup(key@) {
                Some(ids) => r matches Some(v) && strs(v@) == ids,
                None => r is None,
            },
    ;

    /// The index that the records describe, each record listed in order.
    fn from_records(records: Vec<IndexRecord>) -> (r: Self)
        ensures
            r.wf(),
            forall|k: Seq<char>| #[trigger]
                r.lookup(k) == records_lookup(records_view(records@), k),
    ;

    /// The records that describe the index.
    fn to_records(&self) -> (r: Vec<IndexRecord>)
        requires
            self.wf(),
        ensures
            forall|k: Seq<char>| #[trigger]
                records_lookup(records_view(r@), k) == self.lookup(k),
    ;
}

proof fn lemma_ev_get_at(ev: Seq<(Seq<char>, Seq<Seq<char>>)>, k: Seq<char>, i: int)
    requires
        keys_unique(ev),
        0 <= i < ev.len(),
        ev[i].0 == k,
    ensures
        ev_get(ev, k) == Some(ev[i].1),
    decreases ev.len(),
{
    if i < ev.len() - 1 {
        assert(ev.last().0 != k);
        lemma_ev_get_at(ev.drop_last(), k, i);
    }
}

pub(crate) proof fn lemma_ev_get_none(ev: Seq<(Seq<char>, Seq<Seq<char>>)>, k: Seq<char>)
    requires
        forall|i: int| 0 <= i < ev.len() ==> ev[i].0 != k,
    ensures
        ev_get(ev, k) is None,
    decreases ev.len(),
{
    if ev.len() > 0 {
        assert(ev.last().0 != k);
        lemma_ev_get_none(ev.drop_last(), k);
    }
}

/// The lookup of any key from the entries: by position when the key is
/// there.
pub(crate) proof fn lemma_ev_get(ev: Seq<(Seq<char>, Seq<Seq<char>>)>, k: Seq<char>)
    requires
        keys_unique(ev),
    ensures
        (exists|i: int| 0 <= i < ev.len() && ev[i].0 == k) || ev_get(ev, k) is None,
        forall|i: int| 0 <= i < ev.len() && ev[i].0 == k ==> ev_get(ev, k) == Some(ev[i].1),
{
    if forall|i: int| 0 <= i < ev.len() ==> ev[i].0 != k {
        lemma_ev_get_none(ev, k);
    }
    assert forall|i: int| 0 <= i < ev.len() && ev[i].0 == k implies ev_get(ev, k) == Some(ev[i].1) by {
        lemma_ev_get_at(ev, k, i);
    }
}

pub(crate) fn find_entry(e: &Vec<(String, Vec<String>)>, key: &str) -> (i: usize)
    ensures
        i <= e@.len(),
        i < e@.len() ==> e@[i as int].0@ == key@,
        i == e@.len() ==> forall|j: int| 0 <= j < e@.len() ==> e@[j].0@ != key@,
{
    let mut i: usize = 0;
    while i < e.len()
        invariant
            i <= e@.len(),
            forall|j: int| 0 <= j < i ==> e@[j].0@ != key@,
        decreases e.len() - i,
    {
        if crate::text::str_equal(e[i].0.as_str(), key) {
            return i;
        }
        i = i + 1;
    }
    i
}

/// The lookup after the ids of the entry at `i` are replaced by `ids`.
pub(crate) proof fn lemma_update_lookup(
    ev: Seq<(Seq<char>, Seq<Seq<char>>)>,
    i: int,
    ids: Seq<Seq<char>>,
    k: Seq<char>,
)
    requires
        keys_unique(ev),
        0 <= i < ev.len(),
    ensures
        keys_unique(ev.update(i, (ev[i].0, ids))),
        ev_get(ev.update(i, (ev[i].0, ids)), k) == if k == ev[i].0 {
            Some(ids)
        } else {
            ev_get(ev, k)
        },
{
    let ev2 = ev.update(i, (ev[i].0, ids));
    assert(keys_unique(ev2)) by {
        assert forall|a: int, b: int| 0 <= a < b < ev2.len() implies ev2[a].0 != ev2[b].0 by {
            assert(ev2[a].0 == ev[a].0);
            assert(ev2[b].0 == ev[b].0);
        }
    }
    lemma_ev_get(ev, k);
    lemma_ev_get(ev2, k);
    if k == ev[i].0 {
        assert(ev2[i].0 == k);
    } else {
        if exists|j: int| 0 <= j < ev.len() && ev[j].0 == k {
            let j = choose|j: int| 0 <= j < ev.len() && ev[j].0 == k;
            assert(ev2[j].0 == k);
        } else {
            assert forall|j: int| 0 <= j < ev2.len() implies ev2[j].0 != k by {
                if j != i {
                    assert(ev2[j] == ev[j]);
                }
            }
            lemma_ev_get_none(ev2, k);
        }
    }
}

/// The lookup after the entry at `i` is taken out.
pub(crate) proof fn lemma_remove_lookup(ev: Seq<(Seq<char>, Seq<Seq<char>>)>, i: int, k: Seq<char>)
    requires
        keys_unique(ev),
        0 <= i < ev.len(),
    ensures
        keys_unique(ev.remove(i)),
        ev_get(ev.remove(i), k) == if k == ev[i].0 {
            None
        } else {
            ev_get(ev, k)
        },
{
    let ev2 = ev.remove(i);
    assert(keys_unique(ev2)) by {
        assert forall|a: int, b: int| 0 <= a < b < ev2.len() implies ev2[a].0 != ev2[b].0 by {
            let a0 = if a < i { a } else { a + 1 };
            let b0 = if b < i { b } else { b + 1 };
            assert(ev2[a] == ev[a0]);
            assert(ev2[b] == ev[b0]);
        }
    }
    lemma_ev_get(ev, k);
    lemma_ev_get(ev2, k);
    if k == ev[i].0 {
        assert forall|j: int| 0 <= j < ev2.len() implies ev2[j].0 != k by {
            let j0 = if j < i { j } else { j + 1 };
            assert(ev2[j] == ev[j0]);
        }
        lemma_ev_get_none(ev2, k);
    } else {
        if exists|j: int| 0 <= j < ev.len() && ev[j].0 == k {
            let j = choose|j: int| 0 <= j < ev.len() && ev[j].0 == k;
            let j2 = if j < i { j } else { j - 1 };
            assert(ev2[j2] == ev[j]);
        } else {
            assert forall|j: int| 0 <= j < ev2.len() implies ev2[j].0 != k by {
                let j0 = if j < i { j } else { j + 1 };
                assert(ev2[j] == ev[j0]);
            }
            lemma_ev_get_none(ev2, k);
        }
    }
}

/// The lookup after a new key is placed at position `p`.
proof fn lemma_insert_lookup(
    ev: Seq<(Seq<char>, Seq<Seq<char>>)>,
    p: int,
    key: Seq<char>,
    ids: Seq<Seq<char>>,
    k: Seq<char>,
)
    requires
        keys_unique(ev),
        0 <= p <= ev.len(),
        forall|j: int| 0 <= j < ev.len() ==> ev[j].0 != key,
    ensures
        keys_unique(ev.insert(p, (key, ids))),
        ev_get(ev.insert(p, (key, ids)), k) == if k == key {
            Some(ids)
        } else {
            ev_get(ev, k)
        },
{
    let ev2 = ev.insert(p, (key, ids));
    assert(keys_unique(ev2)) by {
        assert forall|a: int, b: int| 0 <= a < b < ev2.len() implies ev2[a].0 != ev2[b].0 by {
            if a != p && b != p {
                let a0 = if a < p { a } else { a - 1 };
                let b0 = if b < p { b } else { b - 1 };
                assert(ev2[a] == ev[a0]);
                assert(ev2[b] == ev[b0]);
            } else if a == p {
                let b0 = b - 1;
                assert(ev2[b] == ev[b0]);
            } else {
                let a0 = if a < p { a } else { a - 1 };
                assert(ev2[a] == ev[a0]);
            }
        }
    }
    lemma_ev_get(ev, k);
    lemma_ev_get(ev2, k);
    if k == key {
        assert(ev2[p].0 == k);
    } else {
        if exists|j: int| 0 <= j < ev.len() && ev[j].0 == k {
            let j = choose|j: int| 0 <= j < ev.len() && ev[j].0 == k;
            let j2 = if j < p { j } else { j + 1 };
            assert(ev2[j2] == ev[j]);
        } else {
            assert forall|j: int| 0 <= j < ev2.len() implies ev2[j].0 != k by {
                if j != p {
                    let j0 = if j < p { j } else { j - 1 };
                    assert(ev2[j] == ev[j0]);
                }
            }
            lemma_ev_get_none(ev2, k);
        }
    }
}

fn remove_id(ids: &Vec<String>, id: &str) -> (r: Vec<String>)
    ensures
        strs(r@) == remove_all(strs(ids@), id@),
{
    let mut out: Vec<String> = Vec::new();
    let mut i: usize = 0;
    assert(strs(ids@).subrange(0, 0) =~= Seq::<Seq<char>>::empty());
    assert(strs(out@) =~= Seq::<Seq<char>>::empty());
    while i < ids.len()
        invariant
            i <= ids@.len(),
            strs(out@) == remove_all(strs(ids@).subrange(0, i as int), id@),
        decreases ids.len() - i,
    {
        assert(strs(ids@).subrange(0, i + 1).drop_last() =~= strs(ids@).subrange(0, i as int));
        assert(strs(ids@).subrange(0, i + 1).last() == ids@[i as int]@);
        if !crate::text::str_equal(ids[i].as_str(), id) {
            let ghost before = strs(out@);
            out.push(ids[i].clone());
            assert(strs(out@) =~= before.push(ids@[i as int]@));
        }
        i = i + 1;
    }
    assert(strs(ids@).subrange(0, ids@.len() as int) =~= strs(ids@));
    out
}

/// Appends `id` to the entry at `i`.
fn push_at(e: &mut Vec<(String, Vec<String>)>, i: usize, id: String)
    requires
        i < old(e)@.len(),
    ensures
        ev_of(final(e)@) == ev_of(old(e)@).update(
            i as int,
            (ev_of(old(e)@)[i as int].0, ev_of(old(e)@)[i as int].1.push(id@)),
        ),
{
    let mut ids = e[i].1.clone();
    let k = e[i].0.clone();
    let ghost before = e@;
    ids.push(id);
    assert(strs(ids@) =~= strs(before[i as int].1@).push(id@));
    e.set(i, (k, ids));
    assert(ev_of(e@) =~= ev_of(before).update(
        i as int,
        (ev_of(before)[i as int].0, ev_of(before)[i as int].1.push(id@)),
    ));
}

/// Takes `id` out of the entry at `i`, and the entry out when nothing is
/// left.
fn remove_at(e: &mut Vec<(String, Vec<String>)>, i: usize, id: &str)
    requires
        i < old(e)@.len(),
    ensures
        ({
            let ev = ev_of(old(e)@);
            let kept = remove_all(ev[i as int].1, id@);
            ev_of(final(e)@) == if kept.len() == 0 {
                ev.remove(i as int)
            } else {
                ev.update(i as int, (ev[i as int].0, kept))
            }
        }),
{
    let ghost before = e@;
    let kept = remove_id(&e[i].1, id);
    if kept.len() == 0 {
        let _ = e.remove(i);
        assert(ev_of(e@) =~= ev_of(before).remove(i as int));
    } else {
        let k = e[i].0.clone();
        e.set(i, (k, kept));
        assert(ev_of(e@) =~= ev_of(before).update(i as int, (ev_of(before)[i as int].0, strs(kept@))));
    }
}

proof fn lemma_remove_all_len(ids: Seq<Seq<char>>, id: Seq<char>)
    ensures
        remove_all(ids, id).len() <= ids.len(),
    decreases ids.len(),
{
    if ids.len() > 0 {
        lemma_remove_all_len(ids.drop_last(), id);
    }
}

proof fn lemma_rec_ids_concat(a: Seq<(Seq<char>, Seq<char>)>, b: Seq<(Seq<char>, Seq<char>)>, k: Seq<char>)
    ensures
        rec_ids(a + b, k) == rec_ids(a, k) + rec_ids(b, k),
    decreases b.len(),
{
    if b.len() == 0 {
        assert(a + b =~= a);
        assert(rec_ids(a, k) + rec_ids(b, k) =~= rec_ids(a, k));
    } else {
        assert((a + b).drop_last() =~= a + b.drop_last());
        assert((a + b).last() == b.last());
        lemma_rec_ids_concat(a, b.drop_last(), k);
        if b.last().0 == k {
            assert(rec_ids(a + b, k) =~= rec_ids(a, k) + rec_ids(b, k));
        } else {
            assert(rec_ids(a + b, k) =~= rec_ids(a, k) + rec_ids(b, k));
        }
    }
}

proof fn lemma_rec_ids_map(ids: Seq<Seq<char>>, kk: Seq<char>, k: Seq<char>)
    ensures
        rec_ids(ids.map_values(|id: Seq<char>| (kk, id)), k) == if kk == k {
            ids
        } else {
            Seq::empty()
        },
    decreases ids.len(),
{
    let m = ids.map_values(|id: Seq<char>| (kk, id));
    if ids.len() > 0 {
        assert(m.drop_last() =~= ids.drop_last().map_values(|id: Seq<char>| (kk, id)));
        lemma_rec_ids_map(ids.drop_last(), kk, k);
        if kk == k {
            assert(rec_ids(m, k) =~= ids);
        }
    } else {
        assert(rec_ids(m, k) =~= Seq::<Seq<char>>::empty());
        if kk == k {
            assert(ids =~= Seq::<Seq<char>>::empty());
        }
    }
}

proof fn lemma_flat_ids(ev: Seq<(Seq<char>, Seq<Seq<char>>)>, k: Seq<char>)
    requires
        keys_unique(ev),
    ensures
        rec_ids(flat(ev), k) == match ev_get(ev, k) {
            Some(ids) => ids,
            None => Seq::empty(),
        },
    decreases ev.len(),
{
    if ev.len() > 0 {
        let evd = ev.drop_last();
        assert(keys_unique(evd)) by {
            assert forall|a: int, b: int| 0 <= a < b < evd.len() implies evd[a].0 != evd[b].0 by {
                assert(evd[a] == ev[a]);
                assert(evd[b] == ev[b]);
            }
        }
        lemma_flat_ids(evd, k);
        lemma_rec_ids_concat(
            flat(evd),
            ev.last().1.map_values(|id: Seq<char>| (ev.last().0, id)),
            k,
        );
        lemma_rec_ids_map(ev.last().1, ev.last().0, k);
        if ev.last().0 == k {
            assert forall|j: int| 0 <= j < evd.len() implies evd[j].0 != k by {
                assert(evd[j] == ev[j]);
            }
            lemma_ev_get_none(evd, k);
            assert(rec_ids(flat(ev), k) =~= ev.last().1);
        } else {
            assert(rec_ids(flat(ev), k) =~= rec_ids(flat(evd), k));
        }
    } else {
        assert(rec_ids(flat(ev), k) =~= Seq::<Seq<char>>::empty());
    }
}

/// Records read back from the entries give the lookup of the entries.
proof fn lemma_flat_lookup(ev: Seq<(Seq<char>, Seq<Seq<char>>)>, k: Seq<char>)
    requires
        keys_unique(ev),
        lists_nonempty(ev),
    ensures
        records_lookup(flat(ev), k) == ev_get(ev, k),
{
    lemma_flat_ids(ev, k);
    lemma_ev_get(ev, k);
    if ev_get(ev, k) is Some {
        let i = choose|i: int| 0 <= i < ev.len() && ev[i].0 == k;
        assert(ev[i].1.len() > 0);
    }
}

/// The records after one more: the lookup as if it was inserted.
proof fn lemma_records_step(rs: Seq<(Seq<char>, Seq<char>)>, i: int, k: Seq<char>)
    requires
        0 <= i < rs.len(),
    ensures
        records_lookup(rs.take(i + 1), k) == inserted(records_lookup(rs.take(i), k), k == rs[i].0, rs[i].1),
{
    assert(rs.take(i + 1).drop_last() =~= rs.take(i));
    assert(rs.take(i + 1).last() == rs[i]);
    if k == rs[i].0 && rec_ids(rs.take(i), k).len() == 0 {
        assert(rec_ids(rs.take(i + 1), k) =~= Seq::<Seq<char>>::empty().push(rs[i].1));
    }
}

fn flatten_records(e: &Vec<(String, Vec<String>)>) -> (r: Vec<IndexRecord>)
    ensures
        records_view(r@) == flat(ev_of(e@)),
{
    let mut out: Vec<IndexRecord> = Vec::new();
    let mut i: usize = 0;
    assert(ev_of(e@).take(0) =~= Seq::<(Seq<char>, Seq<Seq<char>>)>::empty());
    assert(records_view(out@) =~= flat(ev_of(e@).take(0)));
    while i < e.len()
        invariant
            i <= e@.len(),
            records_view(out@) == flat(ev_of(e@).take(i as int)),
        decreases e.len() - i,
    {
        let ghost ev = ev_of(e@);
        let ghost start = records_view(out@);
        let ids = &e[i].1;
        let mut j: usize = 0;
        assert(ev.take(i + 1).drop_last() =~= ev.take(i as int));
        assert(ev.take(i + 1).last() == ev[i as int]);
        assert(ev[i as int] == (e@[i as int].0@, strs(e@[i as int].1@)));
        let ghost m = strs(ids@).map_values(|id: Seq<char>| (e@[i as int].0@, id));
        assert(records_view(out@) =~= start + m.take(0));
        while j < ids.len()
            invariant
                i < e@.len(),
                j <= ids@.len(),
                ids == &e@[i as int].1,
                m == strs(ids@).map_values(|id: Seq<char>| (e@[i as int].0@, id)),
                records_view(out@) == start + m.take(j as int),
            decreases ids.len() - j,
        {
            let ghost before = records_view(out@);
            out.push(IndexRecord { key: e[i].0.clone(), document_id: ids[j].clone() });
            assert(m.take(j + 1) =~= m.take(j as int).push(m[j as int]));
            assert(records_view(out@) =~= before.push((e@[i as int].0@, ids@[j as int]@)));
            j = j + 1;
        }
        assert(m.take(ids@.len() as int) =~= m);
        i = i + 1;
    }
    assert(ev_of(e@).take(e@.len() as int) =~= ev_of(e@));
    out
}

fn get_ids<'a>(e: &'a Vec<(String, Vec<String>)>, key: &str) -> (r: Option<&'a Vec<String>>)
    requires
        keys_unique(ev_of(e@)),
    ensures
        match ev_get(ev_of(e@), key@) {
            Some(ids) => r matches Some(v) && strs(v@) == ids,
            None => r is None,
        },
{
    let i = find_entry(e, key);
    proof {
        lemma_ev_get(ev_of(e@), key@);
        if i < e@.len() {
            assert(ev_of(e@)[i as int] == (e@[i as int].0@, strs(e@[i as int].1@)));
        } else {
            assert forall|j: int| 0 <= j < ev_of(e@).len() implies ev_of(e@)[j].0 != key@ by {
                assert(ev_of(e@)[j] == (e@[j].0@, strs(e@[j].1@)));
            }
            lemma_ev_get_none(ev_of(e@), key@);
        }
    }
    if i < e.len() {
        Some(&e[i].1)
    } else {
        None
    }
}

fn remove_entry_id(e: &mut Vec<(String, Vec<String>)>, key: &str, id: &str)
    requires
        keys_unique(ev_of(old(e)@)),
        lists_nonempty(ev_of(old(e)@)),
    ensures
        keys_unique(ev_of(final(e)@)),
        lists_nonempty(ev_of(final(e)@)),
        forall|k: Seq<char>| #[trigger]
            ev_get(ev_of(final(e)@), k) == removed(ev_get(ev_of(old(e)@), k), k == key@, id@),
        keys_sorted(ev_of(old(e)@)) ==> keys_sorted(ev_of(final(e)@)),
{
    let ghost ev = ev_of(e@);
    let i = find_entry(e, key);
    if i < e.len() {
        remove_at(e, i, id);
        proof {
            let kept = remove_all(ev[i as int].1, id@);
            let ev2 = ev_of(e@);
            assert forall|k: Seq<char>| #[trigger]
                ev_get(ev2, k) == removed(ev_get(ev, k), k == key@, id@) by {
                lemma_ev_get(ev, k);
                if kept.len() == 0 {
                    lemma_remove_lookup(ev, i as int, k);
                } else {
                    lemma_update_lookup(ev, i as int, kept, k);
                }
            }
            if kept.len() == 0 {
                lemma_remove_lookup(ev, i as int, key@);
                assert forall|j: int| 0 <= j < ev2.len() implies (#[trigger] ev2[j]).1.len() > 0 by {
                    let j0 = if j < i { j } else { j + 1 };
                    assert(ev2[j] == ev[j0]);
                }
                if keys_sorted(ev) {
                    assert forall|a: int, b: int| 0 <= a < b < ev2.len() implies lex_lt(ev2[a].0, ev2[b].0) by {
                        let a0 = if a < i { a } else { a + 1 };
                        let b0 = if b < i { b } else { b + 1 };
                        assert(ev2[a] == ev[a0]);
                        assert(ev2[b] == ev[b0]);
                    }
                }
            } else {
                lemma_update_lookup(ev, i as int, kept, key@);
                assert forall|j: int| 0 <= j < ev2.len() implies (#[trigger] ev2[j]).1.len() > 0 by {
                    if j != i {
                        assert(ev2[j] == ev[j]);
                    }
                }
                if keys_sorted(ev) {
                    assert forall|a: int, b: int| 0 <= a < b < ev2.len() implies lex_lt(ev2[a].0, ev2[b].0) by {
                        assert(ev2[a].0 == ev[a].0);
                        assert(ev2[b].0 == ev[b].0);
                    }
                }
            }
        }
    } else {
        proof {
            assert forall|k: Seq<char>| #[trigger]
                ev_get(ev_of(e@), k) == removed(ev_get(ev, k), k == key@, id@) by {
                if k == key@ {
                    lemma_ev_get_none(ev, k);
                }
            }
        }
    }
}

pub(crate) fn hash_insert(e: &mut Vec<(String, Vec<String>)>, key: String, id: String)
    requires
        keys_unique(ev_of(old(e)@)),
        lists_nonempty(ev_of(old(e)@)),
    ensures
        keys_unique(ev_of(final(e)@)),
        lists_nonempty(ev_of(final(e)@)),
        forall|k: Seq<char>| #[trigger]
            ev_get(ev_of(final(e)@), k) == inserted(ev_get(ev_of(old(e)@), k), k == key@, id@),
{
    let ghost ev = ev_of(e@);
    let i = find_entry(e, key.as_str());
    if i < e.len() {
        let ghost idv = id@;
        push_at(e, i, id);
        proof {
            let ev2 = ev_of(e@);
            let ids2 = ev[i as int].1.push(idv);
            assert forall|k: Seq<char>| #[trigger]
                ev_get(ev2, k) == inserted(ev_get(ev, k), k == key@, idv) by {
                lemma_update_lookup(ev, i as int, ids2, k);
                lemma_ev_get(ev, k);
            }
            lemma_update_lookup(ev, i as int, ids2, key@);
            assert forall|j: int| 0 <= j < ev2.len() implies (#[trigger] ev2[j]).1.len() > 0 by {
                if j != i {
                    assert(ev2[j] == ev[j]);
                }
            }
        }
    } else {
        let ghost kv = key@;
        let ghost idv = id@;
        let n = e.len();
        let v = vec![id];
        assert(strs(v@) =~= seq![idv]);
        let ghost before = e@;
        e.push((key, v));
        proof {
            let ev2 = ev_of(e@);
            assert(ev2[n as int] == (kv, seq![idv]));
            assert forall|j: int| 0 <= j < n implies ev2[j] == ev[j] by {
                assert(e@[j] == before[j]);
            }
            assert(ev2 =~= ev.insert(n as int, (kv, seq![idv])));
            assert forall|j: int| 0 <= j < ev.len() implies ev[j].0 != kv by {}
            assert forall|k: Seq<char>| #[trigger]
                ev_get(ev2, k) == inserted(ev_get(ev, k), k == kv, idv) by {
                lemma_insert_lookup(ev, n as int, kv, seq![idv], k);
                if k == kv {
                    lemma_ev_get_none(ev, k);
                    assert(Seq::<Seq<char>>::empty().push(idv) =~= seq![idv]);
                }
            }
            lemma_insert_lookup(ev, n as int, kv, seq![idv], kv);
            assert forall|j: int| 0 <= j < ev2.len() implies (#[trigger] ev2[j]).1.len() > 0 by {
                if j < n {
                    assert(ev2[j] == ev[j]);
                }
            }
        }
    }
}

/// The position of the first key above `key`, or the length.
fn sorted_position(e: &Vec<(String, Vec<String>)>, key: &str) -> (p: usize)
    ensures
        p <= e@.len(),
        forall|j: int| 0 <= j < p ==> !lex_lt(key@, #[trigger] e@[j].0@),
        p < e@.len() ==> lex_lt(key@, e@[p as int].0@),
{
    let kc = to_chars(key);
    let mut i: usize = 0;
    while i < e.len()
        invariant
            i <= e@.len(),
            kc@ == key@,
            forall|j: int| 0 <= j < i ==> !lex_lt(key@, #[trigger] e@[j].0@),
        decreases e.len() - i,
    {
        let ec = to_chars(e[i].0.as_str());
        if chars_less(kc.as_slice(), ec.as_slice()) {
            return i;
        }
        i = i + 1;
    }
    i
}

fn btree_insert(e: &mut Vec<(String, Vec<String>)>, key: String, id: String)
    requires
        keys_sorted(ev_of(old(e)@)),
        lists_nonempty(ev_of(old(e)@)),
    ensures
        keys_sorted(ev_of(final(e)@)),
        lists_nonempty(ev_of(final(e)@)),
        forall|k: Seq<char>| #[trigger]
            ev_get(ev_of(final(e)@), k) == inserted(ev_get(ev_of(old(e)@), k), k == key@, id@),
{
    let ghost ev = ev_of(e@);
    proof {
        lemma_sorted_unique(ev);
    }
    let i = find_entry(e, key.as_str());
    if i < e.len() {
        let ghost idv = id@;
        push_at(e, i, id);
        proof {
            let ev2 = ev_of(e@);
            let ids2 = ev[i as int].1.push(idv);
            assert forall|k: Seq<char>| #[trigger]
                ev_get(ev2, k) == inserted(ev_get(ev, k), k == key@, idv) by {
                lemma_update_lookup(ev, i as int, ids2, k);
                lemma_ev_get(ev, k);
            }
            assert forall|j: int| 0 <= j < ev2.len() implies (#[trigger] ev2[j]).1.len() > 0 by {
                if j != i {
                    assert(ev2[j] == ev[j]);
                }
            }
            assert forall|a: int, b: int| 0 <= a < b < ev2.len() implies lex_lt(ev2[a].0, ev2[b].0) by {
                assert(ev2[a].0 == ev[a].0);
                assert(ev2[b].0 == ev[b].0);
            }
        }
    } else {
        let p = sorted_position(e, key.as_str());
        let ghost kv = key@;
        let ghost idv = id@;
        let v = vec![id];
        assert(strs(v@) =~= seq![idv]);
        let ghost before = e@;
        e.insert(p, (key, v));
        proof {
            let ev2 = ev_of(e@);
            assert(ev2[p as int] == (kv, seq![idv]));
            assert forall|j: int| 0 <= j < ev2.len() && j != p implies ev2[j] == (if j < p {
                ev[j]
            } else {
                ev[j - 1]
            }) by {
                if j < p {
                    assert(e@[j] == before[j]);
                } else {
                    assert(e@[j] == before[j - 1]);
                }
            }
            assert(ev2 =~= ev.insert(p as int, (kv, seq![idv])));
            assert forall|k: Seq<char>| #[trigger]
                ev_get(ev2, k) == inserted(ev_get(ev, k), k == kv, idv) by {
                lemma_insert_lookup(ev, p as int, kv, seq![idv], k);
                if k == kv {
                    lemma_ev_get_none(ev, k);
                    assert(Seq::<Seq<char>>::empty().push(idv) =~= seq![idv]);
                }
            }
            assert forall|j: int| 0 <= j < ev2.len() implies (#[trigger] ev2[j]).1.len() > 0 by {
                if j < p {
                    assert(ev2[j] == ev[j]);
                } else if j > p {
                    assert(ev2[j] == ev[j - 1]);
                }
            }
            assert forall|j: int| 0 <= j < p implies lex_lt(#[trigger] ev[j].0, kv) by {
                assert(ev[j].0 == e@[j].0@) by {
                    assert(ev[j] == ev2[j]);
                }
                assert(!lex_lt(kv, ev[j].0));
                assert(ev[j].0 != kv);
                lemma_lex_total(kv, ev[j].0);
            }
            assert forall|j: int| p <= j < ev.len() implies lex_lt(kv, #[trigger] ev[j].0) by {
                if j > p {
                    lemma_lex_transitive(kv, ev[p as int].0, ev[j].0);
                }
            }
            assert forall|a: int, b: int| 0 <= a < b < ev2.len() implies lex_lt(ev2[a].0, ev2[b].0) by {
                if b < p {
                    assert(ev2[a] == ev[a] && ev2[b] == ev[b]);
                } else if b == p {
                    assert(ev2[a] == ev[a]);
                } else if a < p {
                    assert(ev2[a] == ev[a] && ev2[b] == ev[b - 1]);
                    lemma_lex_transitive(ev[a].0, kv, ev[b - 1].0);
                } else if a == p {
                    assert(ev2[b] == ev[b - 1]);
                } else {
                    assert(ev2[a] == ev[a - 1] && ev2[b] == ev[b - 1]);
                }
            }
        }
    }
}

proof fn lemma_sorted_unique(ev: Seq<(Seq<char>, Seq<Seq<char>>)>)
    requires
        keys_sorted(ev),
    ensures
        keys_unique(ev),
{
    assert forall|i: int, j: int| 0 <= i < j < ev.len() implies ev[i].0 != ev[j].0 by {
        if ev[i].0 == ev[j].0 {
            lemma_lex_irreflexive(ev[i].0);
        }
    }
}

/// A hash index: keys in the order they came.
#[derive(Debug)]
pub struct HashIndex {
    pub entries: Vec<(String, Vec<String>)>,
}

/// An ordered index: keys in increasing order.
#[derive(Debug)]
pub struct BTreeIndex {
    pub entries: Vec<(String, Vec<String>)>,
}

impl IndexMap for HashIndex {
    open spec fn wf(&self) -> bool {
        keys_unique(ev_of(self.entries@)) && lists_nonempty(ev_of(self.entries@))
    }

    open spec fn lookup(&self, key: Seq<char>) -> Option<Seq<Seq<char>>> {
        ev_get(ev_of(self.entries@), key)
    }

    fn empty() -> (r: Self) {
        let r = HashIndex { entries: Vec::new() };
        assert forall|k: Seq<char>| #[trigger] r.lookup(k) is None by {
            assert(ev_of(r.entries@).len() == 0);
        }
        r
    }

    fn insert_record(&mut self, key: String, doc_id: String) {
        hash_insert(&mut self.entries, key, doc_id);
    }

    fn remove_record(&mut self, key: &str, doc_id: &str) {
        remove_entry_id(&mut self.entries, key, doc_id);
    }

    fn get_doc_ids(&self, key: &str) -> (r: Option<&Vec<String>>) {
        get_ids(&self.entries, key)
    }

    fn from_records(records: Vec<IndexRecord>) -> (r: Self) {
        let mut e: Vec<(String, Vec<String>)> = Vec::new();
        let ghost rv = records_view(records@);
        let mut i: usize = 0;
        proof {
            assert forall|k: Seq<char>| #[trigger] ev_get(ev_of(e@), k) == records_lookup(rv.take(0), k) by {
                assert(ev_of(e@).len() == 0);
                assert(rv.take(0) =~= Seq::<(Seq<char>, Seq<char>)>::empty());
            }
        }
        while i < records.len()
            invariant
                i <= records@.len(),
                rv == records_view(records@),
                keys_unique(ev_of(e@)),
                lists_nonempty(ev_of(e@)),
                forall|k: Seq<char>| #[trigger] ev_get(ev_of(e@), k) == records_lookup(rv.take(i as int), k),
            decreases records.len() - i,
        {
            let ghost before = ev_of(e@);
            hash_insert(&mut e, records[i].key.clone(), records[i].document_id.clone());
            proof {
                assert forall|k: Seq<char>| #[trigger] ev_get(ev_of(e@), k) == records_lookup(
                    rv.take(i + 1),
                    k,
                ) by {
                    lemma_records_step(rv, i as int, k);
                }
            }
            i = i + 1;
        }
        proof {
            assert(rv.take(records@.len() as int) =~= rv);
        }
        HashIndex { entries: e }
    }

    fn to_records(&self) -> (r: Vec<IndexRecord>)
        ensures
            records_view(r@) == flat(ev_of(self.entries@)),
    {
        let r = flatten_records(&self.entries);
        proof {
            assert forall|k: Seq<char>| #[trigger] records_lookup(records_view(r@), k) == self.lookup(k) by {
                lemma_flat_lookup(ev_of(self.entries@), k);
            }
        }
        r
    }
}

impl IndexMap for BTreeIndex {
    open spec fn wf(&self) -> bool {
        keys_sorted(ev_of(self.entries@)) && lists_nonempty(ev_of(self.entries@))
    }

    open spec fn lookup(&self, key: Seq<char>) -> Option<Seq<Seq<char>>> {
        ev_get(ev_of(self.entries@), key)
    }

    fn empty() -> (r: Self) {
        let r = BTreeIndex { entries: Vec::new() };
        assert forall|k: Seq<char>| #[trigger] r.lookup(k) is None by {
            assert(ev_of(r.entries@).len() == 0);
        }
        r
    }

    fn insert_record(&mut self, key: String, doc_id: String) {
        btree_insert(&mut self.entries, key, doc_id);
    }

    fn remove_record(&mut self, key: &str, doc_id: &str) {
        proof {
            lemma_sorted_unique(ev_of(self.entries@));
        }
        remove_entry_id(&mut self.entries, key, doc_id);
    }

    fn get_doc_ids(&self, key: &str) -> (r: Option<&Vec<String>>) {
        proof {
            lemma_sorted_unique(ev_of(self.entries@));
        }
        get_ids(&self.entries, key)
    }

    fn from_records(records: Vec<IndexRecord>) -> (r: Self) {
        let mut e: Vec<(String, Vec<String>)> = Vec::new();
        let ghost rv = records_view(records@);
        let mut i: usize = 0;
        proof {
            assert forall|k: Seq<char>| #[trigger] ev_get(ev_of(e@), k) == records_lookup(rv.take(0), k) by {
                assert(ev_of(e@).len() == 0);
                assert(rv.take(0) =~= Seq::<(Seq<char>, Seq<char>)>::empty());
            }
        }
        while i < records.len()
            invariant
                i <= records@.len(),
                rv == records_view(records@),
                keys_sorted(ev_of(e@)),
                lists_nonempty(ev_of(e@)),
                forall|k: Seq<char>| #[trigger] ev_get(ev_of(e@), k) == records_lookup(rv.take(i as int), k),
            decreases records.len() - i,
        {
            btree_insert(&mut e, records[i].key.clone(), records[i].document_id.clone());
            proof {
                assert forall|k: Seq<char>| #[trigger] ev_get(ev_of(e@), k) == records_lookup(
                    rv.take(i + 1),
                    k,
                ) by {
                    lemma_records_step(rv, i as int, k);
                }
            }
            i = i + 1;
        }
        proof {
            assert(rv.take(records@.len() as int) =~= rv);
        }
        BTreeIndex { entries: e }
    }

    fn to_records(&self) -> (r: Vec<IndexRecord>)
        ensures
            records_view(r@) == flat(ev_of(self.entries@)),
    {
        let r = flatten_records(&self.entries);
        proof {
            lemma_sorted_unique(ev_of(self.entries@));
            assert forall|k: Seq<char>| #[trigger] records_lookup(records_view(r@), k) == self.lookup(k) by {
                lemma_flat_lookup(ev_of(self.entries@), k);
            }
        }
        r
    }
}

/// An index written out as records and read back from them lists the same
/// documents under every key.
pub proof fn law_records_round_trip<T: IndexMap>(m: T, rs: Seq<(Seq<char>, Seq<char>)>, back: T)
    requires
        m.wf(),
        forall|k: Seq<char>| #[trigger] records_lookup(rs, k) == m.lookup(k),
        forall|k: Seq<char>| #[trigger] back.lookup(k) == records_lookup(rs, k),
    ensures
        forall|k: Seq<char>| #[trigger] back.lookup(k) == m.lookup(k),
{
    assert forall|k: Seq<char>| #[trigger] back.lookup(k) == m.lookup(k) by {
        assert(back.lookup(k) == records_lookup(rs, k));
        assert(records_lookup(rs, k) == m.lookup(k));
    }
}

/// After a document is recorded under a key and then removed from it, the
/// key lists what it listed before without that document.
pub proof fn law_insert_then_remove(o: Option<Seq<Seq<char>>>, id: Seq<char>)
    requires
        o matches Some(ids) ==> ids.len() > 0 && !ids.contains(id),
    ensures
        removed(inserted(o, true, id), true, id) == o,
{
    let base = match o {
        Some(ids) => ids,
        None => Seq::empty(),
    };
    lemma_remove_all_absent(base, id);
    let pushed = base.push(id);
    assert(pushed.drop_last() =~= base);
    assert(remove_all(pushed, id) == remove_all(base, id));
}

proof fn lemma_remove_all_absent(ids: Seq<Seq<char>>, id: Seq<char>)
    requires
        !ids.contains(id),
    ensures
        remove_all(ids, id) == ids,
    decreases ids.len(),
{
    if ids.len() > 0 {
        assert(!ids.drop_last().contains(id)) by {
            if ids.drop_last().contains(id) {
                let j = choose|j: int| 0 <= j < ids.drop_last().len() && ids.drop_last()[j] == id;
                assert(ids[j] == id);
            }
        }
        lemma_remove_all_absent(ids.drop_last(), id);
        assert(ids.last() != id) by {
            assert(ids[ids.len() - 1] == ids.last());
        }
        assert(ids.drop_last().push(ids.last()) =~= ids);
    } else {
        assert(ids =~= Seq::<Seq<char>>::empty());
    }
}

} // verus!
