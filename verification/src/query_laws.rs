//! Laws of query execution: sorting permutes and orders the documents,
//! filtering keeps exactly the matching documents in order, paging bounds
//! the page.
use vstd::prelude::*;
use crate::json::{JVal, JsonNumber};
use crate::query::{CondV, FilterOperator, SortOrder};
use crate::query_eval::{compare_json, filter_holds};
use crate::query_exec::{compare_docs_spec, filter_docs, insert_pos, page_end, page_start, stable_sort};

verus! {

/// Comparing two optional values the other way round gives the opposite
/// order.
pub proof fn law_compare_json_antisymmetric(a: Option<JVal>, b: Option<JVal>)
    ensures
        compare_json(a, b) == -compare_json(b, a),
{
    match (a, b) {
        (Some(x), Some(y)) => match (x, y) {
            (JVal::Str(s1), JVal::Str(s2)) => {
                if lex_lt_helper(s1, s2) {
                }
            },
            _ => {},
        },
        _ => {},
    }
}

proof fn lex_lt_helper(s1: Seq<char>, s2: Seq<char>) -> (b: bool)
    ensures
        crate::text::lex_lt(s1, s2) ==> !crate::text::lex_lt(s2, s1),
        s1 != s2 ==> crate::text::lex_lt(s1, s2) || crate::text::lex_lt(s2, s1),
        !crate::text::lex_lt(s1, s1),
{
    if crate::text::lex_lt(s1, s2) {
        crate::text::lemma_lex_asymmetric(s1, s2);
    }
    if s1 != s2 {
        crate::text::lemma_lex_total(s1, s2);
    }
    crate::text::lemma_lex_irreflexive(s1);
    true
}

/// Comparing two documents the other way round gives the opposite order.
pub proof fn law_compare_docs_antisymmetric(
    a: JVal,
    b: JVal,
    keys: Seq<(Seq<char>, SortOrder)>,
    coll: Seq<char>,
    j: int,
)
    ensures
        compare_docs_spec(a, b, keys, coll, j) == -compare_docs_spec(b, a, keys, coll, j),
    decreases keys.len() - j,
{
    if 0 <= j < keys.len() {
        law_compare_json_antisymmetric(
            crate::query_eval::field_value(a, keys[j].0, coll),
            crate::query_eval::field_value(b, keys[j].0, coll),
        );
        law_compare_docs_antisymmetric(a, b, keys, coll, j + 1);
    }
}

proof fn lemma_insert_pos_bounds(
    s: Seq<JVal>,
    x: JVal,
    keys: Seq<(Seq<char>, SortOrder)>,
    coll: Seq<char>,
    k: int,
)
    requires
        0 <= k <= s.len(),
    ensures
        0 <= insert_pos(s, x, keys, coll, k) <= k,
        insert_pos(s, x, keys, coll, k) > 0 ==> compare_docs_spec(
            x,
            s[insert_pos(s, x, keys, coll, k) - 1],
            keys,
            coll,
            0,
        ) >= 0,
        forall|m: int|
            insert_pos(s, x, keys, coll, k) <= m < k ==> compare_docs_spec(
                x,
                #[trigger] s[m],
                keys,
                coll,
                0,
            ) < 0,
    decreases k,
{
    if k > 0 && compare_docs_spec(x, s[k - 1], keys, coll, 0) < 0 {
        lemma_insert_pos_bounds(s, x, keys, coll, k - 1);
    }
}

/// Sorting keeps exactly the documents it was given.
pub proof fn law_sort_permutation(s: Seq<JVal>, keys: Seq<(Seq<char>, SortOrder)>, coll: Seq<char>)
    ensures
        stable_sort(s, keys, coll).to_multiset() == s.to_multiset(),
        stable_sort(s, keys, coll).len() == s.len(),
    decreases s.len(),
{
    if s.len() > 0 {
        let r = stable_sort(s.drop_last(), keys, coll);
        law_sort_permutation(s.drop_last(), keys, coll);
        let p = insert_pos(r, s.last(), keys, coll, r.len() as int);
        lemma_insert_pos_bounds(r, s.last(), keys, coll, r.len() as int);
        vstd::seq_lib::to_multiset_insert(r, p, s.last());
        vstd::seq_lib::to_multiset_build(s.drop_last(), s.last());
        assert(s =~= s.drop_last().push(s.last()));
        assert(stable_sort(s, keys, coll) == r.insert(p, s.last()));
    } else {
        assert(s =~= Seq::<JVal>::empty());
        assert(stable_sort(s, keys, coll) =~= Seq::<JVal>::empty());
    }
}

/// Sorted documents are in order: each sorts no later than the next one.
pub proof fn law_sort_ordered(
    s: Seq<JVal>,
    keys: Seq<(Seq<char>, SortOrder)>,
    coll: Seq<char>,
    i: int,
)
    requires
        0 <= i < stable_sort(s, keys, coll).len() - 1,
    ensures
        compare_docs_spec(
            stable_sort(s, keys, coll)[i],
            stable_sort(s, keys, coll)[i + 1],
            keys,
            coll,
            0,
        ) <= 0,
    decreases s.len(),
{
    law_sort_permutation(s, keys, coll);
    if s.len() > 0 {
        let r = stable_sort(s.drop_last(), keys, coll);
        law_sort_permutation(s.drop_last(), keys, coll);
        let x = s.last();
        let p = insert_pos(r, x, keys, coll, r.len() as int);
        lemma_insert_pos_bounds(r, x, keys, coll, r.len() as int);
        let out = r.insert(p, x);
        assert(out == stable_sort(s, keys, coll));
        if i + 1 < p {
            law_sort_ordered(s.drop_last(), keys, coll, i);
        } else if i + 1 == p {
            law_compare_docs_antisymmetric(x, r[p - 1], keys, coll, 0);
        } else if i == p {
            assert(compare_docs_spec(x, r[p], keys, coll, 0) < 0);
        } else {
            law_sort_ordered(s.drop_last(), keys, coll, i - 1);
        }
    }
}

/// Filtering keeps exactly the documents that satisfy the filter.
pub proof fn law_filter_exact(s: Seq<JVal>, op: FilterOperator, cs: Seq<CondV>, coll: Seq<char>)
    ensures
        forall|d: JVal| #[trigger]
            filter_docs(s, op, cs, coll).contains(d) <==> (s.contains(d) && filter_holds(
                d,
                op,
                cs,
                coll,
            )),
        filter_docs(s, op, cs, coll).len() <= s.len(),
    decreases s.len(),
{
    if s.len() > 0 {
        law_filter_exact(s.drop_last(), op, cs, coll);
        let r = filter_docs(s.drop_last(), op, cs, coll);
        assert forall|d: JVal| #[trigger]
            filter_docs(s, op, cs, coll).contains(d) <==> (s.contains(d) && filter_holds(
                d,
                op,
                cs,
                coll,
            )) by {
            let f = filter_docs(s, op, cs, coll);
            if s.contains(d) && filter_holds(d, op, cs, coll) {
                let w = choose|w: int| 0 <= w < s.len() && s[w] == d;
                if w < s.len() - 1 {
                    assert(s.drop_last()[w] == d);
                    assert(r.contains(d));
                    let v = choose|v: int| 0 <= v < r.len() && r[v] == d;
                    if filter_holds(s.last(), op, cs, coll) {
                        assert(f[v] == d);
                    }
                } else {
                    assert(f[f.len() - 1] == d);
                }
            }
            if f.contains(d) {
                let w = choose|w: int| 0 <= w < f.len() && f[w] == d;
                if filter_holds(s.last(), op, cs, coll) && w == f.len() - 1 {
                    assert(s[s.len() - 1] == d);
                } else {
                    assert(r[w] == d);
                    assert(r.contains(d));
                    let v = choose|v: int| 0 <= v < s.drop_last().len() && s.drop_last()[v] == d;
                    assert(s[v] == d);
                }
            }
        }
    }
}

/// A page holds at most `limit` documents, taken from position `offset`.
pub proof fn law_page_bounds(n: int, offset: int, limit: int)
    requires
        n >= 0,
        offset >= 0,
        limit >= 0,
    ensures
        0 <= page_start(n, offset) <= page_end(n, offset, limit) <= n,
        page_end(n, offset, limit) - page_start(n, offset) <= limit,
        offset <= n ==> page_start(n, offset) == offset,
{
}

} // verus!
