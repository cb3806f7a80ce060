//! What the optimizer's passes keep: reordering sorts by cost, stably and
//! without losing or adding a condition; deduplication leaves one condition
//! per key; running the optimizer twice gives what running it once gives.
use vstd::prelude::*;
use crate::optimizer::{
    OptimizerConfig, cond_key, cond_keys, dedup_conds, optimize_conds, paginate,
    reorder_conds, selectivity, with_cost,
};
use crate::query::{ComparisonOperator, CondV};
use crate::optimizer::op_name;
use crate::json_text::json_text;
use vstd::multiset::Multiset;

verus! {

/// Costs never decrease along the sequence.
pub open spec fn sorted_by_cost(s: Seq<CondV>) -> bool {
    forall|i: int, j: int|
        0 <= i < j < s.len() ==> selectivity(s[i].op) <= selectivity(s[j].op)
}

/// How many of the conditions have key `k`.
pub open spec fn key_count(s: Seq<CondV>, k: Seq<char>) -> nat
    decreases s.len(),
{
    if s.len() == 0 {
        0
    } else {
        key_count(s.drop_last(), k) + if cond_key(s.last()) == k {
            1nat
        } else {
            0nat
        }
    }
}

/// No two conditions share a key.
pub open spec fn keys_unique(s: Seq<CondV>) -> bool {
    forall|k: Seq<char>| #[trigger] key_count(s, k) <= 1
}

proof fn lemma_with_cost_all(s: Seq<CondV>, k: u32)
    ensures
        forall|i: int|
            0 <= i < with_cost(s, k).len() ==> selectivity(#[trigger] with_cost(s, k)[i].op) == k,
        with_cost(s, k).len() <= s.len(),
    decreases s.len(),
{
    if s.len() > 0 {
        lemma_with_cost_all(s.drop_last(), k);
    }
}

proof fn lemma_sorted_concat(a: Seq<CondV>, b: Seq<CondV>)
    requires
        sorted_by_cost(a),
        sorted_by_cost(b),
        forall|i: int, j: int|
            0 <= i < a.len() && 0 <= j < b.len() ==> selectivity(a[i].op) <= selectivity(
                b[j].op,
            ),
    ensures
        sorted_by_cost(a + b),
{
    assert forall|i: int, j: int| 0 <= i < j < (a + b).len() implies selectivity(
        (a + b)[i].op,
    ) <= selectivity((a + b)[j].op) by {
        if j < a.len() {
        } else if i >= a.len() {
            assert((a + b)[i] == b[i - a.len()]);
            assert((a + b)[j] == b[j - a.len()]);
        } else {
            assert((a + b)[j] == b[j - a.len()]);
        }
    }
}

proof fn lemma_sorted_block(acc: Seq<CondV>, s: Seq<CondV>, k: u32)
    requires
        sorted_by_cost(acc),
        forall|i: int| 0 <= i < acc.len() ==> selectivity(#[trigger] acc[i].op) <= k,
    ensures
        sorted_by_cost(acc + with_cost(s, k)),
        forall|i: int|
            0 <= i < (acc + with_cost(s, k)).len() ==> selectivity(
                #[trigger] (acc + with_cost(s, k))[i].op,
            ) <= k,
{
    lemma_with_cost_all(s, k);
    let b = with_cost(s, k);
    assert(sorted_by_cost(b));
    lemma_sorted_concat(acc, b);
    assert forall|i: int| 0 <= i < (acc + b).len() implies selectivity(
        #[trigger] (acc + b)[i].op,
    ) <= k by {
        if i >= acc.len() {
            assert((acc + b)[i] == b[i - acc.len()]);
        }
    }
}

/// Reordering sorts the conditions by cost.
pub proof fn law_reorder_sorted(s: Seq<CondV>)
    ensures
        sorted_by_cost(reorder_conds(s)),
{
    let e = Seq::<CondV>::empty();
    lemma_sorted_block(e, s, 1);
    assert(e + with_cost(s, 1) =~= with_cost(s, 1));
    lemma_sorted_block(with_cost(s, 1), s, 2);
    lemma_sorted_block(with_cost(s, 1) + with_cost(s, 2), s, 10);
    lemma_sorted_block(with_cost(s, 1) + with_cost(s, 2) + with_cost(s, 10), s, 20);
    lemma_sorted_block(
        with_cost(s, 1) + with_cost(s, 2) + with_cost(s, 10) + with_cost(s, 20),
        s,
        50,
    );
    lemma_sorted_block(
        with_cost(s, 1) + with_cost(s, 2) + with_cost(s, 10) + with_cost(s, 20) + with_cost(
            s,
            50,
        ),
        s,
        100,
    );
}

proof fn lemma_cost_levels(c: CondV)
    ensures
        selectivity(c.op) == 1 || selectivity(c.op) == 2 || selectivity(c.op) == 10
            || selectivity(c.op) == 20 || selectivity(c.op) == 50 || selectivity(c.op) == 100,
{
}

/// The multiset of the six cost blocks of `s`.
pub open spec fn blocks_multiset(s: Seq<CondV>) -> Multiset<CondV> {
    with_cost(s, 1).to_multiset().add(with_cost(s, 2).to_multiset()).add(
        with_cost(s, 10).to_multiset(),
    ).add(with_cost(s, 20).to_multiset()).add(with_cost(s, 50).to_multiset()).add(
        with_cost(s, 100).to_multiset(),
    )
}

proof fn lemma_blocks_multiset(s: Seq<CondV>)
    ensures
        blocks_multiset(s) =~= s.to_multiset(),
    decreases s.len(),
{
    broadcast use vstd::seq_lib::group_to_multiset_ensures;
    broadcast use vstd::multiset::group_multiset_axioms;

    if s.len() == 0 {
        assert(s.to_multiset() =~= Multiset::empty());
    } else {
        let p = s.drop_last();
        let x = s.last();
        lemma_blocks_multiset(p);
        assert(s =~= p.push(x));
        lemma_cost_levels(x);
        assert(s.to_multiset() =~= p.to_multiset().insert(x));
    }
}

/// Reordering neither loses nor adds a condition: the result is a
/// permutation of its input.
pub proof fn law_reorder_permutation(s: Seq<CondV>)
    ensures
        reorder_conds(s).to_multiset() =~= s.to_multiset(),
{
    broadcast use vstd::seq_lib::lemma_multiset_commutative;

    lemma_blocks_multiset(s);
    let a = with_cost(s, 1);
    let b = with_cost(s, 2);
    let c = with_cost(s, 10);
    let d = with_cost(s, 20);
    let e = with_cost(s, 50);
    let f = with_cost(s, 100);
    vstd::seq_lib::lemma_multiset_commutative(a, b);
    vstd::seq_lib::lemma_multiset_commutative(a + b, c);
    vstd::seq_lib::lemma_multiset_commutative(a + b + c, d);
    vstd::seq_lib::lemma_multiset_commutative(a + b + c + d, e);
    vstd::seq_lib::lemma_multiset_commutative(a + b + c + d + e, f);
}

proof fn lemma_with_cost_concat(a: Seq<CondV>, b: Seq<CondV>, k: u32)
    ensures
        with_cost(a + b, k) =~= with_cost(a, k) + with_cost(b, k),
    decreases b.len(),
{
    if b.len() == 0 {
        assert(a + b =~= a);
    } else {
        lemma_with_cost_concat(a, b.drop_last(), k);
        assert((a + b).drop_last() =~= a + b.drop_last());
    }
}

proof fn lemma_with_cost_of_block(s: Seq<CondV>, j: u32, k: u32)
    ensures
        with_cost(with_cost(s, j), k) =~= if j == k {
            with_cost(s, j)
        } else {
            Seq::<CondV>::empty()
        },
    decreases s.len(),
{
    if s.len() > 0 {
        lemma_with_cost_of_block(s.drop_last(), j, k);
        let w = with_cost(s.drop_last(), j);
        assert(w.push(s.last()).drop_last() =~= w);
    }
}

/// Reordering is stable: the conditions of any one cost keep their order.
pub proof fn law_reorder_stable(s: Seq<CondV>, k: u32)
    requires
        k == 1 || k == 2 || k == 10 || k == 20 || k == 50 || k == 100,
    ensures
        with_cost(reorder_conds(s), k) =~= with_cost(s, k),
{
    let a = with_cost(s, 1);
    let b = with_cost(s, 2);
    let c = with_cost(s, 10);
    let d = with_cost(s, 20);
    let e = with_cost(s, 50);
    let f = with_cost(s, 100);
    lemma_with_cost_concat(a + b + c + d + e, f, k);
    lemma_with_cost_concat(a + b + c + d, e, k);
    lemma_with_cost_concat(a + b + c, d, k);
    lemma_with_cost_concat(a + b, c, k);
    lemma_with_cost_concat(a, b, k);
    lemma_with_cost_of_block(s, 1, k);
    lemma_with_cost_of_block(s, 2, k);
    lemma_with_cost_of_block(s, 10, k);
    lemma_with_cost_of_block(s, 20, k);
    lemma_with_cost_of_block(s, 50, k);
    lemma_with_cost_of_block(s, 100, k);
}

/// Reordering an already reordered sequence changes nothing.
pub proof fn law_reorder_idempotent(s: Seq<CondV>)
    ensures
        reorder_conds(reorder_conds(s)) =~= reorder_conds(s),
{
    law_reorder_stable(s, 1);
    law_reorder_stable(s, 2);
    law_reorder_stable(s, 10);
    law_reorder_stable(s, 20);
    law_reorder_stable(s, 50);
    law_reorder_stable(s, 100);
}

proof fn lemma_key_count_concat(a: Seq<CondV>, b: Seq<CondV>, k: Seq<char>)
    ensures
        key_count(a + b, k) == key_count(a, k) + key_count(b, k),
    decreases b.len(),
{
    if b.len() == 0 {
        assert(a + b =~= a);
    } else {
        lemma_key_count_concat(a, b.drop_last(), k);
        assert((a + b).drop_last() =~= a + b.drop_last());
    }
}

proof fn lemma_key_count_push(w: Seq<CondV>, x: CondV, k: Seq<char>)
    ensures
        key_count(w.push(x), k) == key_count(w, k) + if cond_key(x) == k {
            1nat
        } else {
            0nat
        },
{
    assert(w.push(x).drop_last() =~= w);
}

proof fn lemma_key_count_blocks(s: Seq<CondV>, k: Seq<char>)
    ensures
        key_count(with_cost(s, 1), k) + key_count(with_cost(s, 2), k) + key_count(
            with_cost(s, 10),
            k,
        ) + key_count(with_cost(s, 20), k) + key_count(with_cost(s, 50), k) + key_count(
            with_cost(s, 100),
            k,
        ) == key_count(s, k),
    decreases s.len(),
{
    if s.len() > 0 {
        lemma_key_count_blocks(s.drop_last(), k);
        lemma_cost_levels(s.last());
        lemma_key_count_push(with_cost(s.drop_last(), 1), s.last(), k);
        lemma_key_count_push(with_cost(s.drop_last(), 2), s.last(), k);
        lemma_key_count_push(with_cost(s.drop_last(), 10), s.last(), k);
        lemma_key_count_push(with_cost(s.drop_last(), 20), s.last(), k);
        lemma_key_count_push(with_cost(s.drop_last(), 50), s.last(), k);
        lemma_key_count_push(with_cost(s.drop_last(), 100), s.last(), k);
    }
}

proof fn lemma_reorder_key_count(s: Seq<CondV>, k: Seq<char>)
    ensures
        key_count(reorder_conds(s), k) == key_count(s, k),
{
    let a = with_cost(s, 1);
    let b = with_cost(s, 2);
    let c = with_cost(s, 10);
    let d = with_cost(s, 20);
    let e = with_cost(s, 50);
    let f = with_cost(s, 100);
    lemma_key_count_concat(a + b + c + d + e, f, k);
    lemma_key_count_concat(a + b + c + d, e, k);
    lemma_key_count_concat(a + b + c, d, k);
    lemma_key_count_concat(a + b, c, k);
    lemma_key_count_concat(a, b, k);
    lemma_key_count_blocks(s, k);
}

proof fn lemma_key_count_contains(s: Seq<CondV>, k: Seq<char>)
    ensures
        key_count(s, k) > 0 <==> cond_keys(s).contains(k),
    decreases s.len(),
{
    if s.len() > 0 {
        lemma_key_count_contains(s.drop_last(), k);
        assert(cond_keys(s) =~= cond_keys(s.drop_last()).push(cond_key(s.last())));
        assert(cond_keys(s)[s.len() - 1] == cond_key(s.last()));
        if cond_keys(s.drop_last()).contains(k) {
            let i = choose|i: int|
                0 <= i < cond_keys(s.drop_last()).len() && cond_keys(s.drop_last())[i] == k;
            assert(cond_keys(s)[i] == k);
        }
        if cond_keys(s).contains(k) {
            let i = choose|i: int| 0 <= i < cond_keys(s).len() && cond_keys(s)[i] == k;
            if i < s.len() - 1 {
                assert(cond_keys(s.drop_last())[i] == k);
            }
        }
    }
}

proof fn lemma_dedup_key_count(s: Seq<CondV>, k: Seq<char>)
    ensures
        key_count(dedup_conds(s), k) == if key_count(s, k) > 0 {
            1nat
        } else {
            0nat
        },
    decreases s.len(),
{
    if s.len() > 0 {
        lemma_dedup_key_count(s.drop_last(), k);
        lemma_key_count_contains(s.drop_last(), cond_key(s.last()));
        let d = dedup_conds(s.drop_last());
        if !cond_keys(s.drop_last()).contains(cond_key(s.last())) {
            assert(d.push(s.last()).drop_last() =~= d);
        }
    }
}

/// After deduplication every key is held by exactly one condition, and each
/// key of the input is still there.
pub proof fn law_dedup_one_per_key(s: Seq<CondV>, k: Seq<char>)
    ensures
        key_count(dedup_conds(s), k) <= 1,
        key_count(dedup_conds(s), k) == 1 <==> cond_keys(s).contains(k),
{
    lemma_dedup_key_count(s, k);
    lemma_key_count_contains(s, k);
}

proof fn lemma_dedup_identity(s: Seq<CondV>)
    requires
        keys_unique(s),
    ensures
        dedup_conds(s) =~= s,
    decreases s.len(),
{
    if s.len() > 0 {
        let p = s.drop_last();
        assert forall|k: Seq<char>| #[trigger] key_count(p, k) <= 1 by {
            assert(key_count(s, k) <= 1);
        }
        lemma_dedup_identity(p);
        lemma_key_count_contains(p, cond_key(s.last()));
        assert(key_count(s, cond_key(s.last())) <= 1);
    }
}

/// Running the optimizer's passes on their own result changes nothing.
pub proof fn law_optimize_idempotent(s: Seq<CondV>, cfg: OptimizerConfig)
    ensures
        optimize_conds(optimize_conds(s, cfg), cfg) =~= optimize_conds(s, cfg),
{
    let d = dedup_conds(s);
    assert(keys_unique(d)) by {
        assert forall|k: Seq<char>| #[trigger] key_count(d, k) <= 1 by {
            law_dedup_one_per_key(s, k);
        }
    }
    if cfg.simplify_filters {
        lemma_dedup_identity(d);
        if cfg.reorder_conditions {
            let r = reorder_conds(d);
            assert(keys_unique(r)) by {
                assert forall|k: Seq<char>| #[trigger] key_count(r, k) <= 1 by {
                    lemma_reorder_key_count(d, k);
                }
            }
            lemma_dedup_identity(r);
            law_reorder_idempotent(d);
        }
    } else if cfg.reorder_conditions {
        law_reorder_idempotent(s);
    }
}

/// Bounding the page size twice bounds it as once.
pub proof fn law_paginate_idempotent(limit: Option<usize>, offset: Option<usize>)
    ensures
        paginate(paginate(limit, offset), offset) == paginate(limit, offset),
        paginate(limit, offset) matches Some(l) ==> l <= 1000 || limit == Some(l),
{
}

proof fn lemma_split_at_colon(a1: Seq<char>, r1: Seq<char>, a2: Seq<char>, r2: Seq<char>)
    requires
        !a1.contains(':'),
        !a2.contains(':'),
        a1 + seq![':'] + r1 == a2 + seq![':'] + r2,
    ensures
        a1 == a2,
        r1 == r2,
{
    let l = a1 + seq![':'] + r1;
    let r = a2 + seq![':'] + r2;
    if a1.len() < a2.len() {
        assert(l[a1.len() as int] == ':');
        assert(r[a1.len() as int] == a2[a1.len() as int]);
        assert(a2.contains(':'));
    } else if a2.len() < a1.len() {
        assert(r[a2.len() as int] == ':');
        assert(l[a2.len() as int] == a1[a2.len() as int]);
        assert(a1.contains(':'));
    } else {
        assert(a1 =~= l.subrange(0, a1.len() as int));
        assert(a2 =~= r.subrange(0, a2.len() as int));
        assert(r1 =~= l.subrange(a1.len() as int + 1, l.len() as int));
        assert(r2 =~= r.subrange(a2.len() as int + 1, r.len() as int));
    }
}

proof fn lemma_op_name_no_colon(op: ComparisonOperator)
    ensures
        !op_name(op).contains(':'),
{
    assert forall|i: int| 0 <= i < op_name(op).len() implies op_name(op)[i] != ':' by {
        match op {
            ComparisonOperator::Eq => {},
            ComparisonOperator::Ne => {},
            ComparisonOperator::Gt => {},
            ComparisonOperator::Gte => {},
            ComparisonOperator::Lt => {},
            ComparisonOperator::Lte => {},
            ComparisonOperator::In => {},
            ComparisonOperator::Contains => {},
            ComparisonOperator::StartsWith => {},
            ComparisonOperator::EndsWith => {},
            ComparisonOperator::Matches => {},
            ComparisonOperator::Like => {},
            ComparisonOperator::IsA => {},
            ComparisonOperator::AstRule => {},
        }
    }
}

proof fn lemma_op_name_injective(x: ComparisonOperator, y: ComparisonOperator)
    requires
        op_name(x) == op_name(y),
    ensures
        x == y,
{
    let a = op_name(x);
    let b = op_name(y);
    assert(a.len() == b.len());
    assert(a[0] == b[0]);
    assert(a[1] == b[1]);
    if a.len() > 2 {
        assert(a[2] == b[2]);
    }
}

/// Two conditions have the same key exactly when their fields, their
/// operators and the JSON texts of their values agree (for fields without
/// `:`).
pub proof fn law_cond_key_identifies_condition(a: CondV, b: CondV)
    requires
        !a.field.contains(':'),
        !b.field.contains(':'),
    ensures
        cond_key(a) == cond_key(b) <==> (a.field == b.field && a.op == b.op && json_text(a.value)
            == json_text(b.value)),
{
    if cond_key(a) == cond_key(b) {
        let ra = op_name(a.op) + seq![':'] + json_text(a.value);
        let rb = op_name(b.op) + seq![':'] + json_text(b.value);
        assert(cond_key(a) =~= a.field + seq![':'] + ra);
        assert(cond_key(b) =~= b.field + seq![':'] + rb);
        lemma_split_at_colon(a.field, ra, b.field, rb);
        lemma_op_name_no_colon(a.op);
        lemma_op_name_no_colon(b.op);
        lemma_split_at_colon(op_name(a.op), json_text(a.value), op_name(b.op), json_text(b.value));
        lemma_op_name_injective(a.op, b.op);
    }
}

proof fn lemma_dedup_keeps_first(s: Seq<CondV>, i: int)
    requires
        0 <= i < s.len(),
        !cond_keys(s.take(i)).contains(cond_key(s[i])),
    ensures
        dedup_conds(s).contains(s[i]),
    decreases s.len(),
{
    let d = s.drop_last();
    if i < s.len() - 1 {
        assert(d.take(i) =~= s.take(i));
        assert(d[i] == s[i]);
        lemma_dedup_keeps_first(d, i);
        let r = dedup_conds(d);
        let w = choose|w: int| 0 <= w < r.len() && r[w] == s[i];
        if cond_keys(d).contains(cond_key(s.last())) {
            assert(dedup_conds(s) == r);
        } else {
            assert(dedup_conds(s) == r.push(s.last()));
            assert(dedup_conds(s)[w] == s[i]);
        }
    } else {
        assert(s.take(i) =~= d);
        assert(dedup_conds(s) == dedup_conds(d).push(s.last()));
        assert(dedup_conds(s)[dedup_conds(d).len() as int] == s[i]);
    }
}

/// Deduplication keeps every condition unless an earlier one has the same
/// field, the same operator and a value with the same JSON text: in
/// particular conditions on different fields are never merged (for fields
/// without `:`).
pub proof fn law_dedup_keeps_distinct_conditions(s: Seq<CondV>, i: int)
    requires
        0 <= i < s.len(),
        forall|j: int| 0 <= j < s.len() ==> !(#[trigger] s[j]).field.contains(':'),
        forall|j: int|
            0 <= j < i ==> !((#[trigger] s[j]).field == s[i].field && s[j].op == s[i].op
                && json_text(s[j].value) == json_text(s[i].value)),
    ensures
        dedup_conds(s).contains(s[i]),
{
    if cond_keys(s.take(i)).contains(cond_key(s[i])) {
        let w = choose|w: int| 0 <= w < cond_keys(s.take(i)).len() && cond_keys(s.take(i))[w] == cond_key(s[i]);
        assert(s.take(i)[w] == s[w]);
        assert(cond_key(s[w]) == cond_key(s[i]));
        law_cond_key_identifies_condition(s[w], s[i]);
        assert(!s[w].field.contains(':'));
        assert(false);
    }
    lemma_dedup_keeps_first(s, i);
}

} // verus!
