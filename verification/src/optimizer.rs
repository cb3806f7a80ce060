//! Rewrites a query before it runs: drops repeated conditions, runs the
//! most selective conditions first, and bounds the page size.
use vstd::prelude::*;
use crate::json_text::{json_text, push_json};
use crate::query::{ComparisonOperator, CondV, Condition, Query, QueryFilter, conds_view};
use crate::text::chars_equal;
use crate::error::RaiseError;

verus! {

/// The optimizer and the passes it runs.
#[derive(Debug)]
pub struct QueryOptimizer {
    pub config: OptimizerConfig,
}

#[derive(Debug, Clone, Copy)]
pub struct OptimizerConfig {
    pub reorder_conditions: bool,
    pub simplify_filters: bool,
}

/// Page size that a query may not exceed.
pub const MAX_REASONABLE_LIMIT: usize = 1000;

/// Page size given to a query that has an offset and no limit.
pub const DEFAULT_LIMIT_WITH_OFFSET: usize = 100;

/// Estimated cost of a condition: the lower, the more selective.
pub open spec fn selectivity(op: ComparisonOperator) -> u32 {
    match op {
        ComparisonOperator::Eq => 1,
        ComparisonOperator::In => 2,
        ComparisonOperator::Gt | ComparisonOperator::Gte | ComparisonOperator::Lt
        | ComparisonOperator::Lte => 10,
        ComparisonOperator::StartsWith | ComparisonOperator::EndsWith => 20,
        ComparisonOperator::Contains | ComparisonOperator::Like | ComparisonOperator::Matches
        | ComparisonOperator::IsA | ComparisonOperator::AstRule => 50,
        ComparisonOperator::Ne => 100,
    }
}

/// The name of an operator as it is printed.
pub open spec fn op_name(op: ComparisonOperator) -> Seq<char> {
    match op {
        ComparisonOperator::Eq => seq!['E', 'q'],
        ComparisonOperator::Ne => seq!['N', 'e'],
        ComparisonOperator::Gt => seq!['G', 't'],
        ComparisonOperator::Gte => seq!['G', 't', 'e'],
        ComparisonOperator::Lt => seq!['L', 't'],
        ComparisonOperator::Lte => seq!['L', 't', 'e'],
        ComparisonOperator::In => seq!['I', 'n'],
        ComparisonOperator::Contains => seq!['C', 'o', 'n', 't', 'a', 'i', 'n', 's'],
        ComparisonOperator::StartsWith => seq![
            'S',
            't',
            'a',
            'r',
            't',
            's',
            'W',
            'i',
            't',
            'h',
        ],
        ComparisonOperator::EndsWith => seq!['E', 'n', 'd', 's', 'W', 'i', 't', 'h'],
        ComparisonOperator::Matches => seq!['M', 'a', 't', 'c', 'h', 'e', 's'],
        ComparisonOperator::Like => seq!['L', 'i', 'k', 'e'],
        ComparisonOperator::IsA => seq!['I', 's', 'A'],
        ComparisonOperator::AstRule => seq!['A', 's', 't', 'R', 'u', 'l', 'e'],
    }
}

/// The text by which two conditions count as the same: field, operator
/// name and the value's JSON text, separated by colons.
pub open spec fn cond_key(c: CondV) -> Seq<char> {
    c.field + seq![':'] + op_name(c.op) + seq![':'] + json_text(c.value)
}

/// The keys of the conditions, in order.
pub open spec fn cond_keys(s: Seq<CondV>) -> Seq<Seq<char>> {
    s.map_values(|c: CondV| cond_key(c))
}

/// The conditions without those whose key appeared earlier.
pub open spec fn dedup_conds(s: Seq<CondV>) -> Seq<CondV>
    decreases s.len(),
{
    if s.len() == 0 {
        Seq::empty()
    } else {
        let d = dedup_conds(s.drop_last());
        if cond_keys(s.drop_last()).contains(cond_key(s.last())) {
            d
        } else {
            d.push(s.last())
        }
    }
}

/// The conditions whose cost is `k`, in order.
pub open spec fn with_cost(s: Seq<CondV>, k: u32) -> Seq<CondV>
    decreases s.len(),
{
    if s.len() == 0 {
        Seq::empty()
    } else if selectivity(s.last().op) == k {
        with_cost(s.drop_last(), k).push(s.last())
    } else {
        with_cost(s.drop_last(), k)
    }
}

/// The costs, cheapest first.
pub open spec fn cost_levels() -> Seq<u32> {
    seq![1u32, 2u32, 10u32, 20u32, 50u32, 100u32]
}

/// The conditions ordered by cost, keeping the given order among
/// conditions of equal cost (a stable sort by cost).
pub open spec fn reorder_conds(s: Seq<CondV>) -> Seq<CondV> {
    with_cost(s, 1) + with_cost(s, 2) + with_cost(s, 10) + with_cost(s, 20) + with_cost(s, 50)
        + with_cost(s, 100)
}

/// The conditions after the passes that `cfg` enables.
pub open spec fn optimize_conds(s: Seq<CondV>, cfg: OptimizerConfig) -> Seq<CondV> {
    let d = if cfg.simplify_filters {
        dedup_conds(s)
    } else {
        s
    };
    if cfg.reorder_conditions {
        reorder_conds(d)
    } else {
        d
    }
}

/// The limit after the pagination pass.
pub open spec fn paginate(limit: Option<usize>, offset: Option<usize>) -> Option<usize> {
    match limit {
        Some(l) => if l > MAX_REASONABLE_LIMIT {
            Some(MAX_REASONABLE_LIMIT)
        } else {
            Some(l)
        },
        None => if offset is Some {
            Some(DEFAULT_LIMIT_WITH_OFFSET)
        } else {
            None
        },
    }
}

fn op_name_chars(op: ComparisonOperator, out: &mut Vec<char>)
    ensures
        final(out)@ == old(out)@ + op_name(op),
{
    let name: &str = match op {
        ComparisonOperator::Eq => "Eq",
        ComparisonOperator::Ne => "Ne",
        ComparisonOperator::Gt => "Gt",
        ComparisonOperator::Gte => "Gte",
        ComparisonOperator::Lt => "Lt",
        ComparisonOperator::Lte => "Lte",
        ComparisonOperator::In => "In",
        ComparisonOperator::Contains => "Contains",
        ComparisonOperator::StartsWith => "StartsWith",
        ComparisonOperator::EndsWith => "EndsWith",
        ComparisonOperator::Matches => "Matches",
        ComparisonOperator::Like => "Like",
        ComparisonOperator::IsA => "IsA",
        ComparisonOperator::AstRule => "AstRule",
    };
    proof {
        reveal_strlit("Eq");
        reveal_strlit("Ne");
        reveal_strlit("Gt");
        reveal_strlit("Gte");
        reveal_strlit("Lt");
        reveal_strlit("Lte");
        reveal_strlit("In");
        reveal_strlit("Contains");
        reveal_strlit("StartsWith");
        reveal_strlit("EndsWith");
        reveal_strlit("Matches");
        reveal_strlit("Like");
        reveal_strlit("IsA");
        reveal_strlit("AstRule");
    }
    let cs = crate::text::to_chars(name);
    assert(cs@ =~= op_name(op));
    crate::json_text::push_all(&cs, out);
}

/// The key of a condition, as characters.
fn key_of(c: &Condition) -> (k: Vec<char>)
    ensures
        k@ == cond_key(c@),
{
    let mut out = crate::text::to_chars(c.field.as_str());
    out.push(':');
    op_name_chars(c.operator, &mut out);
    out.push(':');
    push_json(&c.value, &mut out);
    assert(out@ =~= cond_key(c@));
    out
}

fn seen_contains(seen: &Vec<Vec<char>>, k: &Vec<char>) -> (b: bool)
    ensures
        b == seen@.map_values(|v: Vec<char>| v@).contains(k@),
{
    let mut i: usize = 0;
    while i < seen.len()
        invariant
            i <= seen@.len(),
            forall|j: int| 0 <= j < i ==> seen@[j]@ != k@,
        decreases seen.len() - i,
    {
        if chars_equal(seen[i].as_slice(), k.as_slice()) {
            assert(seen@.map_values(|v: Vec<char>| v@)[i as int] == k@);
            return true;
        }
        i = i + 1;
    }
    proof {
        if seen@.map_values(|v: Vec<char>| v@).contains(k@) {
            let m = seen@.map_values(|v: Vec<char>| v@);
            let j = choose|j: int| 0 <= j < m.len() && #[trigger] m[j] == k@;
            assert(seen@[j]@ == k@);
        }
    }
    false
}

/// The conditions without repeats (same key), first occurrences kept.
fn dedup_condition_list(conditions: &Vec<Condition>) -> (r: Vec<Condition>)
    ensures
        conds_view(r@) == dedup_conds(conds_view(conditions@)),
{
    let mut seen: Vec<Vec<char>> = Vec::new();
    let mut unique: Vec<Condition> = Vec::new();
    let mut i: usize = 0;
    while i < conditions.len()
        invariant
            i <= conditions@.len(),
            seen@.map_values(|v: Vec<char>| v@) == cond_keys(
                conds_view(conditions@.subrange(0, i as int)),
            ),
            conds_view(unique@) == dedup_conds(conds_view(conditions@.subrange(0, i as int))),
        decreases conditions.len() - i,
    {
        let ghost pre = conds_view(conditions@.subrange(0, i as int));
        let ghost cur = conds_view(conditions@.subrange(0, i + 1));
        proof {
            assert(cur.drop_last() =~= pre);
            assert(cur.last() == conditions@[i as int]@);
        }
        let k = key_of(&conditions[i]);
        if !seen_contains(&seen, &k) {
            let c = conditions[i].duplicate();
            unique.push(c);
            proof {
                assert(conds_view(unique@) =~= dedup_conds(cur));
            }
        }
        let ghost old_seen = seen@;
        let ghost kv = k@;
        seen.push(k);
        i = i + 1;
        proof {
            assert(cur =~= pre.push(cur.last()));
            assert(cond_keys(cur) =~= cond_keys(pre).push(cond_key(cur.last())));
            assert(seen@ == old_seen.push(seen@.last()));
            assert(seen@.map_values(|v: Vec<char>| v@) =~= old_seen.map_values(|v: Vec<char>| v@).push(kv));
            assert(seen@.map_values(|v: Vec<char>| v@) =~= cond_keys(cur));
            assert(conds_view(unique@) =~= dedup_conds(cur));
        }
    }
    assert(conditions@.subrange(0, conditions@.len() as int) =~= conditions@);
    unique
}

impl Default for OptimizerConfig {
    fn default() -> (c: OptimizerConfig)
        ensures
            c.reorder_conditions && c.simplify_filters,
    {
        OptimizerConfig { reorder_conditions: true, simplify_filters: true }
    }
}

impl Default for QueryOptimizer {
    fn default() -> (o: QueryOptimizer)
        ensures
            o.config.reorder_conditions && o.config.simplify_filters,
    {
        QueryOptimizer::new()
    }
}

impl QueryOptimizer {
    /// An optimizer that runs every pass.
    pub fn new() -> (o: QueryOptimizer)
        ensures
            o.config.reorder_conditions && o.config.simplify_filters,
    {
        QueryOptimizer { config: OptimizerConfig { reorder_conditions: true, simplify_filters: true } }
    }

    pub fn with_config(config: OptimizerConfig) -> (o: QueryOptimizer)
        ensures
            o.config == config,
    {
        QueryOptimizer { config }
    }

    /// The conditions without repeats (same key), first occurrences kept.
    pub fn deduplicate_conditions(&self, conditions: &Vec<Condition>) -> (r: Vec<Condition>)
        ensures
            conds_view(r@) == dedup_conds(conds_view(conditions@)),
    {
        dedup_condition_list(conditions)
    }

    /// The query with its filter simplified and reordered as the
    /// configuration asks, and its pagination bounded. Never fails.
    pub fn optimize(&self, query: Query) -> (r: Result<Query, RaiseError>)
        ensures
            r is Ok,
            r.unwrap().collection == query.collection,
            r.unwrap().sort == query.sort,
            r.unwrap().offset == query.offset,
            r.unwrap().projection == query.projection,
            r.unwrap().limit == paginate(query.limit, query.offset),
            match query.filter {
                None => r.unwrap().filter is None,
                Some(f) => r.unwrap().filter matches Some(g) && g.operator == f.operator
                    && conds_view(g.conditions@) == optimize_conds(
                    conds_view(f.conditions@),
                    self.config,
                ),
            },
    {
        let Query { collection, filter, sort, limit, offset, projection } = query;
        let filter = match filter {
            Some(f) => Some(self.optimize_filter(f)),
            None => None,
        };
        let q = Query { collection, filter, sort, limit, offset, projection };
        Ok(self.optimize_pagination(q))
    }

    /// The cost of a condition's operator.
    pub fn estimate_selectivity(&self, condition: &Condition) -> (k: u32)
        ensures
            k == selectivity(condition.operator),
    {
        match condition.operator {
            ComparisonOperator::Eq => 1,
            ComparisonOperator::In => 2,
            ComparisonOperator::Gt | ComparisonOperator::Gte | ComparisonOperator::Lt
            | ComparisonOperator::Lte => 10,
            ComparisonOperator::StartsWith | ComparisonOperator::EndsWith => 20,
            ComparisonOperator::Contains | ComparisonOperator::Like
            | ComparisonOperator::Matches | ComparisonOperator::IsA
            | ComparisonOperator::AstRule => 50,
            ComparisonOperator::Ne => 100,
        }
    }

    /// Appends the conditions of cost `k`, in order.
    fn push_with_cost(&self, conditions: &Vec<Condition>, k: u32, out: &mut Vec<Condition>)
        ensures
            conds_view(final(out)@) == conds_view(old(out)@) + with_cost(
                conds_view(conditions@),
                k,
            ),
    {
        let mut i: usize = 0;
        while i < conditions.len()
            invariant
                i <= conditions@.len(),
                conds_view(out@) == conds_view(old(out)@) + with_cost(
                    conds_view(conditions@.subrange(0, i as int)),
                    k,
                ),
            decreases conditions.len() - i,
        {
            let ghost pre = conds_view(conditions@.subrange(0, i as int));
            let ghost cur = conds_view(conditions@.subrange(0, i + 1));
            proof {
                assert(cur.drop_last() =~= pre);
                assert(cur.last() == conditions@[i as int]@);
            }
            let ghost before = out@;
            if self.estimate_selectivity(&conditions[i]) == k {
                let c = conditions[i].duplicate();
                out.push(c);
                proof {
                    assert(conds_view(out@) =~= conds_view(before).push(cur.last()));
                }
            }
            i = i + 1;
            proof {
                assert(conds_view(out@) =~= conds_view(old(out)@) + with_cost(cur, k));
            }
        }
        assert(conditions@.subrange(0, conditions@.len() as int) =~= conditions@);
    }

    /// The conditions ordered by cost (stable).
    pub fn reorder_conditions(&self, conditions: &Vec<Condition>) -> (r: Vec<Condition>)
        ensures
            conds_view(r@) == reorder_conds(conds_view(conditions@)),
    {
        let mut out: Vec<Condition> = Vec::new();
        self.push_with_cost(conditions, 1, &mut out);
        self.push_with_cost(conditions, 2, &mut out);
        self.push_with_cost(conditions, 10, &mut out);
        self.push_with_cost(conditions, 20, &mut out);
        self.push_with_cost(conditions, 50, &mut out);
        self.push_with_cost(conditions, 100, &mut out);
        assert(conds_view(out@) =~= reorder_conds(conds_view(conditions@)));
        out
    }

    /// Runs the passes on the conditions of a filter.
    pub fn optimize_filter(&self, filter: QueryFilter) -> (r: QueryFilter)
        ensures
            r.operator == filter.operator,
            conds_view(r.conditions@) == optimize_conds(conds_view(filter.conditions@), self.config),
    {
        let conds = if self.config.simplify_filters {
            self.deduplicate_conditions(&filter.conditions)
        } else {
            filter.conditions
        };
        let conds = if self.config.reorder_conditions {
            self.reorder_conditions(&conds)
        } else {
            conds
        };
        QueryFilter { operator: filter.operator, conditions: conds }
    }

    /// Caps the limit and gives a query with an offset a default limit.
    pub fn optimize_pagination(&self, query: Query) -> (r: Query)
        ensures
            r.limit == paginate(query.limit, query.offset),
            r.collection == query.collection,
            r.filter == query.filter,
            r.sort == query.sort,
            r.offset == query.offset,
            r.projection == query.projection,
    {
        let mut query = query;
        if let Some(limit) = query.limit {
            if limit > MAX_REASONABLE_LIMIT {
                query.limit = Some(MAX_REASONABLE_LIMIT);
            }
        }
        if query.offset.is_some() && query.limit.is_none() {
            query.limit = Some(DEFAULT_LIMIT_WITH_OFFSET);
        }
        query
    }
}

} // verus!
