//! The JSON form of queries and query results, as the frontend exchanges
//! them: structs as objects with one member per field, enums by variant name.
use vstd::prelude::*;
use crate::json::{JVal, JsonNumber, JsonValue, jents, jv, jvs, lemma_jents, lemma_jvs};
use crate::optimizer::op_name;
use crate::query::{
    ComparisonOperator, CondV, Condition, FilterOperator, Projection, Query, QueryFilter,
    QueryResult, SortField, SortOrder, conds_view,
};

verus! {

pub open spec fn filter_op_name(op: FilterOperator) -> Seq<char> {
    match op {
        FilterOperator::And => "And"@,
        FilterOperator::Or => "Or"@,
        FilterOperator::Not => "Not"@,
    }
}

pub open spec fn sort_order_name(o: SortOrder) -> Seq<char> {
    match o {
        SortOrder::Asc => "Asc"@,
        SortOrder::Desc => "Desc"@,
    }
}

/// A JSON number for a count or an index.
pub open spec fn usize_json(n: usize) -> JVal {
    JVal::Num(JsonNumber { mantissa: n as i64, scale: 0, is_float: false })
}

pub open spec fn opt_usize_json(n: Option<usize>) -> JVal {
    match n {
        Some(x) => usize_json(x),
        None => JVal::Null,
    }
}

pub open spec fn strs_json(v: Seq<Seq<char>>) -> JVal {
    JVal::Arr(v.map_values(|s: Seq<char>| JVal::Str(s)))
}

pub open spec fn condition_json(c: CondV) -> JVal {
    JVal::Obj(
        seq![
            ("field"@, JVal::Str(c.field)),
            ("operator"@, JVal::Str(op_name(c.op))),
            ("value"@, c.value),
        ],
    )
}

pub open spec fn filter_json(op: FilterOperator, conds: Seq<CondV>) -> JVal {
    JVal::Obj(
        seq![
            ("operator"@, JVal::Str(filter_op_name(op))),
            ("conditions"@, JVal::Arr(conds.map_values(|c: CondV| condition_json(c)))),
        ],
    )
}

pub open spec fn sort_field_json(f: SortField) -> JVal {
    JVal::Obj(
        seq![("field"@, JVal::Str(f.field@)), ("order"@, JVal::Str(sort_order_name(f.order)))],
    )
}

pub open spec fn projection_json(p: Projection) -> JVal {
    match p {
        Projection::Include(v) => JVal::Obj(
            seq![("Include"@, strs_json(v@.map_values(|s: String| s@)))],
        ),
        Projection::Exclude(v) => JVal::Obj(
            seq![("Exclude"@, strs_json(v@.map_values(|s: String| s@)))],
        ),
    }
}

/// The JSON form of a query.
pub open spec fn query_json(q: Query) -> JVal {
    JVal::Obj(
        seq![
            ("collection"@, JVal::Str(q.collection@)),
            (
                "filter"@,
                match q.filter {
                    Some(f) => filter_json(f.operator, conds_view(f.conditions@)),
                    None => JVal::Null,
                },
            ),
            (
                "sort"@,
                match q.sort {
                    Some(v) => JVal::Arr(v@.map_values(|f: SortField| sort_field_json(f))),
                    None => JVal::Null,
                },
            ),
            ("limit"@, opt_usize_json(q.limit)),
            ("offset"@, opt_usize_json(q.offset)),
            (
                "projection"@,
                match q.projection {
                    Some(p) => projection_json(p),
                    None => JVal::Null,
                },
            ),
        ],
    )
}

fn entry(k: &str, v: JsonValue) -> (e: (String, JsonValue))
    ensures
        e.0@ == k@,
        e.1@ == v@,
{
    (k.to_owned(), v)
}

fn usize_value(n: usize) -> (v: JsonValue)
    requires
        n <= i64::MAX,
    ensures
        v@ == usize_json(n),
{
    JsonValue::Number(JsonNumber::from_int(n as i64))
}

fn opt_usize_value(n: Option<usize>) -> (v: JsonValue)
    requires
        n matches Some(x) ==> x <= i64::MAX,
    ensures
        v@ == opt_usize_json(n),
{
    match n {
        Some(x) => usize_value(x),
        None => JsonValue::Null,
    }
}

/// An object value from its entries.
fn object_of(v: Vec<(String, JsonValue)>) -> (r: JsonValue)
    ensures
        r@ == JVal::Obj(jents(v@)),
{
    JsonValue::Object(v)
}

fn strs_value(v: &Vec<String>) -> (r: JsonValue)
    ensures
        r@ == strs_json(v@.map_values(|s: String| s@)),
{
    let mut out: Vec<JsonValue> = Vec::new();
    let mut i: usize = 0;
    while i < v.len()
        invariant
            i <= v@.len(),
            out@.len() == i,
            forall|j: int| 0 <= j < i ==> (#[trigger] out@[j])@ == JVal::Str(v@[j]@),
        decreases v.len() - i,
    {
        out.push(JsonValue::String(v[i].clone()));
        i = i + 1;
    }
    proof {
        lemma_jvs(out@);
        assert(jvs(out@) =~= v@.map_values(|s: String| s@).map_values(|s: Seq<char>| JVal::Str(s)));
    }
    JsonValue::Array(out)
}

fn op_text(op: ComparisonOperator) -> (s: &'static str)
    ensures
        s@ == op_name(op),
{
    let r = match op {
        ComparisonOperator::Eq => "Eq",
        ComparisonOperator::Ne => "Ne",
        ComparisonOperator::Gt => "Gt",
        ComparisonOperator::Gte => "Gte",
        ComparisonOperator::Lt => "Lt",
        ComparisonOperator::Lte => "Lte",
        ComparisonOperator::In => "In",
        ComparisonOperator::Contains => "Contains",
        ComparisonOperator::StartsWith => "StartsWith",
        ComparisonOperator::EndsWith => "EndsWith",
        ComparisonOperator::Matches => "Matches",
        ComparisonOperator::Like => "Like",
        ComparisonOperator::IsA => "IsA",
        ComparisonOperator::AstRule => "AstRule",
    };
    proof {
        reveal_strlit("Eq");
        reveal_strlit("Ne");
        reveal_strlit("Gt");
        reveal_strlit("Gte");
        reveal_strlit("Lt");
        reveal_strlit("Lte");
        reveal_strlit("In");
        reveal_strlit("Contains");
        reveal_strlit("StartsWith");
        reveal_strlit("EndsWith");
        reveal_strlit("Matches");
        reveal_strlit("Like");
        reveal_strlit("IsA");
        reveal_strlit("AstRule");
    }
    r
}

impl Condition {
    /// The JSON form of the condition.
    pub fn to_json(&self) -> (v: JsonValue)
        ensures
            v@ == condition_json(self@),
    {
        let mut e: Vec<(String, JsonValue)> = Vec::new();
        e.push(entry("field", JsonValue::String(self.field.clone())));
        e.push(entry("operator", JsonValue::from_str(op_text(self.operator))));
        e.push(entry("value", self.value.deep_clone()));
        proof {
            lemma_jents(e@);
            assert(jents(e@) =~= seq![
                ("field"@, JVal::Str(self.field@)),
                ("operator"@, JVal::Str(op_name(self.operator))),
                ("value"@, self.value@),
            ]);
        }
        object_of(e)
    }
}

impl QueryFilter {
    /// The JSON form of the filter.
    pub fn to_json(&self) -> (v: JsonValue)
        ensures
            v@ == filter_json(self.operator, conds_view(self.conditions@)),
    {
        let mut cs: Vec<JsonValue> = Vec::new();
        let mut i: usize = 0;
        while i < self.conditions.len()
            invariant
                i <= self.conditions@.len(),
                cs@.len() == i,
                forall|j: int|
                    0 <= j < i ==> (#[trigger] cs@[j])@ == condition_json(self.conditions@[j]@),
            decreases self.conditions.len() - i,
        {
            cs.push(self.conditions[i].to_json());
            i = i + 1;
        }
        let name = match self.operator {
            FilterOperator::And => "And",
            FilterOperator::Or => "Or",
            FilterOperator::Not => "Not",
        };
        let mut e: Vec<(String, JsonValue)> = Vec::new();
        e.push(entry("operator", JsonValue::from_str(name)));
        e.push(entry("conditions", JsonValue::Array(cs)));
        proof {
            lemma_jvs(cs@);
            lemma_jents(e@);
            assert(jvs(cs@) =~= conds_view(self.conditions@).map_values(
                |c: CondV| condition_json(c),
            ));
            assert(jents(e@) =~= seq![
                ("operator"@, JVal::Str(filter_op_name(self.operator))),
                (
                    "conditions"@,
                    JVal::Arr(conds_view(self.conditions@).map_values(|c: CondV| condition_json(c))),
                ),
            ]);
        }
        object_of(e)
    }
}

impl SortField {
    /// The JSON form of the sort key.
    pub fn to_json(&self) -> (v: JsonValue)
        ensures
            v@ == sort_field_json(*self),
    {
        let name = match self.order {
            SortOrder::Asc => "Asc",
            SortOrder::Desc => "Desc",
        };
        let mut e: Vec<(String, JsonValue)> = Vec::new();
        e.push(entry("field", JsonValue::String(self.field.clone())));
        e.push(entry("order", JsonValue::from_str(name)));
        proof {
            lemma_jents(e@);
            assert(jents(e@) =~= seq![
                ("field"@, JVal::Str(self.field@)),
                ("order"@, JVal::Str(sort_order_name(self.order))),
            ]);
        }
        object_of(e)
    }
}

impl Projection {
    /// The JSON form of the projection.
    pub fn to_json(&self) -> (v: JsonValue)
        ensures
            v@ == projection_json(*self),
    {
        let mut e: Vec<(String, JsonValue)> = Vec::new();
        match self {
            Projection::Include(v) => {
                e.push(entry("Include", strs_value(v)));
            },
            Projection::Exclude(v) => {
                e.push(entry("Exclude", strs_value(v)));
            },
        }
        proof {
            lemma_jents(e@);
            match self {
                Projection::Include(v) => {
                    assert(jents(e@) =~= seq![
                        ("Include"@, strs_json(v@.map_values(|s: String| s@))),
                    ]);
                },
                Projection::Exclude(v) => {
                    assert(jents(e@) =~= seq![
                        ("Exclude"@, strs_json(v@.map_values(|s: String| s@))),
                    ]);
                },
            }
        }
        object_of(e)
    }
}

impl Query {
    /// The JSON form of the query (see `query_json`). Limits and offsets
    /// above `i64::MAX` have no JSON number here and are refused.
    pub fn to_json(&self) -> (v: JsonValue)
        requires
            self.limit matches Some(x) ==> x <= i64::MAX,
            self.offset matches Some(x) ==> x <= i64::MAX,
        ensures
            v@ == query_json(*self),
    {
        let filter = match &self.filter {
            Some(f) => f.to_json(),
            None => JsonValue::Null,
        };
        let sort = match &self.sort {
            Some(v) => {
                let mut out: Vec<JsonValue> = Vec::new();
                let mut i: usize = 0;
                while i < v.len()
                    invariant
                        i <= v@.len(),
                        out@.len() == i,
                        forall|j: int|
                            0 <= j < i ==> (#[trigger] out@[j])@ == sort_field_json(v@[j]),
                    decreases v.len() - i,
                {
                    out.push(v[i].to_json());
                    i = i + 1;
                }
                proof {
                    lemma_jvs(out@);
                    assert(jvs(out@) =~= v@.map_values(|f: SortField| sort_field_json(f)));
                }
                JsonValue::Array(out)
            },
            None => JsonValue::Null,
        };
        let projection = match &self.projection {
            Some(p) => p.to_json(),
            None => JsonValue::Null,
        };
        let mut e: Vec<(String, JsonValue)> = Vec::new();
        e.push(entry("collection", JsonValue::String(self.collection.clone())));
        e.push(entry("filter", filter));
        e.push(entry("sort", sort));
        e.push(entry("limit", opt_usize_value(self.limit)));
        e.push(entry("offset", opt_usize_value(self.offset)));
        e.push(entry("projection", projection));
        proof {
            lemma_jents(e@);
            assert(jents(e@) =~= query_json(*self)->Obj_0);
        }
        object_of(e)
    }
}

/// The JSON form of a query result.
pub open spec fn query_result_json(r: QueryResult) -> JVal {
    JVal::Obj(
        seq![
            ("documents"@, JVal::Arr(jvs(r.documents@))),
            ("total_count"@, JVal::Num(JsonNumber { mantissa: r.total_count as i64, scale: 0, is_float: false })),
            ("offset"@, opt_usize_json(r.offset)),
            ("limit"@, opt_usize_json(r.limit)),
        ],
    )
}

impl QueryResult {
    /// The JSON form of the result.
    pub fn to_json(&self) -> (v: JsonValue)
        requires
            self.total_count <= i64::MAX,
            self.limit matches Some(x) ==> x <= i64::MAX,
            self.offset matches Some(x) ==> x <= i64::MAX,
        ensures
            v@ == query_result_json(*self),
    {
        let mut docs: Vec<JsonValue> = Vec::new();
        let mut i: usize = 0;
        while i < self.documents.len()
            invariant
                i <= self.documents@.len(),
                docs@.len() == i,
                forall|j: int| 0 <= j < i ==> (#[trigger] docs@[j])@ == self.documents@[j]@,
            decreases self.documents.len() - i,
        {
            docs.push(self.documents[i].deep_clone());
            i = i + 1;
        }
        proof {
            lemma_jvs(docs@);
            lemma_jvs(self.documents@);
            assert(jvs(docs@) =~= jvs(self.documents@));
        }
        let mut e: Vec<(String, JsonValue)> = Vec::new();
        e.push(entry("documents", JsonValue::Array(docs)));
        e.push(
            entry("total_count", JsonValue::Number(JsonNumber::from_int(self.total_count as i64))),
        );
        e.push(entry("offset", opt_usize_value(self.offset)));
        e.push(entry("limit", opt_usize_value(self.limit)));
        proof {
            lemma_jents(e@);
            assert(jents(e@) =~= query_result_json(*self)->Obj_0);
        }
        object_of(e)
    }
}

} // verus!
