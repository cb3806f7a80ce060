//! Queries over a collection: filter conditions, sort keys, pagination and
//! projection.
use vstd::prelude::*;
use crate::json::{JVal, JsonValue};

verus! {

/// A query on one collection.
#[derive(Debug)]
pub struct Query {
    pub collection: String,
    pub filter: Option<QueryFilter>,
    pub sort: Option<Vec<SortField>>,
    pub limit: Option<usize>,
    pub offset: Option<usize>,
    pub projection: Option<Projection>,
}

/// Which fields of the documents a query returns.
#[derive(Debug)]
pub enum Projection {
    Include(Vec<String>),
    Exclude(Vec<String>),
}

/// Conditions combined by one logical operator.
#[derive(Debug)]
pub struct QueryFilter {
    pub operator: FilterOperator,
    pub conditions: Vec<Condition>,
}

#[derive(Debug, Clone, Copy, PartialEq, Eq, Structural)]
pub enum FilterOperator {
    And,
    Or,
    Not,
}

/// A test of one field of a document against a value.
#[derive(Debug)]
pub struct Condition {
    pub field: String,
    pub operator: ComparisonOperator,
    pub value: JsonValue,
}

#[derive(Debug, Clone, Copy, PartialEq, Eq, Structural)]
pub enum ComparisonOperator {
    Eq,
    Ne,
    Gt,
    Gte,
    Lt,
    Lte,
    In,
    Contains,
    StartsWith,
    EndsWith,
    Matches,
    Like,
    IsA,
    AstRule,
}

#[derive(Debug)]
pub struct SortField {
    pub field: String,
    pub order: SortOrder,
}

#[derive(Debug, Clone, Copy, PartialEq, Eq, Structural)]
pub enum SortOrder {
    Asc,
    Desc,
}

/// The documents a query selected, with the paging that was applied.
#[derive(Debug)]
pub struct QueryResult {
    pub documents: Vec<JsonValue>,
    pub total_count: u64,
    pub offset: Option<usize>,
    pub limit: Option<usize>,
}

/// The mathematical value of a condition.
pub struct CondV {
    pub field: Seq<char>,
    pub op: ComparisonOperator,
    pub value: JVal,
}

impl View for Condition {
    type V = CondV;

    open spec fn view(&self) -> CondV {
        CondV { field: self.field@, op: self.operator, value: self.value@ }
    }
}

/// The conditions' values, in order.
pub open spec fn conds_view(s: Seq<Condition>) -> Seq<CondV> {
    s.map_values(|c: Condition| c@)
}

impl Condition {
    pub fn new(field: &str, operator: ComparisonOperator, value: JsonValue) -> (c: Condition)
        ensures
            c.field@ == field@,
            c.operator == operator,
            c.value@ == value@,
    {
        Condition { field: field.to_owned(), operator, value }
    }

    pub fn eq(field: &str, value: JsonValue) -> (c: Condition)
        ensures
            c@ == (CondV { field: field@, op: ComparisonOperator::Eq, value: value@ }),
    {
        Self::new(field, ComparisonOperator::Eq, value)
    }

    pub fn ne(field: &str, value: JsonValue) -> (c: Condition)
        ensures
            c@ == (CondV { field: field@, op: ComparisonOperator::Ne, value: value@ }),
    {
        Self::new(field, ComparisonOperator::Ne, value)
    }

    pub fn gt(field: &str, value: JsonValue) -> (c: Condition)
        ensures
            c@ == (CondV { field: field@, op: ComparisonOperator::Gt, value: value@ }),
    {
        Self::new(field, ComparisonOperator::Gt, value)
    }

    pub fn gte(field: &str, value: JsonValue) -> (c: Condition)
        ensures
            c@ == (CondV { field: field@, op: ComparisonOperator::Gte, value: value@ }),
    {
        Self::new(field, ComparisonOperator::Gte, value)
    }

    pub fn lt(field: &str, value: JsonValue) -> (c: Condition)
        ensures
            c@ == (CondV { field: field@, op: ComparisonOperator::Lt, value: value@ }),
    {
        Self::new(field, ComparisonOperator::Lt, value)
    }

    pub fn lte(field: &str, value: JsonValue) -> (c: Condition)
        ensures
            c@ == (CondV { field: field@, op: ComparisonOperator::Lte, value: value@ }),
    {
        Self::new(field, ComparisonOperator::Lte, value)
    }

    pub fn contains(field: &str, value: JsonValue) -> (c: Condition)
        ensures
            c@ == (CondV { field: field@, op: ComparisonOperator::Contains, value: value@ }),
    {
        Self::new(field, ComparisonOperator::Contains, value)
    }

    pub fn starts_with(field: &str, value: JsonValue) -> (c: Condition)
        ensures
            c@ == (CondV { field: field@, op: ComparisonOperator::StartsWith, value: value@ }),
    {
        Self::new(field, ComparisonOperator::StartsWith, value)
    }

    pub fn ends_with(field: &str, value: JsonValue) -> (c: Condition)
        ensures
            c@ == (CondV { field: field@, op: ComparisonOperator::EndsWith, value: value@ }),
    {
        Self::new(field, ComparisonOperator::EndsWith, value)
    }

    pub fn in_list(field: &str, value: JsonValue) -> (c: Condition)
        ensures
            c@ == (CondV { field: field@, op: ComparisonOperator::In, value: value@ }),
    {
        Self::new(field, ComparisonOperator::In, value)
    }

    pub fn matches(field: &str, value: JsonValue) -> (c: Condition)
        ensures
            c@ == (CondV { field: field@, op: ComparisonOperator::Matches, value: value@ }),
    {
        Self::new(field, ComparisonOperator::Matches, value)
    }

    /// A copy of the condition.
    pub fn duplicate(&self) -> (c: Condition)
        ensures
            c@ == self@,
    {
        Condition {
            field: self.field.clone(),
            operator: self.operator,
            value: self.value.deep_clone(),
        }
    }
}

impl Query {
    /// A query of every document of `collection`.
    pub fn new(collection: &str) -> (q: Query)
        ensures
            q.collection@ == collection@,
            q.filter is None,
            q.sort is None,
            q.limit is None,
            q.offset is None,
            q.projection is None,
    {
        Query {
            collection: collection.to_owned(),
            filter: None,
            sort: None,
            limit: None,
            offset: None,
            projection: None,
        }
    }
}

} // verus!
