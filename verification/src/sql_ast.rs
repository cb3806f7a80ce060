//! The SQL syntax tree that the translation reads: sqlparser reads the
//! text, and the statements are held here as plain values, one node for
//! one node of the parser's tree, as far as the translation looks into it.
use vstd::prelude::*;
use sqlparser::ast::{
    BinaryOperator, Expr, OrderByKind, Select, SelectItem, SetExpr, Statement, TableFactor,
    UnaryOperator,
};
use sqlparser::dialect::GenericDialect;
use sqlparser::parser::Parser;

verus! {

/// A literal as the SQL parser reads it; the number keeps its text.
pub enum SqlLiteral {
    Number(String),
    SingleQuoted(String),
    Boolean(bool),
    Other,
}

/// The binary operators the translation tells apart.
#[derive(Debug, Clone, Copy, PartialEq, Eq, Structural)]
pub enum SqlBinaryOp {
    And,
    Or,
    Eq,
    NotEq,
    Gt,
    GtEq,
    Lt,
    LtEq,
    Other,
}

/// An SQL expression, as far as the translation reads it.
pub enum SqlExpr {
    Identifier(String),
    CompoundIdentifier(Vec<String>),
    Nested(Box<SqlExpr>),
    BinaryOp { left: Box<SqlExpr>, op: SqlBinaryOp, right: Box<SqlExpr> },
    Like { expr: Box<SqlExpr>, pattern: Box<SqlExpr> },
    Negate(Box<SqlExpr>),
    Literal(SqlLiteral),
    Other,
}

/// One item of a `SELECT` list.
pub enum SqlSelectItem {
    Unnamed(SqlExpr),
    Wildcard,
    Other,
}

/// One source of a `FROM` clause: a table by its name, or anything else.
pub enum SqlTable {
    Named(String),
    Other,
}

/// A `SELECT` block.
pub struct SqlSelect {
    pub from: Vec<SqlTable>,
    pub projection: Vec<SqlSelectItem>,
    pub selection: Option<SqlExpr>,
}

/// The body of a query: a `SELECT`, a `VALUES` list, or anything else.
pub enum SqlSetExpr {
    Select(SqlSelect),
    Values(Vec<Vec<SqlExpr>>),
    Other,
}

/// One key of an `ORDER BY`: the expression and its `ASC` / `DESC`.
pub struct SqlOrderItem {
    pub expr: SqlExpr,
    pub asc: Option<bool>,
}

/// A query: its text as the parser prints it, the keys of its `ORDER BY`
/// (none when it has no list of expressions) and its body.
pub struct SqlQuery {
    pub text: String,
    pub order_by: Vec<SqlOrderItem>,
    pub body: SqlSetExpr,
}

/// An `INSERT`: the table's name, the columns and the source rows.
pub struct SqlInsert {
    pub table: String,
    pub columns: Vec<String>,
    pub source: Option<SqlSetExpr>,
}

/// A statement of an SQL text.
pub enum SqlStatement {
    Query(SqlQuery),
    Insert(SqlInsert),
    Other,
}

#[verifier::external_type_specification]
#[verifier::external_body]
pub struct ExStatement(sqlparser::ast::Statement);

#[verifier::external_type_specification]
#[verifier::external_body]
pub struct ExSetExpr(sqlparser::ast::SetExpr);

#[verifier::external_type_specification]
#[verifier::external_body]
pub struct ExSelect(sqlparser::ast::Select);

#[verifier::external_type_specification]
#[verifier::external_body]
pub struct ExExpr(sqlparser::ast::Expr);

#[verifier::external_type_specification]
#[verifier::external_body]
pub struct ExAstValue(sqlparser::ast::Value);

/// The statements that sqlparser's `Parser::parse_sql` reads from a text
/// with the generic dialect, in this module's tree; `None` where it
/// refuses the text.
pub uninterp spec fn sql_parse_tree(sql: Seq<char>) -> Option<Seq<SqlStatement>>;

/// sqlparser's `Parser::parse_sql` with `GenericDialect`: the statements of
/// the text, converted one for one into this module's tree (see the
/// `convert_*` functions below), or the parser's message. The contract
/// names the outcome; the message's text is not stated.
#[verifier::external_body]
pub(crate) fn parse_statements(sql: &str) -> (r: Result<Vec<SqlStatement>, String>)
    ensures
        r is Ok <==> sql_parse_tree(sql@) is Some,
        r matches Ok(v) ==> sql_parse_tree(sql@) == Some(v@),
{
    match Parser::parse_sql(&GenericDialect {}, sql) {
        Ok(statements) => Ok(statements.iter().map(convert_statement).collect()),
        Err(e) => Err(e.to_string()),
    }
}

/// Part of `parse_statements`: a statement, one variant for one; a query
/// with its printed text.
#[verifier::external_body]
fn convert_statement(s: &Statement) -> SqlStatement {
    match s {
        Statement::Query(q) => SqlStatement::Query(SqlQuery {
            text: q.to_string(),
            order_by: convert_order_by(&q.order_by),
            body: convert_set_expr(&q.body),
        }),
        Statement::Insert(i) => SqlStatement::Insert(SqlInsert {
            table: i.table.to_string(),
            columns: i.columns.iter().map(|c| c.value.clone()).collect(),
            source: i.source.as_ref().map(|q| convert_set_expr(&q.body)),
        }),
        _ => SqlStatement::Other,
    }
}

#[verifier::external_type_specification]
#[verifier::external_body]
pub struct ExOrderBy(sqlparser::ast::OrderBy);

/// Part of `parse_statements`: the keys of an `ORDER BY` list of expressions.
#[verifier::external_body]
fn convert_order_by(o: &Option<sqlparser::ast::OrderBy>) -> Vec<SqlOrderItem> {
    match o.as_ref().map(|o| &o.kind) {
        Some(OrderByKind::Expressions(es)) => es.iter().map(|e| SqlOrderItem {
            expr: convert_expr(&e.expr),
            asc: e.options.asc,
        }).collect(),
        _ => Vec::new(),
    }
}

/// Part of `parse_statements`: the body of a query.
#[verifier::external_body]
fn convert_set_expr(b: &SetExpr) -> SqlSetExpr {
    match b {
        SetExpr::Select(s) => SqlSetExpr::Select(convert_select(s)),
        SetExpr::Values(v) => SqlSetExpr::Values(
            v.rows.iter().map(|row| row.iter().map(convert_expr).collect()).collect(),
        ),
        _ => SqlSetExpr::Other,
    }
}

/// Part of `parse_statements`: a `SELECT` block; a table by its printed name.
#[verifier::external_body]
fn convert_select(s: &Select) -> SqlSelect {
    let from = s.from.iter().map(|t| match &t.relation {
        TableFactor::Table { name, .. } => SqlTable::Named(name.to_string()),
        _ => SqlTable::Other,
    }).collect();
    let projection = s.projection.iter().map(|item| match item {
        SelectItem::UnnamedExpr(e) => SqlSelectItem::Unnamed(convert_expr(e)),
        SelectItem::Wildcard(_) => SqlSelectItem::Wildcard,
        _ => SqlSelectItem::Other,
    }).collect();
    SqlSelect { from, projection, selection: s.selection.as_ref().map(convert_expr) }
}

/// Part of `parse_statements`: an expression, one variant for one.
#[verifier::external_body]
fn convert_expr(e: &Expr) -> SqlExpr {
    match e {
        Expr::Identifier(i) => SqlExpr::Identifier(i.value.clone()),
        Expr::CompoundIdentifier(v) => SqlExpr::CompoundIdentifier(v.iter().map(|i| i.value.clone()).collect()),
        Expr::Nested(x) => SqlExpr::Nested(convert_boxed(x)),
        Expr::BinaryOp { left, op, right } => SqlExpr::BinaryOp { left: convert_boxed(left), op: convert_binary_op(op), right: convert_boxed(right) },
        Expr::Like { expr, pattern, .. } => SqlExpr::Like { expr: convert_boxed(expr), pattern: convert_boxed(pattern) },
        Expr::UnaryOp { op: UnaryOperator::Minus, expr } => SqlExpr::Negate(convert_boxed(expr)),
        Expr::Value(v) => SqlExpr::Literal(convert_literal(&v.value)),
        _ => SqlExpr::Other,
    }
}

/// Part of `parse_statements`: an expression, boxed.
#[verifier::external_body]
fn convert_boxed(e: &Expr) -> Box<SqlExpr> {
    Box::new(convert_expr(e))
}

#[verifier::external_type_specification]
#[verifier::external_body]
pub struct ExBinaryOperator(sqlparser::ast::BinaryOperator);

/// Part of `parse_statements`: a binary operator, one variant for one.
#[verifier::external_body]
fn convert_binary_op(op: &BinaryOperator) -> SqlBinaryOp {
    match op {
        BinaryOperator::And => SqlBinaryOp::And,
        BinaryOperator::Or => SqlBinaryOp::Or,
        BinaryOperator::Eq => SqlBinaryOp::Eq,
        BinaryOperator::NotEq => SqlBinaryOp::NotEq,
        BinaryOperator::Gt => SqlBinaryOp::Gt,
        BinaryOperator::GtEq => SqlBinaryOp::GtEq,
        BinaryOperator::Lt => SqlBinaryOp::Lt,
        BinaryOperator::LtEq => SqlBinaryOp::LtEq,
        _ => SqlBinaryOp::Other,
    }
}

/// Part of `parse_statements`: a literal, one variant for one.
#[verifier::external_body]
fn convert_literal(v: &sqlparser::ast::Value) -> SqlLiteral {
    match v {
        sqlparser::ast::Value::Number(n, _) => SqlLiteral::Number(n.clone()),
        sqlparser::ast::Value::SingleQuotedString(s) => SqlLiteral::SingleQuoted(s.clone()),
        sqlparser::ast::Value::Boolean(b) => SqlLiteral::Boolean(*b),
        _ => SqlLiteral::Other,
    }
}

} // verus!
