use raise::error::ErrorCode;
use raise::json::JsonValue;
use raise::query::{ComparisonOperator, FilterOperator, Projection, Query, SortOrder};
use raise::sql::{number_literal, parse_sql, SqlRequest, TransactionRequest};

fn read(sql: &str) -> Query {
    match parse_sql(sql) {
        Ok(SqlRequest::Read(q)) => q,
        Ok(SqlRequest::Write(_)) => panic!("Expected Read request"),
        Err(e) => panic!("unexpected error {:?}", e.code),
    }
}

fn code(sql: &str) -> ErrorCode {
    match parse_sql(sql) {
        Ok(_) => panic!("expected an error for {}", sql),
        Err(e) => e.code,
    }
}

fn text(v: &JsonValue) -> String {
    v.stringify()
}

#[test]
fn test_parse_insert() {
    let sql = "INSERT INTO users (name, age) VALUES ('Alice', 30), ('Bob', 25)";
    let result = parse_sql(sql).unwrap();

    match result {
        SqlRequest::Write(ops) => {
            assert_eq!(ops.len(), 2);
            match &ops[0] {
                TransactionRequest::Insert { collection, document, .. } => {
                    assert_eq!(collection, "users");
                    assert_eq!(text(document.get("name").unwrap()), "\"Alice\"");
                    assert_eq!(text(document.get("age").unwrap()), "30");
                }
            }
        }
        _ => panic!("Expected Write request"),
    }
}

#[test]
fn test_parse_select_legacy() {
    let sql = "SELECT name FROM users WHERE age > 18";
    let result = parse_sql(sql).unwrap();
    match result {
        SqlRequest::Read(q) => assert_eq!(q.collection, "users"),
        _ => panic!("Expected Read request"),
    }
}

#[test]
fn sql_select_reads_every_clause() {
    let q = read(
        "SELECT name, address.city FROM users WHERE age >= 18 AND name LIKE 'A%' \
         ORDER BY age DESC, name LIMIT 10 OFFSET 5",
    );
    assert_eq!(q.collection, "users");
    match &q.projection {
        Some(Projection::Include(fields)) => {
            assert_eq!(fields, &vec!["name".to_string(), "address.city".to_string()])
        }
        _ => panic!("expected an Include projection"),
    }
    let filter = q.filter.as_ref().unwrap();
    assert_eq!(filter.operator, FilterOperator::And);
    assert_eq!(filter.conditions.len(), 2);
    assert_eq!(filter.conditions[0].field, "age");
    assert_eq!(filter.conditions[0].operator, ComparisonOperator::Gte);
    assert_eq!(text(&filter.conditions[0].value), "18");
    assert_eq!(filter.conditions[1].field, "name");
    assert_eq!(filter.conditions[1].operator, ComparisonOperator::Like);
    assert_eq!(text(&filter.conditions[1].value), "\"A%\"");
    let sort = q.sort.as_ref().unwrap();
    assert_eq!(sort.len(), 2);
    assert_eq!(sort[0].field, "age");
    assert_eq!(sort[0].order, SortOrder::Desc);
    assert_eq!(sort[1].field, "name");
    assert_eq!(sort[1].order, SortOrder::Asc);
    assert_eq!(q.limit, Some(10));
    assert_eq!(q.offset, Some(5));
}

#[test]
fn sql_select_star_has_no_projection() {
    let q = read("SELECT * FROM users");
    assert!(q.projection.is_none());
    assert!(q.filter.is_none());
    assert!(q.sort.is_none());
    assert_eq!(q.limit, None);
    assert_eq!(q.offset, None);
}

#[test]
fn sql_or_keeps_both_sides_in_order() {
    let q = read("SELECT * FROM t WHERE (a = 1 OR b <> 'x')");
    let f = q.filter.unwrap();
    assert_eq!(f.operator, FilterOperator::Or);
    assert_eq!(f.conditions.len(), 2);
    assert_eq!(f.conditions[0].field, "a");
    assert_eq!(f.conditions[0].operator, ComparisonOperator::Eq);
    assert_eq!(f.conditions[1].field, "b");
    assert_eq!(f.conditions[1].operator, ComparisonOperator::Ne);
}

#[test]
fn sql_negative_and_fractional_numbers() {
    let q = read("SELECT * FROM t WHERE price < -2.5");
    let f = q.filter.unwrap();
    assert_eq!(f.conditions[0].operator, ComparisonOperator::Lt);
    assert_eq!(text(&f.conditions[0].value), "-2.5");
    let q = read("SELECT * FROM t WHERE n = -3");
    let f = q.filter.unwrap();
    assert_eq!(text(&f.conditions[0].value), "-3.0");
}

#[test]
fn sql_insert_literals_of_each_kind() {
    match parse_sql("INSERT INTO t (a, b, c) VALUES (true, NULL, 'x')").unwrap() {
        SqlRequest::Write(ops) => {
            assert_eq!(ops.len(), 1);
            match &ops[0] {
                TransactionRequest::Insert { collection, id, document } => {
                    assert_eq!(collection, "t");
                    assert!(id.is_none());
                    assert_eq!(text(document.get("a").unwrap()), "true");
                    assert_eq!(text(document.get("b").unwrap()), "null");
                    assert_eq!(text(document.get("c").unwrap()), "\"x\"");
                }
            }
        }
        _ => panic!("Expected Write request"),
    }
}

#[test]
fn sql_refusals() {
    assert_eq!(code("SELEC * FROM users"), ErrorCode::SqlSyntax);
    assert_eq!(code("SELECT * FROM a; SELECT * FROM b"), ErrorCode::SqlSingleStatementOnly);
    assert_eq!(code("DELETE FROM users"), ErrorCode::SqlStatementUnsupported);
    assert_eq!(code("INSERT INTO u (a, b) VALUES (1)"), ErrorCode::SqlInsertColumnsMismatch);
    assert_eq!(code("INSERT INTO u (a) SELECT a FROM v"), ErrorCode::SqlInsertTypeUnsupported);
    assert_eq!(code("SELECT * FROM a, b"), ErrorCode::SqlMultipleSourcesUnsupported);
    assert_eq!(
        code("SELECT * FROM (SELECT * FROM a) AS s"),
        ErrorCode::SqlFromRelationUnsupported
    );
    assert_eq!(
        code("SELECT a FROM x UNION SELECT a FROM y"),
        ErrorCode::SqlSelectExprUnsupported
    );
    assert_eq!(code("SELECT * FROM t WHERE 1 = a"), ErrorCode::SqlIdentifierExpected);
    assert_eq!(code("SELECT * FROM t WHERE a = b"), ErrorCode::SqlLiteralExpected);
    assert_eq!(code("SELECT * FROM t WHERE a = -'x'"), ErrorCode::SqlUnaryMinusTypeMismatch);
    assert_eq!(code("SELECT * FROM t WHERE a IN (1, 2)"), ErrorCode::SqlExpressionUnsupported);
    assert_eq!(code("SELECT * FROM t ORDER BY 1"), ErrorCode::SqlIdentifierExpected);
}

#[test]
fn sql_number_literals() {
    assert_eq!(text(&number_literal("42").unwrap()), "42");
    assert_eq!(text(&number_literal(".5").unwrap()), "0.5");
    assert_eq!(text(&number_literal("1e3").unwrap()), "1000.0");
    assert_eq!(text(&number_literal("2.50").unwrap()), "2.5");
    assert_eq!(text(&number_literal("inf").unwrap()), "null");
    assert_eq!(number_literal("12abc").unwrap_err().code, ErrorCode::NumericParseFail);
}

#[test]
fn sql_limit_is_read_from_the_printed_text_in_upper_case() {
    let q = read("SELECT * FROM t WHERE a = 'limit 7'");
    assert_eq!(q.limit, Some(7));
    let q = read("SELECT * FROM t LIMIT 3");
    assert_eq!(q.limit, Some(3));
    assert_eq!(q.offset, None);
}

#[test]
fn fractions_far_from_one_are_written_with_an_exponent() {
    assert_eq!(text(&number_literal("0.0000001").unwrap()), "1e-7");
    assert_eq!(text(&number_literal("0.000001").unwrap()), "1e-6");
    assert_eq!(text(&number_literal("0.00001").unwrap()), "0.00001");
    assert_eq!(text(&number_literal("-0.000000125").unwrap()), "-1.25e-7");
    assert_eq!(text(&number_literal("1234567890123456.5").unwrap()), "1234567890123456.5");
    assert_eq!(text(&number_literal("2e16").unwrap()), "2e+16");
    assert_eq!(text(&number_literal("1.5e17").unwrap()), "1.5e+17");
    assert_eq!(text(&number_literal("1e15").unwrap()), "1000000000000000.0");
    assert_eq!(text(&number_literal("0.0").unwrap()), "0.0");
}
