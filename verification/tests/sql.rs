use sabi::sql_ast::{
    BinaryOperator, CreateTableStmt, DeleteStmt, Expr, InsertStmt, SelectItem, SelectStmt, Statement,
    TableRef, UnaryOperator,
};
use sabi::sql_error::SqlError;
use sabi::sql_eval::{compare_values, evaluate_expression, like_op, try_evaluate_expression, Context};
use sabi::sql_exec::{
    apply_limit, build_row_key, deserialize_row, evaluate_filter, filter_rows, project_row,
    serialize_row, try_serialize_row,
};
use sabi::sql_plan::{Catalog, LogicalPlan, QueryPlanner};
use sabi::sql_types::{ColumnDef, DataType, TableSchema, Value};
use std::cmp::Ordering;

fn col(name: &str, t: DataType, pk: bool) -> ColumnDef {
    ColumnDef { name: name.to_string(), data_type: t, nullable: !pk, primary_key: pk }
}

fn users() -> TableSchema {
    TableSchema {
        name: "users".to_string(),
        columns: vec![col("id", DataType::Integer, true), col("name", DataType::Text, false)],
        primary_key: Some(vec!["id".to_string()]),
    }
}

fn lit(v: Value) -> Expr {
    Expr::Literal(v)
}

fn bin(l: Expr, op: BinaryOperator, r: Expr) -> Expr {
    Expr::BinaryExpr { left: Box::new(l), op, right: Box::new(r) }
}

#[test]
fn value_comparisons() {
    assert_eq!(Value::Integer(1).compare(&Value::Integer(2)), Some(Ordering::Less));
    assert_eq!(Value::Null.compare(&Value::Null), Some(Ordering::Equal));
    assert_eq!(Value::Null.compare(&Value::Integer(1)), None);
    assert_eq!(Value::Integer(1).compare(&Value::Text("1".to_string())), None);
    assert_eq!(Value::Text("abc".to_string()).compare(&Value::Text("abd".to_string())), Some(Ordering::Less));
    assert_eq!(Value::Text("b".to_string()).compare(&Value::Text("ab".to_string())), Some(Ordering::Greater));
    assert_eq!(Value::Boolean(false).compare(&Value::Boolean(true)), Some(Ordering::Less));
    assert!(Value::Integer(1).lt(&Value::Integer(2)));
    assert!(Value::Integer(2).le(&Value::Integer(2)));
    assert!(Value::Integer(3).gt(&Value::Integer(2)));
    assert!(Value::Integer(2).ge(&Value::Integer(2)));
    assert!(!Value::Null.lt(&Value::Integer(2)));
    assert!(!Value::Null.ge(&Value::Integer(2)));
    assert_eq!(Value::Text("x".to_string()).data_type(), Some(DataType::Text));
    assert_eq!(Value::Null.data_type(), None);
}

#[test]
fn value_bytes_round_trip() {
    let values = vec![
        Value::Null,
        Value::Integer(-5),
        Value::Text("héllo".to_string()),
        Value::Boolean(true),
    ];
    for v in values {
        let bytes = v.to_bytes();
        assert_eq!(Value::from_bytes(&bytes).expect("Should read"), v);
    }
    assert_eq!(Value::Integer(1).to_bytes(), vec![1, 1, 0, 0, 0, 0, 0, 0, 0]);
    assert_eq!(Value::Text("ab".to_string()).to_bytes(), vec![2, 2, 0, 0, 0, b'a', b'b']);
    assert_eq!(Value::Boolean(false).to_bytes(), vec![3, 0]);
    assert_eq!(Value::from_bytes(&[]).expect("Should read"), Value::Null);
}

#[test]
fn value_bytes_errors() {
    match Value::from_bytes(&[1, 0]) {
        Err(SqlError::Internal(m)) => assert_eq!(m, "Invalid integer encoding"),
        _ => panic!("expected error"),
    }
    match Value::from_bytes(&[2, 5, 0, 0, 0, b'a']) {
        Err(SqlError::Internal(m)) => assert_eq!(m, "Text truncated"),
        _ => panic!("expected error"),
    }
    match Value::from_bytes(&[2, 1, 0, 0, 0, 0xff]) {
        Err(SqlError::Internal(m)) => assert!(m.starts_with("Invalid UTF-8: ")),
        _ => panic!("expected error"),
    }
    match Value::from_bytes(&[9]) {
        Err(SqlError::Internal(m)) => assert_eq!(m, "Unknown value type tag"),
        _ => panic!("expected error"),
    }
}

#[test]
fn value_display() {
    assert_eq!(Value::Null.to_string(), "NULL");
    assert_eq!(Value::Integer(-42).to_string(), "-42");
    assert_eq!(Value::Integer(i64::MIN).to_string(), "-9223372036854775808");
    assert_eq!(Value::Text("it's".to_string()).to_string(), "'it''s'");
    assert_eq!(Value::Boolean(true).to_string(), "true");
    assert_eq!(DataType::Boolean.to_string(), "BOOLEAN");
}

#[test]
fn sql_error_texts() {
    assert_eq!(SqlError::TableNotFound("t".to_string()).to_string(), "Table not found: t");
    assert_eq!(
        SqlError::TypeError { expected: "INTEGER".to_string(), actual: "TEXT".to_string() }.to_string(),
        "Type error: expected INTEGER, got TEXT"
    );
    let e: SqlError = sabi::error::DbError::Internal("x".to_string()).into();
    assert_eq!(e.to_string(), "Storage error: Internal Error: x");
}

#[test]
fn expression_evaluation() {
    let mut ctx = Context::new();
    ctx.insert("a".to_string(), Value::Integer(7));
    ctx.insert("s".to_string(), Value::Text("hello".to_string()));
    let e = bin(Expr::ColumnRef("a".to_string()), BinaryOperator::Mul, lit(Value::Integer(6)));
    assert_eq!(evaluate_expression(&e, &ctx).expect("Should evaluate"), Value::Integer(42));
    let e = bin(lit(Value::Integer(-7)), BinaryOperator::Div, lit(Value::Integer(2)));
    assert_eq!(evaluate_expression(&e, &ctx).expect("Should evaluate"), Value::Integer(-3));
    let e = bin(Expr::ColumnRef("s".to_string()), BinaryOperator::Like, lit(Value::Text("h_l%".to_string())));
    assert_eq!(evaluate_expression(&e, &ctx).expect("Should evaluate"), Value::Boolean(true));
    let e = bin(lit(Value::Null), BinaryOperator::Lt, lit(Value::Integer(1)));
    assert_eq!(evaluate_expression(&e, &ctx).expect("Should evaluate"), Value::Null);
    let e = Expr::Between {
        expr: Box::new(Expr::ColumnRef("a".to_string())),
        low: Box::new(lit(Value::Integer(1))),
        high: Box::new(lit(Value::Integer(7))),
    };
    assert_eq!(evaluate_expression(&e, &ctx).expect("Should evaluate"), Value::Boolean(true));
    let e = Expr::UnaryExpr { op: UnaryOperator::Neg, expr: Box::new(Expr::ColumnRef("a".to_string())) };
    assert_eq!(evaluate_expression(&e, &ctx).expect("Should evaluate"), Value::Integer(-7));
    let e = Expr::IsNull(Box::new(Expr::ColumnRef("a".to_string())));
    assert_eq!(evaluate_expression(&e, &ctx).expect("Should evaluate"), Value::Boolean(false));
}

#[test]
fn expression_errors() {
    let ctx = Context::new();
    match evaluate_expression(&Expr::ColumnRef("nope".to_string()), &ctx) {
        Err(SqlError::ColumnNotFound(m)) => assert_eq!(m, "nope"),
        _ => panic!("expected column not found"),
    }
    let e = bin(lit(Value::Integer(1)), BinaryOperator::Add, lit(Value::Boolean(true)));
    match evaluate_expression(&e, &ctx) {
        Err(SqlError::TypeError { expected, actual }) => {
            assert_eq!(expected, "INTEGER");
            assert_eq!(actual, "Some(Integer) and Some(Boolean)");
        }
        _ => panic!("expected type error"),
    }
    let e = bin(lit(Value::Integer(1)), BinaryOperator::Lt, lit(Value::Text("x".to_string())));
    match evaluate_expression(&e, &ctx) {
        Err(SqlError::TypeError { expected, .. }) => assert_eq!(expected, "Values of comparable types"),
        _ => panic!("expected type error"),
    }
    let e = bin(lit(Value::Integer(1)), BinaryOperator::Div, lit(Value::Integer(0)));
    assert!(try_evaluate_expression(&e, &ctx).is_none());
    let e = bin(lit(Value::Integer(i64::MAX)), BinaryOperator::Add, lit(Value::Integer(1)));
    assert!(try_evaluate_expression(&e, &ctx).is_none());
    match evaluate_expression(&Expr::FunctionCall { name: "f".to_string(), args: vec![] }, &ctx) {
        Err(SqlError::ExecutionError(m)) => assert_eq!(m, "Expression not supported"),
        _ => panic!("expected unsupported"),
    }
    match like_op(&Value::Text("a".to_string()), &Value::Text("(".to_string())) {
        Err(SqlError::ExecutionError(m)) => assert!(m.starts_with("Invalid LIKE pattern: ")),
        _ => panic!("expected invalid pattern"),
    }
    assert_eq!(
        compare_values(&Value::Integer(1), &Value::Null, BinaryOperator::Gt).expect("Should compare"),
        Value::Null
    );
}

#[test]
fn filters_and_projections() {
    let schema = users();
    let row = vec![Value::Integer(1), Value::Text("Alice".to_string())];
    let columns = vec!["id".to_string(), "name".to_string()];
    let pred = bin(Expr::ColumnRef("id".to_string()), BinaryOperator::Eq, lit(Value::Integer(1)));
    assert!(evaluate_filter(&row, &columns, &pred).expect("Should filter"));
    let projected = project_row(&row, &schema, &["name".to_string(), "zzz".to_string()]);
    assert_eq!(projected, vec![Value::Text("Alice".to_string())]);
    assert_eq!(project_row(&row, &schema, &[]), row);
    let rows = vec![row.clone(), vec![Value::Integer(2), Value::Text("Bob".to_string())]];
    let kept = filter_rows(rows, &columns, &pred);
    assert_eq!(kept.len(), 1);
    let rows: Vec<Vec<Value>> = (0..5).map(|i| vec![Value::Integer(i)]).collect();
    let limited = apply_limit(rows.clone(), 2, 1);
    assert_eq!(limited, vec![vec![Value::Integer(1)], vec![Value::Integer(2)]]);
    assert!(apply_limit(rows.clone(), 2, 9).is_empty());
    assert_eq!(apply_limit(rows, usize::MAX, 0).len(), 5);
}

#[test]
fn rows_are_stored_and_read_back() {
    let schema = users();
    let values = vec![lit(Value::Integer(1)), lit(Value::Text("Alice".to_string()))];
    let bytes = serialize_row(&schema, &None, values).expect("Should serialize");
    let row = deserialize_row(&schema, &bytes).expect("Should read");
    assert_eq!(row, vec![Value::Integer(1), Value::Text("Alice".to_string())]);
    let bad = vec![lit(Value::Text("x".to_string())), lit(Value::Text("y".to_string()))];
    match serialize_row(&schema, &None, bad) {
        Err(SqlError::TypeError { expected, actual }) => {
            assert_eq!(expected, "INTEGER");
            assert_eq!(actual, "TEXT");
        }
        _ => panic!("expected type error"),
    }
    assert!(try_serialize_row(&schema, &None, vec![lit(Value::Integer(1))]).is_none());
    let key = build_row_key(&schema, &None, &[lit(Value::Integer(1)), lit(Value::Text("A".to_string()))])
        .expect("Should build key");
    assert_eq!(key, vec![9, 0, 0, 0, 1, 1, 0, 0, 0, 0, 0, 0, 0]);
}

#[test]
fn booleans_are_read_past_before_the_next_column() {
    let schema = TableSchema {
        name: "t".to_string(),
        columns: vec![
            col("a", DataType::Boolean, false),
            col("b", DataType::Boolean, false),
            col("c", DataType::Integer, false),
        ],
        primary_key: None,
    };
    let row = deserialize_row(&schema, &[3, 0, 3, 1]).expect("Should read");
    assert_eq!(row, vec![Value::Boolean(false), Value::Boolean(true)]);
    let values = vec![lit(Value::Boolean(true)), lit(Value::Boolean(false)), lit(Value::Integer(7))];
    let bytes = serialize_row(&schema, &None, values).expect("Should serialize");
    let back = deserialize_row(&schema, &bytes).expect("Should read");
    assert_eq!(back, vec![Value::Boolean(true), Value::Boolean(false), Value::Integer(7)]);
}

fn planner_with_users() -> QueryPlanner {
    let mut catalog = Catalog::new();
    catalog.add_table(users());
    QueryPlanner::new(catalog)
}

#[test]
fn catalog_lookups() {
    let mut catalog = Catalog::new();
    assert!(!catalog.table_exists("users"));
    catalog.add_table(users());
    assert!(catalog.table_exists("users"));
    assert_eq!(catalog.get_table("users").expect("Should exist").columns.len(), 2);
    assert!(catalog.get_table("other").is_none());
}

#[test]
fn plans_select_with_filter_and_limit() {
    let planner = planner_with_users();
    let stmt = Statement::Select(SelectStmt {
        distinct: false,
        columns: vec![SelectItem::Wildcard],
        from: TableRef::Table { name: "users".to_string(), alias: None },
        where_clause: Some(bin(Expr::ColumnRef("id".to_string()), BinaryOperator::Gt, lit(Value::Integer(0)))),
        order_by: vec![],
        limit: Some(lit(Value::Integer(10))),
        offset: None,
    });
    match planner.plan(stmt).expect("Should plan") {
        LogicalPlan::Limit { input, limit, offset } => {
            assert_eq!(limit, 10);
            assert_eq!(offset, 0);
            match *input {
                LogicalPlan::Filter { input, .. } => match *input {
                    LogicalPlan::Scan { table_name, columns, filter, .. } => {
                        assert_eq!(table_name, "users");
                        assert_eq!(columns, vec!["id".to_string(), "name".to_string()]);
                        assert!(filter.is_some());
                    }
                    _ => panic!("expected scan"),
                },
                _ => panic!("expected filter"),
            }
        }
        _ => panic!("expected limit"),
    }
}

#[test]
fn planning_errors() {
    let planner = planner_with_users();
    let stmt = Statement::Delete(DeleteStmt { table_name: "nope".to_string(), where_clause: None });
    match planner.plan(stmt) {
        Err(SqlError::TableNotFound(m)) => assert_eq!(m, "nope"),
        _ => panic!("expected table not found"),
    }
    let stmt = Statement::CreateTable(CreateTableStmt {
        table_name: "users".to_string(),
        columns: vec![],
        if_not_exists: false,
    });
    match planner.plan(stmt) {
        Err(SqlError::PlannerError(m)) => assert_eq!(m, "Table 'users' already exists"),
        _ => panic!("expected planner error"),
    }
    let stmt = Statement::Insert(InsertStmt {
        table_name: "users".to_string(),
        columns: Some(vec!["id".to_string(), "age".to_string()]),
        values: vec![vec![lit(Value::Integer(1)), lit(Value::Integer(2))]],
    });
    match planner.plan(stmt) {
        Err(SqlError::ColumnNotFound(m)) => assert_eq!(m, "age"),
        _ => panic!("expected column not found"),
    }
    let stmt = Statement::Insert(InsertStmt {
        table_name: "users".to_string(),
        columns: None,
        values: vec![vec![lit(Value::Integer(1))]],
    });
    match planner.plan(stmt) {
        Err(SqlError::PlannerError(m)) => assert_eq!(m, "Value count doesn't match column count"),
        _ => panic!("expected count mismatch"),
    }
}

#[test]
fn plans_create_table_with_primary_key() {
    let planner = QueryPlanner::new(Catalog::new());
    let stmt = Statement::CreateTable(CreateTableStmt {
        table_name: "t".to_string(),
        columns: vec![col("a", DataType::Integer, false), col("b", DataType::Text, true)],
        if_not_exists: true,
    });
    match planner.plan(stmt).expect("Should plan") {
        LogicalPlan::CreateTable { schema, if_not_exists } => {
            assert!(if_not_exists);
            assert_eq!(schema.primary_key, Some(vec!["b".to_string()]));
        }
        _ => panic!("expected create table"),
    }
    assert!(matches!(planner.plan(Statement::Commit), Ok(LogicalPlan::Commit)));
}

use sabi::mvcc::TransactionManager;
use sabi::sql_session::SqlSession;
use sabi::sql_exec::QueryResult;

#[test]
fn session_transaction_control() {
    let mut tm = TransactionManager::new();
    let mut session = SqlSession::new();
    assert!(session.auto_commit);
    match session.commit(&mut tm) {
        Err(SqlError::ExecutionError(m)) => assert_eq!(m, "No transaction to commit"),
        other => panic!("unexpected {:?}", other),
    }
    match session.rollback(&mut tm) {
        Err(SqlError::ExecutionError(m)) => assert_eq!(m, "No transaction to rollback"),
        other => panic!("unexpected {:?}", other),
    }
    let id = match session.begin(&mut tm) {
        Ok(QueryResult::BeginTransaction(id)) => id,
        other => panic!("unexpected {:?}", other),
    };
    assert!(!session.auto_commit);
    match session.begin(&mut tm) {
        Err(SqlError::ExecutionError(m)) => assert_eq!(m, "Transaction already in progress"),
        other => panic!("unexpected {:?}", other),
    }
    // statements run in the open transaction and do not commit it
    let tx = session.statement_transaction(&mut tm);
    assert!(tx.tx_id == id);
    assert!(session.finish_write(&mut tm, tx.tx_id).is_ok());
    assert!(session.current_transaction.is_some());
    assert!(matches!(session.commit(&mut tm), Ok(QueryResult::Commit)));
    assert!(session.auto_commit);
    assert!(session.current_transaction.is_none());
    // in auto-commit a write commits its own transaction
    let tx = session.statement_transaction(&mut tm);
    assert!(session.finish_write(&mut tm, tx.tx_id).is_ok());
    assert!(tm.commit(tx.tx_id).is_err());
}

#[test]
fn parse_create_insert_select() {
    let stmts = sabi::sql_parse::try_parse(
        "CREATE TABLE users (id INTEGER PRIMARY KEY, name TEXT NOT NULL); INSERT INTO users VALUES (1, 'Alice'); SELECT name FROM users WHERE id NOT BETWEEN 2 AND 3 LIMIT 5 OFFSET 1",
    )
    .expect("Should not panic")
    .expect("Should parse");
    assert_eq!(stmts.len(), 3);
    match &stmts[0] {
        Statement::CreateTable(c) => {
            assert_eq!(c.table_name, "users");
            assert_eq!(c.columns.len(), 2);
            assert_eq!(c.columns[0].name, "id");
            assert!(c.columns[0].primary_key);
            assert!(c.columns[0].nullable);
            assert_eq!(c.columns[1].data_type, DataType::Text);
            assert!(!c.columns[1].nullable);
            assert!(!c.if_not_exists);
        }
        other => panic!("expected CREATE TABLE, got {:?}", other),
    }
    match &stmts[1] {
        Statement::Insert(i) => {
            assert_eq!(i.table_name, "users");
            assert!(i.columns.is_none());
            assert_eq!(i.values.len(), 1);
            assert!(matches!(i.values[0][0], Expr::Literal(Value::Integer(1))));
            assert!(matches!(&i.values[0][1], Expr::Literal(Value::Text(t)) if t == "Alice"));
        }
        other => panic!("expected INSERT, got {:?}", other),
    }
    match &stmts[2] {
        Statement::Select(s) => {
            assert!(!s.distinct);
            assert!(matches!(&s.from, TableRef::Table { name, alias: None } if name == "users"));
            match &s.where_clause {
                Some(Expr::UnaryExpr { op: UnaryOperator::Not, expr }) => {
                    assert!(matches!(**expr, Expr::Between { .. }))
                }
                other => panic!("expected NOT (BETWEEN), got {:?}", other),
            }
            assert!(matches!(s.limit, Some(Expr::Literal(Value::Integer(5)))));
            assert!(matches!(s.offset, Some(Expr::Literal(Value::Integer(1)))));
        }
        other => panic!("expected SELECT, got {:?}", other),
    }
}

#[test]
fn parse_transactions_and_errors() {
    let stmts = sabi::sql_parse::try_parse("BEGIN; COMMIT; ROLLBACK").unwrap().unwrap();
    assert!(matches!(stmts[0], Statement::BeginTransaction));
    assert!(matches!(stmts[1], Statement::Commit));
    assert!(matches!(stmts[2], Statement::Rollback));
    match sabi::sql_parse::try_parse("SELECT 99999999999999999999 FROM t").unwrap() {
        Err(SqlError::ParseError(m)) => assert!(m.starts_with("Invalid number: ")),
        other => panic!("expected a parse error, got {:?}", other),
    }
    match sabi::sql_parse::try_parse("SELECT a FROM t ORDER BY a DESC").unwrap() {
        Ok(v) => match &v[0] {
            Statement::Select(s) => {
                assert_eq!(s.order_by.len(), 1);
                assert!(!s.order_by[0].asc);
            }
            other => panic!("expected SELECT, got {:?}", other),
        },
        other => panic!("expected statements, got {:?}", other),
    }
    match sabi::sql_parse::try_parse("DROP TABLE t").unwrap() {
        Err(SqlError::ParseError(m)) => assert!(m.starts_with("Unsupported statement: ")),
        other => panic!("expected a parse error, got {:?}", other),
    }
    match sabi::sql_parse::try_parse("SELECT (a) FROM t").unwrap() {
        Err(SqlError::ParseError(m)) => assert!(m.starts_with("Unsupported expression: ")),
        other => panic!("expected a parse error, got {:?}", other),
    }
    match sabi::sql_parse::try_parse("SELECT a FROM t1.t2").unwrap() {
        Err(SqlError::ParseError(m)) => assert_eq!(m, "Only simple table names supported"),
        other => panic!("expected a parse error, got {:?}", other),
    }
    assert!(matches!(sabi::sql_parse::try_parse("SELEC x").unwrap(), Err(SqlError::ParseError(_))));
    match sabi::sql_parse::try_parse("INSERT INTO t (a) SELECT 1 FROM u").unwrap() {
        Err(SqlError::ParseError(m)) => assert_eq!(m, "INSERT must have VALUES clause"),
        other => panic!("expected a parse error, got {:?}", other),
    }
}
