//! From SQL text to the engine's statements: sqlparser reads the text, and
//! each statement of the syntax tree it gives is converted here. A
//! construct the engine does not run is a parse error naming it.

use vstd::prelude::*;
use vstd::string::*;
use crate::sql_ast::{
    Statement, CreateTableStmt, InsertStmt, SelectStmt, DeleteStmt, Expr, ExprView, expr_view, BinaryOperator,
    UnaryOperator, SelectItem, SelectItemView, TableRef, OrderByExpr, StatementView, SelectView, statement_view,
    select_item_view, select_items_view, order_view, strings_view, exprs_list_view, expr_rows_view, opt_view,
};
use crate::sql_types::{ColumnDef, ColumnView, DataType, Value, ValueView, columns_view};
use crate::sql_error::SqlError;
use crate::sql_eval::eval;
use crate::sql_syntax::{
    SyntaxValue, SyntaxValueView, SyntaxBinaryOp, SyntaxUnaryOp, SyntaxExpr, SyntaxExprView, syntax_exprs_view,
    opt_expr_view, name_part_view, name_view, names_seq_view, SyntaxDataType, SyntaxDataTypeView, SyntaxColumnOption,
    SyntaxColumn, SyntaxColumnView, SyntaxSelectItem, SyntaxSelectItemView, SyntaxTableFactor, SyntaxTableFactorView,
    SyntaxOrderBy, SyntaxOrderByView, SyntaxLimit, SyntaxLimitView, SyntaxBody, SyntaxBodyView, SyntaxQuery,
    SyntaxQueryView, SyntaxStatement, SyntaxStatementView, statements_view, sqlparser_parse, sql_syntax, i64_parse,
    parse_i64, syntax_rows_view, syntax_columns_view, syntax_items_view, syntax_factors_view, syntax_orders_view,
};

verus! {

/* ---------------- what each conversion gives ---------------- */

/// Each element converted in order; the first failure is the result.
pub open spec fn map_all<A, B>(s: Seq<A>, f: spec_fn(A) -> Result<B, Seq<char>>) -> Result<Seq<B>, Seq<char>>
    decreases s.len(),
{
    if s.len() == 0 {
        Ok(Seq::empty())
    } else {
        match f(s[0]) {
            Err(m) => Err(m),
            Ok(b) => match map_all(s.drop_first(), f) {
                Err(m) => Err(m),
                Ok(r) => Ok(seq![b] + r),
            },
        }
    }
}

/// `done` followed by what a conversion of the rest gives.
pub open spec fn then_all<B>(done: Seq<B>, r: Result<Seq<B>, Seq<char>>) -> Result<Seq<B>, Seq<char>> {
    match r {
        Ok(x) => Ok(done + x),
        Err(m) => Err(m),
    }
}

proof fn lemma_map_all_start<A, B>(s: Seq<A>, f: spec_fn(A) -> Result<B, Seq<char>>)
    ensures
        map_all(s, f) == then_all(Seq::<B>::empty(), map_all(s.skip(0), f)),
{
    assert(s.skip(0) =~= s);
    match map_all(s, f) {
        Ok(x) => {
            assert(Seq::<B>::empty() + x =~= x);
        },
        Err(_) => {},
    }
}

proof fn lemma_map_all_next<A, B>(s: Seq<A>, f: spec_fn(A) -> Result<B, Seq<char>>, i: int, done: Seq<B>)
    requires
        0 <= i < s.len(),
    ensures
        f(s[i]) matches Ok(b) ==> then_all(done, map_all(s.skip(i), f)) == then_all(done.push(b), map_all(s.skip(i + 1), f)),
        f(s[i]) matches Err(m) ==> (then_all(done, map_all(s.skip(i), f)) matches Err(m2) && m2 == m),
{
    let t = s.skip(i);
    assert(t[0] == s[i]);
    assert(t.drop_first() =~= s.skip(i + 1));
    match f(s[i]) {
        Ok(b) => {
            match map_all(s.skip(i + 1), f) {
                Ok(x) => {
                    assert(done + (seq![b] + x) =~= done.push(b) + x);
                },
                Err(_) => {},
            }
        },
        Err(_) => {},
    }
}

proof fn lemma_map_all_end<A, B>(s: Seq<A>, f: spec_fn(A) -> Result<B, Seq<char>>, done: Seq<B>)
    ensures
        then_all(done, map_all(s.skip(s.len() as int), f)) == Ok::<Seq<B>, Seq<char>>(done),
{
    assert(s.skip(s.len() as int) =~= Seq::<A>::empty());
    assert(done + Seq::<B>::empty() =~= done);
}

/// `r` is what the conversion `s` gives: on success the value whose view
/// it is, on failure a parse error with that message.
pub open spec fn outcome<T, V>(r: Result<T, SqlError>, s: Result<V, Seq<char>>, view: spec_fn(T) -> V) -> bool {
    match s {
        Ok(v) => r matches Ok(x) && view(x) == v,
        Err(m) => r matches Err(e) && e matches SqlError::ParseError(t) && t@ == m,
    }
}

/// A dotted name as a table name: every part an identifier, and only one part.
pub open spec fn name_spec(n: Seq<Option<Seq<char>>>) -> Result<Seq<char>, Seq<char>> {
    if exists|i: int| 0 <= i < n.len() && #[trigger] n[i] is None {
        Err("Unsupported object name part"@)
    } else if n.len() != 1 {
        Err("Only simple table names supported"@)
    } else {
        match n[0] {
            Some(x) => Ok(x),
            None => Err("Unsupported object name part"@),
        }
    }
}

pub open spec fn data_type_spec(t: SyntaxDataTypeView) -> Result<DataType, Seq<char>> {
    match t {
        SyntaxDataTypeView::Int => Ok(DataType::Integer),
        SyntaxDataTypeView::Integer => Ok(DataType::Integer),
        SyntaxDataTypeView::Text => Ok(DataType::Text),
        SyntaxDataTypeView::Varchar => Ok(DataType::Text),
        SyntaxDataTypeView::Boolean => Ok(DataType::Boolean),
        SyntaxDataTypeView::Other(d) => Err("Unsupported data type: "@ + d),
    }
}

/// A literal: numbers are read as 64-bit integers.
pub open spec fn value_spec(v: SyntaxValueView) -> Result<ValueView, Seq<char>> {
    match v {
        SyntaxValueView::Number(s) => match i64_parse(s) {
            Ok(n) => Ok(ValueView::Integer(n)),
            Err(e) => Err("Invalid number: "@ + e),
        },
        SyntaxValueView::SingleQuoted(s) => Ok(ValueView::Text(s)),
        SyntaxValueView::Boolean(b) => Ok(ValueView::Boolean(b)),
        SyntaxValueView::Null => Ok(ValueView::Null),
        SyntaxValueView::Other => Err("Unsupported value type"@),
    }
}

pub open spec fn binary_op_spec(op: SyntaxBinaryOp) -> Option<BinaryOperator> {
    match op {
        SyntaxBinaryOp::Eq => Some(BinaryOperator::Eq),
        SyntaxBinaryOp::NotEq => Some(BinaryOperator::Neq),
        SyntaxBinaryOp::Lt => Some(BinaryOperator::Lt),
        SyntaxBinaryOp::LtEq => Some(BinaryOperator::LtEq),
        SyntaxBinaryOp::Gt => Some(BinaryOperator::Gt),
        SyntaxBinaryOp::GtEq => Some(BinaryOperator::GtEq),
        SyntaxBinaryOp::And => Some(BinaryOperator::And),
        SyntaxBinaryOp::Or => Some(BinaryOperator::Or),
        SyntaxBinaryOp::Plus => Some(BinaryOperator::Add),
        SyntaxBinaryOp::Minus => Some(BinaryOperator::Sub),
        SyntaxBinaryOp::Multiply => Some(BinaryOperator::Mul),
        SyntaxBinaryOp::Divide => Some(BinaryOperator::Div),
        SyntaxBinaryOp::Other => None,
    }
}

pub open spec fn unary_op_spec(op: SyntaxUnaryOp) -> Option<UnaryOperator> {
    match op {
        SyntaxUnaryOp::Not => Some(UnaryOperator::Not),
        SyntaxUnaryOp::Minus => Some(UnaryOperator::Neg),
        SyntaxUnaryOp::Other => None,
    }
}

/// An expression. The operator is checked before the operands, and operands
/// are converted left to right; `NOT BETWEEN` is `NOT` of the `BETWEEN`.
pub open spec fn expr_spec(e: SyntaxExprView) -> Result<ExprView, Seq<char>>
    decreases e,
{
    match e {
        SyntaxExprView::Value(v) => match value_spec(v) {
            Ok(x) => Ok(ExprView::Literal(x)),
            Err(m) => Err(m),
        },
        SyntaxExprView::Identifier(s) => Ok(ExprView::ColumnRef(s)),
        SyntaxExprView::BinaryOp(l, op, r) => match binary_op_spec(op) {
            None => Err("Unsupported binary operator"@),
            Some(o) => match expr_spec(*l) {
                Err(m) => Err(m),
                Ok(a) => match expr_spec(*r) {
                    Err(m) => Err(m),
                    Ok(b) => Ok(ExprView::BinaryExpr { left: Box::new(a), op: o, right: Box::new(b) }),
                },
            },
        },
        SyntaxExprView::UnaryOp(op, x) => match unary_op_spec(op) {
            None => Err("Unsupported unary operator"@),
            Some(o) => match expr_spec(*x) {
                Err(m) => Err(m),
                Ok(a) => Ok(ExprView::UnaryExpr { op: o, expr: Box::new(a) }),
            },
        },
        SyntaxExprView::IsNull(x) => match expr_spec(*x) {
            Err(m) => Err(m),
            Ok(a) => Ok(ExprView::IsNull(Box::new(a))),
        },
        SyntaxExprView::IsNotNull(x) => match expr_spec(*x) {
            Err(m) => Err(m),
            Ok(a) => Ok(ExprView::IsNotNull(Box::new(a))),
        },
        SyntaxExprView::Between(x, negated, lo, hi) => match expr_spec(*x) {
            Err(m) => Err(m),
            Ok(a) => match expr_spec(*lo) {
                Err(m) => Err(m),
                Ok(b) => match expr_spec(*hi) {
                    Err(m) => Err(m),
                    Ok(c) => {
                        let between = ExprView::Between { expr: Box::new(a), low: Box::new(b), high: Box::new(c) };
                        if negated {
                            Ok(ExprView::UnaryExpr { op: UnaryOperator::Not, expr: Box::new(between) })
                        } else {
                            Ok(between)
                        }
                    },
                },
            },
        },
        SyntaxExprView::Other(d) => Err("Unsupported expression: "@ + d),
    }
}

pub open spec fn opt_expr_spec(e: Option<SyntaxExprView>) -> Result<Option<ExprView>, Seq<char>> {
    match e {
        None => Ok(None),
        Some(x) => match expr_spec(x) {
            Ok(a) => Ok(Some(a)),
            Err(m) => Err(m),
        },
    }
}

/// A column: its type, not nullable when `NOT NULL` is among its options,
/// a primary key when `PRIMARY KEY` is.
pub open spec fn column_spec(c: SyntaxColumnView) -> Result<ColumnView, Seq<char>> {
    match data_type_spec(c.data_type) {
        Err(m) => Err(m),
        Ok(t) => Ok(
            ColumnView {
                name: c.name,
                data_type: t,
                nullable: !c.options.contains(SyntaxColumnOption::NotNull),
                primary_key: c.options.contains(SyntaxColumnOption::PrimaryKey),
            },
        ),
    }
}

pub open spec fn column_step() -> spec_fn(SyntaxColumnView) -> Result<ColumnView, Seq<char>> {
    |c: SyntaxColumnView| column_spec(c)
}

pub open spec fn name_step() -> spec_fn(Seq<Option<Seq<char>>>) -> Result<Seq<char>, Seq<char>> {
    |n: Seq<Option<Seq<char>>>| name_spec(n)
}

pub open spec fn expr_step() -> spec_fn(SyntaxExprView) -> Result<ExprView, Seq<char>> {
    |e: SyntaxExprView| expr_spec(e)
}

pub open spec fn row_step() -> spec_fn(Seq<SyntaxExprView>) -> Result<Seq<ExprView>, Seq<char>> {
    |r: Seq<SyntaxExprView>| map_all(r, expr_step())
}

pub open spec fn select_item_spec(i: SyntaxSelectItemView) -> Result<SelectItemView, Seq<char>> {
    match i {
        SyntaxSelectItemView::Wildcard => Ok(SelectItemView::Wildcard),
        SyntaxSelectItemView::Unnamed(e) => match expr_spec(e) {
            Ok(x) => Ok(SelectItemView::Expr(x, None)),
            Err(m) => Err(m),
        },
        SyntaxSelectItemView::Aliased(e, a) => match expr_spec(e) {
            Ok(x) => Ok(SelectItemView::Expr(x, Some(a))),
            Err(m) => Err(m),
        },
        SyntaxSelectItemView::Other => Err("Unsupported SELECT item"@),
    }
}

pub open spec fn select_item_step() -> spec_fn(SyntaxSelectItemView) -> Result<SelectItemView, Seq<char>> {
    |i: SyntaxSelectItemView| select_item_spec(i)
}

/// An `ORDER BY` entry: the expression, ascending unless `DESC`.
pub open spec fn order_step() -> spec_fn((SyntaxExprView, bool)) -> Result<(ExprView, bool), Seq<char>> {
    |o: (SyntaxExprView, bool)| match expr_spec(o.0) {
        Ok(x) => Ok((x, !o.1)),
        Err(m) => Err(m),
    }
}

pub open spec fn table_ref_spec(f: SyntaxTableFactorView) -> Result<(Seq<char>, Option<Seq<char>>), Seq<char>> {
    match f {
        SyntaxTableFactorView::Table(n, a) => match name_spec(n) {
            Ok(t) => Ok((t, a)),
            Err(m) => Err(m),
        },
        SyntaxTableFactorView::Other => Err("Unsupported table reference"@),
    }
}

pub open spec fn order_by_spec(o: Option<SyntaxOrderByView>) -> Result<Seq<(ExprView, bool)>, Seq<char>> {
    match o {
        None => Ok(Seq::empty()),
        Some(SyntaxOrderByView::Other) => Err("Unsupported ORDER BY kind"@),
        Some(SyntaxOrderByView::Expressions(v)) => map_all(v, order_step()),
    }
}

/// The limit and the offset. A limit clause without a limit is an error;
/// `LIMIT offset, limit` converts the limit first.
pub open spec fn limit_spec(l: Option<SyntaxLimitView>) -> Result<(Option<ExprView>, Option<ExprView>), Seq<char>> {
    match l {
        None => Ok((None, None)),
        Some(SyntaxLimitView::LimitOffset(lim, off)) => match opt_expr_spec(lim) {
            Err(m) => Err(m),
            Ok(None) => Err("LIMIT must have a value"@),
            Ok(Some(x)) => match opt_expr_spec(off) {
                Err(m) => Err(m),
                Ok(y) => Ok((Some(x), y)),
            },
        },
        Some(SyntaxLimitView::OffsetCommaLimit(off, lim)) => match expr_spec(lim) {
            Err(m) => Err(m),
            Ok(x) => match expr_spec(off) {
                Err(m) => Err(m),
                Ok(y) => Ok((Some(x), Some(y))),
            },
        },
    }
}

/// A query as a `SELECT`: its items, the first `FROM` item, the `WHERE`
/// condition, `ORDER BY`, then `LIMIT` and `OFFSET`, converted in that order.
pub open spec fn select_spec(q: SyntaxQueryView) -> Result<SelectView, Seq<char>> {
    match q.body {
        SyntaxBodyView::Select(s) => match map_all(s.projection, select_item_step()) {
            Err(m) => Err(m),
            Ok(columns) => if s.from.len() == 0 {
                Err("SELECT must have FROM clause"@)
            } else {
                match table_ref_spec(s.from[0]) {
                    Err(m) => Err(m),
                    Ok(from) => match opt_expr_spec(s.selection) {
                        Err(m) => Err(m),
                        Ok(where_clause) => match order_by_spec(q.order_by) {
                            Err(m) => Err(m),
                            Ok(order_by) => match limit_spec(q.limit) {
                                Err(m) => Err(m),
                                Ok(lo) => Ok(
                                    SelectView {
                                        distinct: s.distinct,
                                        columns,
                                        from,
                                        where_clause,
                                        order_by,
                                        limit: lo.0,
                                        offset: lo.1,
                                    },
                                ),
                            },
                        },
                    },
                }
            },
        },
        _ => Err("Only SELECT queries supported"@),
    }
}

/// An insert: the table's name, the named columns (none named: `None`),
/// and the rows of its `VALUES`.
pub open spec fn insert_spec(
    n: Seq<Option<Seq<char>>>,
    cols: Seq<Seq<Option<Seq<char>>>>,
    q: SyntaxQueryView,
) -> Result<StatementView, Seq<char>> {
    match name_spec(n) {
        Err(m) => Err(m),
        Ok(table_name) => match map_all(cols, name_step()) {
            Err(m) => Err(m),
            Ok(names) => match q.body {
                SyntaxBodyView::Values(rows) => match map_all(rows, row_step()) {
                    Err(m) => Err(m),
                    Ok(values) => Ok(
                        StatementView::Insert {
                            table_name,
                            columns: if cols.len() == 0 { None } else { Some(names) },
                            values,
                        },
                    ),
                },
                _ => Err("INSERT must have VALUES clause"@),
            },
        },
    }
}

/// The statements sqlparser gives that the conversion does not run: an
/// insert into a named table without a source.
pub open spec fn statement_panics(s: SyntaxStatementView) -> bool {
    s matches SyntaxStatementView::Insert(Some(_), _, None)
}

pub open spec fn statement_spec(s: SyntaxStatementView) -> Result<StatementView, Seq<char>> {
    match s {
        SyntaxStatementView::CreateTable(n, cols) => match name_spec(n) {
            Err(m) => Err(m),
            Ok(table_name) => match map_all(cols, column_step()) {
                Err(m) => Err(m),
                Ok(columns) => Ok(StatementView::CreateTable { table_name, columns, if_not_exists: false }),
            },
        },
        SyntaxStatementView::Insert(t, cols, src) => match t {
            None => Err("INSERT INTO table functions not supported"@),
            Some(n) => match src {
                Some(q) => insert_spec(n, cols, q),
                None => Err(Seq::empty()),
            },
        },
        SyntaxStatementView::Query(q) => match select_spec(q) {
            Ok(s) => Ok(StatementView::Select(s)),
            Err(m) => Err(m),
        },
        SyntaxStatementView::Delete(tables, w) => if tables.len() == 0 {
            Err("No table specified in DELETE statement"@)
        } else {
            match name_spec(tables[0]) {
                Err(m) => Err(m),
                Ok(table_name) => match opt_expr_spec(w) {
                    Err(m) => Err(m),
                    Ok(where_clause) => Ok(StatementView::Delete { table_name, where_clause }),
                },
            }
        },
        SyntaxStatementView::StartTransaction => Ok(StatementView::BeginTransaction),
        SyntaxStatementView::Commit => Ok(StatementView::Commit),
        SyntaxStatementView::Rollback => Ok(StatementView::Rollback),
        SyntaxStatementView::Other(d) => Err("Unsupported statement: "@ + d),
    }
}

pub open spec fn statement_step() -> spec_fn(SyntaxStatementView) -> Result<StatementView, Seq<char>> {
    |s: SyntaxStatementView| statement_spec(s)
}

/// Converting the statements in order reaches one that the conversion does not run.
pub open spec fn reaches_panic(v: Seq<SyntaxStatementView>) -> bool
    decreases v.len(),
{
    v.len() > 0 && (statement_panics(v[0]) || (statement_spec(v[0]) is Ok && reaches_panic(v.drop_first())))
}

/// What parsing SQL text gives: sqlparser's error as a parse error, or
/// each statement converted in order.
pub open spec fn parse_spec(p: Result<Seq<SyntaxStatementView>, Seq<char>>) -> Result<Seq<StatementView>, Seq<char>> {
    match p {
        Err(e) => Err(e),
        Ok(v) => map_all(v, statement_step()),
    }
}

/// The parse of this text reaches a statement that the conversion does not run.
pub open spec fn parse_panics(p: Result<Seq<SyntaxStatementView>, Seq<char>>) -> bool {
    p matches Ok(v) && reaches_panic(v)
}

pub open spec fn statements_out_view(v: Seq<Statement>) -> Seq<StatementView> {
    v.map_values(|s: Statement| statement_view(s))
}

/// What an SQL operator answers for two integers, where it answers a truth:
/// the comparisons, and AND and OR of their truths (non-zero).
pub open spec fn integer_truth_meaning(op: SyntaxBinaryOp, x: int, y: int) -> Option<bool> {
    match op {
        SyntaxBinaryOp::Eq => Some(x == y),
        SyntaxBinaryOp::NotEq => Some(x != y),
        SyntaxBinaryOp::Lt => Some(x < y),
        SyntaxBinaryOp::LtEq => Some(x <= y),
        SyntaxBinaryOp::Gt => Some(x > y),
        SyntaxBinaryOp::GtEq => Some(x >= y),
        SyntaxBinaryOp::And => Some(x != 0 && y != 0),
        SyntaxBinaryOp::Or => Some(x != 0 || y != 0),
        _ => None,
    }
}

/// What an SQL operator answers for two integers, where it answers a number.
pub open spec fn integer_number_meaning(op: SyntaxBinaryOp, x: int, y: int) -> Option<int> {
    match op {
        SyntaxBinaryOp::Plus => Some(x + y),
        SyntaxBinaryOp::Minus => Some(x - y),
        SyntaxBinaryOp::Multiply => Some(x * y),
        _ => None,
    }
}

/// `a op b` over two columns, as the parser reads it.
pub open spec fn column_operation(a: Seq<char>, op: SyntaxBinaryOp, b: Seq<char>) -> SyntaxExprView {
    SyntaxExprView::BinaryOp(Box::new(SyntaxExprView::Identifier(a)), op, Box::new(SyntaxExprView::Identifier(b)))
}

/// An operator written between two integer columns converts to the operator
/// of the same meaning: evaluated on a row, the converted expression answers
/// the comparison, AND, OR, sum, difference or product that SQL writes.
pub proof fn lemma_parsed_operator_means_what_it_says(op: SyntaxBinaryOp, a: Seq<char>, b: Seq<char>, x: i64, y: i64)
    requires
        a != b,
    ensures
        integer_truth_meaning(op, x as int, y as int) matches Some(t) ==> (expr_spec(column_operation(a, op, b)) matches Ok(
            e,
        ) && eval(e, Map::empty().insert(a, ValueView::Integer(x)).insert(b, ValueView::Integer(y)))
            == Ok::<ValueView, crate::sql_eval::EvalErr>(ValueView::Boolean(t))),
        integer_number_meaning(op, x as int, y as int) matches Some(z) ==> (i64::MIN <= z <= i64::MAX ==> (expr_spec(
            column_operation(a, op, b),
        ) matches Ok(e) && eval(e, Map::empty().insert(a, ValueView::Integer(x)).insert(b, ValueView::Integer(y))) matches Ok(
            ValueView::Integer(w),
        ) && w == z)),
{
    let ctx = Map::<Seq<char>, ValueView>::empty().insert(a, ValueView::Integer(x)).insert(b, ValueView::Integer(y));
    assert(ctx.contains_key(a) && ctx[a] == ValueView::Integer(x));
    assert(ctx.contains_key(b) && ctx[b] == ValueView::Integer(y));
    assert(expr_spec(SyntaxExprView::Identifier(a)) == Ok::<ExprView, Seq<char>>(ExprView::ColumnRef(a)));
    assert(expr_spec(SyntaxExprView::Identifier(b)) == Ok::<ExprView, Seq<char>>(ExprView::ColumnRef(b)));
    assert(eval(ExprView::ColumnRef(a), ctx) == Ok::<ValueView, crate::sql_eval::EvalErr>(ValueView::Integer(x)));
    assert(eval(ExprView::ColumnRef(b), ctx) == Ok::<ValueView, crate::sql_eval::EvalErr>(ValueView::Integer(y)));
    match binary_op_spec(op) {
        Some(bop) => {
            let e = ExprView::BinaryExpr {
                left: Box::new(ExprView::ColumnRef(a)),
                op: bop,
                right: Box::new(ExprView::ColumnRef(b)),
            };
            assert(expr_spec(column_operation(a, op, b)) == Ok::<ExprView, Seq<char>>(e));
            assert(eval(e, ctx) == crate::sql_eval::binary_spec(bop, ValueView::Integer(x), ValueView::Integer(y)));
        },
        None => {},
    }
}

/// `a [NOT] BETWEEN b AND c` over three columns, as the parser reads it.
pub open spec fn column_between(a: Seq<char>, negated: bool, b: Seq<char>, c: Seq<char>) -> SyntaxExprView {
    SyntaxExprView::Between(
        Box::new(SyntaxExprView::Identifier(a)),
        negated,
        Box::new(SyntaxExprView::Identifier(b)),
        Box::new(SyntaxExprView::Identifier(c)),
    )
}

/// `x BETWEEN lo AND hi` over integer columns is true exactly when
/// `lo <= x <= hi`, and `NOT BETWEEN` is its negation.
pub proof fn lemma_parsed_between_means_what_it_says(
    a: Seq<char>,
    negated: bool,
    b: Seq<char>,
    c: Seq<char>,
    x: i64,
    lo: i64,
    hi: i64,
)
    requires
        a != b && b != c && a != c,
    ensures
        expr_spec(column_between(a, negated, b, c)) matches Ok(e) && eval(
            e,
            Map::empty().insert(a, ValueView::Integer(x)).insert(b, ValueView::Integer(lo)).insert(c, ValueView::Integer(hi)),
        ) == Ok::<ValueView, crate::sql_eval::EvalErr>(ValueView::Boolean(negated != (lo <= x && x <= hi))),
{
    let ctx = Map::<Seq<char>, ValueView>::empty().insert(a, ValueView::Integer(x)).insert(b, ValueView::Integer(lo)).insert(
        c,
        ValueView::Integer(hi),
    );
    assert(ctx.contains_key(a) && ctx[a] == ValueView::Integer(x));
    assert(ctx.contains_key(b) && ctx[b] == ValueView::Integer(lo));
    assert(ctx.contains_key(c) && ctx[c] == ValueView::Integer(hi));
    assert(expr_spec(SyntaxExprView::Identifier(a)) == Ok::<ExprView, Seq<char>>(ExprView::ColumnRef(a)));
    assert(expr_spec(SyntaxExprView::Identifier(b)) == Ok::<ExprView, Seq<char>>(ExprView::ColumnRef(b)));
    assert(expr_spec(SyntaxExprView::Identifier(c)) == Ok::<ExprView, Seq<char>>(ExprView::ColumnRef(c)));
    assert(eval(ExprView::ColumnRef(a), ctx) == Ok::<ValueView, crate::sql_eval::EvalErr>(ValueView::Integer(x)));
    assert(eval(ExprView::ColumnRef(b), ctx) == Ok::<ValueView, crate::sql_eval::EvalErr>(ValueView::Integer(lo)));
    assert(eval(ExprView::ColumnRef(c), ctx) == Ok::<ValueView, crate::sql_eval::EvalErr>(ValueView::Integer(hi)));
    let between = ExprView::Between {
        expr: Box::new(ExprView::ColumnRef(a)),
        low: Box::new(ExprView::ColumnRef(b)),
        high: Box::new(ExprView::ColumnRef(c)),
    };
    assert(eval(between, ctx) == Ok::<ValueView, crate::sql_eval::EvalErr>(ValueView::Boolean(lo <= x && x <= hi)));
    if negated {
        let e = ExprView::UnaryExpr { op: UnaryOperator::Not, expr: Box::new(between) };
        assert(expr_spec(column_between(a, negated, b, c)) == Ok::<ExprView, Seq<char>>(e));
    } else {
        assert(expr_spec(column_between(a, negated, b, c)) == Ok::<ExprView, Seq<char>>(between));
    }
}

/* ---------------- the conversion ---------------- */

fn parse_error(msg: &str) -> (r: SqlError)
    ensures
        r matches SqlError::ParseError(m) && m@ == msg@,
{
    SqlError::ParseError(String::from_str(msg))
}

/// A dotted name as a table name.
pub fn name_to_string(n: &Vec<Option<String>>) -> (r: Result<String, SqlError>)
    ensures
        outcome(r, name_spec(name_view(n@)), |s: String| s@),
{
    let ghost nv = name_view(n@);
    let mut i: usize = 0;
    while i < n.len()
        invariant
            i <= n@.len(),
            nv == name_view(n@),
            forall|k: int| 0 <= k < i ==> #[trigger] nv[k] is Some,
        decreases n@.len() - i,
    {
        if n[i].is_none() {
            proof {
                assert(nv[i as int] is None);
            }
            return Err(parse_error("Unsupported object name part"));
        }
        i = i + 1;
    }
    if n.len() != 1 {
        return Err(parse_error("Only simple table names supported"));
    }
    match &n[0] {
        Some(s) => Ok(s.clone()),
        None => Err(parse_error("Unsupported object name part")),
    }
}

fn data_type_of_syntax(t: &SyntaxDataType) -> (r: Result<DataType, SqlError>)
    ensures
        outcome(r, data_type_spec(t@), |d: DataType| d),
{
    match t {
        SyntaxDataType::Int => Ok(DataType::Integer),
        SyntaxDataType::Integer => Ok(DataType::Integer),
        SyntaxDataType::Text => Ok(DataType::Text),
        SyntaxDataType::Varchar => Ok(DataType::Text),
        SyntaxDataType::Boolean => Ok(DataType::Boolean),
        SyntaxDataType::Other(d) => Err(SqlError::ParseError(String::from_str("Unsupported data type: ").concat(d.as_str()))),
    }
}

fn value_of_syntax(v: &SyntaxValue) -> (r: Result<Value, SqlError>)
    ensures
        outcome(r, value_spec(v@), |x: Value| x@),
{
    match v {
        SyntaxValue::Number(s) => match parse_i64(s.as_str()) {
            Ok(n) => Ok(Value::Integer(n)),
            Err(e) => Err(SqlError::ParseError(String::from_str("Invalid number: ").concat(e.as_str()))),
        },
        SyntaxValue::SingleQuoted(s) => Ok(Value::Text(s.clone())),
        SyntaxValue::Boolean(b) => Ok(Value::Boolean(*b)),
        SyntaxValue::Null => Ok(Value::Null),
        SyntaxValue::Other => Err(parse_error("Unsupported value type")),
    }
}

fn binary_op_of_syntax(op: SyntaxBinaryOp) -> (r: Option<BinaryOperator>)
    ensures
        r == binary_op_spec(op),
{
    match op {
        SyntaxBinaryOp::Eq => Some(BinaryOperator::Eq),
        SyntaxBinaryOp::NotEq => Some(BinaryOperator::Neq),
        SyntaxBinaryOp::Lt => Some(BinaryOperator::Lt),
        SyntaxBinaryOp::LtEq => Some(BinaryOperator::LtEq),
        SyntaxBinaryOp::Gt => Some(BinaryOperator::Gt),
        SyntaxBinaryOp::GtEq => Some(BinaryOperator::GtEq),
        SyntaxBinaryOp::And => Some(BinaryOperator::And),
        SyntaxBinaryOp::Or => Some(BinaryOperator::Or),
        SyntaxBinaryOp::Plus => Some(BinaryOperator::Add),
        SyntaxBinaryOp::Minus => Some(BinaryOperator::Sub),
        SyntaxBinaryOp::Multiply => Some(BinaryOperator::Mul),
        SyntaxBinaryOp::Divide => Some(BinaryOperator::Div),
        SyntaxBinaryOp::Other => None,
    }
}

/// Converts an expression of the syntax tree.
pub fn convert_expr(e: &SyntaxExpr) -> (r: Result<Expr, SqlError>)
    ensures
        outcome(r, expr_spec(e@), |x: Expr| expr_view(x)),
    decreases e,
{
    match e {
        SyntaxExpr::Value(v) => match value_of_syntax(v) {
            Ok(x) => Ok(Expr::Literal(x)),
            Err(m) => Err(m),
        },
        SyntaxExpr::Identifier(s) => Ok(Expr::ColumnRef(s.clone())),
        SyntaxExpr::BinaryOp(l, op, rt) => {
            let o = match binary_op_of_syntax(*op) {
                Some(o) => o,
                None => return Err(parse_error("Unsupported binary operator")),
            };
            let a = match convert_expr(&**l) {
                Ok(a) => a,
                Err(m) => return Err(m),
            };
            let b = match convert_expr(&**rt) {
                Ok(b) => b,
                Err(m) => return Err(m),
            };
            Ok(Expr::BinaryExpr { left: Box::new(a), op: o, right: Box::new(b) })
        },
        SyntaxExpr::UnaryOp(op, x) => {
            let o = match op {
                SyntaxUnaryOp::Not => UnaryOperator::Not,
                SyntaxUnaryOp::Minus => UnaryOperator::Neg,
                SyntaxUnaryOp::Other => return Err(parse_error("Unsupported unary operator")),
            };
            match convert_expr(&**x) {
                Ok(a) => Ok(Expr::UnaryExpr { op: o, expr: Box::new(a) }),
                Err(m) => Err(m),
            }
        },
        SyntaxExpr::IsNull(x) => match convert_expr(&**x) {
            Ok(a) => Ok(Expr::IsNull(Box::new(a))),
            Err(m) => Err(m),
        },
        SyntaxExpr::IsNotNull(x) => match convert_expr(&**x) {
            Ok(a) => Ok(Expr::IsNotNull(Box::new(a))),
            Err(m) => Err(m),
        },
        SyntaxExpr::Between(x, negated, lo, hi) => {
            let a = match convert_expr(&**x) {
                Ok(a) => a,
                Err(m) => return Err(m),
            };
            let b = match convert_expr(&**lo) {
                Ok(b) => b,
                Err(m) => return Err(m),
            };
            let c = match convert_expr(&**hi) {
                Ok(c) => c,
                Err(m) => return Err(m),
            };
            let between = Expr::Between { expr: Box::new(a), low: Box::new(b), high: Box::new(c) };
            if *negated {
                Ok(Expr::UnaryExpr { op: UnaryOperator::Not, expr: Box::new(between) })
            } else {
                Ok(between)
            }
        },
        SyntaxExpr::Other(d) => Err(SqlError::ParseError(String::from_str("Unsupported expression: ").concat(d.as_str()))),
    }
}

fn convert_opt_expr(e: &Option<SyntaxExpr>) -> (r: Result<Option<Expr>, SqlError>)
    ensures
        outcome(r, opt_expr_spec(opt_expr_view(*e)), |x: Option<Expr>| opt_view(x)),
{
    match e {
        None => Ok(None),
        Some(x) => match convert_expr(x) {
            Ok(a) => Ok(Some(a)),
            Err(m) => Err(m),
        },
    }
}

fn has_option(opts: &Vec<SyntaxColumnOption>, o: SyntaxColumnOption) -> (r: bool)
    ensures
        r == opts@.contains(o),
{
    let mut i: usize = 0;
    while i < opts.len()
        invariant
            i <= opts@.len(),
            forall|k: int| 0 <= k < i ==> opts@[k] != o,
        decreases opts@.len() - i,
    {
        if opts[i] == o {
            proof {
                assert(opts@[i as int] == o);
            }
            return true;
        }
        i = i + 1;
    }
    false
}

fn convert_column(c: &SyntaxColumn) -> (r: Result<ColumnDef, SqlError>)
    ensures
        outcome(r, column_spec(c@), |x: ColumnDef| x@),
{
    let data_type = match data_type_of_syntax(&c.data_type) {
        Ok(t) => t,
        Err(m) => return Err(m),
    };
    let nullable = !has_option(&c.options, SyntaxColumnOption::NotNull);
    let primary_key = has_option(&c.options, SyntaxColumnOption::PrimaryKey);
    Ok(ColumnDef { name: c.name.clone(), data_type, nullable, primary_key })
}

fn convert_columns(cols: &Vec<SyntaxColumn>) -> (r: Result<Vec<ColumnDef>, SqlError>)
    ensures
        outcome(r, map_all(syntax_columns_view(cols@), column_step()), |v: Vec<ColumnDef>| columns_view(v@)),
{
    let ghost s = syntax_columns_view(cols@);
    let ghost f = column_step();
    let mut out: Vec<ColumnDef> = Vec::new();
    proof {
        lemma_map_all_start(s, f);
        assert(columns_view(out@) =~= Seq::<ColumnView>::empty());
    }
    let mut i: usize = 0;
    while i < cols.len()
        invariant
            i <= cols@.len(),
            s == syntax_columns_view(cols@),
            f == column_step(),
            map_all(s, f) == then_all(columns_view(out@), map_all(s.skip(i as int), f)),
        decreases cols@.len() - i,
    {
        proof {
            lemma_map_all_next(s, f, i as int, columns_view(out@));
        }
        let c = match convert_column(&cols[i]) {
            Ok(c) => c,
            Err(e) => return Err(e),
        };
        let ghost before = out@;
        out.push(c);
        proof {
            assert(columns_view(out@) =~= columns_view(before).push(c@));
        }
        i = i + 1;
    }
    proof {
        lemma_map_all_end(s, f, columns_view(out@));
    }
    Ok(out)
}

fn convert_names(names: &Vec<Vec<Option<String>>>) -> (r: Result<Vec<String>, SqlError>)
    ensures
        outcome(r, map_all(names_seq_view(names@), name_step()), |v: Vec<String>| strings_view(v@)),
{
    let ghost s = names_seq_view(names@);
    let ghost f = name_step();
    let mut out: Vec<String> = Vec::new();
    proof {
        lemma_map_all_start(s, f);
        assert(strings_view(out@) =~= Seq::<Seq<char>>::empty());
    }
    let mut i: usize = 0;
    while i < names.len()
        invariant
            i <= names@.len(),
            s == names_seq_view(names@),
            f == name_step(),
            map_all(s, f) == then_all(strings_view(out@), map_all(s.skip(i as int), f)),
        decreases names@.len() - i,
    {
        proof {
            lemma_map_all_next(s, f, i as int, strings_view(out@));
        }
        let c = match name_to_string(&names[i]) {
            Ok(c) => c,
            Err(e) => return Err(e),
        };
        let ghost before = out@;
        out.push(c);
        proof {
            assert(strings_view(out@) =~= strings_view(before).push(c@));
        }
        i = i + 1;
    }
    proof {
        lemma_map_all_end(s, f, strings_view(out@));
    }
    Ok(out)
}

fn convert_exprs(exprs: &Vec<SyntaxExpr>) -> (r: Result<Vec<Expr>, SqlError>)
    ensures
        outcome(r, map_all(syntax_exprs_view(exprs@), expr_step()), |v: Vec<Expr>| exprs_list_view(v@)),
{
    let ghost s = syntax_exprs_view(exprs@);
    let ghost f = expr_step();
    let mut out: Vec<Expr> = Vec::new();
    proof {
        lemma_map_all_start(s, f);
        assert(exprs_list_view(out@) =~= Seq::<ExprView>::empty());
    }
    let mut i: usize = 0;
    while i < exprs.len()
        invariant
            i <= exprs@.len(),
            s == syntax_exprs_view(exprs@),
            f == expr_step(),
            map_all(s, f) == then_all(exprs_list_view(out@), map_all(s.skip(i as int), f)),
        decreases exprs@.len() - i,
    {
        proof {
            lemma_map_all_next(s, f, i as int, exprs_list_view(out@));
        }
        let c = match convert_expr(&exprs[i]) {
            Ok(c) => c,
            Err(e) => return Err(e),
        };
        let ghost before = out@;
        out.push(c);
        proof {
            assert(exprs_list_view(out@) =~= exprs_list_view(before).push(expr_view(c)));
        }
        i = i + 1;
    }
    proof {
        lemma_map_all_end(s, f, exprs_list_view(out@));
    }
    Ok(out)
}

fn convert_rows(rows: &Vec<Vec<SyntaxExpr>>) -> (r: Result<Vec<Vec<Expr>>, SqlError>)
    ensures
        outcome(r, map_all(syntax_rows_view(rows@), row_step()), |v: Vec<Vec<Expr>>| expr_rows_view(v@)),
{
    let ghost s = syntax_rows_view(rows@);
    let ghost f = row_step();
    let mut out: Vec<Vec<Expr>> = Vec::new();
    proof {
        lemma_map_all_start(s, f);
        assert(expr_rows_view(out@) =~= Seq::<Seq<ExprView>>::empty());
    }
    let mut i: usize = 0;
    while i < rows.len()
        invariant
            i <= rows@.len(),
            s == syntax_rows_view(rows@),
            f == row_step(),
            map_all(s, f) == then_all(expr_rows_view(out@), map_all(s.skip(i as int), f)),
        decreases rows@.len() - i,
    {
        proof {
            lemma_map_all_next(s, f, i as int, expr_rows_view(out@));
        }
        let c = match convert_exprs(&rows[i]) {
            Ok(c) => c,
            Err(e) => return Err(e),
        };
        let ghost before = out@;
        out.push(c);
        proof {
            assert(expr_rows_view(out@) =~= expr_rows_view(before).push(exprs_list_view(c@)));
        }
        i = i + 1;
    }
    proof {
        lemma_map_all_end(s, f, expr_rows_view(out@));
    }
    Ok(out)
}

fn convert_select_item(i: &SyntaxSelectItem) -> (r: Result<SelectItem, SqlError>)
    ensures
        outcome(r, select_item_spec(i@), |x: SelectItem| select_item_view(x)),
{
    match i {
        SyntaxSelectItem::Wildcard => Ok(SelectItem::Wildcard),
        SyntaxSelectItem::Unnamed(e) => match convert_expr(e) {
            Ok(x) => Ok(SelectItem::Expr { expr: x, alias: None }),
            Err(m) => Err(m),
        },
        SyntaxSelectItem::Aliased(e, a) => match convert_expr(e) {
            Ok(x) => Ok(SelectItem::Expr { expr: x, alias: Some(a.clone()) }),
            Err(m) => Err(m),
        },
        SyntaxSelectItem::Other => Err(parse_error("Unsupported SELECT item")),
    }
}

fn convert_select_items(items: &Vec<SyntaxSelectItem>) -> (r: Result<Vec<SelectItem>, SqlError>)
    ensures
        outcome(r, map_all(syntax_items_view(items@), select_item_step()), |v: Vec<SelectItem>| select_items_view(v@)),
{
    let ghost s = syntax_items_view(items@);
    let ghost f = select_item_step();
    let mut out: Vec<SelectItem> = Vec::new();
    proof {
        lemma_map_all_start(s, f);
        assert(select_items_view(out@) =~= Seq::<SelectItemView>::empty());
    }
    let mut i: usize = 0;
    while i < items.len()
        invariant
            i <= items@.len(),
            s == syntax_items_view(items@),
            f == select_item_step(),
            map_all(s, f) == then_all(select_items_view(out@), map_all(s.skip(i as int), f)),
        decreases items@.len() - i,
    {
        proof {
            lemma_map_all_next(s, f, i as int, select_items_view(out@));
        }
        let c = match convert_select_item(&items[i]) {
            Ok(c) => c,
            Err(e) => return Err(e),
        };
        let ghost before = out@;
        out.push(c);
        proof {
            assert(select_items_view(out@) =~= select_items_view(before).push(select_item_view(c)));
        }
        i = i + 1;
    }
    proof {
        lemma_map_all_end(s, f, select_items_view(out@));
    }
    Ok(out)
}

fn convert_order_by(o: &Option<SyntaxOrderBy>) -> (r: Result<Vec<OrderByExpr>, SqlError>)
    ensures
        outcome(
            r,
            order_by_spec(
                match *o {
                    Some(x) => Some(x@),
                    None => None,
                },
            ),
            |v: Vec<OrderByExpr>| order_view(v@),
        ),
{
    let v = match o {
        None => {
            let out: Vec<OrderByExpr> = Vec::new();
            proof {
                assert(order_view(out@) =~= Seq::<(ExprView, bool)>::empty());
            }
            return Ok(out);
        },
        Some(SyntaxOrderBy::Other) => return Err(parse_error("Unsupported ORDER BY kind")),
        Some(SyntaxOrderBy::Expressions(v)) => v,
    };
    assert(o matches Some(SyntaxOrderBy::Expressions(w)) && w == v);
    let ghost s = syntax_orders_view(v@);
    assert(order_by_spec(
        match *o {
            Some(x) => Some(x@),
            None => None,
        },
    ) == map_all(s, order_step()));
    let ghost f = order_step();
    let mut out: Vec<OrderByExpr> = Vec::new();
    proof {
        lemma_map_all_start(s, f);
        assert(order_view(out@) =~= Seq::<(ExprView, bool)>::empty());
    }
    let mut i: usize = 0;
    while i < v.len()
        invariant
            i <= v@.len(),
            s == syntax_orders_view(v@),
            f == order_step(),
            order_by_spec(
                match *o {
                    Some(x) => Some(x@),
                    None => None,
                },
            ) == map_all(s, f),
            map_all(s, f) == then_all(order_view(out@), map_all(s.skip(i as int), f)),
        decreases v@.len() - i,
    {
        proof {
            lemma_map_all_next(s, f, i as int, order_view(out@));
            assert(s[i as int] == (v@[i as int].expr@, v@[i as int].descending));
        }
        let x = match convert_expr(&v[i].expr) {
            Ok(x) => x,
            Err(e) => return Err(e),
        };
        let c = OrderByExpr { expr: x, asc: !v[i].descending };
        let ghost before = out@;
        out.push(c);
        proof {
            assert(order_view(out@) =~= order_view(before).push((expr_view(c.expr), c.asc)));
        }
        i = i + 1;
    }
    proof {
        lemma_map_all_end(s, f, order_view(out@));
    }
    Ok(out)
}

fn convert_table_ref(f: &SyntaxTableFactor) -> (r: Result<TableRef, SqlError>)
    ensures
        outcome(
            r,
            table_ref_spec(f@),
            |t: TableRef| match t {
                TableRef::Table { name, alias } => (name@, name_part_view(alias)),
            },
        ),
{
    match f {
        SyntaxTableFactor::Table(n, a) => match name_to_string(n) {
            Ok(name) => Ok(TableRef::Table { name, alias: a.clone() }),
            Err(m) => Err(m),
        },
        SyntaxTableFactor::Other => Err(parse_error("Unsupported table reference")),
    }
}

fn convert_limit(l: &Option<SyntaxLimit>) -> (r: Result<(Option<Expr>, Option<Expr>), SqlError>)
    ensures
        outcome(
            r,
            limit_spec(
                match *l {
                    Some(x) => Some(x@),
                    None => None,
                },
            ),
            |p: (Option<Expr>, Option<Expr>)| (opt_view(p.0), opt_view(p.1)),
        ),
{
    match l {
        None => Ok((None, None)),
        Some(SyntaxLimit::LimitOffset(lim, off)) => {
            let x = match convert_opt_expr(lim) {
                Err(m) => return Err(m),
                Ok(None) => return Err(parse_error("LIMIT must have a value")),
                Ok(Some(x)) => x,
            };
            match convert_opt_expr(off) {
                Err(m) => Err(m),
                Ok(y) => Ok((Some(x), y)),
            }
        },
        Some(SyntaxLimit::OffsetCommaLimit(off, lim)) => {
            let x = match convert_expr(lim) {
                Err(m) => return Err(m),
                Ok(x) => x,
            };
            match convert_expr(off) {
                Err(m) => Err(m),
                Ok(y) => Ok((Some(x), Some(y))),
            }
        },
    }
}

fn convert_select(q: &SyntaxQuery) -> (r: Result<SelectStmt, SqlError>)
    ensures
        outcome(r, select_spec(q@), |s: SelectStmt| crate::sql_ast::select_view(s)),
{
    let s = match &q.body {
        SyntaxBody::Select(s) => s,
        _ => return Err(parse_error("Only SELECT queries supported")),
    };
    let columns = match convert_select_items(&s.projection) {
        Ok(c) => c,
        Err(m) => return Err(m),
    };
    if s.from.len() == 0 {
        return Err(parse_error("SELECT must have FROM clause"));
    }
    let from = match convert_table_ref(&s.from[0]) {
        Ok(f) => f,
        Err(m) => return Err(m),
    };
    let where_clause = match convert_opt_expr(&s.selection) {
        Ok(w) => w,
        Err(m) => return Err(m),
    };
    let order_by = match convert_order_by(&q.order_by) {
        Ok(o) => o,
        Err(m) => return Err(m),
    };
    let (limit, offset) = match convert_limit(&q.limit) {
        Ok(p) => p,
        Err(m) => return Err(m),
    };
    Ok(SelectStmt { distinct: s.distinct, columns, from, where_clause, order_by, limit, offset })
}

fn convert_insert(n: &Vec<Option<String>>, cols: &Vec<Vec<Option<String>>>, q: &SyntaxQuery) -> (r: Result<Statement, SqlError>)
    ensures
        outcome(r, insert_spec(name_view(n@), names_seq_view(cols@), q@), |s: Statement| statement_view(s)),
{
    let table_name = match name_to_string(n) {
        Ok(t) => t,
        Err(m) => return Err(m),
    };
    let names = match convert_names(cols) {
        Ok(v) => v,
        Err(m) => return Err(m),
    };
    let columns = if cols.len() == 0 {
        None
    } else {
        Some(names)
    };
    let values = match &q.body {
        SyntaxBody::Values(rows) => match convert_rows(rows) {
            Ok(v) => v,
            Err(m) => return Err(m),
        },
        _ => return Err(parse_error("INSERT must have VALUES clause")),
    };
    Ok(Statement::Insert(InsertStmt { table_name, columns, values }))
}

/// Converts a statement of the syntax tree. An insert into a named table
/// without a source is not converted.
pub fn convert_statement(s: &SyntaxStatement) -> (r: Result<Statement, SqlError>)
    requires
        !statement_panics(s@),
    ensures
        outcome(r, statement_spec(s@), |x: Statement| statement_view(x)),
{
    match s {
        SyntaxStatement::CreateTable(n, cols) => {
            let table_name = match name_to_string(n) {
                Ok(t) => t,
                Err(m) => return Err(m),
            };
            let columns = match convert_columns(cols) {
                Ok(c) => c,
                Err(m) => return Err(m),
            };
            Ok(Statement::CreateTable(CreateTableStmt { table_name, columns, if_not_exists: false }))
        },
        SyntaxStatement::Insert(t, cols, src) => match t {
            None => Err(parse_error("INSERT INTO table functions not supported")),
            Some(n) => match src {
                Some(q) => convert_insert(n, cols, q),
                None => Err(parse_error("")),
            },
        },
        SyntaxStatement::Query(q) => match convert_select(q) {
            Ok(x) => Ok(Statement::Select(x)),
            Err(m) => Err(m),
        },
        SyntaxStatement::Delete(tables, w) => {
            if tables.len() == 0 {
                return Err(parse_error("No table specified in DELETE statement"));
            }
            let table_name = match name_to_string(&tables[0]) {
                Ok(t) => t,
                Err(m) => return Err(m),
            };
            match convert_opt_expr(w) {
                Ok(where_clause) => Ok(Statement::Delete(DeleteStmt { table_name, where_clause })),
                Err(m) => Err(m),
            }
        },
        SyntaxStatement::StartTransaction => Ok(Statement::BeginTransaction),
        SyntaxStatement::Commit => Ok(Statement::Commit),
        SyntaxStatement::Rollback => Ok(Statement::Rollback),
        SyntaxStatement::Other(d) => Err(SqlError::ParseError(String::from_str("Unsupported statement: ").concat(d.as_str()))),
    }
}

/// Converts the statements in order; `None` where that reaches one the
/// conversion does not run.
fn convert_statements(v: &Vec<SyntaxStatement>) -> (r: Option<Result<Vec<Statement>, SqlError>>)
    ensures
        r is None <==> reaches_panic(statements_view(v@)),
        r matches Some(x) ==> outcome(x, map_all(statements_view(v@), statement_step()), |o: Vec<Statement>| statements_out_view(o@)),
{
    let ghost s = statements_view(v@);
    let ghost f = statement_step();
    let mut out: Vec<Statement> = Vec::new();
    proof {
        lemma_map_all_start(s, f);
        assert(statements_out_view(out@) =~= Seq::<StatementView>::empty());
        assert(s.skip(0) =~= s);
    }
    let mut i: usize = 0;
    while i < v.len()
        invariant
            i <= v@.len(),
            s == statements_view(v@),
            f == statement_step(),
            map_all(s, f) == then_all(statements_out_view(out@), map_all(s.skip(i as int), f)),
            reaches_panic(s) == reaches_panic(s.skip(i as int)),
        decreases v@.len() - i,
    {
        proof {
            lemma_map_all_next(s, f, i as int, statements_out_view(out@));
            assert(s.skip(i as int)[0] == s[i as int]);
            assert(s.skip(i as int).drop_first() =~= s.skip(i + 1));
        }
        if let SyntaxStatement::Insert(Some(_), _, None) = &v[i] {
            return None;
        }
        let c = match convert_statement(&v[i]) {
            Ok(c) => c,
            Err(e) => return Some(Err(e)),
        };
        let ghost before = out@;
        out.push(c);
        proof {
            assert(statements_out_view(out@) =~= statements_out_view(before).push(statement_view(c)));
        }
        i = i + 1;
    }
    proof {
        lemma_map_all_end(s, f, statements_out_view(out@));
        assert(s.skip(i as int) =~= Seq::<SyntaxStatementView>::empty());
    }
    Some(Ok(out))
}

/// Parses SQL text into statements: sqlparser's error is a parse error
/// with its text; otherwise each statement is converted in order and the
/// first failure is the result. Text whose parse reaches an insert into a
/// named table without a source is not parsed (see `try_parse`).
pub fn parse(sql: &str) -> (r: Result<Vec<Statement>, SqlError>)
    requires
        !parse_panics(sqlparser_parse(sql@)),
    ensures
        outcome(r, parse_spec(sqlparser_parse(sql@)), |o: Vec<Statement>| statements_out_view(o@)),
{
    match sql_syntax(sql) {
        Err(e) => Err(SqlError::ParseError(e)),
        Ok(v) => match convert_statements(&v) {
            Some(x) => x,
            None => Err(parse_error("")),
        },
    }
}

/// Parses SQL text as `parse` does; `None` where the parse reaches an
/// insert into a named table without a source.
pub fn try_parse(sql: &str) -> (r: Option<Result<Vec<Statement>, SqlError>>)
    ensures
        r is None <==> parse_panics(sqlparser_parse(sql@)),
        r matches Some(x) ==> outcome(x, parse_spec(sqlparser_parse(sql@)), |o: Vec<Statement>| statements_out_view(o@)),
{
    match sql_syntax(sql) {
        Err(_) => Some(parse(sql)),
        Ok(v) => match convert_statements(&v) {
            None => None,
            Some(_) => Some(parse(sql)),
        },
    }
}

} // verus!
