//! The syntax tree of the SQL the engine runs.

use vstd::prelude::*;
use crate::sql_types::{ColumnDef, ColumnView, Value, ValueView, columns_view};

verus! {

#[derive(Debug)]
pub enum Statement {
    CreateTable(CreateTableStmt),
    Insert(InsertStmt),
    Select(SelectStmt),
    Delete(DeleteStmt),
    BeginTransaction,
    Commit,
    Rollback,
}

#[derive(Debug, Clone)]
pub struct CreateTableStmt {
    pub table_name: String,
    pub columns: Vec<ColumnDef>,
    pub if_not_exists: bool,
}

#[derive(Debug)]
pub struct InsertStmt {
    pub table_name: String,
    pub columns: Option<Vec<String>>,
    pub values: Vec<Vec<Expr>>,
}

#[derive(Debug)]
pub struct SelectStmt {
    pub distinct: bool,
    pub columns: Vec<SelectItem>,
    pub from: TableRef,
    pub where_clause: Option<Expr>,
    pub order_by: Vec<OrderByExpr>,
    pub limit: Option<Expr>,
    pub offset: Option<Expr>,
}

#[derive(Debug)]
pub struct DeleteStmt {
    pub table_name: String,
    pub where_clause: Option<Expr>,
}

#[derive(Debug)]
pub enum Expr {
    Literal(Value),
    ColumnRef(String),
    BinaryExpr { left: Box<Expr>, op: BinaryOperator, right: Box<Expr> },
    UnaryExpr { op: UnaryOperator, expr: Box<Expr> },
    FunctionCall { name: String, args: Vec<Expr> },
    IsNull(Box<Expr>),
    IsNotNull(Box<Expr>),
    Between { expr: Box<Expr>, low: Box<Expr>, high: Box<Expr> },
    InList { expr: Box<Expr>, list: Vec<Expr> },
}

/// An expression as a mathematical value. The arguments of function calls
/// and the members of `IN` lists are left out: nothing evaluates them.
pub ghost enum ExprView {
    Literal(ValueView),
    ColumnRef(Seq<char>),
    BinaryExpr { left: Box<ExprView>, op: BinaryOperator, right: Box<ExprView> },
    UnaryExpr { op: UnaryOperator, expr: Box<ExprView> },
    FunctionCall { name: Seq<char> },
    IsNull(Box<ExprView>),
    IsNotNull(Box<ExprView>),
    Between { expr: Box<ExprView>, low: Box<ExprView>, high: Box<ExprView> },
    InList { expr: Box<ExprView> },
}

pub open spec fn expr_view(e: Expr) -> ExprView
    decreases e,
{
    match e {
        Expr::Literal(v) => ExprView::Literal(v@),
        Expr::ColumnRef(n) => ExprView::ColumnRef(n@),
        Expr::BinaryExpr { left, op, right } => ExprView::BinaryExpr {
            left: Box::new(expr_view(*left)),
            op,
            right: Box::new(expr_view(*right)),
        },
        Expr::UnaryExpr { op, expr } => ExprView::UnaryExpr { op, expr: Box::new(expr_view(*expr)) },
        Expr::FunctionCall { name, .. } => ExprView::FunctionCall { name: name@ },
        Expr::IsNull(x) => ExprView::IsNull(Box::new(expr_view(*x))),
        Expr::IsNotNull(x) => ExprView::IsNotNull(Box::new(expr_view(*x))),
        Expr::Between { expr, low, high } => ExprView::Between {
            expr: Box::new(expr_view(*expr)),
            low: Box::new(expr_view(*low)),
            high: Box::new(expr_view(*high)),
        },
        Expr::InList { expr, .. } => ExprView::InList { expr: Box::new(expr_view(*expr)) },
    }
}

impl Expr {
    /// A copy of the expression; the arguments of function calls and the
    /// members of `IN` lists are not carried over.
    pub fn copy(&self) -> (r: Expr)
        ensures
            expr_view(r) == expr_view(*self),
        decreases self,
    {
        match self {
            Expr::Literal(v) => Expr::Literal(v.copy()),
            Expr::ColumnRef(n) => Expr::ColumnRef(n.clone()),
            Expr::BinaryExpr { left, op, right } => Expr::BinaryExpr {
                left: Box::new(left.copy()),
                op: *op,
                right: Box::new(right.copy()),
            },
            Expr::UnaryExpr { op, expr } => Expr::UnaryExpr { op: *op, expr: Box::new(expr.copy()) },
            Expr::FunctionCall { name, .. } => Expr::FunctionCall { name: name.clone(), args: Vec::new() },
            Expr::IsNull(x) => Expr::IsNull(Box::new(x.copy())),
            Expr::IsNotNull(x) => Expr::IsNotNull(Box::new(x.copy())),
            Expr::Between { expr, low, high } => Expr::Between {
                expr: Box::new(expr.copy()),
                low: Box::new(low.copy()),
                high: Box::new(high.copy()),
            },
            Expr::InList { expr, .. } => Expr::InList { expr: Box::new(expr.copy()), list: Vec::new() },
        }
    }
}

#[derive(Debug, Clone, Copy, PartialEq, Eq, Structural)]
pub enum BinaryOperator {
    Eq,
    Neq,
    Lt,
    LtEq,
    Gt,
    GtEq,
    And,
    Or,
    Add,
    Sub,
    Mul,
    Div,
    Like,
}

#[derive(Debug, Clone, Copy, PartialEq, Eq, Structural)]
pub enum UnaryOperator {
    Not,
    Neg,
}

#[derive(Debug)]
pub enum SelectItem {
    Wildcard,
    Expr { expr: Expr, alias: Option<String> },
}

#[derive(Debug, Clone)]
pub enum TableRef {
    Table { name: String, alias: Option<String> },
}

#[derive(Debug)]
pub struct OrderByExpr {
    pub expr: Expr,
    pub asc: bool,
}

/// A select item as a value: `*`, or an expression with its alias.
pub ghost enum SelectItemView {
    Wildcard,
    Expr(ExprView, Option<Seq<char>>),
}

pub open spec fn select_item_view(i: SelectItem) -> SelectItemView {
    match i {
        SelectItem::Wildcard => SelectItemView::Wildcard,
        SelectItem::Expr { expr, alias } => SelectItemView::Expr(
            expr_view(expr),
            match alias {
                Some(a) => Some(a@),
                None => None,
            },
        ),
    }
}

pub open spec fn select_items_view(v: Seq<SelectItem>) -> Seq<SelectItemView> {
    v.map_values(|i: SelectItem| select_item_view(i))
}

pub open spec fn order_view(v: Seq<OrderByExpr>) -> Seq<(ExprView, bool)> {
    v.map_values(|o: OrderByExpr| (expr_view(o.expr), o.asc))
}

pub open spec fn strings_view(v: Seq<String>) -> Seq<Seq<char>> {
    v.map_values(|n: String| n@)
}

pub open spec fn exprs_list_view(v: Seq<Expr>) -> Seq<ExprView> {
    v.map_values(|e: Expr| expr_view(e))
}

pub open spec fn expr_rows_view(v: Seq<Vec<Expr>>) -> Seq<Seq<ExprView>> {
    v.map_values(|r: Vec<Expr>| exprs_list_view(r@))
}

pub open spec fn opt_view(e: Option<Expr>) -> Option<ExprView> {
    match e {
        Some(x) => Some(expr_view(x)),
        None => None,
    }
}

/// A `SELECT` as a value; each `ORDER BY` entry is the expression and
/// whether it sorts ascending.
pub ghost struct SelectView {
    pub distinct: bool,
    pub columns: Seq<SelectItemView>,
    pub from: (Seq<char>, Option<Seq<char>>),
    pub where_clause: Option<ExprView>,
    pub order_by: Seq<(ExprView, bool)>,
    pub limit: Option<ExprView>,
    pub offset: Option<ExprView>,
}

pub open spec fn select_view(s: SelectStmt) -> SelectView {
    SelectView {
        distinct: s.distinct,
        columns: select_items_view(s.columns@),
        from: match s.from {
            TableRef::Table { name, alias } => (name@, match alias {
                Some(a) => Some(a@),
                None => None,
            }),
        },
        where_clause: opt_view(s.where_clause),
        order_by: order_view(s.order_by@),
        limit: opt_view(s.limit),
        offset: opt_view(s.offset),
    }
}

/// A statement as a value.
pub ghost enum StatementView {
    CreateTable { table_name: Seq<char>, columns: Seq<ColumnView>, if_not_exists: bool },
    Insert { table_name: Seq<char>, columns: Option<Seq<Seq<char>>>, values: Seq<Seq<ExprView>> },
    Select(SelectView),
    Delete { table_name: Seq<char>, where_clause: Option<ExprView> },
    BeginTransaction,
    Commit,
    Rollback,
}

pub open spec fn statement_view(s: Statement) -> StatementView {
    match s {
        Statement::CreateTable(c) => StatementView::CreateTable {
            table_name: c.table_name@,
            columns: columns_view(c.columns@),
            if_not_exists: c.if_not_exists,
        },
        Statement::Insert(i) => StatementView::Insert {
            table_name: i.table_name@,
            columns: match i.columns {
                Some(c) => Some(strings_view(c@)),
                None => None,
            },
            values: expr_rows_view(i.values@),
        },
        Statement::Select(q) => StatementView::Select(select_view(q)),
        Statement::Delete(d) => StatementView::Delete { table_name: d.table_name@, where_clause: opt_view(d.where_clause) },
        Statement::BeginTransaction => StatementView::BeginTransaction,
        Statement::Commit => StatementView::Commit,
        Statement::Rollback => StatementView::Rollback,
    }
}

} // verus!
