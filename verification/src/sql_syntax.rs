//! The syntax tree sqlparser reads from SQL text, as far as the engine reads
//! it, held in plain values. Parts the engine does not read are left out;
//! a construct it does not support is kept as `Other`, with sqlparser's
//! debug text where an error message names it.

use vstd::prelude::*;
use sqlparser::ast as sq;
use sqlparser::ast::Statement as SqStatement;
use sqlparser::ast::ColumnDef as SqColumnDef;
use sqlparser::ast::DataType as SqDataType;
use sqlparser::ast::OrderByExpr as SqOrderByExpr;
use sqlparser::ast::SelectItem as SqSelectItem;
use sqlparser::ast::Expr as SqExpr;
use sqlparser::ast::Value as SqValue;
use sqlparser::ast::BinaryOperator as SqBinaryOperator;
use sqlparser::ast::UnaryOperator as SqUnaryOperator;

verus! {

/// A literal.
pub enum SyntaxValue {
    Number(String),
    SingleQuoted(String),
    Boolean(bool),
    Null,
    Other,
}

pub ghost enum SyntaxValueView {
    Number(Seq<char>),
    SingleQuoted(Seq<char>),
    Boolean(bool),
    Null,
    Other,
}

impl View for SyntaxValue {
    type V = SyntaxValueView;

    open spec fn view(&self) -> SyntaxValueView {
        match self {
            SyntaxValue::Number(s) => SyntaxValueView::Number(s@),
            SyntaxValue::SingleQuoted(s) => SyntaxValueView::SingleQuoted(s@),
            SyntaxValue::Boolean(b) => SyntaxValueView::Boolean(*b),
            SyntaxValue::Null => SyntaxValueView::Null,
            SyntaxValue::Other => SyntaxValueView::Other,
        }
    }
}

#[derive(Clone, Copy)]
pub enum SyntaxBinaryOp {
    Eq,
    NotEq,
    Lt,
    LtEq,
    Gt,
    GtEq,
    And,
    Or,
    Plus,
    Minus,
    Multiply,
    Divide,
    Other,
}

#[derive(Clone, Copy)]
pub enum SyntaxUnaryOp {
    Not,
    Minus,
    Other,
}

/// An expression.
pub enum SyntaxExpr {
    Value(SyntaxValue),
    Identifier(String),
    BinaryOp(Box<SyntaxExpr>, SyntaxBinaryOp, Box<SyntaxExpr>),
    UnaryOp(SyntaxUnaryOp, Box<SyntaxExpr>),
    IsNull(Box<SyntaxExpr>),
    IsNotNull(Box<SyntaxExpr>),
    /// The tested expression, whether it is `NOT BETWEEN`, the low and the high bound.
    Between(Box<SyntaxExpr>, bool, Box<SyntaxExpr>, Box<SyntaxExpr>),
    Other(String),
}

pub ghost enum SyntaxExprView {
    Value(SyntaxValueView),
    Identifier(Seq<char>),
    BinaryOp(Box<SyntaxExprView>, SyntaxBinaryOp, Box<SyntaxExprView>),
    UnaryOp(SyntaxUnaryOp, Box<SyntaxExprView>),
    IsNull(Box<SyntaxExprView>),
    IsNotNull(Box<SyntaxExprView>),
    Between(Box<SyntaxExprView>, bool, Box<SyntaxExprView>, Box<SyntaxExprView>),
    Other(Seq<char>),
}

pub open spec fn syntax_expr_view(e: SyntaxExpr) -> SyntaxExprView
    decreases e,
{
    match e {
        SyntaxExpr::Value(v) => SyntaxExprView::Value(v@),
        SyntaxExpr::Identifier(s) => SyntaxExprView::Identifier(s@),
        SyntaxExpr::BinaryOp(l, op, r) => SyntaxExprView::BinaryOp(
            Box::new(syntax_expr_view(*l)),
            op,
            Box::new(syntax_expr_view(*r)),
        ),
        SyntaxExpr::UnaryOp(op, x) => SyntaxExprView::UnaryOp(op, Box::new(syntax_expr_view(*x))),
        SyntaxExpr::IsNull(x) => SyntaxExprView::IsNull(Box::new(syntax_expr_view(*x))),
        SyntaxExpr::IsNotNull(x) => SyntaxExprView::IsNotNull(Box::new(syntax_expr_view(*x))),
        SyntaxExpr::Between(x, n, lo, hi) => SyntaxExprView::Between(
            Box::new(syntax_expr_view(*x)),
            n,
            Box::new(syntax_expr_view(*lo)),
            Box::new(syntax_expr_view(*hi)),
        ),
        SyntaxExpr::Other(s) => SyntaxExprView::Other(s@),
    }
}

impl View for SyntaxExpr {
    type V = SyntaxExprView;

    open spec fn view(&self) -> SyntaxExprView {
        syntax_expr_view(*self)
    }
}

pub open spec fn syntax_exprs_view(v: Seq<SyntaxExpr>) -> Seq<SyntaxExprView> {
    v.map_values(|e: SyntaxExpr| e@)
}

pub open spec fn syntax_rows_view(v: Seq<Vec<SyntaxExpr>>) -> Seq<Seq<SyntaxExprView>> {
    v.map_values(|r: Vec<SyntaxExpr>| syntax_exprs_view(r@))
}

pub open spec fn syntax_columns_view(v: Seq<SyntaxColumn>) -> Seq<SyntaxColumnView> {
    v.map_values(|c: SyntaxColumn| c@)
}

pub open spec fn syntax_items_view(v: Seq<SyntaxSelectItem>) -> Seq<SyntaxSelectItemView> {
    v.map_values(|i: SyntaxSelectItem| i@)
}

pub open spec fn syntax_factors_view(v: Seq<SyntaxTableFactor>) -> Seq<SyntaxTableFactorView> {
    v.map_values(|f: SyntaxTableFactor| f@)
}

pub open spec fn syntax_orders_view(v: Seq<SyntaxOrderByExpr>) -> Seq<(SyntaxExprView, bool)> {
    v.map_values(|o: SyntaxOrderByExpr| (o.expr@, o.descending))
}

pub open spec fn opt_expr_view(e: Option<SyntaxExpr>) -> Option<SyntaxExprView> {
    match e {
        Some(x) => Some(x@),
        None => None,
    }
}

/// A dotted name: each part an identifier, or `None` for another kind of part.
pub type SyntaxName = Vec<Option<String>>;

pub open spec fn name_part_view(p: Option<String>) -> Option<Seq<char>> {
    match p {
        Some(s) => Some(s@),
        None => None,
    }
}

pub open spec fn name_view(n: Seq<Option<String>>) -> Seq<Option<Seq<char>>> {
    n.map_values(|p: Option<String>| name_part_view(p))
}

pub open spec fn names_seq_view(n: Seq<Vec<Option<String>>>) -> Seq<Seq<Option<Seq<char>>>> {
    n.map_values(|x: Vec<Option<String>>| name_view(x@))
}

/// A column type.
pub enum SyntaxDataType {
    Int,
    Integer,
    Text,
    Varchar,
    Boolean,
    Other(String),
}

pub ghost enum SyntaxDataTypeView {
    Int,
    Integer,
    Text,
    Varchar,
    Boolean,
    Other(Seq<char>),
}

impl View for SyntaxDataType {
    type V = SyntaxDataTypeView;

    open spec fn view(&self) -> SyntaxDataTypeView {
        match self {
            SyntaxDataType::Int => SyntaxDataTypeView::Int,
            SyntaxDataType::Integer => SyntaxDataTypeView::Integer,
            SyntaxDataType::Text => SyntaxDataTypeView::Text,
            SyntaxDataType::Varchar => SyntaxDataTypeView::Varchar,
            SyntaxDataType::Boolean => SyntaxDataTypeView::Boolean,
            SyntaxDataType::Other(s) => SyntaxDataTypeView::Other(s@),
        }
    }
}

#[derive(Clone, Copy, PartialEq, Eq, Structural)]
pub enum SyntaxColumnOption {
    NotNull,
    PrimaryKey,
    Other,
}

/// A column of `CREATE TABLE`.
pub struct SyntaxColumn {
    pub name: String,
    pub data_type: SyntaxDataType,
    pub options: Vec<SyntaxColumnOption>,
}

pub ghost struct SyntaxColumnView {
    pub name: Seq<char>,
    pub data_type: SyntaxDataTypeView,
    pub options: Seq<SyntaxColumnOption>,
}

impl View for SyntaxColumn {
    type V = SyntaxColumnView;

    open spec fn view(&self) -> SyntaxColumnView {
        SyntaxColumnView { name: self.name@, data_type: self.data_type@, options: self.options@ }
    }
}

pub enum SyntaxSelectItem {
    Wildcard,
    Unnamed(SyntaxExpr),
    Aliased(SyntaxExpr, String),
    Other,
}

pub ghost enum SyntaxSelectItemView {
    Wildcard,
    Unnamed(SyntaxExprView),
    Aliased(SyntaxExprView, Seq<char>),
    Other,
}

impl View for SyntaxSelectItem {
    type V = SyntaxSelectItemView;

    open spec fn view(&self) -> SyntaxSelectItemView {
        match self {
            SyntaxSelectItem::Wildcard => SyntaxSelectItemView::Wildcard,
            SyntaxSelectItem::Unnamed(e) => SyntaxSelectItemView::Unnamed(e@),
            SyntaxSelectItem::Aliased(e, a) => SyntaxSelectItemView::Aliased(e@, a@),
            SyntaxSelectItem::Other => SyntaxSelectItemView::Other,
        }
    }
}

/// The relation of a `FROM` item: a table with its name and alias, or another kind.
pub enum SyntaxTableFactor {
    Table(Vec<Option<String>>, Option<String>),
    Other,
}

pub ghost enum SyntaxTableFactorView {
    Table(Seq<Option<Seq<char>>>, Option<Seq<char>>),
    Other,
}

impl View for SyntaxTableFactor {
    type V = SyntaxTableFactorView;

    open spec fn view(&self) -> SyntaxTableFactorView {
        match self {
            SyntaxTableFactor::Table(n, a) => SyntaxTableFactorView::Table(name_view(n@), name_part_view(*a)),
            SyntaxTableFactor::Other => SyntaxTableFactorView::Other,
        }
    }
}

/// One expression of `ORDER BY` and whether it is sorted `DESC`.
pub struct SyntaxOrderByExpr {
    pub expr: SyntaxExpr,
    pub descending: bool,
}

pub enum SyntaxOrderBy {
    Expressions(Vec<SyntaxOrderByExpr>),
    Other,
}

pub ghost enum SyntaxOrderByView {
    Expressions(Seq<(SyntaxExprView, bool)>),
    Other,
}

impl View for SyntaxOrderBy {
    type V = SyntaxOrderByView;

    open spec fn view(&self) -> SyntaxOrderByView {
        match self {
            SyntaxOrderBy::Expressions(v) => SyntaxOrderByView::Expressions(
                syntax_orders_view(v@),
            ),
            SyntaxOrderBy::Other => SyntaxOrderByView::Other,
        }
    }
}

pub enum SyntaxLimit {
    /// The limit and the offset.
    LimitOffset(Option<SyntaxExpr>, Option<SyntaxExpr>),
    /// The offset and the limit of `LIMIT offset, limit`.
    OffsetCommaLimit(SyntaxExpr, SyntaxExpr),
}

pub ghost enum SyntaxLimitView {
    LimitOffset(Option<SyntaxExprView>, Option<SyntaxExprView>),
    OffsetCommaLimit(SyntaxExprView, SyntaxExprView),
}

impl View for SyntaxLimit {
    type V = SyntaxLimitView;

    open spec fn view(&self) -> SyntaxLimitView {
        match self {
            SyntaxLimit::LimitOffset(l, o) => SyntaxLimitView::LimitOffset(opt_expr_view(*l), opt_expr_view(*o)),
            SyntaxLimit::OffsetCommaLimit(o, l) => SyntaxLimitView::OffsetCommaLimit(o@, l@),
        }
    }
}

/// A `SELECT`: whether it is `DISTINCT`, its items, the relation of each
/// `FROM` item, and its `WHERE` condition.
pub struct SyntaxSelect {
    pub distinct: bool,
    pub projection: Vec<SyntaxSelectItem>,
    pub from: Vec<SyntaxTableFactor>,
    pub selection: Option<SyntaxExpr>,
}

pub ghost struct SyntaxSelectView {
    pub distinct: bool,
    pub projection: Seq<SyntaxSelectItemView>,
    pub from: Seq<SyntaxTableFactorView>,
    pub selection: Option<SyntaxExprView>,
}

impl View for SyntaxSelect {
    type V = SyntaxSelectView;

    open spec fn view(&self) -> SyntaxSelectView {
        SyntaxSelectView {
            distinct: self.distinct,
            projection: syntax_items_view(self.projection@),
            from: syntax_factors_view(self.from@),
            selection: opt_expr_view(self.selection),
        }
    }
}

/// The body of a query: a `SELECT`, the rows of `VALUES`, or another kind.
pub enum SyntaxBody {
    Select(SyntaxSelect),
    Values(Vec<Vec<SyntaxExpr>>),
    Other,
}

pub ghost enum SyntaxBodyView {
    Select(SyntaxSelectView),
    Values(Seq<Seq<SyntaxExprView>>),
    Other,
}

impl View for SyntaxBody {
    type V = SyntaxBodyView;

    open spec fn view(&self) -> SyntaxBodyView {
        match self {
            SyntaxBody::Select(s) => SyntaxBodyView::Select(s@),
            SyntaxBody::Values(rows) => SyntaxBodyView::Values(syntax_rows_view(rows@)),
            SyntaxBody::Other => SyntaxBodyView::Other,
        }
    }
}

pub struct SyntaxQuery {
    pub body: SyntaxBody,
    pub order_by: Option<SyntaxOrderBy>,
    pub limit: Option<SyntaxLimit>,
}

pub ghost struct SyntaxQueryView {
    pub body: SyntaxBodyView,
    pub order_by: Option<SyntaxOrderByView>,
    pub limit: Option<SyntaxLimitView>,
}

impl View for SyntaxQuery {
    type V = SyntaxQueryView;

    open spec fn view(&self) -> SyntaxQueryView {
        SyntaxQueryView {
            body: self.body@,
            order_by: match self.order_by {
                Some(o) => Some(o@),
                None => None,
            },
            limit: match self.limit {
                Some(l) => Some(l@),
                None => None,
            },
        }
    }
}

/// A statement.
pub enum SyntaxStatement {
    /// The table's name and its columns.
    CreateTable(Vec<Option<String>>, Vec<SyntaxColumn>),
    /// The table's name (`None` for a table function), the named columns, and the source.
    Insert(Option<Vec<Option<String>>>, Vec<Vec<Option<String>>>, Option<SyntaxQuery>),
    Query(SyntaxQuery),
    /// The tables named after `DELETE` and the `WHERE` condition.
    Delete(Vec<Vec<Option<String>>>, Option<SyntaxExpr>),
    StartTransaction,
    Commit,
    Rollback,
    Other(String),
}

pub ghost enum SyntaxStatementView {
    CreateTable(Seq<Option<Seq<char>>>, Seq<SyntaxColumnView>),
    Insert(Option<Seq<Option<Seq<char>>>>, Seq<Seq<Option<Seq<char>>>>, Option<SyntaxQueryView>),
    Query(SyntaxQueryView),
    Delete(Seq<Seq<Option<Seq<char>>>>, Option<SyntaxExprView>),
    StartTransaction,
    Commit,
    Rollback,
    Other(Seq<char>),
}

impl View for SyntaxStatement {
    type V = SyntaxStatementView;

    open spec fn view(&self) -> SyntaxStatementView {
        match self {
            SyntaxStatement::CreateTable(n, c) => SyntaxStatementView::CreateTable(
                name_view(n@),
                syntax_columns_view(c@),
            ),
            SyntaxStatement::Insert(t, c, s) => SyntaxStatementView::Insert(
                match t {
                    Some(n) => Some(name_view(n@)),
                    None => None,
                },
                names_seq_view(c@),
                match s {
                    Some(q) => Some(q@),
                    None => None,
                },
            ),
            SyntaxStatement::Query(q) => SyntaxStatementView::Query(q@),
            SyntaxStatement::Delete(t, w) => SyntaxStatementView::Delete(names_seq_view(t@), opt_expr_view(*w)),
            SyntaxStatement::StartTransaction => SyntaxStatementView::StartTransaction,
            SyntaxStatement::Commit => SyntaxStatementView::Commit,
            SyntaxStatement::Rollback => SyntaxStatementView::Rollback,
            SyntaxStatement::Other(s) => SyntaxStatementView::Other(s@),
        }
    }
}

pub open spec fn statements_view(v: Seq<SyntaxStatement>) -> Seq<SyntaxStatementView> {
    v.map_values(|s: SyntaxStatement| s@)
}

/// The statements read, or the error's text, as values.
pub open spec fn syntax_result_view(r: Result<Vec<SyntaxStatement>, String>) -> Result<Seq<SyntaxStatementView>, Seq<char>> {
    match r {
        Ok(v) => Ok(statements_view(v@)),
        Err(e) => Err(e@),
    }
}

/// The number read, or the error's text.
pub open spec fn i64_result_view(r: Result<i64, String>) -> Result<i64, Seq<char>> {
    match r {
        Ok(n) => Ok(n),
        Err(e) => Err(e@),
    }
}

/// What `Parser::parse_sql` with the generic dialect reads from SQL text:
/// its statements, or the text of its error.
pub uninterp spec fn sqlparser_parse(sql: Seq<char>) -> Result<Seq<SyntaxStatementView>, Seq<char>>;

/// `sqlparser::parser::Parser::parse_sql` with the generic dialect. The
/// statements are converted node by node into the plain tree above; an
/// error becomes its display text. The contract names the result.
#[verifier::external_body]
pub(crate) fn sql_syntax(sql: &str) -> (r: Result<Vec<SyntaxStatement>, String>)
    ensures
        sqlparser_parse(sql@) == syntax_result_view(r),
{
    match sqlparser::parser::Parser::parse_sql(&sqlparser::dialect::GenericDialect {}, sql) {
        Ok(v) => Ok(v.into_iter().map(statement_of).collect()),
        Err(e) => Err(e.to_string()),
    }
}

/// What `str::parse::<i64>` reads from text: the number, or the display text of its error.
pub uninterp spec fn i64_parse(s: Seq<char>) -> Result<i64, Seq<char>>;

/// `str::parse::<i64>`; an error becomes its display text.
#[verifier::external_body]
pub(crate) fn parse_i64(s: &str) -> (r: Result<i64, String>)
    ensures
        i64_parse(s@) == i64_result_view(r),
{
    s.parse::<i64>().map_err(|e| e.to_string())
}

// sqlparser's syntax tree types, which the conversion below reads.

#[verifier::external_type_specification]
#[verifier::external_body]
pub struct ExSqStatement(SqStatement);

#[verifier::external_type_specification]
#[verifier::external_body]
pub struct ExSqInsert(sqlparser::ast::Insert);

#[verifier::external_type_specification]
#[verifier::external_body]
pub struct ExSqObjectName(sqlparser::ast::ObjectName);

#[verifier::external_type_specification]
#[verifier::external_body]
pub struct ExSqObjectNamePart(sqlparser::ast::ObjectNamePart);

#[verifier::external_type_specification]
#[verifier::external_body]
pub struct ExSqColumnDef(SqColumnDef);

#[verifier::external_type_specification]
#[verifier::external_body]
pub struct ExSqColumnOption(sqlparser::ast::ColumnOption);

#[verifier::external_type_specification]
#[verifier::external_body]
pub struct ExSqDataType(SqDataType);

#[verifier::external_type_specification]
#[verifier::external_body]
pub struct ExSqQuery(sqlparser::ast::Query);

#[verifier::external_type_specification]
#[verifier::external_body]
pub struct ExSqOrderByKind(sqlparser::ast::OrderByKind);

#[verifier::external_type_specification]
#[verifier::external_body]
pub struct ExSqOrderByExpr(SqOrderByExpr);

#[verifier::external_type_specification]
#[verifier::external_body]
pub struct ExSqLimitClause(sqlparser::ast::LimitClause);

#[verifier::external_type_specification]
#[verifier::external_body]
pub struct ExSqSetExpr(sqlparser::ast::SetExpr);

#[verifier::external_type_specification]
#[verifier::external_body]
pub struct ExSqSelect(sqlparser::ast::Select);

#[verifier::external_type_specification]
#[verifier::external_body]
pub struct ExSqSelectItem(SqSelectItem);

#[verifier::external_type_specification]
#[verifier::external_body]
pub struct ExSqTableFactor(sqlparser::ast::TableFactor);

#[verifier::external_type_specification]
#[verifier::external_body]
pub struct ExSqExpr(SqExpr);

#[verifier::external_type_specification]
#[verifier::external_body]
pub struct ExSqValue(SqValue);

#[verifier::external_type_specification]
#[verifier::external_body]
pub struct ExSqBinaryOperator(SqBinaryOperator);

#[verifier::external_type_specification]
#[verifier::external_body]
pub struct ExSqUnaryOperator(SqUnaryOperator);

// The conversion of sqlparser's nodes, one node kind each, used by `sql_syntax` alone.

#[verifier::external_body]
fn statement_of(s: SqStatement) -> SyntaxStatement {
    match s {
        sq::Statement::CreateTable(c) => SyntaxStatement::CreateTable(name_of(c.name), c.columns.into_iter().map(column_of).collect()),
        sq::Statement::Insert(i) => insert_of(i),
        sq::Statement::Query(q) => SyntaxStatement::Query(query_of(*q)),
        sq::Statement::Delete(d) => SyntaxStatement::Delete(d.tables.into_iter().map(name_of).collect(), d.selection.map(expr_of)),
        sq::Statement::StartTransaction { .. } => SyntaxStatement::StartTransaction,
        sq::Statement::Commit { .. } => SyntaxStatement::Commit,
        sq::Statement::Rollback { .. } => SyntaxStatement::Rollback,
        other => SyntaxStatement::Other(format!("{:?}", other)),
    }
}

#[verifier::external_body]
fn insert_of(i: sq::Insert) -> SyntaxStatement {
    let table = match i.table {
        sq::TableObject::TableName(n) => Some(name_of(n)),
        _ => None,
    };
    SyntaxStatement::Insert(table, i.columns.into_iter().map(name_of).collect(), i.source.map(|q| query_of(*q)))
}

#[verifier::external_body]
fn name_of(n: sq::ObjectName) -> Vec<Option<String>> {
    n.0.into_iter().map(name_part_of).collect()
}

#[verifier::external_body]
fn name_part_of(p: sq::ObjectNamePart) -> Option<String> {
    match p {
        sq::ObjectNamePart::Identifier(i) => Some(i.value),
        _ => None,
    }
}

#[verifier::external_body]
fn column_of(c: SqColumnDef) -> SyntaxColumn {
    let options = c.options.into_iter().map(|o| column_option_of(o.option)).collect();
    SyntaxColumn { name: c.name.value, data_type: data_type_of(c.data_type), options }
}

#[verifier::external_body]
fn column_option_of(o: sq::ColumnOption) -> SyntaxColumnOption {
    match o {
        sq::ColumnOption::NotNull => SyntaxColumnOption::NotNull,
        sq::ColumnOption::PrimaryKey(_) => SyntaxColumnOption::PrimaryKey,
        _ => SyntaxColumnOption::Other,
    }
}

#[verifier::external_body]
fn data_type_of(d: SqDataType) -> SyntaxDataType {
    match d {
        sq::DataType::Int(_) => SyntaxDataType::Int,
        sq::DataType::Integer(_) => SyntaxDataType::Integer,
        sq::DataType::Text => SyntaxDataType::Text,
        sq::DataType::Varchar(_) => SyntaxDataType::Varchar,
        sq::DataType::Boolean => SyntaxDataType::Boolean,
        other => SyntaxDataType::Other(format!("{:?}", other)),
    }
}

#[verifier::external_body]
fn query_of(q: sq::Query) -> SyntaxQuery {
    SyntaxQuery { body: body_of(*q.body), order_by: q.order_by.map(|o| order_by_of(o.kind)), limit: q.limit_clause.map(limit_of) }
}

#[verifier::external_body]
fn order_by_of(k: sq::OrderByKind) -> SyntaxOrderBy {
    match k {
        sq::OrderByKind::Expressions(v) => SyntaxOrderBy::Expressions(v.into_iter().map(order_of).collect()),
        _ => SyntaxOrderBy::Other,
    }
}

#[verifier::external_body]
fn order_of(o: SqOrderByExpr) -> SyntaxOrderByExpr {
    let descending = matches!(o.options.sort, Some(sq::OrderBySort::Desc));
    SyntaxOrderByExpr { expr: expr_of(o.expr), descending }
}

#[verifier::external_body]
fn limit_of(l: sq::LimitClause) -> SyntaxLimit {
    match l {
        sq::LimitClause::LimitOffset { limit, offset, .. } => SyntaxLimit::LimitOffset(limit.map(expr_of), offset.map(|o| expr_of(o.value))),
        sq::LimitClause::OffsetCommaLimit { offset, limit } => SyntaxLimit::OffsetCommaLimit(expr_of(offset), expr_of(limit)),
    }
}

#[verifier::external_body]
fn body_of(b: sq::SetExpr) -> SyntaxBody {
    match b {
        sq::SetExpr::Select(s) => SyntaxBody::Select(select_of(*s)),
        sq::SetExpr::Values(v) => SyntaxBody::Values(v.rows.into_iter().map(|r| r.content.into_iter().map(expr_of).collect()).collect()),
        _ => SyntaxBody::Other,
    }
}

#[verifier::external_body]
fn select_of(s: sq::Select) -> SyntaxSelect {
    SyntaxSelect {
        distinct: s.distinct.is_some(),
        projection: s.projection.into_iter().map(select_item_of).collect(),
        from: s.from.into_iter().map(|t| table_factor_of(t.relation)).collect(),
        selection: s.selection.map(expr_of),
    }
}

#[verifier::external_body]
fn select_item_of(i: SqSelectItem) -> SyntaxSelectItem {
    match i {
        sq::SelectItem::Wildcard(_) => SyntaxSelectItem::Wildcard,
        sq::SelectItem::UnnamedExpr(e) => SyntaxSelectItem::Unnamed(expr_of(e)),
        sq::SelectItem::ExprWithAlias { expr, alias } => SyntaxSelectItem::Aliased(expr_of(expr), alias.value),
        _ => SyntaxSelectItem::Other,
    }
}

#[verifier::external_body]
fn table_factor_of(t: sq::TableFactor) -> SyntaxTableFactor {
    match t {
        sq::TableFactor::Table { name, alias, .. } => SyntaxTableFactor::Table(name_of(name), alias.map(|a| a.name.value)),
        _ => SyntaxTableFactor::Other,
    }
}

#[verifier::external_body]
fn expr_of(e: SqExpr) -> SyntaxExpr {
    match e {
        sq::Expr::Value(v) => SyntaxExpr::Value(value_of(v.value)),
        sq::Expr::Identifier(i) => SyntaxExpr::Identifier(i.value),
        sq::Expr::BinaryOp { left, op, right } => binary_of(*left, op, *right),
        sq::Expr::UnaryOp { op, expr } => SyntaxExpr::UnaryOp(unary_op_of(op), Box::new(expr_of(*expr))),
        sq::Expr::IsNull(x) => SyntaxExpr::IsNull(Box::new(expr_of(*x))),
        sq::Expr::IsNotNull(x) => SyntaxExpr::IsNotNull(Box::new(expr_of(*x))),
        sq::Expr::Between { expr, negated, low, high } => between_of(*expr, negated, *low, *high),
        other => SyntaxExpr::Other(format!("{:?}", other)),
    }
}

#[verifier::external_body]
fn binary_of(left: SqExpr, op: SqBinaryOperator, right: SqExpr) -> SyntaxExpr {
    SyntaxExpr::BinaryOp(Box::new(expr_of(left)), binary_op_of(op), Box::new(expr_of(right)))
}

#[verifier::external_body]
fn between_of(x: SqExpr, negated: bool, low: SqExpr, high: SqExpr) -> SyntaxExpr {
    SyntaxExpr::Between(Box::new(expr_of(x)), negated, Box::new(expr_of(low)), Box::new(expr_of(high)))
}

#[verifier::external_body]
fn value_of(v: SqValue) -> SyntaxValue {
    match v {
        sq::Value::Number(s, _) => SyntaxValue::Number(s),
        sq::Value::SingleQuotedString(s) => SyntaxValue::SingleQuoted(s),
        sq::Value::Boolean(b) => SyntaxValue::Boolean(b),
        sq::Value::Null => SyntaxValue::Null,
        _ => SyntaxValue::Other,
    }
}

#[verifier::external_body]
fn binary_op_of(op: SqBinaryOperator) -> SyntaxBinaryOp {
    match op {
        sq::BinaryOperator::Eq => SyntaxBinaryOp::Eq,
        sq::BinaryOperator::NotEq => SyntaxBinaryOp::NotEq,
        sq::BinaryOperator::Lt => SyntaxBinaryOp::Lt,
        sq::BinaryOperator::LtEq => SyntaxBinaryOp::LtEq,
        sq::BinaryOperator::Gt => SyntaxBinaryOp::Gt,
        sq::BinaryOperator::GtEq => SyntaxBinaryOp::GtEq,
        sq::BinaryOperator::And => SyntaxBinaryOp::And,
        sq::BinaryOperator::Or => SyntaxBinaryOp::Or,
        other => arithmetic_op_of(other),
    }
}

#[verifier::external_body]
fn arithmetic_op_of(op: SqBinaryOperator) -> SyntaxBinaryOp {
    match op {
        sq::BinaryOperator::Plus => SyntaxBinaryOp::Plus,
        sq::BinaryOperator::Minus => SyntaxBinaryOp::Minus,
        sq::BinaryOperator::Multiply => SyntaxBinaryOp::Multiply,
        sq::BinaryOperator::Divide => SyntaxBinaryOp::Divide,
        _ => SyntaxBinaryOp::Other,
    }
}

#[verifier::external_body]
fn unary_op_of(op: SqUnaryOperator) -> SyntaxUnaryOp {
    match op {
        sq::UnaryOperator::Not => SyntaxUnaryOp::Not,
        sq::UnaryOperator::Minus => SyntaxUnaryOp::Minus,
        _ => SyntaxUnaryOp::Other,
    }
}

} // verus!
