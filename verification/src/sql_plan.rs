//! The catalog of table schemas, and the planner that turns statements into
//! logical plans.

use vstd::prelude::*;
use vstd::string::*;
use crate::sql_types::{
    Value, ValueView, ColumnDef, ColumnView, TableSchema, SchemaView, names_view, columns_view,
};
use crate::sql_ast::{
    Statement, CreateTableStmt, InsertStmt, SelectStmt, DeleteStmt, Expr, ExprView, SelectItem, TableRef,
    expr_view,
};
use crate::sql_error::SqlError;
use crate::assoc::{
    assoc_map, keys_unique, lemma_assoc_lookup, lemma_assoc_absent, lemma_assoc_update, lemma_assoc_push,
};

verus! {

/// Whether two strings hold the same characters.
pub fn str_equal(a: &str, b: &str) -> (r: bool)
    ensures
        r == (a@ == b@),
{
    let r = crate::mvcc::bytes_equal(a.as_bytes(), b.as_bytes());
    proof {
        vstd::utf8::encode_utf8_decode_utf8(a@);
        vstd::utf8::encode_utf8_decode_utf8(b@);
        assert(a.spec_bytes() == vstd::utf8::encode_utf8(a@));
        assert(b.spec_bytes() == vstd::utf8::encode_utf8(b@));
    }
    r
}

/// The catalog that adding these schemas one after another to an empty
/// catalog builds.
pub open spec fn catalog_after(ss: Seq<TableSchema>) -> Map<Seq<char>, SchemaView>
    decreases ss.len(),
{
    if ss.len() == 0 {
        Map::empty()
    } else {
        catalog_after(ss.drop_last()).insert(ss.last().name@, ss.last()@)
    }
}

/// After a series of `add_table` calls, a name maps to the schema added
/// last under that name.
pub proof fn lemma_catalog_last_added_wins(ss: Seq<TableSchema>, n: Seq<char>, j: int)
    requires
        0 <= j < ss.len(),
        ss[j].name@ == n,
        forall|k: int| j < k < ss.len() ==> #[trigger] ss[k].name@ != n,
    ensures
        catalog_after(ss).contains_key(n),
        catalog_after(ss)[n] == ss[j]@,
    decreases ss.len(),
{
    if j < ss.len() - 1 {
        let d = ss.drop_last();
        assert forall|k: int| j < k < d.len() implies #[trigger] d[k].name@ != n by {
            assert(d[k] == ss[k]);
        }
        assert(d[j] == ss[j]);
        lemma_catalog_last_added_wins(d, n, j);
        assert(ss.last().name@ != n) by {
            assert(ss[ss.len() - 1].name@ != n);
        }
    }
}

/// A name that no added schema has is not in the catalog.
pub proof fn lemma_catalog_never_added(ss: Seq<TableSchema>, n: Seq<char>)
    requires
        forall|k: int| 0 <= k < ss.len() ==> #[trigger] ss[k].name@ != n,
    ensures
        !catalog_after(ss).contains_key(n),
    decreases ss.len(),
{
    if ss.len() > 0 {
        let d = ss.drop_last();
        assert forall|k: int| 0 <= k < d.len() implies #[trigger] d[k].name@ != n by {
            assert(d[k] == ss[k]);
        }
        lemma_catalog_never_added(d, n);
        assert(ss[ss.len() - 1].name@ != n);
    }
}

/// A catalog that starts empty and takes each schema of `ss` in turn by
/// `add_table` ends as `catalog_after(ss)`; `get_table` and `table_exists`
/// then read that map, so a name gives the schema added last under it.
pub proof fn lemma_catalog_series(cs: Seq<Catalog>, ss: Seq<TableSchema>)
    requires
        cs.len() == ss.len() + 1,
        cs[0]@ == Map::<Seq<char>, SchemaView>::empty(),
        forall|i: int| 0 <= i < ss.len() ==> #[trigger] cs[i + 1]@ == cs[i]@.insert(ss[i].name@, ss[i]@),
    ensures
        cs.last()@ == catalog_after(ss),
    decreases ss.len(),
{
    if ss.len() > 0 {
        let cs0 = cs.drop_last();
        let ss0 = ss.drop_last();
        assert forall|i: int| 0 <= i < ss0.len() implies #[trigger] cs0[i + 1]@ == cs0[i]@.insert(ss0[i].name@, ss0[i]@) by {
            assert(cs0[i + 1] == cs[i + 1] && cs0[i] == cs[i] && ss0[i] == ss[i]);
            assert(cs[i + 1]@ == cs[i]@.insert(ss[i].name@, ss[i]@));
        }
        assert(cs0[0] == cs[0]);
        lemma_catalog_series(cs0, ss0);
        let n = ss.len() - 1;
        assert(cs[n + 1]@ == cs[n]@.insert(ss[n].name@, ss[n]@));
        assert(cs0.last() == cs[n]);
        assert(cs.last() == cs[n + 1]);
        assert(ss.last() == ss[n]);
    }
}

/// The table schemas by table name.
pub struct Catalog {
    tables: Vec<TableSchema>,
}

pub open spec fn schema_key() -> spec_fn(TableSchema) -> Seq<char> {
    |t: TableSchema| t.name@
}

pub open spec fn schema_val() -> spec_fn(TableSchema) -> SchemaView {
    |t: TableSchema| t@
}

impl View for Catalog {
    type V = Map<Seq<char>, SchemaView>;

    closed spec fn view(&self) -> Map<Seq<char>, SchemaView> {
        assoc_map(self.tables@, schema_key(), schema_val())
    }
}

impl Catalog {
    /// No table name occurs twice.
    pub closed spec fn wf(&self) -> bool {
        keys_unique(self.tables@, schema_key())
    }

    pub fn new() -> (r: Catalog)
        ensures
            r.wf(),
            r@ == Map::<Seq<char>, SchemaView>::empty(),
    {
        Catalog { tables: Vec::new() }
    }

    fn find(&self, name: &str) -> (r: Option<usize>)
        ensures
            r matches Some(i) ==> i < self.tables@.len() && self.tables@[i as int].name@ == name@,
            r is None ==> forall|i: int| 0 <= i < self.tables@.len() ==> #[trigger] schema_key()(self.tables@[i]) != name@,
    {
        let mut i: usize = 0;
        while i < self.tables.len()
            invariant
                0 <= i <= self.tables@.len(),
                forall|j: int| 0 <= j < i ==> #[trigger] schema_key()(self.tables@[j]) != name@,
            decreases self.tables@.len() - i,
        {
            if str_equal(self.tables[i].name.as_str(), name) {
                return Some(i);
            }
            i = i + 1;
        }
        None
    }

    /// A copy of the catalog.
    pub fn copy(&self) -> (r: Catalog)
        requires
            self.wf(),
        ensures
            r.wf(),
            r@ == self@,
    {
        let mut tables: Vec<TableSchema> = Vec::new();
        let mut i: usize = 0;
        while i < self.tables.len()
            invariant
                0 <= i <= self.tables@.len(),
                keys_unique(self.tables@, schema_key()),
                tables@.len() == i,
                forall|j: int| 0 <= j < i ==> schema_key()(#[trigger] tables@[j]) == schema_key()(self.tables@[j])
                    && schema_val()(tables@[j]) == schema_val()(self.tables@[j]),
            decreases self.tables@.len() - i,
        {
            tables.push(self.tables[i].copy());
            i = i + 1;
        }
        let r = Catalog { tables };
        proof {
            crate::assoc::lemma_assoc_same(r.tables@, schema_key(), schema_val(), self.tables@, schema_key(), schema_val());
            assert forall|a: int, b: int| 0 <= a < b < r.tables@.len() implies schema_key()(r.tables@[a]) != schema_key()(
                r.tables@[b],
            ) by {
                assert(schema_key()(self.tables@[a]) != schema_key()(self.tables@[b]));
            }
        }
        r
    }

    /// Adds a table, replacing any table of the same name.
    pub fn add_table(&mut self, schema: TableSchema)
        requires
            old(self).wf(),
        ensures
            final(self).wf(),
            final(self)@ == old(self)@.insert(schema.name@, schema@),
    {
        let ghost old_tables = self.tables@;
        match self.find(schema.name.as_str()) {
            Some(i) => {
                proof {
                    lemma_assoc_update(old_tables, schema_key(), schema_val(), i as int, schema);
                }
                self.tables.set(i, schema);
            },
            None => {
                proof {
                    lemma_assoc_push(old_tables, schema_key(), schema_val(), schema);
                }
                self.tables.push(schema);
            },
        }
    }

    /// The schema of a table.
    pub fn get_table(&self, name: &str) -> (r: Option<&TableSchema>)
        requires
            self.wf(),
        ensures
            r matches Some(t) ==> self@.contains_key(name@) && t@ == self@[name@] && t.name@ == name@,
            r is None ==> !self@.contains_key(name@),
    {
        match self.find(name) {
            Some(i) => {
                proof {
                    lemma_assoc_lookup(self.tables@, schema_key(), schema_val(), i as int);
                }
                Some(&self.tables[i])
            },
            None => {
                proof {
                    lemma_assoc_absent(self.tables@, schema_key(), schema_val(), name@);
                }
                None
            },
        }
    }

    /// Whether a table of this name exists.
    pub fn table_exists(&self, name: &str) -> (r: bool)
        requires
            self.wf(),
        ensures
            r == self@.contains_key(name@),
    {
        match self.get_table(name) {
            Some(_) => true,
            None => false,
        }
    }
}

/// A logical query plan.
#[derive(Debug)]
pub enum LogicalPlan {
    Scan { table_name: String, columns: Vec<String>, filter: Option<Expr>, schema: TableSchema },
    Project { input: Box<LogicalPlan>, columns: Vec<String>, expressions: Vec<Expr> },
    Filter { input: Box<LogicalPlan>, predicate: Expr },
    Limit { input: Box<LogicalPlan>, limit: usize, offset: usize },
    CreateTable { schema: TableSchema, if_not_exists: bool },
    Insert { table_name: String, columns: Option<Vec<String>>, values: Vec<Vec<Expr>>, schema: TableSchema },
    Delete { table_name: String, filter: Option<Expr>, schema: TableSchema },
    BeginTransaction,
    Commit,
    Rollback,
}

/// Why planning failed.
pub ghost enum PlanErr {
    TableNotFound(Seq<char>),
    ColumnNotFound(Seq<char>),
    Planner(Seq<char>),
}

pub open spec fn plan_error_is(e: SqlError, x: PlanErr) -> bool {
    match x {
        PlanErr::TableNotFound(n) => e matches SqlError::TableNotFound(m) && m@ == n,
        PlanErr::ColumnNotFound(n) => e matches SqlError::ColumnNotFound(m) && m@ == n,
        PlanErr::Planner(n) => e matches SqlError::PlannerError(m) && m@ == n,
    }
}

pub open spec fn has_column(cols: Seq<ColumnView>, name: Seq<char>) -> bool {
    exists|j: int| 0 <= j < cols.len() && #[trigger] cols[j].name == name
}

/// The names of the primary-key columns, in column order.
pub open spec fn pk_names(cols: Seq<ColumnView>) -> Seq<Seq<char>>
    decreases cols.len(),
{
    if cols.len() == 0 {
        Seq::empty()
    } else if cols.last().primary_key {
        pk_names(cols.drop_last()).push(cols.last().name)
    } else {
        pk_names(cols.drop_last())
    }
}

/// The output columns of a select list, or why it cannot be resolved: `*`
/// gives every column; a column reference gives its alias or its name.
pub open spec fn resolve_spec(items: Seq<SelectItem>, cols: Seq<ColumnView>) -> Result<Seq<Seq<char>>, PlanErr>
    decreases items.len(),
{
    if items.len() == 0 {
        Ok(Seq::empty())
    } else {
        match resolve_spec(items.drop_last(), cols) {
            Err(x) => Err(x),
            Ok(prev) => match items.last() {
                SelectItem::Wildcard => Ok(prev + cols.map_values(|c: ColumnView| c.name)),
                SelectItem::Expr { expr, alias } => match expr {
                    Expr::ColumnRef(n) => if !has_column(cols, n@) {
                        Err(PlanErr::ColumnNotFound(n@))
                    } else {
                        Ok(prev.push(
                            match alias {
                                Some(a) => a@,
                                None => n@,
                            },
                        ))
                    },
                    _ => Err(PlanErr::Planner("Expressions in SELECT not yet supported"@)),
                },
            },
        }
    }
}

/// The output name a column reference in a select list gives: its alias if
/// it has one, else the column's name.
pub open spec fn reference_output_name(item: SelectItem) -> Seq<char> {
    match item {
        SelectItem::Expr { expr: Expr::ColumnRef(n), alias: Some(a) } => a@,
        SelectItem::Expr { expr: Expr::ColumnRef(n), alias: None } => n@,
        _ => Seq::empty(),
    }
}

/// The item is a reference to a column that the table has.
pub open spec fn references_existing_column(item: SelectItem, cols: Seq<ColumnView>) -> bool {
    item matches SelectItem::Expr { expr: Expr::ColumnRef(n), .. } && exists|j: int| 0 <= j < cols.len() && cols[j].name
        == n@
}

/// A select list of references to existing columns resolves to one output
/// column per item, in the order of the list: position `i` holds the alias or
/// the name of item `i`.
pub proof fn lemma_select_list_resolves_in_order(items: Seq<SelectItem>, cols: Seq<ColumnView>)
    requires
        forall|i: int| 0 <= i < items.len() ==> references_existing_column(#[trigger] items[i], cols),
    ensures
        resolve_spec(items, cols) matches Ok(names) && names.len() == items.len() && forall|i: int|
            0 <= i < items.len() ==> names[i] == reference_output_name(#[trigger] items[i]),
    decreases items.len(),
{
    if items.len() > 0 {
        let pre = items.drop_last();
        assert forall|i: int| 0 <= i < pre.len() implies references_existing_column(#[trigger] pre[i], cols) by {
            assert(pre[i] == items[i]);
        }
        lemma_select_list_resolves_in_order(pre, cols);
        let last = items.last();
        assert(references_existing_column(items[items.len() - 1], cols));
        let prev = resolve_spec(pre, cols)->Ok_0;
        match last {
            SelectItem::Expr { expr: Expr::ColumnRef(n), alias } => {
                let j = choose|j: int| 0 <= j < cols.len() && cols[j].name == n@;
                assert(has_column(cols, n@));
                let names = resolve_spec(items, cols)->Ok_0;
                assert forall|i: int| 0 <= i < items.len() implies names[i] == reference_output_name(#[trigger] items[i]) by {
                    if i < pre.len() {
                        assert(pre[i] == items[i]);
                    }
                }
            },
            _ => {},
        }
    }
}

/// A select list of `*` alone gives the table's column names, in column order.
pub proof fn lemma_wildcard_gives_all_columns(cols: Seq<ColumnView>)
    ensures
        resolve_spec(seq![SelectItem::Wildcard], cols) matches Ok(names) && names.len() == cols.len() && forall|i: int|
            0 <= i < cols.len() ==> names[i] == #[trigger] cols[i].name,
{
    let items = seq![SelectItem::Wildcard];
    assert(items.drop_last() =~= Seq::<SelectItem>::empty());
    assert(items.last() == SelectItem::Wildcard);
    assert(resolve_spec(items.drop_last(), cols) == Ok::<Seq<Seq<char>>, PlanErr>(Seq::empty()));
    let names = resolve_spec(items, cols)->Ok_0;
    assert(names.len() == cols.len());
    assert forall|i: int| 0 <= i < cols.len() implies names[i] == #[trigger] cols[i].name by {
        assert(names[i] == Seq::<Seq<char>>::empty().add(cols.map_values(|c: ColumnView| c.name))[i]);
    }
}

/// The number a LIMIT or OFFSET clause gives: an integer literal, cast to
/// `usize`; `dflt` for anything else.
pub open spec fn clause_number(e: Option<Expr>, dflt: usize) -> usize {
    match e {
        Some(Expr::Literal(Value::Integer(i))) => i as usize,
        _ => dflt,
    }
}

pub open spec fn opt_expr_view(e: Option<Expr>) -> Option<ExprView> {
    match e {
        Some(x) => Some(expr_view(x)),
        None => None,
    }
}

pub open spec fn scan_is(p: LogicalPlan, table: Seq<char>, cols: Seq<Seq<char>>, schema: SchemaView, filter: Option<ExprView>) -> bool {
    p matches LogicalPlan::Scan { table_name, columns, filter: f, schema: s } && table_name@ == table && names_view(
        columns@,
    ) == cols && s@ == schema && opt_expr_view(f) == filter
}

pub open spec fn filtered_scan_is(
    p: LogicalPlan,
    table: Seq<char>,
    cols: Seq<Seq<char>>,
    schema: SchemaView,
    filter: Option<ExprView>,
) -> bool {
    match filter {
        None => scan_is(p, table, cols, schema, None),
        Some(w) => p matches LogicalPlan::Filter { input, predicate } && expr_view(predicate) == w && scan_is(
            *input,
            table,
            cols,
            schema,
            Some(w),
        ),
    }
}

pub open spec fn select_table(stmt: SelectStmt) -> Seq<char> {
    match stmt.from {
        TableRef::Table { name, .. } => name@,
    }
}

/// The plan of a resolved select: a scan, under a filter for a WHERE
/// clause, under a limit where LIMIT or OFFSET is given.
pub open spec fn select_plan_is(p: LogicalPlan, stmt: SelectStmt, cols: Seq<Seq<char>>, schema: SchemaView) -> bool {
    let table = select_table(stmt);
    let filter = opt_expr_view(stmt.where_clause);
    if stmt.limit is None && stmt.offset is None {
        filtered_scan_is(p, table, cols, schema, filter)
    } else {
        p matches LogicalPlan::Limit { input, limit, offset } && filtered_scan_is(*input, table, cols, schema, filter)
            && limit == clause_number(stmt.limit, usize::MAX) && offset == clause_number(stmt.offset, 0)
    }
}

pub open spec fn select_outcome(catalog: Map<Seq<char>, SchemaView>, stmt: SelectStmt, r: Result<LogicalPlan, SqlError>) -> bool {
    let table = select_table(stmt);
    if !catalog.contains_key(table) {
        r matches Err(e) && plan_error_is(e, PlanErr::TableNotFound(table))
    } else {
        match resolve_spec(stmt.columns@, catalog[table].columns) {
            Err(x) => r matches Err(e) && plan_error_is(e, x),
            Ok(cols) => r matches Ok(p) && select_plan_is(p, stmt, cols, catalog[table]),
        }
    }
}

pub open spec fn exists_message(name: Seq<char>) -> Seq<char> {
    "Table '"@ + name + "' already exists"@
}

pub open spec fn create_outcome(catalog: Map<Seq<char>, SchemaView>, stmt: CreateTableStmt, r: Result<LogicalPlan, SqlError>) -> bool {
    if !stmt.if_not_exists && catalog.contains_key(stmt.table_name@) {
        r matches Err(e) && plan_error_is(e, PlanErr::Planner(exists_message(stmt.table_name@)))
    } else {
        r matches Ok(LogicalPlan::CreateTable { schema, if_not_exists }) && if_not_exists == stmt.if_not_exists
            && schema@ == SchemaView {
            name: stmt.table_name@,
            columns: columns_view(stmt.columns@),
            primary_key: Some(pk_names(columns_view(stmt.columns@))),
        }
    }
}

/// The position of the first name that is not a column; the length when all are.
pub open spec fn first_missing(names: Seq<Seq<char>>, cols: Seq<ColumnView>) -> int
    decreases names.len(),
{
    if names.len() == 0 {
        0
    } else if !has_column(cols, names[0]) {
        0
    } else {
        1 + first_missing(names.drop_first(), cols)
    }
}

pub open spec fn insert_outcome(catalog: Map<Seq<char>, SchemaView>, stmt: InsertStmt, r: Result<LogicalPlan, SqlError>) -> bool {
    let table = stmt.table_name@;
    let n = stmt.values@[0]@.len();
    if !catalog.contains_key(table) {
        r matches Err(e) && plan_error_is(e, PlanErr::TableNotFound(table))
    } else {
        let schema = catalog[table];
        match stmt.columns {
            Some(cs) => {
                let names = names_view(cs@);
                if names.len() != n {
                    r matches Err(e) && plan_error_is(e, PlanErr::Planner("Column count doesn't match value count"@))
                } else if first_missing(names, schema.columns) < names.len() {
                    r matches Err(e) && plan_error_is(
                        e,
                        PlanErr::ColumnNotFound(names[first_missing(names, schema.columns)]),
                    )
                } else {
                    r matches Ok(LogicalPlan::Insert { table_name, columns, values, schema: s }) && table_name@ == table
                        && columns == stmt.columns && values == stmt.values && s@ == schema
                }
            },
            None => if n != schema.columns.len() {
                r matches Err(e) && plan_error_is(e, PlanErr::Planner("Value count doesn't match column count"@))
            } else {
                r matches Ok(LogicalPlan::Insert { table_name, columns, values, schema: s }) && table_name@ == table
                    && columns is None && values == stmt.values && s@ == schema
            },
        }
    }
}

pub open spec fn delete_outcome(catalog: Map<Seq<char>, SchemaView>, stmt: DeleteStmt, r: Result<LogicalPlan, SqlError>) -> bool {
    let table = stmt.table_name@;
    if !catalog.contains_key(table) {
        r matches Err(e) && plan_error_is(e, PlanErr::TableNotFound(table))
    } else {
        r matches Ok(LogicalPlan::Delete { table_name, filter, schema }) && table_name@ == table
            && filter == stmt.where_clause && schema@ == catalog[table]
    }
}

/// What planning a statement gives.
pub open spec fn plan_outcome(catalog: Map<Seq<char>, SchemaView>, stmt: Statement, r: Result<LogicalPlan, SqlError>) -> bool {
    match stmt {
        Statement::CreateTable(c) => create_outcome(catalog, c, r),
        Statement::Insert(i) => insert_outcome(catalog, i, r),
        Statement::Select(s) => select_outcome(catalog, s, r),
        Statement::Delete(d) => delete_outcome(catalog, d, r),
        Statement::BeginTransaction => r matches Ok(LogicalPlan::BeginTransaction),
        Statement::Commit => r matches Ok(LogicalPlan::Commit),
        Statement::Rollback => r matches Ok(LogicalPlan::Rollback),
    }
}

/// A statement the planner can take: an insert has at least one row of values.
pub open spec fn plannable(stmt: Statement) -> bool {
    stmt matches Statement::Insert(i) ==> i.values@.len() > 0
}

proof fn lemma_first_missing(names: Seq<Seq<char>>, cols: Seq<ColumnView>, i: int)
    requires
        0 <= i <= names.len(),
        forall|k: int| 0 <= k < i ==> has_column(cols, #[trigger] names[k]),
        i < names.len() ==> !has_column(cols, names[i]),
    ensures
        first_missing(names, cols) == i,
    decreases i,
{
    if i > 0 {
        assert(has_column(cols, names[0]));
        assert forall|k: int| 0 <= k < i - 1 implies has_column(cols, #[trigger] names.drop_first()[k]) by {
            assert(names.drop_first()[k] == names[k + 1]);
            assert(has_column(cols, names[k + 1]));
        }
        lemma_first_missing(names.drop_first(), cols, i - 1);
    }
}

/// A select list whose prefix fails to resolve fails with the same error.
proof fn lemma_resolve_err_prefix(items: Seq<SelectItem>, cols: Seq<ColumnView>, j: int)
    requires
        0 <= j <= items.len(),
        resolve_spec(items.subrange(0, j), cols) is Err,
    ensures
        resolve_spec(items, cols) == resolve_spec(items.subrange(0, j), cols),
    decreases items.len(),
{
    if items.len() > j {
        assert(items.drop_last().subrange(0, j) =~= items.subrange(0, j));
        lemma_resolve_err_prefix(items.drop_last(), cols, j);
    } else {
        assert(items.subrange(0, j) =~= items);
    }
}

/// Whether a table has a column of this name.
fn column_exists(cols: &Vec<ColumnDef>, name: &String) -> (r: bool)
    ensures
        r == has_column(columns_view(cols@), name@),
{
    let mut j: usize = 0;
    while j < cols.len()
        invariant
            0 <= j <= cols@.len(),
            forall|k: int| 0 <= k < j ==> cols@[k].name@ != name@,
        decreases cols@.len() - j,
    {
        if cols[j].name == *name {
            proof {
                assert(columns_view(cols@)[j as int].name == name@);
            }
            return true;
        }
        j = j + 1;
    }
    proof {
        if has_column(columns_view(cols@), name@) {
            let k = choose|k: int| 0 <= k < columns_view(cols@).len() && #[trigger] columns_view(cols@)[k].name == name@;
            assert(cols@[k].name@ == name@);
        }
    }
    false
}

/// Turns statements into logical plans, checking them against the catalog.
pub struct QueryPlanner {
    pub catalog: Catalog,
}

impl QueryPlanner {
    pub fn new(catalog: Catalog) -> (r: QueryPlanner)
        ensures
            r.catalog == catalog,
    {
        QueryPlanner { catalog }
    }

    /// Plans one statement.
    pub fn plan(&self, stmt: Statement) -> (r: Result<LogicalPlan, SqlError>)
        requires
            self.catalog.wf(),
            plannable(stmt),
        ensures
            plan_outcome(self.catalog@, stmt, r),
    {
        match stmt {
            Statement::CreateTable(create) => self.plan_create_table(create),
            Statement::Insert(insert) => self.plan_insert(insert),
            Statement::Select(select) => self.plan_select(select),
            Statement::Delete(delete) => self.plan_delete(delete),
            Statement::BeginTransaction => Ok(LogicalPlan::BeginTransaction),
            Statement::Commit => Ok(LogicalPlan::Commit),
            Statement::Rollback => Ok(LogicalPlan::Rollback),
        }
    }

    /// Plans CREATE TABLE: refused where the table exists and IF NOT EXISTS
    /// is absent; the primary key is the list of key columns, in order.
    pub fn plan_create_table(&self, stmt: CreateTableStmt) -> (r: Result<LogicalPlan, SqlError>)
        requires
            self.catalog.wf(),
        ensures
            create_outcome(self.catalog@, stmt, r),
    {
        proof {
            reveal_strlit("Table '");
            reveal_strlit("' already exists");
        }
        if !stmt.if_not_exists && self.catalog.table_exists(stmt.table_name.as_str()) {
            return Err(SqlError::PlannerError(
                String::from_str("Table '").concat(stmt.table_name.as_str()).concat("' already exists"),
            ));
        }
        let ghost cv = columns_view(stmt.columns@);
        let mut pk: Vec<String> = Vec::new();
        let mut i: usize = 0;
        while i < stmt.columns.len()
            invariant
                0 <= i <= stmt.columns@.len(),
                cv == columns_view(stmt.columns@),
                names_view(pk@) == pk_names(cv.subrange(0, i as int)),
            decreases stmt.columns@.len() - i,
        {
            proof {
                assert(cv.subrange(0, i + 1).drop_last() =~= cv.subrange(0, i as int));
                assert(cv.subrange(0, i + 1).last() == stmt.columns@[i as int]@);
            }
            if stmt.columns[i].primary_key {
                let name = stmt.columns[i].name.clone();
                let ghost old_pk = pk@;
                pk.push(name);
                proof {
                    assert(names_view(pk@) =~= names_view(old_pk).push(name@));
                }
            }
            i = i + 1;
        }
        proof {
            assert(cv.subrange(0, cv.len() as int) =~= cv);
        }
        let if_not_exists = stmt.if_not_exists;
        let schema = TableSchema { name: stmt.table_name, columns: stmt.columns, primary_key: Some(pk) };
        Ok(LogicalPlan::CreateTable { schema, if_not_exists })
    }

    /// Plans INSERT: the table must exist, the named columns must exist and
    /// match the first row's length, or the row must fill every column.
    pub fn plan_insert(&self, stmt: InsertStmt) -> (r: Result<LogicalPlan, SqlError>)
        requires
            self.catalog.wf(),
            stmt.values@.len() > 0,
        ensures
            insert_outcome(self.catalog@, stmt, r),
    {
        proof {
            reveal_strlit("Column count doesn't match value count");
            reveal_strlit("Value count doesn't match column count");
        }
        let schema = match self.catalog.get_table(stmt.table_name.as_str()) {
            Some(s) => s.copy(),
            None => return Err(SqlError::TableNotFound(stmt.table_name.clone())),
        };
        let n = stmt.values[0].len();
        match &stmt.columns {
            Some(cols) => {
                if cols.len() != n {
                    return Err(SqlError::PlannerError(String::from_str("Column count doesn't match value count")));
                }
                let ghost names = names_view(cols@);
                let ghost sc = schema@.columns;
                let mut i: usize = 0;
                while i < cols.len()
                    invariant
                        0 <= i <= cols@.len(),
                        names == names_view(cols@),
                        stmt.columns == Some(*cols),
                        self.catalog@.contains_key(stmt.table_name@),
                        schema@ == self.catalog@[stmt.table_name@],
                        n == stmt.values@[0]@.len(),
                        names.len() == n,
                        stmt.values@.len() > 0,
                        sc == columns_view(schema.columns@),
                        forall|k: int| 0 <= k < i ==> has_column(sc, #[trigger] names[k]),
                    decreases cols@.len() - i,
                {
                    if !column_exists(&schema.columns, &cols[i]) {
                        proof {
                            lemma_first_missing(names, sc, i as int);
                        }
                        return Err(SqlError::ColumnNotFound(cols[i].clone()));
                    }
                    i = i + 1;
                }
                proof {
                    lemma_first_missing(names, sc, i as int);
                }
            },
            None => {
                if n != schema.columns.len() {
                    return Err(SqlError::PlannerError(String::from_str("Value count doesn't match column count")));
                }
            },
        }
        Ok(LogicalPlan::Insert { table_name: stmt.table_name, columns: stmt.columns, values: stmt.values, schema })
    }

    /// Plans SELECT: a scan of the table with the resolved columns, under a
    /// filter for WHERE and a limit for LIMIT or OFFSET. ORDER BY and
    /// DISTINCT are not planned.
    pub fn plan_select(&self, stmt: SelectStmt) -> (r: Result<LogicalPlan, SqlError>)
        requires
            self.catalog.wf(),
        ensures
            select_outcome(self.catalog@, stmt, r),
    {
        let ghost orig = stmt;
        let SelectStmt { distinct: _, columns: items, from, where_clause, order_by: _, limit, offset } = stmt;
        let (table_name, schema) = match from {
            TableRef::Table { name, .. } => {
                match self.catalog.get_table(name.as_str()) {
                    Some(s) => {
                        let copy = s.copy();
                        (name, copy)
                    },
                    None => return Err(SqlError::TableNotFound(name.clone())),
                }
            },
        };
        let columns = match self.resolve_select_items(items.as_slice(), &schema) {
            Ok(c) => c,
            Err(e) => return Err(e),
        };
        let scan_filter = match &where_clause {
            Some(e) => Some(e.copy()),
            None => None,
        };
        let mut plan = LogicalPlan::Scan { table_name, columns, filter: scan_filter, schema };
        match where_clause {
            Some(predicate) => {
                plan = LogicalPlan::Filter { input: Box::new(plan), predicate };
            },
            None => {},
        }
        if limit.is_some() || offset.is_some() {
            let limit_n: usize = match &limit {
                Some(e) => match self.evaluate_constant(e) {
                    Ok(Value::Integer(i)) => i as usize,
                    _ => usize::MAX,
                },
                None => usize::MAX,
            };
            let offset_n: usize = match &offset {
                Some(e) => match self.evaluate_constant(e) {
                    Ok(Value::Integer(i)) => i as usize,
                    _ => 0,
                },
                None => 0,
            };
            plan = LogicalPlan::Limit { input: Box::new(plan), limit: limit_n, offset: offset_n };
        }
        Ok(plan)
    }

    /// Plans DELETE: the table must exist.
    pub fn plan_delete(&self, stmt: DeleteStmt) -> (r: Result<LogicalPlan, SqlError>)
        requires
            self.catalog.wf(),
        ensures
            delete_outcome(self.catalog@, stmt, r),
    {
        let schema = match self.catalog.get_table(stmt.table_name.as_str()) {
            Some(s) => s.copy(),
            None => return Err(SqlError::TableNotFound(stmt.table_name.clone())),
        };
        Ok(LogicalPlan::Delete { table_name: stmt.table_name, filter: stmt.where_clause, schema })
    }

    /// The output column names of a select list.
    pub fn resolve_select_items(&self, items: &[SelectItem], schema: &TableSchema) -> (r: Result<Vec<String>, SqlError>)
        ensures
            resolve_spec(items@, schema@.columns) matches Ok(cols) ==> (r matches Ok(v) && names_view(v@) == cols),
            resolve_spec(items@, schema@.columns) matches Err(x) ==> (r matches Err(e) && plan_error_is(e, x)),
    {
        proof {
            reveal_strlit("Expressions in SELECT not yet supported");
        }
        let ghost sc = schema@.columns;
        let mut columns: Vec<String> = Vec::new();
        let mut i: usize = 0;
        proof {
            assert(items@.subrange(0, 0) =~= Seq::<SelectItem>::empty());
            assert(names_view(columns@) =~= Seq::<Seq<char>>::empty());
        }
        while i < items.len()
            invariant
                0 <= i <= items@.len(),
                sc == schema@.columns,
                resolve_spec(items@.subrange(0, i as int), sc) == Ok::<Seq<Seq<char>>, PlanErr>(names_view(columns@)),
            decreases items@.len() - i,
        {
            let ghost prefix = items@.subrange(0, i + 1);
            proof {
                assert(prefix.drop_last() =~= items@.subrange(0, i as int));
                assert(prefix.last() == items@[i as int]);
            }
            match &items[i] {
                SelectItem::Wildcard => {
                    let ghost before = names_view(columns@);
                    let ghost all = sc.map_values(|c: ColumnView| c.name);
                    let mut k: usize = 0;
                    while k < schema.columns.len()
                        invariant
                            0 <= k <= schema.columns@.len(),
                            sc == columns_view(schema.columns@),
                            all == sc.map_values(|c: ColumnView| c.name),
                            names_view(columns@) == before + all.subrange(0, k as int),
                        decreases schema.columns@.len() - k,
                    {
                        let name = schema.columns[k].name.clone();
                        let ghost old_cols = columns@;
                        columns.push(name);
                        k = k + 1;
                        proof {
                            assert(names_view(columns@) =~= names_view(old_cols).push(name@));
                            assert(all.subrange(0, k as int) =~= all.subrange(0, k - 1).push(all[k - 1]));
                        }
                    }
                    proof {
                        assert(all.subrange(0, all.len() as int) =~= all);
                    }
                },
                SelectItem::Expr { expr, alias } => {
                    match expr {
                        Expr::ColumnRef(col_name) => {
                            if !column_exists(&schema.columns, col_name) {
                                proof {
                                    lemma_resolve_err_prefix(items@, sc, i + 1);
                                }
                                return Err(SqlError::ColumnNotFound(col_name.clone()));
                            }
                            let out = match alias {
                                Some(a) => a.clone(),
                                None => col_name.clone(),
                            };
                            let ghost old_cols = columns@;
                            columns.push(out);
                            proof {
                                assert(names_view(columns@) =~= names_view(old_cols).push(out@));
                            }
                        },
                        _ => {
                            proof {
                                lemma_resolve_err_prefix(items@, sc, i + 1);
                            }
                            return Err(SqlError::PlannerError(String::from_str("Expressions in SELECT not yet supported")));
                        },
                    }
                },
            }
            i = i + 1;
        }
        proof {
            assert(items@.subrange(0, items@.len() as int) =~= items@);
        }
        Ok(columns)
    }

    /// The value of a LIMIT or OFFSET expression, which must be a literal.
    pub fn evaluate_constant(&self, expr: &Expr) -> (r: Result<Value, SqlError>)
        ensures
            expr matches Expr::Literal(v) ==> (r matches Ok(x) && x@ == v@),
            !(expr is Literal) ==> (r matches Err(SqlError::PlannerError(m)) && m@ == "Non-constant expression in LIMIT/OFFSET"@),
    {
        proof {
            reveal_strlit("Non-constant expression in LIMIT/OFFSET");
        }
        match expr {
            Expr::Literal(val) => Ok(val.copy()),
            _ => Err(SqlError::PlannerError(String::from_str("Non-constant expression in LIMIT/OFFSET"))),
        }
    }
}

} // verus!
