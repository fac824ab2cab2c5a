//! What the query executor computes from rows: filters, stored row bytes,
//! row keys, projections and limits.
//!
//! A stored row is the concatenation of its stored values. A row key is, for
//! a table with a primary key, each key value's stored bytes preceded by
//! their 4-byte little-endian length; otherwise the stored values of the row.

use vstd::prelude::*;
use vstd::bytes::*;
use vstd::slice::slice_subrange;
use vstd::string::*;
use vstd::utf8::{encode_utf8, decode_utf8, valid_utf8};
use crate::tx::TxId;
use crate::sql_types::{
    Value, ValueView, DataType, TableSchema, ColumnDef, ColumnView, value_type, data_type_name, encode_value,
    names_view, columns_view, string_from_utf8, utf8_error_text,
};
use crate::sql_ast::{Expr, ExprView, expr_view};
use crate::sql_error::SqlError;
use crate::sql_eval::{
    Context, EvalErr, eval, value_truth, error_is, try_evaluate_expression, evaluate_expression,
    value_to_bool,
};
use crate::bytes::{push_slice, copy_range};
use crate::wal::le32_at;

verus! {

/// What running a plan gives.
#[derive(Debug)]
pub enum QueryResult {
    CreateTable,
    Insert(usize),
    Select { columns: Vec<String>, rows: Vec<Vec<Value>> },
    Delete(usize),
    BeginTransaction(TxId),
    Commit,
    Rollback,
}

pub open spec fn values_view(v: Seq<Value>) -> Seq<ValueView> {
    v.map_values(|x: Value| x@)
}

/// The column values of the first `n` columns of a row, a later column of
/// the same name hiding an earlier one.
pub open spec fn row_ctx(row: Seq<ValueView>, cols: Seq<Seq<char>>, n: int) -> Map<Seq<char>, ValueView>
    decreases n,
{
    if n <= 0 {
        Map::empty()
    } else {
        row_ctx(row, cols, n - 1).insert(cols[n - 1], row[n - 1])
    }
}

/// The context a filter sees: each named column that the row has a value for.
pub open spec fn filter_ctx(row: Seq<ValueView>, cols: Seq<Seq<char>>) -> Map<Seq<char>, ValueView> {
    row_ctx(row, cols, if row.len() < cols.len() { row.len() as int } else { cols.len() as int })
}

/// A filter's answer: the truth of the predicate's value, or its error.
pub open spec fn filter_is(r: Result<bool, SqlError>, s: Result<ValueView, EvalErr>) -> bool {
    match s {
        Ok(v) => r == Ok::<bool, SqlError>(value_truth(v)),
        Err(x) => r matches Err(e) && error_is(e, x),
    }
}

fn filter_context(row: &[Value], columns: &[String]) -> (c: Context)
    ensures
        c@ == filter_ctx(values_view(row@), names_view(columns@)),
{
    let mut ctx = Context::new();
    let mut i: usize = 0;
    let ghost rv = values_view(row@);
    let ghost cv = names_view(columns@);
    while i < columns.len()
        invariant
            0 <= i <= columns@.len(),
            rv == values_view(row@),
            cv == names_view(columns@),
            ctx@ == row_ctx(rv, cv, if (i as int) < row@.len() { i as int } else { row@.len() as int }),
        decreases columns@.len() - i,
    {
        if i < row.len() {
            ctx.insert(columns[i].clone(), row[i].copy());
        }
        i = i + 1;
    }
    ctx
}

/// Whether a row passes a filter over the named columns. It is not run
/// where integer arithmetic in the predicate would overflow or divide by zero.
pub fn evaluate_filter(row: &[Value], columns: &[String], predicate: &Expr) -> (r: Result<bool, SqlError>)
    requires
        !(eval(expr_view(*predicate), filter_ctx(values_view(row@), names_view(columns@))) matches Err(
            EvalErr::Fault,
        )),
    ensures
        filter_is(r, eval(expr_view(*predicate), filter_ctx(values_view(row@), names_view(columns@)))),
{
    let ctx = filter_context(row, columns);
    match evaluate_expression(predicate, &ctx) {
        Ok(v) => value_to_bool(&v),
        Err(e) => Err(e),
    }
}

/// Whether a row passes a filter; `None` where integer arithmetic in the
/// predicate overflows or divides by zero.
pub fn try_evaluate_filter(row: &[Value], columns: &[String], predicate: &Expr) -> (r: Option<Result<bool, SqlError>>)
    ensures
        r is None <==> eval(expr_view(*predicate), filter_ctx(values_view(row@), names_view(columns@))) matches Err(
            EvalErr::Fault,
        ),
        r matches Some(x) ==> filter_is(x, eval(expr_view(*predicate), filter_ctx(values_view(row@), names_view(columns@)))),
{
    let ctx = filter_context(row, columns);
    match try_evaluate_expression(predicate, &ctx) {
        None => None,
        Some(Ok(v)) => Some(value_to_bool(&v)),
        Some(Err(e)) => Some(Err(e)),
    }
}

/// The values of a stored row, read from cursor `c` for at most `n` more
/// columns, or the message of the error reading them gives. Reading stops
/// early at the end of the bytes.
pub open spec fn decode_row(p: Seq<u8>, c: int, n: nat) -> Result<Seq<ValueView>, Seq<char>>
    decreases n,
{
    if n == 0 || c >= p.len() {
        Ok(Seq::empty())
    } else {
        let tag = p[c];
        let c1 = c + 1;
        if tag == 0 {
            cons_value(ValueView::Null, decode_row(p, c1, (n - 1) as nat))
        } else if tag == 1 {
            if c1 + 8 > p.len() {
                Err("Row data truncated"@)
            } else {
                cons_value(
                    ValueView::Integer(spec_u64_from_le_bytes(p.subrange(c1, c1 + 8)) as i64),
                    decode_row(p, c1 + 8, (n - 1) as nat),
                )
            }
        } else if tag == 2 {
            if c1 + 4 > p.len() {
                Err("Row data truncated"@)
            } else {
                let l = le32_at(p, c1) as int;
                let c2 = c1 + 4;
                if c2 + l > p.len() {
                    Err("Text data truncated"@)
                } else {
                    let b = p.subrange(c2, c2 + l);
                    if !valid_utf8(b) {
                        Err("Invalid UTF-8: "@ + utf8_error_text(b))
                    } else {
                        cons_value(ValueView::Text(decode_utf8(b)), decode_row(p, c2 + l, (n - 1) as nat))
                    }
                }
            }
        } else if tag == 3 {
            if c1 >= p.len() {
                Err("Row data truncated"@)
            } else {
                cons_value(ValueView::Boolean(p[c1] != 0), decode_row(p, c1 + 1, (n - 1) as nat))
            }
        } else {
            Err("Unknown value type tag"@)
        }
    }
}

pub open spec fn cons_value(v: ValueView, rest: Result<Seq<ValueView>, Seq<char>>) -> Result<Seq<ValueView>, Seq<char>> {
    match rest {
        Ok(r) => Ok(seq![v] + r),
        Err(m) => Err(m),
    }
}

pub open spec fn then_values(a: Seq<ValueView>, rest: Result<Seq<ValueView>, Seq<char>>) -> Result<Seq<ValueView>, Seq<char>> {
    match rest {
        Ok(r) => Ok(a + r),
        Err(m) => Err(m),
    }
}

/// Reads a stored row: one value per schema column, fewer where the bytes end.
pub fn deserialize_row(schema: &TableSchema, bytes: &[u8]) -> (r: Result<Vec<Value>, SqlError>)
    ensures
        decode_row(bytes@, 0, schema.columns@.len()) matches Ok(vs) ==> (r matches Ok(v) && values_view(v@) == vs),
        decode_row(bytes@, 0, schema.columns@.len()) matches Err(m) ==> (r matches Err(SqlError::Internal(e)) && e@ == m),
{
    proof {
        reveal_strlit("Row data truncated");
        reveal_strlit("Text data truncated");
        reveal_strlit("Invalid UTF-8: ");
        reveal_strlit("Unknown value type tag");
    }
    let n = bytes.len();
    let count = schema.columns.len();
    let ghost whole = decode_row(bytes@, 0, count as nat);
    let mut values: Vec<Value> = Vec::new();
    let mut cursor: usize = 0;
    let mut k: usize = 0;
    proof {
        assert(values_view(values@) =~= Seq::<ValueView>::empty());
        assert(then_values(Seq::empty(), decode_row(bytes@, 0, count as nat)) =~= decode_row(bytes@, 0, count as nat))
            by {
            match decode_row(bytes@, 0, count as nat) {
                Ok(r) => {
                    assert(Seq::<ValueView>::empty() + r =~= r);
                },
                Err(_) => {},
            }
        }
    }
    while k < count
        invariant
            n == bytes@.len(),
            count == schema.columns@.len(),
            cursor <= n,
            k <= count,
            whole == decode_row(bytes@, 0, count as nat),
            whole == then_values(values_view(values@), decode_row(bytes@, cursor as int, (count - k) as nat)),
        decreases count - k,
    {
        let ghost vals = values_view(values@);
        let ghost m = (count - k) as nat;
        let ghost c0 = cursor as int;
        if cursor >= n {
            proof {
                assert(decode_row(bytes@, c0, m) == Ok::<Seq<ValueView>, Seq<char>>(Seq::empty()));
                assert(vals + Seq::<ValueView>::empty() =~= vals);
            }
            return Ok(values);
        }
        let tag = bytes[cursor];
        cursor = cursor + 1;
        let value = if tag == 0 {
            Value::Null
        } else if tag == 1 {
            if 8 > n - cursor {
                return Err(SqlError::Internal(String::from_str("Row data truncated")));
            }
            let x = u64_from_le_bytes(slice_subrange(bytes, cursor, cursor + 8));
            cursor = cursor + 8;
            Value::Integer(x as i64)
        } else if tag == 2 {
            if 4 > n - cursor {
                return Err(SqlError::Internal(String::from_str("Row data truncated")));
            }
            let len = u32_from_le_bytes(slice_subrange(bytes, cursor, cursor + 4)) as usize;
            cursor = cursor + 4;
            if len > n - cursor {
                return Err(SqlError::Internal(String::from_str("Text data truncated")));
            }
            let raw = copy_range(bytes, cursor, cursor + len);
            let text = match string_from_utf8(raw) {
                Ok(t) => t,
                Err(msg) => return Err(SqlError::Internal(String::from_str("Invalid UTF-8: ").concat(msg.as_str()))),
            };
            cursor = cursor + len;
            Value::Text(text)
        } else if tag == 3 {
            if cursor >= n {
                return Err(SqlError::Internal(String::from_str("Row data truncated")));
            }
            let b = bytes[cursor] != 0;
            cursor = cursor + 1;
            Value::Boolean(b)
        } else {
            return Err(SqlError::Internal(String::from_str("Unknown value type tag")));
        };
        values.push(value);
        proof {
            let rest = decode_row(bytes@, cursor as int, (m - 1) as nat);
            assert(decode_row(bytes@, c0, m) == cons_value(value@, rest));
            assert(values_view(values@) =~= vals + seq![value@]);
            match rest {
                Ok(r) => {
                    assert(vals + (seq![value@] + r) =~= (vals + seq![value@]) + r);
                },
                Err(_) => {},
            }
        }
        k = k + 1;
    }
    proof {
        assert(decode_row(bytes@, cursor as int, 0) == Ok::<Seq<ValueView>, Seq<char>>(Seq::empty()));
        assert(values_view(values@) + Seq::<ValueView>::empty() =~= values_view(values@));
    }
    Ok(values)
}

pub open spec fn exprs_view(v: Seq<Expr>) -> Seq<ExprView> {
    v.map_values(|e: Expr| expr_view(e))
}

/// The position of the first column of this name; the length when there is none.
pub open spec fn find_column(cols: Seq<ColumnView>, name: Seq<char>) -> int
    decreases cols.len(),
{
    if cols.len() == 0 {
        0
    } else if cols[0].name == name {
        0
    } else {
        1 + find_column(cols.drop_first(), name)
    }
}

proof fn lemma_find_column(cols: Seq<ColumnView>, name: Seq<char>, i: int)
    requires
        0 <= i <= cols.len(),
        forall|k: int| 0 <= k < i ==> #[trigger] cols[k].name != name,
        i < cols.len() ==> cols[i].name == name,
    ensures
        find_column(cols, name) == i,
    decreases i,
{
    if i > 0 {
        assert(cols[0].name != name);
        assert forall|k: int| 0 <= k < i - 1 implies #[trigger] cols.drop_first()[k].name != name by {
            assert(cols.drop_first()[k] == cols[k + 1]);
        }
        lemma_find_column(cols.drop_first(), name, i - 1);
    }
}

fn column_index(cols: &Vec<ColumnDef>, name: &String) -> (r: usize)
    ensures
        r == find_column(columns_view(cols@), name@),
        r <= cols@.len(),
{
    let ghost cv = columns_view(cols@);
    let mut j: usize = 0;
    while j < cols.len()
        invariant
            0 <= j <= cols@.len(),
            cv == columns_view(cols@),
            forall|k: int| 0 <= k < j ==> #[trigger] cv[k].name != name@,
        decreases cols@.len() - j,
    {
        if cols[j].name == *name {
            proof {
                lemma_find_column(cv, name@, j as int);
            }
            return j;
        }
        j = j + 1;
    }
    proof {
        lemma_find_column(cv, name@, j as int);
    }
    j
}

/// The stored bytes of one value of an inserted row, or why there are none:
/// the column must exist and a non-null value must have its type.
pub open spec fn cell_bytes(cols: Seq<ColumnView>, name: Seq<char>, e: ExprView) -> Result<Seq<u8>, EvalErr> {
    let j = find_column(cols, name);
    if j >= cols.len() {
        Err(EvalErr::ColumnNotFound(name))
    } else {
        match eval(e, Map::empty()) {
            Err(x) => Err(x),
            Ok(v) => match value_type(v) {
                Some(t) => if t != cols[j].data_type {
                    Err(EvalErr::TypeError(data_type_name(cols[j].data_type), data_type_name(t)))
                } else {
                    Ok(encode_value(v))
                },
                None => Ok(encode_value(v)),
            },
        }
    }
}

/// The stored bytes of the first `n` values of an inserted row. A column
/// with no value expression has no result.
pub open spec fn row_bytes(cols: Seq<ColumnView>, names: Seq<Seq<char>>, vals: Seq<ExprView>, n: nat) -> Result<Seq<u8>, EvalErr>
    decreases n,
{
    if n == 0 {
        Ok(Seq::empty())
    } else {
        match row_bytes(cols, names, vals, (n - 1) as nat) {
            Err(x) => Err(x),
            Ok(b) => if n - 1 >= vals.len() {
                Err(EvalErr::Fault)
            } else {
                match cell_bytes(cols, names[n - 1], vals[n - 1]) {
                    Err(x) => Err(x),
                    Ok(c) => Ok(b + c),
                }
            },
        }
    }
}

/// The columns an insert fills: those it names, or all of the table's.
pub open spec fn insert_names(schema: TableSchema, columns: Option<Vec<String>>) -> Seq<Seq<char>> {
    match columns {
        Some(c) => names_view(c@),
        None => columns_view(schema.columns@).map_values(|c: ColumnView| c.name),
    }
}

pub open spec fn stored_row(schema: TableSchema, columns: Option<Vec<String>>, values: Seq<Expr>) -> Result<Seq<u8>, EvalErr> {
    let names = insert_names(schema, columns);
    row_bytes(columns_view(schema.columns@), names, exprs_view(values), names.len())
}

/// The answer an evaluation gives, where it gives one.
pub enum Attempt<T> {
    Done(Result<T, SqlError>),
    Fault,
}

pub open spec fn bytes_attempt_is(a: Attempt<Vec<u8>>, s: Result<Seq<u8>, EvalErr>) -> bool {
    match a {
        Attempt::Done(r) => !(s matches Err(EvalErr::Fault)) && match s {
            Ok(b) => r matches Ok(v) && v@ == b,
            Err(x) => r matches Err(e) && error_is(e, x),
        },
        Attempt::Fault => s matches Err(EvalErr::Fault),
    }
}

pub open spec fn bytes_result_is(r: Result<Vec<u8>, SqlError>, s: Result<Seq<u8>, EvalErr>) -> bool {
    match s {
        Ok(b) => r matches Ok(v) && v@ == b,
        Err(x) => r matches Err(e) && error_is(e, x),
    }
}

proof fn lemma_row_bytes_err(cols: Seq<ColumnView>, names: Seq<Seq<char>>, vals: Seq<ExprView>, k: nat, n: nat)
    requires
        k <= n,
        row_bytes(cols, names, vals, k) is Err,
    ensures
        row_bytes(cols, names, vals, n) == row_bytes(cols, names, vals, k),
    decreases n,
{
    if n > k {
        lemma_row_bytes_err(cols, names, vals, k, (n - 1) as nat);
    }
}

fn insert_column_names(schema: &TableSchema, columns: &Option<Vec<String>>) -> (r: Vec<String>)
    ensures
        names_view(r@) == insert_names(*schema, *columns),
{
    match columns {
        Some(c) => crate::sql_types::copy_names(c),
        None => {
            let ghost all = columns_view(schema.columns@).map_values(|c: ColumnView| c.name);
            let mut r: Vec<String> = Vec::new();
            let mut i: usize = 0;
            while i < schema.columns.len()
                invariant
                    0 <= i <= schema.columns@.len(),
                    all == columns_view(schema.columns@).map_values(|c: ColumnView| c.name),
                    names_view(r@) == all.subrange(0, i as int),
                decreases schema.columns@.len() - i,
            {
                let name = schema.columns[i].name.clone();
                let ghost old_r = r@;
                r.push(name);
                i = i + 1;
                proof {
                    assert(names_view(r@) =~= names_view(old_r).push(name@));
                    assert(all.subrange(0, i as int) =~= all.subrange(0, i - 1).push(all[i - 1]));
                }
            }
            proof {
                assert(all.subrange(0, all.len() as int) =~= all);
            }
            r
        },
    }
}

fn serialize_row_attempt(schema: &TableSchema, columns: &Option<Vec<String>>, values: &Vec<Expr>) -> (r: Attempt<Vec<u8>>)
    ensures
        bytes_attempt_is(r, stored_row(*schema, *columns, values@)),
{
    let names = insert_column_names(schema, columns);
    let ghost cols = columns_view(schema.columns@);
    let ghost nv = names_view(names@);
    let ghost vals = exprs_view(values@);
    let mut row_data: Vec<u8> = Vec::new();
    let mut i: usize = 0;
    while i < names.len()
        invariant
            0 <= i <= names@.len(),
            cols == columns_view(schema.columns@),
            nv == names_view(names@),
            nv == insert_names(*schema, *columns),
            vals == exprs_view(values@),
            row_bytes(cols, nv, vals, i as nat) == Ok::<Seq<u8>, EvalErr>(row_data@),
        decreases names@.len() - i,
    {
        proof {
            if row_bytes(cols, nv, vals, (i + 1) as nat) is Err {
                lemma_row_bytes_err(cols, nv, vals, (i + 1) as nat, nv.len());
            }
        }
        if i >= values.len() {
            return Attempt::Fault;
        }
        let j = column_index(&schema.columns, &names[i]);
        if j >= schema.columns.len() {
            return Attempt::Done(Err(SqlError::ColumnNotFound(names[i].clone())));
        }
        let empty = Context::new();
        let value = match try_evaluate_expression(&values[i], &empty) {
            None => return Attempt::Fault,
            Some(Ok(v)) => v,
            Some(Err(e)) => return Attempt::Done(Err(e)),
        };
        match value.data_type() {
            Some(t) => {
                if t != schema.columns[j].data_type {
                    return Attempt::Done(Err(SqlError::TypeError {
                        expected: schema.columns[j].data_type.to_string(),
                        actual: t.to_string(),
                    }));
                }
            },
            None => {},
        }
        let bytes = value.to_bytes();
        push_slice(&mut row_data, bytes.as_slice());
        i = i + 1;
    }
    Attempt::Done(Ok(row_data))
}

/// The stored bytes of an inserted row: each filled column's value, in
/// order, type-checked against the schema. It is not run where a value's
/// arithmetic overflows or divides by zero, or a filled column has no value.
pub fn serialize_row(schema: &TableSchema, columns: &Option<Vec<String>>, values: Vec<Expr>) -> (r: Result<Vec<u8>, SqlError>)
    requires
        !(stored_row(*schema, *columns, values@) matches Err(EvalErr::Fault)),
    ensures
        bytes_result_is(r, stored_row(*schema, *columns, values@)),
{
    match serialize_row_attempt(schema, columns, &values) {
        Attempt::Done(r) => r,
        Attempt::Fault => Err(SqlError::Internal(String::from_str("unreachable"))),
    }
}

/// The stored bytes of an inserted row; `None` where computing them faults
/// (overflow, division by zero, a column without a value).
pub fn try_serialize_row(schema: &TableSchema, columns: &Option<Vec<String>>, values: Vec<Expr>) -> (r: Option<Result<Vec<u8>, SqlError>>)
    ensures
        r is None <==> stored_row(*schema, *columns, values@) matches Err(EvalErr::Fault),
        r matches Some(x) ==> bytes_result_is(x, stored_row(*schema, *columns, values@)),
{
    match serialize_row_attempt(schema, columns, &values) {
        Attempt::Done(r) => Some(r),
        Attempt::Fault => None,
    }
}

/// The position of the first occurrence of `x`; the length when there is none.
pub open spec fn first_index(names: Seq<Seq<char>>, x: Seq<char>) -> int
    decreases names.len(),
{
    if names.len() == 0 {
        0
    } else if names[0] == x {
        0
    } else {
        1 + first_index(names.drop_first(), x)
    }
}

proof fn lemma_first_index(names: Seq<Seq<char>>, x: Seq<char>, i: int)
    requires
        0 <= i <= names.len(),
        forall|k: int| 0 <= k < i ==> #[trigger] names[k] != x,
        i < names.len() ==> names[i] == x,
    ensures
        first_index(names, x) == i,
    decreases i,
{
    if i > 0 {
        assert(names[0] != x);
        assert forall|k: int| 0 <= k < i - 1 implies #[trigger] names.drop_first()[k] != x by {
            assert(names.drop_first()[k] == names[k + 1]);
        }
        lemma_first_index(names.drop_first(), x, i - 1);
    }
}

fn name_index(names: &Vec<String>, x: &String) -> (r: usize)
    ensures
        r == first_index(names_view(names@), x@),
        r <= names@.len(),
{
    let ghost nv = names_view(names@);
    let mut j: usize = 0;
    while j < names.len()
        invariant
            0 <= j <= names@.len(),
            nv == names_view(names@),
            forall|k: int| 0 <= k < j ==> #[trigger] nv[k] != x@,
        decreases names@.len() - j,
    {
        if names[j] == *x {
            proof {
                lemma_first_index(nv, x@, j as int);
            }
            return j;
        }
        j = j + 1;
    }
    proof {
        lemma_first_index(nv, x@, j as int);
    }
    j
}

pub open spec fn missing_key_message(pk: Seq<char>) -> Seq<char> {
    "Primary key column '"@ + pk + "' not provided"@
}

/// The stored bytes of one primary-key value of a row.
pub open spec fn key_part(names: Seq<Seq<char>>, vals: Seq<ExprView>, pk: Seq<char>) -> Result<Seq<u8>, EvalErr> {
    let idx = first_index(names, pk);
    if idx >= names.len() {
        Err(EvalErr::ColumnNotFound(pk))
    } else if idx >= vals.len() {
        Err(EvalErr::Execution(missing_key_message(pk)))
    } else {
        match eval(vals[idx], Map::empty()) {
            Err(x) => Err(x),
            Ok(v) => Ok(encode_value(v)),
        }
    }
}

/// The first `n` primary-key values of a row, each preceded by its length.
pub open spec fn key_bytes(names: Seq<Seq<char>>, vals: Seq<ExprView>, pks: Seq<Seq<char>>, n: nat) -> Result<Seq<u8>, EvalErr>
    decreases n,
{
    if n == 0 {
        Ok(Seq::empty())
    } else {
        match key_bytes(names, vals, pks, (n - 1) as nat) {
            Err(x) => Err(x),
            Ok(b) => match key_part(names, vals, pks[n - 1]) {
                Err(x) => Err(x),
                Ok(p) => Ok(b + spec_u32_to_le_bytes(p.len() as u32) + p),
            },
        }
    }
}

/// The stored bytes of the first `n` values of a row.
pub open spec fn values_bytes(vals: Seq<ExprView>, n: nat) -> Result<Seq<u8>, EvalErr>
    decreases n,
{
    if n == 0 {
        Ok(Seq::empty())
    } else {
        match values_bytes(vals, (n - 1) as nat) {
            Err(x) => Err(x),
            Ok(b) => match eval(vals[n - 1], Map::empty()) {
                Err(x) => Err(x),
                Ok(v) => Ok(b + encode_value(v)),
            },
        }
    }
}

/// The key a row is stored under.
pub open spec fn row_key(schema: TableSchema, columns: Option<Vec<String>>, values: Seq<Expr>) -> Result<Seq<u8>, EvalErr> {
    match schema.primary_key {
        Some(pk) => key_bytes(insert_names(schema, columns), exprs_view(values), names_view(pk@), pk@.len()),
        None => values_bytes(exprs_view(values), values.len()),
    }
}

proof fn lemma_key_bytes_err(names: Seq<Seq<char>>, vals: Seq<ExprView>, pks: Seq<Seq<char>>, k: nat, n: nat)
    requires
        k <= n,
        key_bytes(names, vals, pks, k) is Err,
    ensures
        key_bytes(names, vals, pks, n) == key_bytes(names, vals, pks, k),
    decreases n,
{
    if n > k {
        lemma_key_bytes_err(names, vals, pks, k, (n - 1) as nat);
    }
}

proof fn lemma_values_bytes_err(vals: Seq<ExprView>, k: nat, n: nat)
    requires
        k <= n,
        values_bytes(vals, k) is Err,
    ensures
        values_bytes(vals, n) == values_bytes(vals, k),
    decreases n,
{
    if n > k {
        lemma_values_bytes_err(vals, k, (n - 1) as nat);
    }
}

fn row_key_attempt(schema: &TableSchema, columns: &Option<Vec<String>>, values: &[Expr]) -> (r: Attempt<Vec<u8>>)
    ensures
        bytes_attempt_is(r, row_key(*schema, *columns, values@)),
{
    proof {
        reveal_strlit("Primary key column '");
        reveal_strlit("' not provided");
    }
    let ghost vals = exprs_view(values@);
    let empty = Context::new();
    match &schema.primary_key {
        Some(pk_cols) => {
            let names = insert_column_names(schema, columns);
            let ghost nv = names_view(names@);
            let ghost pks = names_view(pk_cols@);
            let mut key: Vec<u8> = Vec::new();
            let mut i: usize = 0;
            while i < pk_cols.len()
                invariant
                    0 <= i <= pk_cols@.len(),
                    nv == names_view(names@),
                    nv == insert_names(*schema, *columns),
                    pks == names_view(pk_cols@),
                    schema.primary_key == Some(*pk_cols),
                    vals == exprs_view(values@),
                    empty@ == Map::<Seq<char>, ValueView>::empty(),
                    key_bytes(nv, vals, pks, i as nat) == Ok::<Seq<u8>, EvalErr>(key@),
                decreases pk_cols@.len() - i,
            {
                proof {
                    if key_bytes(nv, vals, pks, (i + 1) as nat) is Err {
                        lemma_key_bytes_err(nv, vals, pks, (i + 1) as nat, pks.len());
                    }
                }
                let pk_col = &pk_cols[i];
                let idx = name_index(&names, pk_col);
                if idx >= names.len() {
                    return Attempt::Done(Err(SqlError::ColumnNotFound(pk_col.clone())));
                }
                if idx >= values.len() {
                    return Attempt::Done(Err(SqlError::ExecutionError(
                        String::from_str("Primary key column '").concat(pk_col.as_str()).concat("' not provided"),
                    )));
                }
                let value = match try_evaluate_expression(&values[idx], &empty) {
                    None => return Attempt::Fault,
                    Some(Ok(v)) => v,
                    Some(Err(e)) => return Attempt::Done(Err(e)),
                };
                let part = value.to_bytes();
                let mut len = u32_to_le_bytes(part.len() as u32);
                key.append(&mut len);
                push_slice(&mut key, part.as_slice());
                i = i + 1;
            }
            Attempt::Done(Ok(key))
        },
        None => {
            let mut row_data: Vec<u8> = Vec::new();
            let mut i: usize = 0;
            while i < values.len()
                invariant
                    0 <= i <= values@.len(),
                    schema.primary_key is None,
                    vals == exprs_view(values@),
                    empty@ == Map::<Seq<char>, ValueView>::empty(),
                    values_bytes(vals, i as nat) == Ok::<Seq<u8>, EvalErr>(row_data@),
                decreases values@.len() - i,
            {
                proof {
                    if values_bytes(vals, (i + 1) as nat) is Err {
                        lemma_values_bytes_err(vals, (i + 1) as nat, vals.len());
                    }
                }
                let value = match try_evaluate_expression(&values[i], &empty) {
                    None => return Attempt::Fault,
                    Some(Ok(v)) => v,
                    Some(Err(e)) => return Attempt::Done(Err(e)),
                };
                let bytes = value.to_bytes();
                push_slice(&mut row_data, bytes.as_slice());
                i = i + 1;
            }
            Attempt::Done(Ok(row_data))
        },
    }
}

/// The key an inserted row is stored under. It is not run where a value's
/// arithmetic overflows or divides by zero.
pub fn build_row_key(schema: &TableSchema, columns: &Option<Vec<String>>, values: &[Expr]) -> (r: Result<Vec<u8>, SqlError>)
    requires
        !(row_key(*schema, *columns, values@) matches Err(EvalErr::Fault)),
    ensures
        bytes_result_is(r, row_key(*schema, *columns, values@)),
{
    match row_key_attempt(schema, columns, values) {
        Attempt::Done(r) => r,
        Attempt::Fault => Err(SqlError::Internal(String::from_str("unreachable"))),
    }
}

/// The key an inserted row is stored under; `None` where a value's
/// arithmetic overflows or divides by zero.
pub fn try_build_row_key(schema: &TableSchema, columns: &Option<Vec<String>>, values: &[Expr]) -> (r: Option<Result<Vec<u8>, SqlError>>)
    ensures
        r is None <==> row_key(*schema, *columns, values@) matches Err(EvalErr::Fault),
        r matches Some(x) ==> bytes_result_is(x, row_key(*schema, *columns, values@)),
{
    match row_key_attempt(schema, columns, values) {
        Attempt::Done(r) => Some(r),
        Attempt::Fault => None,
    }
}

/// The rows a LIMIT and OFFSET keep: none past the end, otherwise from the
/// offset, at most `limit` of them.
pub open spec fn limited<T>(rows: Seq<T>, limit: usize, offset: usize) -> Seq<T> {
    if offset >= rows.len() {
        Seq::empty()
    } else {
        let end = if offset + limit < rows.len() { offset + limit } else { rows.len() as int };
        rows.subrange(offset as int, end)
    }
}

/// Applies LIMIT and OFFSET to rows. Where rows remain after the offset, the
/// offset plus the limit must fit in `usize`.
pub fn apply_limit(rows: Vec<Vec<Value>>, limit: usize, offset: usize) -> (r: Vec<Vec<Value>>)
    requires
        offset >= rows@.len() || offset + limit <= usize::MAX,
    ensures
        r@ == limited(rows@, limit, offset),
{
    let mut rows = rows;
    if offset >= rows.len() {
        rows.clear();
        return rows;
    }
    let end = if offset + limit < rows.len() { offset + limit } else { rows.len() };
    rows.truncate(end);
    let tail = rows.split_off(offset);
    tail
}

/// The values a scan keeps of a row: all of them where no columns are
/// named, otherwise the value of each named column the schema has, in the
/// order named; names the schema lacks are skipped.
pub open spec fn projected(row: Seq<ValueView>, cols: Seq<ColumnView>, names: Seq<Seq<char>>, n: nat) -> Seq<ValueView>
    decreases n,
{
    if n == 0 {
        Seq::empty()
    } else {
        let prev = projected(row, cols, names, (n - 1) as nat);
        let idx = find_column(cols, names[n - 1]);
        if idx < cols.len() {
            prev.push(row[idx])
        } else {
            prev
        }
    }
}

pub open spec fn project_spec(row: Seq<ValueView>, cols: Seq<ColumnView>, names: Seq<Seq<char>>) -> Seq<ValueView> {
    if names.len() == 0 {
        row
    } else {
        projected(row, cols, names, names.len())
    }
}

/// Every named column the schema has falls inside the row.
pub open spec fn projection_fits(row_len: nat, cols: Seq<ColumnView>, names: Seq<Seq<char>>) -> bool {
    forall|k: int| 0 <= k < names.len() && find_column(cols, #[trigger] names[k]) < cols.len() ==> find_column(
        cols,
        names[k],
    ) < row_len
}

/// The values a scan returns of a row.
pub fn project_row(row: &[Value], schema: &TableSchema, columns: &[String]) -> (r: Vec<Value>)
    requires
        columns@.len() > 0 ==> projection_fits(row@.len(), columns_view(schema.columns@), names_view(columns@)),
    ensures
        values_view(r@) == project_spec(values_view(row@), columns_view(schema.columns@), names_view(columns@)),
{
    let ghost rv = values_view(row@);
    let ghost cv = columns_view(schema.columns@);
    let ghost nv = names_view(columns@);
    let mut out: Vec<Value> = Vec::new();
    if columns.len() == 0 {
        let mut i: usize = 0;
        while i < row.len()
            invariant
                0 <= i <= row@.len(),
                rv == values_view(row@),
                values_view(out@) == rv.subrange(0, i as int),
            decreases row@.len() - i,
        {
            let v = row[i].copy();
            let ghost old_out = out@;
            out.push(v);
            i = i + 1;
            proof {
                assert(values_view(out@) =~= values_view(old_out).push(v@));
                assert(rv.subrange(0, i as int) =~= rv.subrange(0, i - 1).push(rv[i - 1]));
            }
        }
        proof {
            assert(rv.subrange(0, rv.len() as int) =~= rv);
        }
        return out;
    }
    let mut k: usize = 0;
    while k < columns.len()
        invariant
            0 <= k <= columns@.len(),
            columns@.len() > 0,
            rv == values_view(row@),
            cv == columns_view(schema.columns@),
            nv == names_view(columns@),
            projection_fits(row@.len(), cv, nv),
            values_view(out@) == projected(rv, cv, nv, k as nat),
        decreases columns@.len() - k,
    {
        let idx = column_index(&schema.columns, &columns[k]);
        if idx < schema.columns.len() {
            proof {
                assert(nv[k as int] == columns@[k as int]@);
                assert(find_column(cv, nv[k as int]) < cv.len());
            }
            let v = row[idx].copy();
            let ghost old_out = out@;
            out.push(v);
            proof {
                assert(values_view(out@) =~= values_view(old_out).push(v@));
            }
        }
        k = k + 1;
    }
    out
}

/// The rows a WHERE filter keeps: those on which the predicate is true; a
/// predicate that fails on a row drops that row.
pub open spec fn kept_rows(rows: Seq<Seq<ValueView>>, cols: Seq<Seq<char>>, pred: ExprView, n: nat) -> Seq<Seq<ValueView>>
    decreases n,
{
    if n == 0 {
        Seq::empty()
    } else {
        let prev = kept_rows(rows, cols, pred, (n - 1) as nat);
        match eval(pred, filter_ctx(rows[n - 1], cols)) {
            Ok(v) => if value_truth(v) {
                prev.push(rows[n - 1])
            } else {
                prev
            },
            Err(_) => prev,
        }
    }
}

pub open spec fn rows_view(rows: Seq<Vec<Value>>) -> Seq<Seq<ValueView>> {
    rows.map_values(|r: Vec<Value>| values_view(r@))
}

/// The predicate gives a result or an error on every row.
pub open spec fn filter_total(rows: Seq<Seq<ValueView>>, cols: Seq<Seq<char>>, pred: ExprView) -> bool {
    forall|i: int| 0 <= i < rows.len() ==> !(#[trigger] eval(pred, filter_ctx(rows[i], cols)) matches Err(EvalErr::Fault))
}

/// Keeps the rows a WHERE predicate holds on. It is not run where the
/// predicate's arithmetic overflows or divides by zero on some row.
pub fn filter_rows(rows: Vec<Vec<Value>>, columns: &[String], predicate: &Expr) -> (r: Vec<Vec<Value>>)
    requires
        filter_total(rows_view(rows@), names_view(columns@), expr_view(*predicate)),
    ensures
        rows_view(r@) == kept_rows(rows_view(rows@), names_view(columns@), expr_view(*predicate), rows@.len()),
{
    let ghost all = rows_view(rows@);
    let ghost cv = names_view(columns@);
    let ghost pv = expr_view(*predicate);
    let ghost src = rows@;
    let mut out: Vec<Vec<Value>> = Vec::new();
    for row in it: rows.into_iter()
        invariant
            it.seq() == src,
            all == rows_view(src),
            cv == names_view(columns@),
            pv == expr_view(*predicate),
            filter_total(all, cv, pv),
            rows_view(out@) == kept_rows(all, cv, pv, it.index() as nat),
    {
        let ghost k = it.index() as int;
        proof {
            assert(all[k] == values_view(row@));
            assert(!(eval(pv, filter_ctx(all[k], cv)) matches Err(EvalErr::Fault)));
        }
        let keep = match evaluate_filter(row.as_slice(), columns, predicate) {
            Ok(b) => b,
            Err(_) => false,
        };
        if keep {
            let ghost old_out = out@;
            out.push(row);
            proof {
                assert(rows_view(out@) =~= rows_view(old_out).push(all[k]));
            }
        }
    }
    out
}

/// A WHERE condition holds of a value when it is true, a non-zero integer
/// or a non-empty text. NULL never holds.
pub open spec fn condition_holds(v: ValueView) -> bool {
    match v {
        ValueView::Boolean(b) => b,
        ValueView::Integer(i) => i != 0,
        ValueView::Text(s) => s.len() > 0,
        ValueView::Null => false,
    }
}

/// A row passes a WHERE predicate when the predicate evaluates on it to a
/// value of which the condition holds.
pub open spec fn where_passes(pred: ExprView, cols: Seq<Seq<char>>) -> spec_fn(Seq<ValueView>) -> bool {
    |row: Seq<ValueView>| eval(pred, filter_ctx(row, cols)) matches Ok(v) && condition_holds(v)
}

proof fn lemma_kept_rows_prefix(rows: Seq<Seq<ValueView>>, cols: Seq<Seq<char>>, pred: ExprView, n: nat)
    requires
        n <= rows.len(),
    ensures
        kept_rows(rows, cols, pred, n) == rows.take(n as int).filter(where_passes(pred, cols)),
    decreases n,
{
    reveal(Seq::filter);
    if n == 0 {
        assert(rows.take(0) =~= Seq::<Seq<ValueView>>::empty());
    } else {
        lemma_kept_rows_prefix(rows, cols, pred, (n - 1) as nat);
        let t = rows.take(n as int);
        assert(t.drop_last() =~= rows.take(n - 1));
        assert(t.last() == rows[n - 1]);
    }
}

/// The rows a WHERE filter keeps are exactly, and in their order, the rows
/// on which the predicate evaluates to a value of which the condition holds:
/// a row on which the predicate is NULL or fails is never kept.
pub proof fn lemma_filter_keeps_rows_where_condition_holds(rows: Seq<Seq<ValueView>>, cols: Seq<Seq<char>>, pred: ExprView)
    ensures
        kept_rows(rows, cols, pred, rows.len()) == rows.filter(where_passes(pred, cols)),
        forall|i: int| 0 <= i < kept_rows(rows, cols, pred, rows.len()).len() ==> (eval(
            pred,
            filter_ctx(#[trigger] kept_rows(rows, cols, pred, rows.len())[i], cols),
        ) matches Ok(v) && !(v is Null) && condition_holds(v)),
        forall|i: int| 0 <= i < rows.len() && #[trigger] where_passes(pred, cols)(rows[i])
            ==> kept_rows(rows, cols, pred, rows.len()).contains(rows[i]),
{
    broadcast use vstd::seq_lib::group_filter_ensures;
    lemma_kept_rows_prefix(rows, cols, pred, rows.len());
    assert(rows.take(rows.len() as int) =~= rows);
    let k = kept_rows(rows, cols, pred, rows.len());
    assert forall|i: int| 0 <= i < k.len() implies (eval(pred, filter_ctx(#[trigger] k[i], cols)) matches Ok(v) && !(
    v is Null) && condition_holds(v)) by {
        assert(where_passes(pred, cols)(k[i]));
    }
}

/// The stored bytes of a row: its values' stored bytes one after another.
pub open spec fn encode_row(vs: Seq<ValueView>) -> Seq<u8>
    decreases vs.len(),
{
    if vs.len() == 0 {
        Seq::empty()
    } else {
        encode_value(vs[0]) + encode_row(vs.drop_first())
    }
}

/// Every text among the values has a length that its 4-byte prefix can hold.
pub open spec fn texts_fit(vs: Seq<ValueView>) -> bool {
    forall|i: int| 0 <= i < vs.len() ==> (#[trigger] vs[i] matches ValueView::Text(t) ==> encode_utf8(t).len() <= u32::MAX)
}

proof fn lemma_encode_row_push(vs: Seq<ValueView>, v: ValueView)
    ensures
        encode_row(vs.push(v)) == encode_row(vs) + encode_value(v),
    decreases vs.len(),
{
    if vs.len() == 0 {
        assert(vs.push(v).drop_first() =~= Seq::<ValueView>::empty());
        assert(vs.push(v)[0] == v);
        assert(encode_row(Seq::<ValueView>::empty()) == Seq::<u8>::empty());
        assert(encode_row(vs.push(v)) == encode_value(v) + encode_row(vs.push(v).drop_first()));
        assert(encode_row(vs.push(v)) =~= encode_row(vs) + encode_value(v));
    } else {
        assert(vs.push(v).drop_first() =~= vs.drop_first().push(v));
        lemma_encode_row_push(vs.drop_first(), v);
        assert(encode_row(vs.push(v)) =~= encode_row(vs) + encode_value(v));
    }
}

proof fn lemma_decode_encoded_row(p: Seq<u8>, c: int, vs: Seq<ValueView>)
    requires
        0 <= c,
        c + encode_row(vs).len() <= p.len(),
        p.subrange(c, c + encode_row(vs).len()) == encode_row(vs),
        texts_fit(vs),
    ensures
        decode_row(p, c, vs.len()) == Ok::<Seq<ValueView>, Seq<char>>(vs),
    decreases vs.len(),
{
    if vs.len() > 0 {
        lemma_auto_spec_u64_to_from_le_bytes();
        lemma_auto_spec_u32_to_from_le_bytes();
        let v = vs[0];
        let e = encode_value(v);
        assert(e.len() >= 1);
        let rest = vs.drop_first();
        let re = encode_row(rest);
        let c2 = c + e.len();
        assert(encode_row(vs) == e + re);
        assert forall|k: int| 0 <= k < e.len() implies p[c + k] == #[trigger] e[k] by {
            assert(p.subrange(c, c + encode_row(vs).len())[k] == p[c + k]);
            assert((e + re)[k] == e[k]);
        }
        assert(p.subrange(c2, c2 + re.len()) =~= re) by {
            assert forall|k: int| 0 <= k < re.len() implies #[trigger] p.subrange(c2, c2 + re.len())[k] == re[k] by {
                assert(p.subrange(c, c + encode_row(vs).len())[e.len() + k] == p[c2 + k]);
                assert((e + re)[e.len() + k] == re[k]);
            }
        }
        assert(texts_fit(rest)) by {
            assert forall|i: int| 0 <= i < rest.len() implies (#[trigger] rest[i] matches ValueView::Text(t) ==> encode_utf8(t).len() <= u32::MAX) by {
                assert(rest[i] == vs[i + 1]);
            }
        }
        assert(vs[0] == v);
        lemma_decode_encoded_row(p, c2, rest);
        lemma_auto_spec_u64_to_from_le_bytes();
        lemma_auto_spec_u32_to_from_le_bytes();
        assert(p[c] == e[0]);
        match v {
            ValueView::Integer(i) => {
                assert(p.subrange(c + 1, c + 9) =~= spec_u64_to_le_bytes(i as u64)) by {
                    assert forall|k: int| 0 <= k < 8 implies #[trigger] p.subrange(c + 1, c + 9)[k] == spec_u64_to_le_bytes(i as u64)[k] by {
                        assert(p[c + 1 + k] == e[1 + k]);
                    }
                }
                assert((i as u64) as i64 == i) by (bit_vector);
            },
            ValueView::Text(t) => {
                let b = encode_utf8(t);
                assert(p.subrange(c + 1, c + 5) =~= spec_u32_to_le_bytes(b.len() as u32)) by {
                    assert forall|k: int| 0 <= k < 4 implies #[trigger] p.subrange(c + 1, c + 5)[k] == spec_u32_to_le_bytes(b.len() as u32)[k] by {
                        assert(p[c + 1 + k] == e[1 + k]);
                    }
                }
                assert(le32_at(p, c + 1) == b.len());
                assert(p.subrange(c + 5, c + 5 + b.len()) =~= b) by {
                    assert forall|k: int| 0 <= k < b.len() implies #[trigger] p.subrange(c + 5, c + 5 + b.len())[k] == b[k] by {
                        assert(p[c + 5 + k] == e[5 + k]);
                    }
                }
                assert(vs[0] matches ValueView::Text(t0) && t0 == t);
                vstd::utf8::encode_utf8_valid_utf8(t);
                vstd::utf8::encode_utf8_decode_utf8(t);
            },
            ValueView::Boolean(x) => {
                assert(p[c + 1] == e[1]);
            },
            ValueView::Null => {},
        }
        assert(((vs.len() - 1) as nat) == rest.len());
        assert(decode_row(p, c, vs.len()) == cons_value(v, decode_row(p, c2, rest.len())));
        assert(seq![v] + rest =~= vs);
    } else {
        assert(vs =~= Seq::<ValueView>::empty());
    }
}

proof fn lemma_literal_row_bytes(cols: Seq<ColumnView>, names: Seq<Seq<char>>, vals: Seq<ExprView>, vs: Seq<ValueView>, n: nat)
    requires
        n <= vs.len(),
        vals.len() == vs.len(),
        forall|i: int| 0 <= i < vals.len() ==> #[trigger] vals[i] == ExprView::Literal(vs[i]),
        row_bytes(cols, names, vals, n) is Ok,
    ensures
        row_bytes(cols, names, vals, n) == Ok::<Seq<u8>, EvalErr>(encode_row(vs.take(n as int))),
    decreases n,
{
    if n == 0 {
        assert(vs.take(0) =~= Seq::<ValueView>::empty());
    } else {
        lemma_literal_row_bytes(cols, names, vals, vs, (n - 1) as nat);
        assert(vals[n - 1] == ExprView::Literal(vs[n - 1]));
        assert(vs.take(n as int) =~= vs.take(n - 1).push(vs[n - 1]));
        lemma_encode_row_push(vs.take(n - 1), vs[n - 1]);
    }
}

/// A row inserted with a literal for each column of its table, in order,
/// reads back as those values: `deserialize_row` gives back what
/// `serialize_row` stored.
pub proof fn lemma_stored_row_reads_back(schema: TableSchema, values: Seq<Expr>, vs: Seq<ValueView>, b: Seq<u8>)
    requires
        values.len() == schema.columns@.len(),
        vs.len() == values.len(),
        forall|i: int| 0 <= i < values.len() ==> expr_view(#[trigger] values[i]) == ExprView::Literal(vs[i]),
        texts_fit(vs),
        stored_row(schema, None, values) == Ok::<Seq<u8>, EvalErr>(b),
    ensures
        decode_row(b, 0, schema.columns@.len()) == Ok::<Seq<ValueView>, Seq<char>>(vs),
{
    let cols = columns_view(schema.columns@);
    let names = insert_names(schema, None);
    let vals = exprs_view(values);
    assert(names.len() == vs.len());
    assert forall|i: int| 0 <= i < vals.len() implies #[trigger] vals[i] == ExprView::Literal(vs[i]) by {
        assert(vals[i] == expr_view(values[i]));
    }
    lemma_literal_row_bytes(cols, names, vals, vs, vs.len());
    assert(vs.take(vs.len() as int) =~= vs);
    assert(b.subrange(0, b.len() as int) =~= b);
    lemma_decode_encoded_row(b, 0, vs);
}

} // verus!
