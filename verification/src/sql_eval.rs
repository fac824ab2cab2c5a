//! Evaluation of SQL expressions against the values of a row.
//!
//! Comparisons with a null give null; values of different types do not
//! compare; arithmetic is on integers only; `LIKE` turns `%` into `.*` and
//! `_` into `.` and matches the whole text with a regular expression.
//! Integer arithmetic that leaves the 64-bit range, and division by zero,
//! have no result: the evaluator is not run on them.

use vstd::prelude::*;
use vstd::string::*;
use crate::sql_types::{Value, ValueView, DataType, value_order, value_type, data_type_name};
use crate::sql_ast::{Expr, ExprView, BinaryOperator, UnaryOperator, expr_view};
use crate::sql_error::SqlError;
use crate::assoc::{assoc_map, lemma_assoc_last, lemma_assoc_absent};
use crate::text::push_char;

verus! {

/// Column values by name; a later entry for a name hides an earlier one.
pub struct Context {
    entries: Vec<(String, Value)>,
}

pub open spec fn ctx_key() -> spec_fn((String, Value)) -> Seq<char> {
    |e: (String, Value)| e.0@
}

pub open spec fn ctx_val() -> spec_fn((String, Value)) -> ValueView {
    |e: (String, Value)| e.1@
}

impl View for Context {
    type V = Map<Seq<char>, ValueView>;

    closed spec fn view(&self) -> Map<Seq<char>, ValueView> {
        assoc_map(self.entries@, ctx_key(), ctx_val())
    }
}

impl Context {
    pub fn new() -> (r: Context)
        ensures
            r@ == Map::<Seq<char>, ValueView>::empty(),
    {
        Context { entries: Vec::new() }
    }

    /// Sets the value of a column.
    pub fn insert(&mut self, name: String, value: Value)
        ensures
            final(self)@ == old(self)@.insert(name@, value@),
    {
        self.entries.push((name, value));
        proof {
            assert(self.entries@.drop_last() =~= old(self).entries@);
        }
    }

    /// The value of a column.
    pub fn get(&self, name: &String) -> (r: Option<&Value>)
        ensures
            r matches Some(v) ==> self@.contains_key(name@) && self@[name@] == v@,
            r is None ==> !self@.contains_key(name@),
    {
        let mut i: usize = self.entries.len();
        while i > 0
            invariant
                0 <= i <= self.entries@.len(),
                forall|j: int| i <= j < self.entries@.len() ==> #[trigger] self.entries@[j].0@ != name@,
            decreases i,
        {
            if self.entries[i - 1].0 == *name {
                proof {
                    lemma_assoc_last(self.entries@, ctx_key(), ctx_val(), i - 1);
                }
                return Some(&self.entries[i - 1].1);
            }
            i = i - 1;
        }
        proof {
            assert forall|j: int| 0 <= j < self.entries@.len() implies ctx_key()(#[trigger] self.entries@[j]) != name@ by {
            }
            lemma_assoc_absent(self.entries@, ctx_key(), ctx_val(), name@);
        }
        None
    }
}

/// Why an evaluation has no value.
pub ghost enum EvalErr {
    ColumnNotFound(Seq<char>),
    TypeError(Seq<char>, Seq<char>),
    Execution(Seq<char>),
    /// Integer overflow or division by zero: no result.
    Fault,
}

/// The truth of a value: booleans as they are, null false, integers when
/// non-zero, texts when non-empty.
pub open spec fn value_truth(v: ValueView) -> bool {
    match v {
        ValueView::Boolean(b) => b,
        ValueView::Null => false,
        ValueView::Integer(i) => i != 0,
        ValueView::Text(s) => s.len() != 0,
    }
}

/// How an optional type is printed for debugging.
pub open spec fn debug_type(t: Option<DataType>) -> Seq<char> {
    match t {
        None => "None"@,
        Some(DataType::Integer) => "Some(Integer)"@,
        Some(DataType::Text) => "Some(Text)"@,
        Some(DataType::Boolean) => "Some(Boolean)"@,
    }
}

pub open spec fn type_pair(l: ValueView, r: ValueView) -> Seq<char> {
    debug_type(value_type(l)) + " and "@ + debug_type(value_type(r))
}

pub open spec fn same_type(l: ValueView, r: ValueView) -> bool {
    ||| (l is Integer && r is Integer)
    ||| (l is Text && r is Text)
    ||| (l is Boolean && r is Boolean)
}

pub open spec fn is_comparison(op: BinaryOperator) -> bool {
    op == BinaryOperator::Lt || op == BinaryOperator::LtEq || op == BinaryOperator::Gt || op == BinaryOperator::GtEq
}

pub open spec fn is_arithmetic(op: BinaryOperator) -> bool {
    op == BinaryOperator::Add || op == BinaryOperator::Sub || op == BinaryOperator::Mul || op == BinaryOperator::Div
}

/// Whether `l op r` holds for a comparison operator.
pub open spec fn order_holds(op: BinaryOperator, l: ValueView, r: ValueView) -> bool {
    let o = value_order(l, r);
    match op {
        BinaryOperator::Lt => o == Some(core::cmp::Ordering::Less),
        BinaryOperator::LtEq => o is Some && o != Some(core::cmp::Ordering::Greater),
        BinaryOperator::Gt => o == Some(core::cmp::Ordering::Greater),
        BinaryOperator::GtEq => o is Some && o != Some(core::cmp::Ordering::Less),
        _ => false,
    }
}

/// A comparison: null with a null operand, a boolean for operands of one
/// type, a type error otherwise.
pub open spec fn compare_spec(op: BinaryOperator, l: ValueView, r: ValueView) -> Result<ValueView, EvalErr> {
    if l is Null || r is Null {
        Ok(ValueView::Null)
    } else if same_type(l, r) {
        Ok(ValueView::Boolean(order_holds(op, l, r)))
    } else {
        Err(EvalErr::TypeError("Values of comparable types"@, type_pair(l, r)))
    }
}

pub open spec fn abs(a: int) -> int {
    if a < 0 {
        -a
    } else {
        a
    }
}

/// Integer division rounding toward zero.
pub open spec fn trunc_div(a: int, b: int) -> int {
    let q = abs(a) / abs(b);
    if (a < 0) != (b < 0) {
        -q
    } else {
        q
    }
}

/// Integer arithmetic; no result outside the 64-bit range or for a zero divisor.
pub open spec fn int_arith(op: BinaryOperator, a: i64, b: i64) -> Result<ValueView, EvalErr> {
    let x: int = if op == BinaryOperator::Add {
        a + b
    } else if op == BinaryOperator::Sub {
        a - b
    } else if op == BinaryOperator::Mul {
        a * b
    } else if b == 0 {
        0
    } else {
        trunc_div(a as int, b as int)
    };
    if op == BinaryOperator::Div && b == 0 {
        Err(EvalErr::Fault)
    } else if x < i64::MIN || x > i64::MAX {
        Err(EvalErr::Fault)
    } else {
        Ok(ValueView::Integer(x as i64))
    }
}

pub open spec fn arith_spec(op: BinaryOperator, l: ValueView, r: ValueView) -> Result<ValueView, EvalErr> {
    match (l, r) {
        (ValueView::Integer(a), ValueView::Integer(b)) => int_arith(op, a, b),
        _ => Err(EvalErr::TypeError("INTEGER"@, type_pair(l, r))),
    }
}

/// The regular expression a `LIKE` pattern stands for, without anchors.
pub open spec fn like_pattern(p: Seq<char>) -> Seq<char>
    decreases p.len(),
{
    if p.len() == 0 {
        Seq::empty()
    } else if p.last() == '%' {
        like_pattern(p.drop_last()) + seq!['.', '*']
    } else if p.last() == '_' {
        like_pattern(p.drop_last()).push('.')
    } else {
        like_pattern(p.drop_last()).push(p.last())
    }
}

pub open spec fn like_regex(p: Seq<char>) -> Seq<char> {
    seq!['^'] + like_pattern(p) + seq!['$']
}

/// What `regex::Regex::new` reports for a pattern: `None` where it builds a
/// regular expression, the text of its error where it does not.
pub uninterp spec fn regex_new_error(pattern: Seq<char>) -> Option<Seq<char>>;

/// What `Regex::is_match` answers for a regular expression built from
/// `pattern` and the text `t`.
pub uninterp spec fn regex_is_match(pattern: Seq<char>, t: Seq<char>) -> bool;

/// `regex::Regex::new(pattern)`, then `is_match(text)` on the result. Both
/// depend on their arguments alone; what they give is named, not stated.
#[verifier::external_body]
fn regex_match(pattern: &str, text: &str) -> (r: Result<bool, String>)
    ensures
        r is Ok <==> regex_new_error(pattern@) is None,
        r matches Ok(b) ==> b == regex_is_match(pattern@, text@),
        r matches Err(m) ==> regex_new_error(pattern@) == Some(m@),
{
    match regex::Regex::new(pattern) {
        Ok(re) => Ok(re.is_match(text)),
        Err(e) => Err(format!("{}", e)),
    }
}

pub open spec fn like_spec(l: ValueView, r: ValueView) -> Result<ValueView, EvalErr> {
    match (l, r) {
        (ValueView::Text(t), ValueView::Text(p)) => match regex_new_error(like_regex(p)) {
            Some(m) => Err(EvalErr::Execution("Invalid LIKE pattern: "@ + m)),
            None => Ok(ValueView::Boolean(regex_is_match(like_regex(p), t))),
        },
        _ => Err(EvalErr::TypeError("TEXT"@, type_pair(l, r))),
    }
}

pub open spec fn binary_spec(op: BinaryOperator, l: ValueView, r: ValueView) -> Result<ValueView, EvalErr> {
    if op == BinaryOperator::Eq {
        Ok(ValueView::Boolean(l == r))
    } else if op == BinaryOperator::Neq {
        Ok(ValueView::Boolean(l != r))
    } else if is_comparison(op) {
        compare_spec(op, l, r)
    } else if op == BinaryOperator::And {
        Ok(ValueView::Boolean(value_truth(l) && value_truth(r)))
    } else if op == BinaryOperator::Or {
        Ok(ValueView::Boolean(value_truth(l) || value_truth(r)))
    } else if is_arithmetic(op) {
        arith_spec(op, l, r)
    } else {
        like_spec(l, r)
    }
}

/// The name of a value's type, `NULL` for null.
pub open spec fn type_name_or_null(v: ValueView) -> Seq<char> {
    match value_type(v) {
        Some(t) => data_type_name(t),
        None => "NULL"@,
    }
}

pub open spec fn unary_spec(op: UnaryOperator, v: ValueView) -> Result<ValueView, EvalErr> {
    match op {
        UnaryOperator::Not => Ok(ValueView::Boolean(!value_truth(v))),
        UnaryOperator::Neg => match v {
            ValueView::Integer(i) => if i == i64::MIN {
                Err(EvalErr::Fault)
            } else {
                Ok(ValueView::Integer((-i) as i64))
            },
            _ => Err(EvalErr::TypeError("INTEGER"@, type_name_or_null(v))),
        },
    }
}

/// The value of an expression over the column values `ctx`. Operands are
/// evaluated left to right and the first failure is the result.
pub open spec fn eval(e: ExprView, ctx: Map<Seq<char>, ValueView>) -> Result<ValueView, EvalErr>
    decreases e,
{
    match e {
        ExprView::Literal(v) => Ok(v),
        ExprView::ColumnRef(n) => if ctx.contains_key(n) {
            Ok(ctx[n])
        } else {
            Err(EvalErr::ColumnNotFound(n))
        },
        ExprView::BinaryExpr { left, op, right } => match eval(*left, ctx) {
            Err(x) => Err(x),
            Ok(l) => match eval(*right, ctx) {
                Err(x) => Err(x),
                Ok(r) => binary_spec(op, l, r),
            },
        },
        ExprView::UnaryExpr { op, expr } => match eval(*expr, ctx) {
            Err(x) => Err(x),
            Ok(v) => unary_spec(op, v),
        },
        ExprView::IsNull(x) => match eval(*x, ctx) {
            Err(x) => Err(x),
            Ok(v) => Ok(ValueView::Boolean(v is Null)),
        },
        ExprView::IsNotNull(x) => match eval(*x, ctx) {
            Err(x) => Err(x),
            Ok(v) => Ok(ValueView::Boolean(!(v is Null))),
        },
        ExprView::Between { expr, low, high } => match eval(*expr, ctx) {
            Err(x) => Err(x),
            Ok(v) => match eval(*low, ctx) {
                Err(x) => Err(x),
                Ok(lo) => match eval(*high, ctx) {
                    Err(x) => Err(x),
                    Ok(hi) => match compare_spec(BinaryOperator::GtEq, v, lo) {
                        Err(x) => Err(x),
                        Ok(ge) => match compare_spec(BinaryOperator::LtEq, v, hi) {
                            Err(x) => Err(x),
                            Ok(le) => Ok(ValueView::Boolean(value_truth(ge) && value_truth(le))),
                        },
                    },
                },
            },
        },
        _ => Err(EvalErr::Execution("Expression not supported"@)),
    }
}

/// `x BETWEEN lo AND hi` over integers, written as the parser gives it.
pub open spec fn integer_between(x: i64, lo: i64, hi: i64) -> ExprView {
    ExprView::Between {
        expr: Box::new(ExprView::Literal(ValueView::Integer(x))),
        low: Box::new(ExprView::Literal(ValueView::Integer(lo))),
        high: Box::new(ExprView::Literal(ValueView::Integer(hi))),
    }
}

/// BETWEEN includes both bounds: for integers, `x BETWEEN lo AND hi` is
/// true exactly when `lo <= x` and `x <= hi`, on any row.
pub proof fn lemma_between_is_inclusive(x: i64, lo: i64, hi: i64, ctx: Map<Seq<char>, ValueView>)
    ensures
        eval(integer_between(x, lo, hi), ctx) == Ok::<ValueView, EvalErr>(ValueView::Boolean(lo <= x && x <= hi)),
{
    assert(eval(ExprView::Literal(ValueView::Integer(x)), ctx) == Ok::<ValueView, EvalErr>(ValueView::Integer(x)));
    assert(eval(ExprView::Literal(ValueView::Integer(lo)), ctx) == Ok::<ValueView, EvalErr>(ValueView::Integer(lo)));
    assert(eval(ExprView::Literal(ValueView::Integer(hi)), ctx) == Ok::<ValueView, EvalErr>(ValueView::Integer(hi)));
}

/// A BETWEEN with a NULL operand is false, not true and not NULL.
pub proof fn lemma_between_with_null_is_false(v: ValueView, lo: ValueView, hi: ValueView, ctx: Map<Seq<char>, ValueView>)
    requires
        v is Null || lo is Null || hi is Null,
        v is Null || lo is Null || same_type(v, lo),
        v is Null || hi is Null || same_type(v, hi),
    ensures
        eval(
            ExprView::Between {
                expr: Box::new(ExprView::Literal(v)),
                low: Box::new(ExprView::Literal(lo)),
                high: Box::new(ExprView::Literal(hi)),
            },
            ctx,
        ) == Ok::<ValueView, EvalErr>(ValueView::Boolean(false)),
{
    assert(eval(ExprView::Literal(v), ctx) == Ok::<ValueView, EvalErr>(v));
    assert(eval(ExprView::Literal(lo), ctx) == Ok::<ValueView, EvalErr>(lo));
    assert(eval(ExprView::Literal(hi), ctx) == Ok::<ValueView, EvalErr>(hi));
}

/// The error an evaluation failure is reported as.
pub open spec fn error_is(e: SqlError, x: EvalErr) -> bool {
    match x {
        EvalErr::ColumnNotFound(n) => e matches SqlError::ColumnNotFound(m) && m@ == n,
        EvalErr::TypeError(a, b) => e matches SqlError::TypeError { expected, actual } && expected@ == a
            && actual@ == b,
        EvalErr::Execution(m) => e matches SqlError::ExecutionError(t) && t@ == m,
        EvalErr::Fault => false,
    }
}

pub open spec fn result_is(r: Result<Value, SqlError>, s: Result<ValueView, EvalErr>) -> bool {
    match s {
        Ok(v) => r matches Ok(x) && x@ == v,
        Err(x) => r matches Err(e) && error_is(e, x),
    }
}

/// An evaluation that did not give a value or an error.
pub enum Outcome {
    Done(Result<Value, SqlError>),
    /// Overflow or division by zero.
    Fault,
}

pub open spec fn outcome_is(o: Outcome, s: Result<ValueView, EvalErr>) -> bool {
    match o {
        Outcome::Done(r) => !(s matches Err(EvalErr::Fault)) && result_is(r, s),
        Outcome::Fault => s matches Err(EvalErr::Fault),
    }
}

/// The truth of a value (never an error).
pub fn value_to_bool(value: &Value) -> (r: Result<bool, SqlError>)
    ensures
        r matches Ok(b) && b == value_truth(value@),
{
    match value {
        Value::Boolean(b) => Ok(*b),
        Value::Null => Ok(false),
        Value::Integer(i) => Ok(*i != 0),
        Value::Text(s) => Ok(s.as_str().unicode_len() != 0),
    }
}

fn debug_type_string(t: Option<DataType>) -> (r: String)
    ensures
        r@ == debug_type(t),
{
    proof {
        reveal_strlit("None");
        reveal_strlit("Some(Integer)");
        reveal_strlit("Some(Text)");
        reveal_strlit("Some(Boolean)");
    }
    match t {
        None => String::from_str("None"),
        Some(DataType::Integer) => String::from_str("Some(Integer)"),
        Some(DataType::Text) => String::from_str("Some(Text)"),
        Some(DataType::Boolean) => String::from_str("Some(Boolean)"),
    }
}

fn type_pair_string(l: &Value, r: &Value) -> (s: String)
    ensures
        s@ == type_pair(l@, r@),
{
    proof {
        reveal_strlit(" and ");
    }
    let a = debug_type_string(l.data_type());
    let b = debug_type_string(r.data_type());
    a.concat(" and ").concat(b.as_str())
}

fn type_error(expected: &str, l: &Value, r: &Value) -> (e: SqlError)
    ensures
        e matches SqlError::TypeError { expected: x, actual } && x@ == expected@ && actual@ == type_pair(l@, r@),
{
    SqlError::TypeError { expected: String::from_str(expected), actual: type_pair_string(l, r) }
}

/// Compares two values with a comparison operator: null where either is
/// null, a boolean where both have one type, a type error otherwise.
pub fn compare_values(left: &Value, right: &Value, op: BinaryOperator) -> (r: Result<Value, SqlError>)
    requires
        is_comparison(op),
    ensures
        result_is(r, compare_spec(op, left@, right@)),
{
    proof {
        reveal_strlit("Values of comparable types");
    }
    match (left, right) {
        (Value::Null, _) => Ok(Value::Null),
        (_, Value::Null) => Ok(Value::Null),
        (Value::Integer(_), Value::Integer(_)) | (Value::Text(_), Value::Text(_)) | (
            Value::Boolean(_),
            Value::Boolean(_),
        ) => {
            let holds = match op {
                BinaryOperator::Lt => left.lt(right),
                BinaryOperator::LtEq => left.le(right),
                BinaryOperator::Gt => left.gt(right),
                _ => left.ge(right),
            };
            Ok(Value::Boolean(holds))
        },
        _ => Err(type_error("Values of comparable types", left, right)),
    }
}

/// Integer arithmetic on 64-bit values; `None` where the result leaves the
/// range or the divisor is zero.
fn int_op(op: BinaryOperator, a: i64, b: i64) -> (r: Option<i64>)
    requires
        is_arithmetic(op),
    ensures
        int_arith(op, a, b) matches Ok(v) ==> r == Some(v->Integer_0),
        int_arith(op, a, b) is Err ==> r is None,
{
    let x = a as i128;
    let y = b as i128;
    let z: i128 = if op == BinaryOperator::Add {
        x + y
    } else if op == BinaryOperator::Sub {
        x - y
    } else if op == BinaryOperator::Mul {
        proof {
            assert(-0x8000_0000_0000_0000 <= x <= 0x7fff_ffff_ffff_ffff);
            assert(-0x8000_0000_0000_0000 <= y <= 0x7fff_ffff_ffff_ffff);
            assert(x * y <= 0x4000_0000_0000_0000_0000_0000_0000_0000) by (nonlinear_arith)
                requires
                    -0x8000_0000_0000_0000 <= x <= 0x7fff_ffff_ffff_ffff,
                    -0x8000_0000_0000_0000 <= y <= 0x7fff_ffff_ffff_ffff,
            ;
            assert(x * y >= -0x4000_0000_0000_0000_0000_0000_0000_0000) by (nonlinear_arith)
                requires
                    -0x8000_0000_0000_0000 <= x <= 0x7fff_ffff_ffff_ffff,
                    -0x8000_0000_0000_0000 <= y <= 0x7fff_ffff_ffff_ffff,
            ;
        }
        x * y
    } else {
        if y == 0 {
            return None;
        }
        let ax: i128 = if x < 0 { -x } else { x };
        let ay: i128 = if y < 0 { -y } else { y };
        let q: i128 = ax / ay;
        proof {
            assert(0 <= q <= ax) by (nonlinear_arith)
                requires
                    0 <= ax,
                    1 <= ay,
                    q == ax / ay,
            ;
        }
        if (x < 0) != (y < 0) {
            -q
        } else {
            q
        }
    };
    if z < -9223372036854775808i128 || z > 9223372036854775807i128 {
        return None;
    }
    Some(z as i64)
}

fn arith_outcome(left: &Value, right: &Value, op: BinaryOperator) -> (r: Outcome)
    requires
        is_arithmetic(op),
    ensures
        outcome_is(r, arith_spec(op, left@, right@)),
{
    proof {
        reveal_strlit("INTEGER");
    }
    match (left, right) {
        (Value::Integer(a), Value::Integer(b)) => match int_op(op, *a, *b) {
            Some(v) => Outcome::Done(Ok(Value::Integer(v))),
            None => Outcome::Fault,
        },
        _ => Outcome::Done(Err(type_error("INTEGER", left, right))),
    }
}

/// The anchored regular expression for a `LIKE` pattern.
fn like_regex_string(pattern: &String) -> (r: String)
    ensures
        r@ == like_regex(pattern@),
{
    let p = pattern.as_str();
    let n = p.unicode_len();
    let mut out: Vec<char> = Vec::new();
    let mut i: usize = 0;
    while i < n
        invariant
            0 <= i <= n,
            n == p@.len(),
            p@ == pattern@,
            out@ == like_pattern(p@.subrange(0, i as int)),
        decreases n - i,
    {
        let c = p.get_char(i);
        proof {
            assert(p@.subrange(0, i + 1).drop_last() =~= p@.subrange(0, i as int));
        }
        if c == '%' {
            out.push('.');
            out.push('*');
            proof {
                assert(out@ =~= like_pattern(p@.subrange(0, i as int)) + seq!['.', '*']);
            }
        } else if c == '_' {
            out.push('.');
        } else {
            out.push(c);
        }
        i = i + 1;
    }
    proof {
        assert(p@.subrange(0, n as int) =~= p@);
    }
    let mut s = String::new();
    push_char(&mut s, '^');
    let mut k: usize = 0;
    while k < out.len()
        invariant
            0 <= k <= out@.len(),
            s@ == seq!['^'] + out@.subrange(0, k as int),
        decreases out@.len() - k,
    {
        push_char(&mut s, out[k]);
        k = k + 1;
        proof {
            assert(out@.subrange(0, k as int) =~= out@.subrange(0, k - 1).push(out@[k - 1]));
        }
    }
    push_char(&mut s, '$');
    proof {
        assert(out@.subrange(0, out@.len() as int) =~= out@);
        assert(s@ =~= like_regex(pattern@));
    }
    s
}

/// `text LIKE pattern`: `%` matches any run of characters, `_` any one
/// character, and the whole text must match.
pub fn like_op(left: &Value, right: &Value) -> (r: Result<Value, SqlError>)
    ensures
        result_is(r, like_spec(left@, right@)),
{
    proof {
        reveal_strlit("TEXT");
        reveal_strlit("Invalid LIKE pattern: ");
    }
    match (left, right) {
        (Value::Text(text), Value::Text(pattern)) => {
            let rx = like_regex_string(pattern);
            match regex_match(rx.as_str(), text.as_str()) {
                Ok(b) => Ok(Value::Boolean(b)),
                Err(m) => Err(SqlError::ExecutionError(String::from_str("Invalid LIKE pattern: ").concat(m.as_str()))),
            }
        },
        _ => Err(type_error("TEXT", left, right)),
    }
}

fn done(r: Result<Value, SqlError>) -> (o: Outcome)
    ensures
        o == Outcome::Done(r),
{
    Outcome::Done(r)
}

fn eval_outcome(expr: &Expr, ctx: &Context) -> (r: Outcome)
    ensures
        outcome_is(r, eval(expr_view(*expr), ctx@)),
    decreases expr,
{
    proof {
        reveal_strlit("Expression not supported");
        reveal_strlit("NULL");
    }
    match expr {
        Expr::Literal(v) => done(Ok(v.copy())),
        Expr::ColumnRef(name) => match ctx.get(name) {
            Some(v) => done(Ok(v.copy())),
            None => done(Err(SqlError::ColumnNotFound(name.clone()))),
        },
        Expr::BinaryExpr { left, op, right } => {
            let l = match eval_outcome(&**left, ctx) {
                Outcome::Done(Ok(v)) => v,
                other => return other,
            };
            let r = match eval_outcome(&**right, ctx) {
                Outcome::Done(Ok(v)) => v,
                other => return other,
            };
            match op {
                BinaryOperator::Eq => done(Ok(Value::Boolean(l == r))),
                BinaryOperator::Neq => done(Ok(Value::Boolean(l != r))),
                BinaryOperator::Lt | BinaryOperator::LtEq | BinaryOperator::Gt | BinaryOperator::GtEq => done(
                    compare_values(&l, &r, *op),
                ),
                BinaryOperator::And => done(Ok(Value::Boolean(value_truth_of(&l) && value_truth_of(&r)))),
                BinaryOperator::Or => done(Ok(Value::Boolean(value_truth_of(&l) || value_truth_of(&r)))),
                BinaryOperator::Add | BinaryOperator::Sub | BinaryOperator::Mul | BinaryOperator::Div => arith_outcome(
                    &l,
                    &r,
                    *op,
                ),
                BinaryOperator::Like => done(like_op(&l, &r)),
            }
        },
        Expr::UnaryExpr { op, expr } => {
            let v = match eval_outcome(&**expr, ctx) {
                Outcome::Done(Ok(v)) => v,
                other => return other,
            };
            match op {
                UnaryOperator::Not => done(Ok(Value::Boolean(!value_truth_of(&v)))),
                UnaryOperator::Neg => match v {
                    Value::Integer(i) => if i == i64::MIN {
                        Outcome::Fault
                    } else {
                        done(Ok(Value::Integer(-i)))
                    },
                    _ => {
                        let actual = match v.data_type() {
                            Some(t) => t.to_string(),
                            None => String::from_str("NULL"),
                        };
                        done(Err(SqlError::TypeError { expected: String::from_str("INTEGER"), actual }))
                    },
                },
            }
        },
        Expr::IsNull(x) => {
            let v = match eval_outcome(&**x, ctx) {
                Outcome::Done(Ok(v)) => v,
                other => return other,
            };
            done(Ok(Value::Boolean(matches!(v, Value::Null))))
        },
        Expr::IsNotNull(x) => {
            let v = match eval_outcome(&**x, ctx) {
                Outcome::Done(Ok(v)) => v,
                other => return other,
            };
            done(Ok(Value::Boolean(!matches!(v, Value::Null))))
        },
        Expr::Between { expr, low, high } => {
            let v = match eval_outcome(&**expr, ctx) {
                Outcome::Done(Ok(v)) => v,
                other => return other,
            };
            let lo = match eval_outcome(&**low, ctx) {
                Outcome::Done(Ok(v)) => v,
                other => return other,
            };
            let hi = match eval_outcome(&**high, ctx) {
                Outcome::Done(Ok(v)) => v,
                other => return other,
            };
            let ge = match compare_values(&v, &lo, BinaryOperator::GtEq) {
                Ok(x) => x,
                Err(e) => return done(Err(e)),
            };
            let le = match compare_values(&v, &hi, BinaryOperator::LtEq) {
                Ok(x) => x,
                Err(e) => return done(Err(e)),
            };
            done(Ok(Value::Boolean(value_truth_of(&ge) && value_truth_of(&le))))
        },
        _ => done(Err(SqlError::ExecutionError(String::from_str("Expression not supported")))),
    }
}

fn value_truth_of(v: &Value) -> (b: bool)
    ensures
        b == value_truth(v@),
{
    match value_to_bool(v) {
        Ok(b) => b,
        Err(_) => false,
    }
}

/// Evaluates an expression over column values. It is not run where
/// integer arithmetic would overflow or divide by zero.
pub fn evaluate_expression(expr: &Expr, context: &Context) -> (r: Result<Value, SqlError>)
    requires
        !(eval(expr_view(*expr), context@) matches Err(EvalErr::Fault)),
    ensures
        result_is(r, eval(expr_view(*expr), context@)),
{
    match eval_outcome(expr, context) {
        Outcome::Done(r) => r,
        Outcome::Fault => Err(SqlError::Internal(String::from_str("unreachable"))),
    }
}

/// Evaluates an expression; `None` where integer arithmetic overflows or
/// divides by zero.
pub fn try_evaluate_expression(expr: &Expr, context: &Context) -> (r: Option<Result<Value, SqlError>>)
    ensures
        r is None <==> eval(expr_view(*expr), context@) matches Err(EvalErr::Fault),
        r matches Some(x) ==> result_is(x, eval(expr_view(*expr), context@)),
{
    match eval_outcome(expr, context) {
        Outcome::Done(r) => Some(r),
        Outcome::Fault => None,
    }
}

} // verus!
