//! SQL data types, runtime values, and table schemas.
//!
//! A value is stored as a tag byte and its payload: `0` null, `1` and an
//! 8-byte little-endian integer, `2`, a 4-byte little-endian length and the
//! UTF-8 bytes of a text, `3` and a byte that is non-zero for true.

use vstd::prelude::*;
use vstd::bytes::*;
use vstd::slice::slice_subrange;
use vstd::string::*;
use vstd::utf8::{encode_utf8, decode_utf8, valid_utf8};
use core::cmp::Ordering;
use crate::sql_error::SqlError;
use crate::keys::{bytes_lt, bytes_less, lemma_bytes_lt_irreflexive, lemma_bytes_lt_transitive};
use crate::mvcc::bytes_equal;
use crate::bytes::{push_slice, copy_range};
use crate::text::{signed_decimal, signed_decimal_string, push_char};
use crate::wal::le32_at;

verus! {

#[derive(Debug, Clone, Copy, PartialEq, Eq, Structural)]
pub enum DataType {
    Integer,
    Text,
    Boolean,
}

pub open spec fn data_type_name(t: DataType) -> Seq<char> {
    match t {
        DataType::Integer => "INTEGER"@,
        DataType::Text => "TEXT"@,
        DataType::Boolean => "BOOLEAN"@,
    }
}

impl DataType {
    /// The SQL name of the type.
    pub fn to_string(&self) -> (r: String)
        ensures
            r@ == data_type_name(*self),
    {
        proof {
            reveal_strlit("INTEGER");
            reveal_strlit("TEXT");
            reveal_strlit("BOOLEAN");
        }
        match self {
            DataType::Integer => String::from_str("INTEGER"),
            DataType::Text => String::from_str("TEXT"),
            DataType::Boolean => String::from_str("BOOLEAN"),
        }
    }
}

/// A runtime value.
#[derive(Debug, Clone)]
pub enum Value {
    Null,
    Integer(i64),
    Text(String),
    Boolean(bool),
}

/// A value as a mathematical value: a text is its characters.
pub ghost enum ValueView {
    Null,
    Integer(i64),
    Text(Seq<char>),
    Boolean(bool),
}

impl View for Value {
    type V = ValueView;

    open spec fn view(&self) -> ValueView {
        match self {
            Value::Null => ValueView::Null,
            Value::Integer(i) => ValueView::Integer(*i),
            Value::Text(s) => ValueView::Text(s@),
            Value::Boolean(b) => ValueView::Boolean(*b),
        }
    }
}

impl PartialEq for Value {
    fn eq(&self, other: &Self) -> (r: bool) {
        match (self, other) {
            (Value::Null, Value::Null) => true,
            (Value::Integer(a), Value::Integer(b)) => *a == *b,
            (Value::Text(a), Value::Text(b)) => *a == *b,
            (Value::Boolean(a), Value::Boolean(b)) => *a == *b,
            _ => false,
        }
    }
}

impl vstd::std_specs::cmp::PartialEqSpecImpl for Value {
    open spec fn obeys_eq_spec() -> bool {
        true
    }

    open spec fn eq_spec(&self, other: &Self) -> bool {
        self@ == other@
    }
}

/// The order of texts: the byte order of their UTF-8 encodings.
pub open spec fn text_order(a: Seq<char>, b: Seq<char>) -> Ordering {
    if bytes_lt(encode_utf8(a), encode_utf8(b)) {
        Ordering::Less
    } else if bytes_lt(encode_utf8(b), encode_utf8(a)) {
        Ordering::Greater
    } else {
        Ordering::Equal
    }
}

/// How two values compare: nulls only with nulls, otherwise only values of
/// the same type; `None` where they do not compare.
pub open spec fn value_order(a: ValueView, b: ValueView) -> Option<Ordering> {
    match (a, b) {
        (ValueView::Null, ValueView::Null) => Some(Ordering::Equal),
        (ValueView::Integer(x), ValueView::Integer(y)) => Some(
            if x < y {
                Ordering::Less
            } else if x > y {
                Ordering::Greater
            } else {
                Ordering::Equal
            },
        ),
        (ValueView::Text(x), ValueView::Text(y)) => Some(text_order(x, y)),
        (ValueView::Boolean(x), ValueView::Boolean(y)) => Some(
            if !x && y {
                Ordering::Less
            } else if x && !y {
                Ordering::Greater
            } else {
                Ordering::Equal
            },
        ),
        _ => None,
    }
}

pub open spec fn value_type(v: ValueView) -> Option<DataType> {
    match v {
        ValueView::Null => None,
        ValueView::Integer(_) => Some(DataType::Integer),
        ValueView::Text(_) => Some(DataType::Text),
        ValueView::Boolean(_) => Some(DataType::Boolean),
    }
}

/// The bytes a value is stored as.
pub open spec fn encode_value(v: ValueView) -> Seq<u8> {
    match v {
        ValueView::Null => seq![0u8],
        ValueView::Integer(i) => seq![1u8] + spec_u64_to_le_bytes(i as u64),
        ValueView::Text(t) => seq![2u8] + spec_u32_to_le_bytes(encode_utf8(t).len() as u32) + encode_utf8(t),
        ValueView::Boolean(b) => seq![3u8, if b { 1u8 } else { 0u8 }],
    }
}

/// The value stored bytes hold, or the message of the error reading them
/// gives. Empty input reads as null.
pub open spec fn decode_value(p: Seq<u8>) -> Result<ValueView, Seq<char>> {
    if p.len() == 0 {
        Ok(ValueView::Null)
    } else if p[0] == 0 {
        Ok(ValueView::Null)
    } else if p[0] == 1 {
        if p.len() < 9 {
            Err("Invalid integer encoding"@)
        } else {
            Ok(ValueView::Integer(spec_u64_from_le_bytes(p.subrange(1, 9)) as i64))
        }
    } else if p[0] == 2 {
        if p.len() < 5 {
            Err("Invalid text encoding"@)
        } else if p.len() < 5 + le32_at(p, 1) {
            Err("Text truncated"@)
        } else {
            let b = p.subrange(5, 5 + le32_at(p, 1));
            if valid_utf8(b) {
                Ok(ValueView::Text(decode_utf8(b)))
            } else {
                Err("Invalid UTF-8: "@ + utf8_error_text(b))
            }
        }
    } else if p[0] == 3 {
        if p.len() < 2 {
            Err("Invalid boolean encoding"@)
        } else {
            Ok(ValueView::Boolean(p[1] != 0))
        }
    } else {
        Err("Unknown value type tag"@)
    }
}

/// The text `FromUtf8Error` displays for these bytes.
pub uninterp spec fn utf8_error_text(b: Seq<u8>) -> Seq<char>;

/// `String::from_utf8`: the documentation returns the string these bytes
/// encode where they are UTF-8, and an error otherwise; the error's text is named.
#[verifier::external_body]
pub(crate) fn string_from_utf8(b: Vec<u8>) -> (r: Result<String, String>)
    ensures
        r is Ok <==> valid_utf8(b@),
        r matches Ok(s) ==> s@ == decode_utf8(b@),
        r matches Err(m) ==> m@ == utf8_error_text(b@),
{
    match String::from_utf8(b) {
        Ok(s) => Ok(s),
        Err(e) => Err(format!("{}", e)),
    }
}

/// Text with each single quote doubled.
pub open spec fn escape_quotes(s: Seq<char>) -> Seq<char>
    decreases s.len(),
{
    if s.len() == 0 {
        Seq::empty()
    } else if s.last() == '\'' {
        escape_quotes(s.drop_last()) + seq!['\'', '\'']
    } else {
        escape_quotes(s.drop_last()).push(s.last())
    }
}

/// How a value is displayed in SQL: `NULL`, a decimal integer, a quoted text
/// with quotes doubled, `true` or `false`.
pub open spec fn value_display(v: ValueView) -> Seq<char> {
    match v {
        ValueView::Null => "NULL"@,
        ValueView::Integer(i) => signed_decimal(i as int),
        ValueView::Text(t) => seq!['\''] + escape_quotes(t) + seq!['\''],
        ValueView::Boolean(b) => if b { "true"@ } else { "false"@ },
    }
}

fn escaped(s: &str) -> (r: Vec<char>)
    ensures
        r@ == escape_quotes(s@),
{
    let n = s.unicode_len();
    let mut out: Vec<char> = Vec::new();
    let mut i: usize = 0;
    while i < n
        invariant
            0 <= i <= n,
            n == s@.len(),
            out@ == escape_quotes(s@.subrange(0, i as int)),
        decreases n - i,
    {
        let c = s.get_char(i);
        proof {
            assert(s@.subrange(0, i + 1).drop_last() =~= s@.subrange(0, i as int));
        }
        if c == '\'' {
            out.push('\'');
            out.push('\'');
            proof {
                assert(out@ =~= escape_quotes(s@.subrange(0, i as int)) + seq!['\'', '\'']);
            }
        } else {
            out.push(c);
        }
        i = i + 1;
    }
    proof {
        assert(s@.subrange(0, n as int) =~= s@);
    }
    out
}

impl Value {
    /// A copy of the value.
    pub fn copy(&self) -> (r: Value)
        ensures
            r@ == self@,
    {
        match self {
            Value::Null => Value::Null,
            Value::Integer(i) => Value::Integer(*i),
            Value::Text(s) => Value::Text(s.clone()),
            Value::Boolean(b) => Value::Boolean(*b),
        }
    }

    /// Compares two values of the same type; nulls compare equal to each
    /// other; anything else does not compare.
    pub fn compare(&self, other: &Value) -> (r: Option<Ordering>)
        ensures
            r == value_order(self@, other@),
    {
        match (self, other) {
            (Value::Null, Value::Null) => Some(Ordering::Equal),
            (Value::Integer(a), Value::Integer(b)) => {
                if *a < *b {
                    Some(Ordering::Less)
                } else if *a > *b {
                    Some(Ordering::Greater)
                } else {
                    Some(Ordering::Equal)
                }
            },
            (Value::Text(a), Value::Text(b)) => {
                let x = a.as_str().as_bytes();
                let y = b.as_str().as_bytes();
                if bytes_less(x, y) {
                    Some(Ordering::Less)
                } else if bytes_less(y, x) {
                    Some(Ordering::Greater)
                } else {
                    Some(Ordering::Equal)
                }
            },
            (Value::Boolean(a), Value::Boolean(b)) => {
                if !*a && *b {
                    Some(Ordering::Less)
                } else if *a && !*b {
                    Some(Ordering::Greater)
                } else {
                    Some(Ordering::Equal)
                }
            },
            _ => None,
        }
    }

    pub fn lt(&self, other: &Value) -> (r: bool)
        ensures
            r == (value_order(self@, other@) == Some(Ordering::Less)),
    {
        match self.compare(other) {
            Some(Ordering::Less) => true,
            _ => false,
        }
    }

    pub fn le(&self, other: &Value) -> (r: bool)
        ensures
            r == (value_order(self@, other@) is Some && value_order(self@, other@) != Some(Ordering::Greater)),
    {
        match self.compare(other) {
            Some(Ordering::Greater) => false,
            Some(_) => true,
            None => false,
        }
    }

    pub fn gt(&self, other: &Value) -> (r: bool)
        ensures
            r == (value_order(self@, other@) == Some(Ordering::Greater)),
    {
        match self.compare(other) {
            Some(Ordering::Greater) => true,
            _ => false,
        }
    }

    pub fn ge(&self, other: &Value) -> (r: bool)
        ensures
            r == (value_order(self@, other@) is Some && value_order(self@, other@) != Some(Ordering::Less)),
    {
        match self.compare(other) {
            Some(Ordering::Less) => false,
            Some(_) => true,
            None => false,
        }
    }

    /// The type of a non-null value.
    pub fn data_type(&self) -> (r: Option<DataType>)
        ensures
            r == value_type(self@),
    {
        match self {
            Value::Null => None,
            Value::Integer(_) => Some(DataType::Integer),
            Value::Text(_) => Some(DataType::Text),
            Value::Boolean(_) => Some(DataType::Boolean),
        }
    }
}

impl Value {
    /// The bytes the value is stored as.
    pub fn to_bytes(&self) -> (r: Vec<u8>)
        ensures
            r@ == encode_value(self@),
    {
        let mut bytes: Vec<u8> = Vec::new();
        match self {
            Value::Null => {
                bytes.push(0u8);
            },
            Value::Integer(i) => {
                bytes.push(1u8);
                let mut b = u64_to_le_bytes(*i as u64);
                bytes.append(&mut b);
            },
            Value::Text(s) => {
                bytes.push(2u8);
                let b = s.as_str().as_bytes();
                let mut len = u32_to_le_bytes(b.len() as u32);
                bytes.append(&mut len);
                push_slice(&mut bytes, b);
            },
            Value::Boolean(b) => {
                bytes.push(3u8);
                bytes.push(if *b { 1u8 } else { 0u8 });
            },
        }
        proof {
            assert(bytes@ =~= encode_value(self@));
        }
        bytes
    }

    /// Reads a stored value back; empty input is null.
    pub fn from_bytes(bytes: &[u8]) -> (r: Result<Value, SqlError>)
        ensures
            decode_value(bytes@) matches Ok(v) ==> (r matches Ok(x) && x@ == v),
            decode_value(bytes@) matches Err(m) ==> (r matches Err(SqlError::Internal(e)) && e@ == m),
    {
        proof {
            reveal_strlit("Invalid integer encoding");
            reveal_strlit("Invalid text encoding");
            reveal_strlit("Text truncated");
            reveal_strlit("Invalid UTF-8: ");
            reveal_strlit("Invalid boolean encoding");
            reveal_strlit("Unknown value type tag");
        }
        let n = bytes.len();
        if n == 0 {
            return Ok(Value::Null);
        }
        let tag = bytes[0];
        if tag == 0 {
            Ok(Value::Null)
        } else if tag == 1 {
            if n < 9 {
                return Err(SqlError::Internal(String::from_str("Invalid integer encoding")));
            }
            let x = u64_from_le_bytes(slice_subrange(bytes, 1, 9));
            Ok(Value::Integer(x as i64))
        } else if tag == 2 {
            if n < 5 {
                return Err(SqlError::Internal(String::from_str("Invalid text encoding")));
            }
            let len = u32_from_le_bytes(slice_subrange(bytes, 1, 5)) as usize;
            if n - 5 < len {
                return Err(SqlError::Internal(String::from_str("Text truncated")));
            }
            let raw = copy_range(bytes, 5, 5 + len);
            match string_from_utf8(raw) {
                Ok(text) => Ok(Value::Text(text)),
                Err(m) => Err(SqlError::Internal(String::from_str("Invalid UTF-8: ").concat(m.as_str()))),
            }
        } else if tag == 3 {
            if n < 2 {
                return Err(SqlError::Internal(String::from_str("Invalid boolean encoding")));
            }
            Ok(Value::Boolean(bytes[1] != 0))
        } else {
            Err(SqlError::Internal(String::from_str("Unknown value type tag")))
        }
    }

    /// How the value is written in SQL.
    pub fn to_string(&self) -> (r: String)
        ensures
            r@ == value_display(self@),
    {
        proof {
            reveal_strlit("NULL");
            reveal_strlit("true");
            reveal_strlit("false");
        }
        match self {
            Value::Null => String::from_str("NULL"),
            Value::Integer(i) => signed_decimal_string(*i),
            Value::Text(s) => {
                let body = escaped(s.as_str());
                let mut out = String::new();
                push_char(&mut out, '\'');
                let mut k: usize = 0;
                while k < body.len()
                    invariant
                        0 <= k <= body@.len(),
                        out@ == seq!['\''] + body@.subrange(0, k as int),
                    decreases body@.len() - k,
                {
                    push_char(&mut out, body[k]);
                    k = k + 1;
                    proof {
                        assert(body@.subrange(0, k as int) =~= body@.subrange(0, k - 1).push(body@[k - 1]));
                    }
                }
                push_char(&mut out, '\'');
                proof {
                    assert(body@.subrange(0, body@.len() as int) =~= body@);
                    assert(out@ =~= seq!['\''] + escape_quotes(s@) + seq!['\'']);
                }
                out
            },
            Value::Boolean(b) => if *b {
                String::from_str("true")
            } else {
                String::from_str("false")
            },
        }
    }
}

/// A value reads back from the bytes it is stored as, where a text's UTF-8
/// form is shorter than 2^32 bytes.
/// Comparing the other way round gives the opposite answer: less becomes
/// greater, equal stays equal, and values that do not compare still do not.
pub proof fn lemma_value_order_antisymmetric(a: ValueView, b: ValueView)
    ensures
        value_order(a, b) == Some(Ordering::Less) <==> value_order(b, a) == Some(Ordering::Greater),
        value_order(a, b) == Some(Ordering::Equal) <==> value_order(b, a) == Some(Ordering::Equal),
        value_order(a, b) is None <==> value_order(b, a) is None,
{
    if let (ValueView::Text(x), ValueView::Text(y)) = (a, b) {
        let ex = encode_utf8(x);
        let ey = encode_utf8(y);
        if bytes_lt(ex, ey) && bytes_lt(ey, ex) {
            lemma_bytes_lt_transitive(ex, ey, ex);
            lemma_bytes_lt_irreflexive(ex);
        }
    }
}

/// Values that compare in a chain of "less" compare "less" end to end.
pub proof fn lemma_value_order_transitive(a: ValueView, b: ValueView, c: ValueView)
    requires
        value_order(a, b) == Some(Ordering::Less),
        value_order(b, c) == Some(Ordering::Less),
    ensures
        value_order(a, c) == Some(Ordering::Less),
{
    if let (ValueView::Text(x), ValueView::Text(y), ValueView::Text(z)) = (a, b, c) {
        lemma_bytes_lt_transitive(encode_utf8(x), encode_utf8(y), encode_utf8(z));
    }
}

pub proof fn lemma_value_round_trip(v: ValueView)
    requires
        v matches ValueView::Text(t) ==> encode_utf8(t).len() <= u32::MAX,
    ensures
        decode_value(encode_value(v)) == Ok::<ValueView, Seq<char>>(v),
{
    lemma_auto_spec_u64_to_from_le_bytes();
    lemma_auto_spec_u32_to_from_le_bytes();
    let p = encode_value(v);
    match v {
        ValueView::Integer(i) => {
            assert(p.subrange(1, 9) =~= spec_u64_to_le_bytes(i as u64));
            assert((i as u64) as i64 == i) by (bit_vector);
        },
        ValueView::Text(t) => {
            let b = encode_utf8(t);
            assert(p.subrange(1, 5) =~= spec_u32_to_le_bytes(b.len() as u32));
            assert(p.subrange(5, 5 + b.len() as int) =~= b);
            vstd::utf8::encode_utf8_valid_utf8(t);
            vstd::utf8::encode_utf8_decode_utf8(t);
        },
        _ => {},
    }
}

/// Bytes that follow a value's stored bytes do not change what is read:
/// decoding stops at the end of the encoding.
pub proof fn lemma_value_round_trip_with_trailing(v: ValueView, extra: Seq<u8>)
    requires
        v matches ValueView::Text(t) ==> encode_utf8(t).len() <= u32::MAX,
    ensures
        decode_value(encode_value(v) + extra) == Ok::<ValueView, Seq<char>>(v),
{
    lemma_auto_spec_u64_to_from_le_bytes();
    lemma_auto_spec_u32_to_from_le_bytes();
    let e = encode_value(v);
    let p = e + extra;
    assert(p.subrange(0, e.len() as int) =~= e);
    match v {
        ValueView::Integer(i) => {
            assert(p.subrange(1, 9) =~= spec_u64_to_le_bytes(i as u64));
            assert((i as u64) as i64 == i) by (bit_vector);
        },
        ValueView::Text(t) => {
            let b = encode_utf8(t);
            assert(p.subrange(1, 5) =~= spec_u32_to_le_bytes(b.len() as u32));
            assert(p.subrange(5, 5 + b.len() as int) =~= b);
            vstd::utf8::encode_utf8_valid_utf8(t);
            vstd::utf8::encode_utf8_decode_utf8(t);
        },
        ValueView::Boolean(x) => {
            assert(p[1] == e[1]);
        },
        ValueView::Null => {
            assert(p[0] == e[0]);
        },
    }
}

/// A column of a table.
#[derive(Debug, Clone)]
pub struct ColumnDef {
    pub name: String,
    pub data_type: DataType,
    pub nullable: bool,
    pub primary_key: bool,
}

/// The columns of a table and its primary key.
#[derive(Debug, Clone)]
pub struct TableSchema {
    pub name: String,
    pub columns: Vec<ColumnDef>,
    pub primary_key: Option<Vec<String>>,
}

pub ghost struct ColumnView {
    pub name: Seq<char>,
    pub data_type: DataType,
    pub nullable: bool,
    pub primary_key: bool,
}

impl View for ColumnDef {
    type V = ColumnView;

    open spec fn view(&self) -> ColumnView {
        ColumnView {
            name: self.name@,
            data_type: self.data_type,
            nullable: self.nullable,
            primary_key: self.primary_key,
        }
    }
}

pub open spec fn names_view(v: Seq<String>) -> Seq<Seq<char>> {
    v.map_values(|s: String| s@)
}

pub open spec fn columns_view(v: Seq<ColumnDef>) -> Seq<ColumnView> {
    v.map_values(|c: ColumnDef| c@)
}

pub ghost struct SchemaView {
    pub name: Seq<char>,
    pub columns: Seq<ColumnView>,
    pub primary_key: Option<Seq<Seq<char>>>,
}

impl View for TableSchema {
    type V = SchemaView;

    open spec fn view(&self) -> SchemaView {
        SchemaView {
            name: self.name@,
            columns: columns_view(self.columns@),
            primary_key: match &self.primary_key {
                Some(k) => Some(names_view(k@)),
                None => None,
            },
        }
    }
}

/// A fresh copy of a list of names.
pub fn copy_names(v: &Vec<String>) -> (r: Vec<String>)
    ensures
        names_view(r@) == names_view(v@),
{
    let mut r: Vec<String> = Vec::new();
    let mut i: usize = 0;
    while i < v.len()
        invariant
            0 <= i <= v@.len(),
            names_view(r@) == names_view(v@).subrange(0, i as int),
        decreases v@.len() - i,
    {
        let c = v[i].clone();
        let ghost old_r = r@;
        r.push(c);
        proof {
            assert(names_view(r@) =~= names_view(old_r).push(c@));
            assert(names_view(v@).subrange(0, i + 1) =~= names_view(v@).subrange(0, i as int).push(v@[i as int]@));
        }
        i = i + 1;
    }
    proof {
        assert(names_view(v@).subrange(0, v@.len() as int) =~= names_view(v@));
    }
    r
}

impl ColumnDef {
    pub fn copy(&self) -> (r: ColumnDef)
        ensures
            r@ == self@,
    {
        ColumnDef {
            name: self.name.clone(),
            data_type: self.data_type,
            nullable: self.nullable,
            primary_key: self.primary_key,
        }
    }
}

impl TableSchema {
    pub fn copy(&self) -> (r: TableSchema)
        ensures
            r@ == self@,
    {
        let mut columns: Vec<ColumnDef> = Vec::new();
        let mut i: usize = 0;
        while i < self.columns.len()
            invariant
                0 <= i <= self.columns@.len(),
                columns_view(columns@) == columns_view(self.columns@).subrange(0, i as int),
            decreases self.columns@.len() - i,
        {
            let c = self.columns[i].copy();
            let ghost old_c = columns@;
            columns.push(c);
            proof {
                assert(columns_view(columns@) =~= columns_view(old_c).push(c@));
                assert(columns_view(self.columns@).subrange(0, i + 1) =~= columns_view(self.columns@).subrange(
                    0,
                    i as int,
                ).push(self.columns@[i as int]@));
            }
            i = i + 1;
        }
        proof {
            assert(columns_view(self.columns@).subrange(0, self.columns@.len() as int) =~= columns_view(self.columns@));
        }
        let primary_key = match &self.primary_key {
            Some(k) => Some(copy_names(k)),
            None => None,
        };
        TableSchema { name: self.name.clone(), columns, primary_key }
    }
}

} // verus!
