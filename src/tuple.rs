use vstd::prelude::*;
use vstd::utf8::{encode_utf8, encode_utf8_decode_utf8, encode_utf8_valid_utf8, valid_utf8};

use crate::codec::{
    from_le16, le16, le32, lemma_from_le32_round_trip, lemma_le16_round_trip, lemma_le32_round_trip,
    read_u16, read_u32,
};
use crate::common::{DbError, TupleId};

verus! {

/// A single typed value of a tuple.
#[derive(Debug, PartialEq, Eq)]
pub enum Value {
    Null,
    Integer(i32),
    Boolean(bool),
    String(String),
}

/// The column types a schema knows.
#[derive(Clone, Copy, Debug, PartialEq, Eq, Structural)]
pub enum TypeId {
    Integer,
    Text,
    Boolean,
}

/// An ordered sequence of values, with the place it was read from.
#[derive(Debug)]
pub struct Tuple {
    pub values: Vec<Value>,
    pub tuple_id: TupleId,
}

/// Name, type and position of one column.
#[derive(Clone, Debug)]
pub struct ColumnDefinition {
    pub type_id: TypeId,
    pub name: String,
    pub column_number: u8,
    pub nullable: bool,
}

/// The columns of a table, in order.
#[derive(Clone, Debug)]
pub struct Schema {
    pub columns: Vec<ColumnDefinition>,
}

impl Value {
    pub fn is_null(&self) -> (r: bool)
        ensures
            r == (*self is Null),
    {
        match self {
            Value::Null => true,
            _ => false,
        }
    }
}

/// Whether `v` may stand in a column of type `t`.
pub open spec fn value_has_type(v: Value, t: TypeId) -> bool {
    match v {
        Value::Null => true,
        Value::Integer(_) => t == TypeId::Integer,
        Value::Boolean(_) => t == TypeId::Boolean,
        Value::String(_) => t == TypeId::Text,
    }
}

/// Whether any of the values is NULL.
pub open spec fn has_null_value(vs: Seq<Value>) -> bool {
    exists|i: int| 0 <= i < vs.len() && (#[trigger] vs[i]) is Null
}

/// Payload bytes of one value: nothing for NULL, four little-endian bytes for an
/// integer, one byte for a boolean, and a two-byte length before UTF-8 text.
pub open spec fn value_bytes(v: Value) -> Seq<u8> {
    match v {
        Value::Null => Seq::empty(),
        Value::Integer(i) => le32(i as u32),
        Value::Boolean(b) => seq![if b { 1u8 } else { 0u8 }],
        Value::String(s) => le16(encode_utf8(s@).len() as u16) + encode_utf8(s@),
    }
}

/// Payload bytes of a sequence of values, one after the other.
pub open spec fn values_bytes(vs: Seq<Value>) -> Seq<u8>
    decreases vs.len(),
{
    if vs.len() == 0 {
        Seq::empty()
    } else {
        values_bytes(vs.drop_last()) + value_bytes(vs.last())
    }
}

/// Whether a text value's byte length fits the two-byte length prefix.
pub open spec fn value_encodable(v: Value) -> bool {
    match v {
        Value::String(s) => encode_utf8(s@).len() <= u16::MAX,
        _ => true,
    }
}

impl Clone for Value {
    fn clone(&self) -> (r: Value)
        ensures
            r == *self,
    {
        match self {
            Value::Null => Value::Null,
            Value::Integer(i) => Value::Integer(*i),
            Value::Boolean(b) => Value::Boolean(*b),
            Value::String(s) => Value::String(s.clone()),
        }
    }
}

impl Clone for Tuple {
    fn clone(&self) -> (r: Tuple) {
        Tuple { values: self.values.clone(), tuple_id: self.tuple_id }
    }
}

impl Tuple {
    pub fn new(values: Vec<Value>) -> (r: Tuple)
        ensures
            r.values@ == values@,
            r.tuple_id == (0u32, 0u8),
    {
        Tuple { values, tuple_id: (0, 0) }
    }

    pub fn values(&self) -> (r: &Vec<Value>)
        ensures
            r@ == self.values@,
    {
        &self.values
    }

    /// Returns whether any value of the tuple is NULL.
    pub fn has_null(&self) -> (r: bool)
        ensures
            r == has_null_value(self.values@),
    {
        let mut i: usize = 0;
        while i < self.values.len()
            invariant
                0 <= i <= self.values@.len(),
                forall|j: int| 0 <= j < i ==> !(#[trigger] self.values@[j] is Null),
            decreases self.values@.len() - i,
        {
            if self.values[i].is_null() {
                return true;
            }
            i = i + 1;
        }
        false
    }
}

impl ColumnDefinition {
    pub fn new(type_id: TypeId, name: String, column_number: u8, nullable: bool) -> (r:
        ColumnDefinition)
        ensures
            r.type_id == type_id,
            r.name@ == name@,
            r.column_number == column_number,
            r.nullable == nullable,
    {
        ColumnDefinition { type_id, name, column_number, nullable }
    }

    pub fn type_id(&self) -> (r: TypeId)
        ensures
            r == self.type_id,
    {
        self.type_id
    }

    pub fn name(&self) -> (r: &String)
        ensures
            r@ == self.name@,
    {
        &self.name
    }
}

impl Schema {
    pub fn new(columns: Vec<ColumnDefinition>) -> (r: Schema)
        ensures
            r.columns@ == columns@,
    {
        Schema { columns }
    }

    pub fn columns(&self) -> (r: &Vec<ColumnDefinition>)
        ensures
            r@ == self.columns@,
    {
        &self.columns
    }

    /// The column types, in order.
    pub open spec fn types(&self) -> Seq<TypeId> {
        self.columns@.map_values(|c: ColumnDefinition| c.type_id)
    }
}

/// Relies on `String::from_utf8`: it succeeds exactly on valid UTF-8 and the
/// string it returns has those bytes.
#[verifier::external_body]
fn string_from_utf8(bytes: Vec<u8>) -> (r: Option<String>)
    ensures
        r is Some <==> valid_utf8(bytes@),
        r matches Some(s) ==> encode_utf8(s@) == bytes@,
{
    String::from_utf8(bytes).ok()
}

/// Number of payload bytes of one value, or `None` if text is too long to encode.
pub fn value_size(v: &Value) -> (r: Option<usize>)
    ensures
        r is Some <==> value_encodable(*v),
        r matches Some(n) ==> n == value_bytes(*v).len(),
{
    match v {
        Value::Null => Some(0),
        Value::Integer(_) => Some(4),
        Value::Boolean(_) => Some(1),
        Value::String(s) => {
            let n = s.as_str().as_bytes().len();
            if n > 65535 {
                None
            } else {
                Some(n + 2)
            }
        },
    }
}

/// Appends the payload bytes of `v` to `out`.
pub fn append_value(out: &mut Vec<u8>, v: &Value)
    requires
        value_encodable(*v),
    ensures
        final(out)@ == old(out)@ + value_bytes(*v),
{
    match v {
        Value::Null => {
            assert(old(out)@ + value_bytes(*v) =~= old(out)@);
        },
        Value::Integer(i) => {
            let u = *i as u32;
            out.push((u % 256) as u8);
            out.push(((u / 256) % 256) as u8);
            out.push(((u / 65536) % 256) as u8);
            out.push((u / 16777216) as u8);
            assert(final(out)@ =~= old(out)@ + value_bytes(*v));
        },
        Value::Boolean(b) => {
            out.push(if *b { 1u8 } else { 0u8 });
            assert(final(out)@ =~= old(out)@ + value_bytes(*v));
        },
        Value::String(s) => {
            let bytes = s.as_str().as_bytes();
            let n = bytes.len() as u16;
            out.push((n % 256) as u8);
            out.push((n / 256) as u8);
            let ghost mid = out@;
            let mut i: usize = 0;
            while i < bytes.len()
                invariant
                    0 <= i <= bytes@.len(),
                    out@ =~= mid + bytes@.subrange(0, i as int),
                decreases bytes@.len() - i,
            {
                out.push(bytes[i]);
                i = i + 1;
            }
            assert(bytes@.subrange(0, i as int) =~= bytes@);
            assert(final(out)@ =~= old(out)@ + value_bytes(*v));
        },
    }
}

/// Two values are the same: equal, with text compared by its characters.
pub open spec fn value_same(a: Value, b: Value) -> bool {
    match (a, b) {
        (Value::String(x), Value::String(y)) => x@ == y@,
        _ => a == b,
    }
}

/// The payload bytes of `v` stand in `data` from position `at`.
pub open spec fn value_stored_at(data: Seq<u8>, at: int, v: Value) -> bool {
    &&& 0 <= at
    &&& at + value_bytes(v).len() <= data.len()
    &&& data.subrange(at, at + value_bytes(v).len()) == value_bytes(v)
}

proof fn lemma_text_stored(data: Seq<u8>, at: int, s: String)
    requires
        encode_utf8(s@).len() <= u16::MAX,
        value_stored_at(data, at, Value::String(s)),
    ensures
        at + 2 + encode_utf8(s@).len() <= data.len(),
        from_le16(data.subrange(at, at + 2)) == encode_utf8(s@).len(),
        data.subrange(at + 2, at + 2 + encode_utf8(s@).len()) == encode_utf8(s@),
{
    let e = encode_utf8(s@);
    let b = le16(e.len() as u16) + e;
    assert(data.subrange(at, at + 2) =~= b.subrange(0, 2));
    assert(b.subrange(0, 2) =~= le16(e.len() as u16));
    lemma_le16_round_trip(e.len() as u16);
    assert(data.subrange(at + 2, at + 2 + e.len()) =~= b.subrange(2, b.len() as int));
    assert(b.subrange(2, b.len() as int) =~= e);
}

/// Reads a text value at `at`: a two-byte length and that many bytes of UTF-8.
fn parse_text(data: &[u8], at: usize) -> (r: Result<(Value, usize), DbError>)
    requires
        at <= data@.len(),
    ensures
        r matches Ok((v, n)) ==> {
            &&& at + n <= data@.len()
            &&& value_bytes(v) == data@.subrange(at as int, at + n)
            &&& n == value_bytes(v).len()
            &&& v is String
            &&& value_encodable(v)
        },
        r is Err ==> r == Err::<(Value, usize), DbError>(DbError::MalformedData),
        forall|v: Value|
            v is String && value_encodable(v) && #[trigger] value_stored_at(data@, at as int, v)
                ==> r is Ok && value_same(r->Ok_0.0, v) && r->Ok_0.1 == value_bytes(v).len(),
{
    let dl = data.len();
    if dl - at < 2 {
        proof {
            assert forall|v: Value|
                v is String && value_encodable(v) && #[trigger] value_stored_at(data@, at as int, v)
                    implies false by {
                lemma_text_stored(data@, at as int, v->String_0);
            }
        }
        return Err(DbError::MalformedData);
    }
    let len = read_u16(data, at) as usize;
    if dl - at - 2 < len {
        proof {
            assert forall|v: Value|
                v is String && value_encodable(v) && #[trigger] value_stored_at(data@, at as int, v)
                    implies false by {
                lemma_text_stored(data@, at as int, v->String_0);
            }
        }
        return Err(DbError::MalformedData);
    }
    let mut bytes: Vec<u8> = Vec::new();
    let mut i: usize = 0;
    while i < len
        invariant
            0 <= i <= len,
            data@.len() == dl,
            at + 2 + len <= dl,
            bytes@ =~= data@.subrange(at + 2, at + 2 + i),
        decreases len - i,
    {
        bytes.push(data[at + 2 + i]);
        i = i + 1;
    }
    let ghost bv = bytes@;
    match string_from_utf8(bytes) {
        None => {
            proof {
                assert forall|v: Value|
                    v is String && value_encodable(v) && #[trigger] value_stored_at(
                        data@,
                        at as int,
                        v,
                    ) implies false by {
                    lemma_text_stored(data@, at as int, v->String_0);
                    encode_utf8_valid_utf8(v->String_0@);
                }
            }
            Err(DbError::MalformedData)
        },
        Some(s) => {
            proof {
                let lb = data@.subrange(at as int, at + 2);
                assert(le16(len as u16) =~= lb);
                assert(data@.subrange(at as int, at + 2 + len) =~= lb + bv);
                assert forall|v: Value|
                    v is String && value_encodable(v) && #[trigger] value_stored_at(
                        data@,
                        at as int,
                        v,
                    ) implies value_same(Value::String(s), v) && len + 2 == value_bytes(v).len() by {
                    lemma_text_stored(data@, at as int, v->String_0);
                    encode_utf8_decode_utf8(v->String_0@);
                    encode_utf8_decode_utf8(s@);
                }
            }
            Ok((Value::String(s), len + 2))
        },
    }
}

/// Reads a four-byte integer value at `at`.
fn parse_integer(data: &[u8], at: usize) -> (r: Result<(Value, usize), DbError>)
    requires
        at <= data@.len(),
    ensures
        r matches Ok((v, n)) ==> {
            &&& at + n <= data@.len()
            &&& value_bytes(v) == data@.subrange(at as int, at + n)
            &&& n == value_bytes(v).len()
            &&& v is Integer
        },
        r is Err ==> r == Err::<(Value, usize), DbError>(DbError::MalformedData),
        forall|v: Value|
            v is Integer && #[trigger] value_stored_at(data@, at as int, v) ==> r is Ok && r->Ok_0.0
                == v && r->Ok_0.1 == 4,
{
    if data.len() - at < 4 {
        return Err(DbError::MalformedData);
    }
    let u = read_u32(data, at);
    let i = u as i32;
    proof {
        let b = data@.subrange(at as int, at + 4);
        assert((u as i32) as u32 == u) by (bit_vector);
        lemma_from_le32_round_trip(b);
        assert forall|v: Value| v is Integer && #[trigger] value_stored_at(data@, at as int, v) implies v
            == Value::Integer(i) by {
            let j = v->Integer_0;
            lemma_le32_round_trip(j as u32);
            assert(b == le32(j as u32));
            assert((j as u32) as i32 == j) by (bit_vector);
        }
    }
    Ok((Value::Integer(i), 4))
}

/// Reads one value of type `t` at `at`, or a NULL if `null` is set.
/// Returns the value and the number of bytes it took. Where the payload of a
/// value of that type and nullness stands at `at`, it is read back.
pub fn parse_value(data: &[u8], at: usize, t: TypeId, null: bool) -> (r: Result<(Value, usize), DbError>)
    requires
        at <= data@.len(),
    ensures
        r matches Ok((v, n)) ==> {
            &&& at + n <= data@.len()
            &&& value_bytes(v) == data@.subrange(at as int, at + n)
            &&& n == value_bytes(v).len()
            &&& value_has_type(v, t)
            &&& (v is Null <==> null)
            &&& value_encodable(v)
        },
        r is Err ==> r == Err::<(Value, usize), DbError>(DbError::MalformedData),
        forall|v: Value|
            value_has_type(v, t) && (v is Null <==> null) && value_encodable(v)
                && #[trigger] value_stored_at(data@, at as int, v) ==> r is Ok && value_same(
                r->Ok_0.0,
                v,
            ) && r->Ok_0.1 == value_bytes(v).len(),
{
    if null {
        assert(data@.subrange(at as int, at as int) =~= Seq::<u8>::empty());
        return Ok((Value::Null, 0));
    }
    match t {
        TypeId::Integer => parse_integer(data, at),
        TypeId::Boolean => {
            if data.len() - at < 1 {
                return Err(DbError::MalformedData);
            }
            let b = data[at];
            if b > 1 {
                proof {
                    assert forall|v: Value|
                        value_has_type(v, t) && !(v is Null) && #[trigger] value_stored_at(
                            data@,
                            at as int,
                            v,
                        ) implies false by {
                        assert(data@.subrange(at as int, at + 1)[0] == b);
                    }
                }
                return Err(DbError::MalformedData);
            }
            assert(seq![if b == 1 { 1u8 } else { 0u8 }] =~= data@.subrange(at as int, at + 1));
            proof {
                assert forall|v: Value|
                    value_has_type(v, t) && !(v is Null) && #[trigger] value_stored_at(
                        data@,
                        at as int,
                        v,
                    ) implies v == Value::Boolean(b == 1) by {
                    assert(data@.subrange(at as int, at + 1)[0] == b);
                }
            }
            Ok((Value::Boolean(b == 1), 1))
        },
        TypeId::Text => parse_text(data, at),
    }
}

} // verus!
