use vstd::prelude::*;

use crate::common::{CommandId, DbError, TransactionId, TupleId, MAX_COLUMNS};
use crate::header::{bit_set, flag_has_null, header_bytes, header_valid, HeaderModel, HeapTupleHeader};
use crate::tuple::{
    append_value, has_null_value, parse_value, value_bytes, value_encodable, value_has_type,
    value_same, value_size, value_stored_at, values_bytes, Tuple, TypeId, Value,
};

verus! {

/// Largest number of bytes, header included, that one tuple may occupy.
pub const MAX_TUPLE_SIZE: usize = 2048;

/// Bytes that a tuple with these values occupies: its header and its payload.
pub open spec fn tuple_size(vs: Seq<Value>) -> int {
    HeapTupleHeader::required_size_spec(vs) + values_bytes(vs).len()
}

/// The values match the column types, one for one.
pub open spec fn values_match_types(vs: Seq<Value>, types: Seq<TypeId>) -> bool {
    &&& vs.len() == types.len()
    &&& forall|i: int| 0 <= i < vs.len() ==> value_has_type(#[trigger] vs[i], types[i])
}

/// Every value can be encoded.
pub open spec fn values_encodable(vs: Seq<Value>) -> bool {
    forall|i: int| 0 <= i < vs.len() ==> value_encodable(#[trigger] vs[i])
}

/// The header that a new version of a tuple with values `vs` gets.
pub open spec fn fresh_header(
    h: HeaderModel,
    vs: Seq<Value>,
    insert_tid: TransactionId,
    command_id: CommandId,
    tuple_id: TupleId,
) -> bool {
    &&& header_valid(h)
    &&& h.insert_tid == insert_tid
    &&& h.delete_tid == 0
    &&& h.command_id == command_id
    &&& h.tuple_id == tuple_id
    &&& h.column_count == vs.len()
    &&& flag_has_null(h.flags) == has_null_value(vs)
    &&& forall|i: int| 0 <= i < vs.len() ==> (bit_set(h.null_bitmap, i) <==> (#[trigger] vs[i]) is Null)
    &&& header_bytes(h).len() == HeapTupleHeader::required_size_spec(vs)
}

/// The stored form of a new version: a fresh header and the payload.
pub open spec fn is_tuple_image(
    b: Seq<u8>,
    vs: Seq<Value>,
    insert_tid: TransactionId,
    command_id: CommandId,
    tuple_id: TupleId,
) -> bool {
    exists|h: HeaderModel|
        fresh_header(h, vs, insert_tid, command_id, tuple_id) && b == #[trigger] header_bytes(h)
            + values_bytes(vs)
}

proof fn lemma_values_bytes_push(vs: Seq<Value>, i: int)
    requires
        0 <= i < vs.len(),
    ensures
        values_bytes(vs.subrange(0, i + 1)) == values_bytes(vs.subrange(0, i)) + value_bytes(vs[i]),
{
    assert(vs.subrange(0, i + 1).drop_last() =~= vs.subrange(0, i));
}

proof fn lemma_values_bytes_prefix_len(vs: Seq<Value>, i: int)
    requires
        0 <= i <= vs.len(),
    ensures
        values_bytes(vs.subrange(0, i)).len() <= values_bytes(vs).len(),
    decreases vs.len() - i,
{
    if i < vs.len() {
        lemma_values_bytes_push(vs, i);
        lemma_values_bytes_prefix_len(vs, i + 1);
    } else {
        assert(vs.subrange(0, i) =~= vs);
    }
}

/// Checks a tuple against the column types and the size limit; returns the
/// number of bytes it will occupy.
pub fn check_tuple(tuple: &Tuple, types: &Vec<TypeId>) -> (r: Result<usize, DbError>)
    requires
        1 <= types@.len() <= MAX_COLUMNS,
    ensures
        r is Ok <==> (values_match_types(tuple.values@, types@) && values_encodable(tuple.values@)
            && tuple_size(tuple.values@) <= MAX_TUPLE_SIZE),
        tuple.values@.len() != types@.len() ==> r == Err::<usize, DbError>(DbError::BadColumnCount),
        tuple.values@.len() == types@.len() && !values_match_types(tuple.values@, types@) ==> r
            == Err::<usize, DbError>(DbError::TypeMismatch),
        values_match_types(tuple.values@, types@) && r is Err ==> r == Err::<usize, DbError>(
            DbError::TupleTooLarge,
        ),
        r matches Ok(n) ==> n == tuple_size(tuple.values@),
{
    let n = tuple.values.len();
    if n != types.len() {
        return Err(DbError::BadColumnCount);
    }
    let mut i: usize = 0;
    while i < n
        invariant
            n == tuple.values@.len(),
            n == types@.len(),
            0 <= i <= n,
            forall|k: int| 0 <= k < i ==> value_has_type(#[trigger] tuple.values@[k], types@[k]),
        decreases n - i,
    {
        let ok = match (&tuple.values[i], types[i]) {
            (Value::Null, _) => true,
            (Value::Integer(_), TypeId::Integer) => true,
            (Value::Boolean(_), TypeId::Boolean) => true,
            (Value::String(_), TypeId::Text) => true,
            _ => false,
        };
        if !ok {
            return Err(DbError::TypeMismatch);
        }
        i = i + 1;
    }
    let header = HeapTupleHeader::required_free_space(tuple);
    let mut total: usize = header;
    let mut j: usize = 0;
    while j < n
        invariant
            n == tuple.values@.len(),
            n == types@.len(),
            forall|k: int| 0 <= k < n ==> value_has_type(#[trigger] tuple.values@[k], types@[k]),
            0 <= j <= n,
            header == HeapTupleHeader::required_size_spec(tuple.values@),
            header <= 48,
            total == header + values_bytes(tuple.values@.subrange(0, j as int)).len(),
            total <= MAX_TUPLE_SIZE,
            forall|k: int| 0 <= k < j ==> value_encodable(#[trigger] tuple.values@[k]),
        decreases n - j,
    {
        proof {
            lemma_values_bytes_push(tuple.values@, j as int);
        }
        match value_size(&tuple.values[j]) {
            None => {
                return Err(DbError::TupleTooLarge);
            },
            Some(s) => {
                if s > MAX_TUPLE_SIZE || total + s > MAX_TUPLE_SIZE {
                    proof {
                        lemma_values_bytes_prefix_len(tuple.values@, j + 1);
                    }
                    return Err(DbError::TupleTooLarge);
                }
                total = total + s;
            },
        }
        j = j + 1;
    }
    assert(tuple.values@.subrange(0, n as int) =~= tuple.values@);
    Ok(total)
}

/// The stored bytes of a new version of `tuple`: a fresh header, then the payload.
pub fn serialize_heap_tuple(
    tuple: &Tuple,
    insert_tid: TransactionId,
    command_id: CommandId,
    tuple_id: TupleId,
) -> (r: Vec<u8>)
    requires
        1 <= tuple.values@.len() <= MAX_COLUMNS,
        values_encodable(tuple.values@),
    ensures
        is_tuple_image(r@, tuple.values@, insert_tid, command_id, tuple_id),
        r@.len() == tuple_size(tuple.values@),
{
    let header = HeapTupleHeader::new_tuple(tuple, insert_tid, command_id, tuple_id);
    let mut out = header.to_bytes();
    let ghost hb = out@;
    let mut i: usize = 0;
    while i < tuple.values.len()
        invariant
            0 <= i <= tuple.values@.len(),
            values_encodable(tuple.values@),
            out@ == hb + values_bytes(tuple.values@.subrange(0, i as int)),
        decreases tuple.values@.len() - i,
    {
        proof {
            lemma_values_bytes_push(tuple.values@, i as int);
        }
        append_value(&mut out, &tuple.values[i]);
        proof {
            assert(out@ =~= hb + values_bytes(tuple.values@.subrange(0, i + 1)));
        }
        i = i + 1;
    }
    assert(tuple.values@.subrange(0, i as int) =~= tuple.values@);
    assert(fresh_header(header@, tuple.values@, insert_tid, command_id, tuple_id));
    out
}

/// Two sequences of values are the same, value by value.
pub open spec fn values_same(a: Seq<Value>, b: Seq<Value>) -> bool {
    &&& a.len() == b.len()
    &&& forall|i: int| 0 <= i < a.len() ==> value_same(#[trigger] a[i], b[i])
}

/// The payload of values `w`, typed by `types` and NULL where `bitmap` says,
/// stands in `data` from position `start`.
pub open spec fn payload_stored_at(
    data: Seq<u8>,
    start: int,
    w: Seq<Value>,
    types: Seq<TypeId>,
    bitmap: Seq<u8>,
) -> bool {
    &&& values_match_types(w, types)
    &&& values_encodable(w)
    &&& forall|i: int| 0 <= i < w.len() ==> ((#[trigger] w[i]) is Null <==> bit_set(bitmap, i))
    &&& 0 <= start
    &&& start + values_bytes(w).len() <= data.len()
    &&& data.subrange(start, start + values_bytes(w).len()) == values_bytes(w)
}

pub proof fn lemma_values_same_bytes(a: Seq<Value>, b: Seq<Value>)
    requires
        values_same(a, b),
    ensures
        values_bytes(a) == values_bytes(b),
    decreases a.len(),
{
    if a.len() > 0 {
        assert(values_same(a.drop_last(), b.drop_last())) by {
            assert forall|i: int| 0 <= i < a.drop_last().len() implies value_same(
                #[trigger] a.drop_last()[i],
                b.drop_last()[i],
            ) by {
                assert(value_same(a[i], b[i]));
            }
        }
        lemma_values_same_bytes(a.drop_last(), b.drop_last());
        assert(value_same(a[a.len() - 1], b[b.len() - 1]));
    }
}

proof fn lemma_values_bytes_prefix(w: Seq<Value>, j: int)
    requires
        0 <= j <= w.len(),
    ensures
        values_bytes(w.subrange(0, j)).len() <= values_bytes(w).len(),
        values_bytes(w).subrange(0, values_bytes(w.subrange(0, j)).len() as int) == values_bytes(
            w.subrange(0, j),
        ),
    decreases w.len() - j,
{
    if j == w.len() {
        assert(w.subrange(0, j) =~= w);
        assert(values_bytes(w).subrange(0, values_bytes(w).len() as int) =~= values_bytes(w));
    } else {
        lemma_values_bytes_prefix(w, j + 1);
        lemma_values_bytes_push(w, j);
        let p = values_bytes(w.subrange(0, j));
        let q = values_bytes(w.subrange(0, j + 1));
        assert(q.subrange(0, p.len() as int) =~= p);
        assert(values_bytes(w).subrange(0, p.len() as int) =~= q.subrange(0, p.len() as int));
    }
}

/// Where the payload of `w` is stored, the `i`th value stands right after the
/// first `i` values.
proof fn lemma_payload_step(data: Seq<u8>, start: int, w: Seq<Value>, types: Seq<TypeId>, bitmap: Seq<u8>, i: int)
    requires
        payload_stored_at(data, start, w, types, bitmap),
        0 <= i < w.len(),
    ensures
        value_stored_at(data, start + values_bytes(w.subrange(0, i)).len(), w[i]),
        values_bytes(w.subrange(0, i + 1)).len() == values_bytes(w.subrange(0, i)).len()
            + value_bytes(w[i]).len(),
{
    lemma_values_bytes_push(w, i);
    lemma_values_bytes_prefix(w, i + 1);
    let p = values_bytes(w.subrange(0, i));
    let v = value_bytes(w[i]);
    let all = values_bytes(w);
    let pl = p.len() as int;
    let e = pl + v.len();
    let at = start + pl;
    assert(all.subrange(pl, e) =~= v) by {
        assert(all.subrange(0, e) == p + v);
        assert(all.subrange(pl, e) =~= all.subrange(0, e).subrange(pl, e));
        assert((p + v).subrange(pl, e) =~= v);
    }
    assert(data.subrange(at, at + v.len()) =~= all.subrange(pl, e));
}

/// Reads the payload of a tuple whose header is `header`, starting at `start`.
/// Where the payload of typed values matching the header's null bitmap stands
/// there, those values are read back.
pub fn parse_heap_tuple(data: &[u8], start: usize, header: &HeapTupleHeader, types: &Vec<TypeId>) -> (r:
    Result<Vec<Value>, DbError>)
    requires
        start <= data@.len(),
        header.valid(),
        header@.column_count == types@.len(),
    ensures
        r matches Ok(vs) ==> {
            &&& values_match_types(vs@, types@)
            &&& values_encodable(vs@)
            &&& start + values_bytes(vs@).len() <= data@.len()
            &&& data@.subrange(start as int, start + values_bytes(vs@).len()) == values_bytes(vs@)
            &&& forall|i: int|
                0 <= i < vs@.len() ==> ((#[trigger] vs@[i]) is Null <==> bit_set(
                    header@.null_bitmap,
                    i,
                ))
        },
        r is Err ==> r == Err::<Vec<Value>, DbError>(DbError::MalformedData),
        forall|w: Seq<Value>|
            #[trigger] payload_stored_at(data@, start as int, w, types@, header@.null_bitmap) ==> r is Ok
                && values_same(r->Ok_0@, w),
{
    let n = types.len();
    let dl = data.len();
    let mut vs: Vec<Value> = Vec::new();
    let mut pos: usize = start;
    let mut i: usize = 0;
    while i < n
        invariant
            n == types@.len(),
            n == header@.column_count,
            header.valid(),
            0 <= i <= n,
            vs@.len() == i,
            start <= pos <= data@.len(),
            dl == data@.len(),
            pos == start + values_bytes(vs@).len(),
            data@.subrange(start as int, pos as int) == values_bytes(vs@),
            forall|k: int| 0 <= k < i ==> value_has_type(#[trigger] vs@[k], types@[k]),
            forall|k: int| 0 <= k < i ==> value_encodable(#[trigger] vs@[k]),
            forall|k: int| 0 <= k < i ==> ((#[trigger] vs@[k]) is Null <==> bit_set(header@.null_bitmap, k)),
            forall|w: Seq<Value>|
                #[trigger] payload_stored_at(data@, start as int, w, types@, header@.null_bitmap)
                    ==> values_same(vs@, w.subrange(0, i as int)),
        decreases n - i,
    {
        let null = header.is_null(i as u8);
        let ghost pre = vs@;
        proof {
            assert forall|w: Seq<Value>|
                #[trigger] payload_stored_at(data@, start as int, w, types@, header@.null_bitmap)
                    implies value_stored_at(data@, pos as int, w[i as int]) && value_has_type(
                    w[i as int],
                    types@[i as int],
                ) && (w[i as int] is Null <==> null) && value_encodable(w[i as int]) by {
                lemma_payload_step(data@, start as int, w, types@, header@.null_bitmap, i as int);
                lemma_values_same_bytes(pre, w.subrange(0, i as int));
            }
        }
        match parse_value(data, pos, types[i], null) {
            Err(e) => {
                proof {
                    assert forall|w: Seq<Value>|
                        #[trigger] payload_stored_at(data@, start as int, w, types@, header@.null_bitmap)
                            implies false by {
                        assert(value_stored_at(data@, pos as int, w[i as int]));
                    }
                }
                return Err(e);
            },
            Ok((v, len)) => {
                let ghost prev = vs@;
                proof {
                    assert(data@.subrange(start as int, pos + len) =~= data@.subrange(
                        start as int,
                        pos as int,
                    ) + data@.subrange(pos as int, pos + len));
                }
                vs.push(v);
                proof {
                    assert(vs@.drop_last() =~= prev);
                    assert forall|w: Seq<Value>|
                        #[trigger] payload_stored_at(data@, start as int, w, types@, header@.null_bitmap)
                            implies values_same(vs@, w.subrange(0, i + 1)) by {
                        assert(value_stored_at(data@, pos as int, w[i as int]));
                        assert(values_same(prev, w.subrange(0, i as int)));
                        assert forall|k: int| 0 <= k < i + 1 implies value_same(
                            #[trigger] vs@[k],
                            w.subrange(0, i + 1)[k],
                        ) by {
                            if k < i {
                                assert(vs@[k] == prev[k]);
                                assert(value_same(prev[k], w.subrange(0, i as int)[k]));
                            }
                        }
                    }
                }
                pos = pos + len;
            },
        }
        i = i + 1;
    }
    proof {
        assert forall|w: Seq<Value>|
            #[trigger] payload_stored_at(data@, start as int, w, types@, header@.null_bitmap)
                implies values_same(vs@, w) by {
            assert(w.subrange(0, n as int) =~= w);
        }
    }
    Ok(vs)
}

} // verus!
