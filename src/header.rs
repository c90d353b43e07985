use vstd::prelude::*;

use crate::codec::{from_le32, le32, lemma_from_le32_round_trip, lemma_le32_round_trip, read_u32, splice, write_bytes};
use crate::common::{CommandId, TransactionId, TupleId, MAX_COLUMNS};
use crate::tuple::{has_null_value, Tuple, Value};

verus! {

/// Bytes of a header before its null bitmap: insert tid (4), delete tid (4),
/// command id (1), tuple id (4 + 1), flags (1) and payload start (1).
pub const HEADER_CONSTANT_SIZE: usize = 16;

/// Flag bit that says the tuple holds NULL values and a null bitmap follows.
pub const HAS_NULL_FLAG: u8 = 1;

/// What a header states, with its null bitmap as a sequence of bytes.
pub struct HeaderModel {
    pub insert_tid: TransactionId,
    pub delete_tid: TransactionId,
    pub command_id: CommandId,
    pub tuple_id: TupleId,
    pub flags: u8,
    pub user_data_start: u8,
    pub null_bitmap: Seq<u8>,
    pub column_count: u8,
}

/// Per-tuple metadata stored in front of the payload.
pub struct HeapTupleHeader {
    /// the transaction that inserted this version
    pub insert_tid: TransactionId,
    /// the transaction that deleted or replaced this version; `0` while it is live
    pub delete_tid: TransactionId,
    /// the command of `insert_tid` that created this version
    pub command_id: CommandId,
    /// the newer version of this tuple, or this tuple itself
    pub tuple_id: TupleId,
    /// bit 0 set: the tuple holds NULL values and a null bitmap follows
    pub flags: u8,
    /// offset of the payload from the start of the header
    pub user_data_start: u8,
    /// bit `i` is set if column `i` is NULL
    pub null_bitmap: Vec<u8>,
    /// number of columns; not serialized
    pub column_count: u8,
}

impl View for HeapTupleHeader {
    type V = HeaderModel;

    open spec fn view(&self) -> HeaderModel {
        HeaderModel {
            insert_tid: self.insert_tid,
            delete_tid: self.delete_tid,
            command_id: self.command_id,
            tuple_id: self.tuple_id,
            flags: self.flags,
            user_data_start: self.user_data_start,
            null_bitmap: self.null_bitmap@,
            column_count: self.column_count,
        }
    }
}

pub open spec fn flag_has_null(flags: u8) -> bool {
    flags % 2 == 1
}

pub open spec fn bitmap_size(column_count: u8) -> int {
    (column_count - 1) / 8 + 1
}

/// Whether bit `i` of a bitmap is set.
pub open spec fn bit_set(bm: Seq<u8>, i: int) -> bool {
    (bm[i / 8] >> ((i % 8) as u8)) & 1u8 == 1u8
}

pub open spec fn zeros(n: int) -> Seq<u8> {
    Seq::new(n as nat, |i: int| 0u8)
}

/// Length of a serialized header with these flags.
pub open spec fn header_len(flags: u8, column_count: u8) -> int {
    HEADER_CONSTANT_SIZE + if flag_has_null(flags) {
        bitmap_size(column_count)
    } else {
        0
    }
}

/// The serialized form of a header.
pub open spec fn header_bytes(h: HeaderModel) -> Seq<u8> {
    le32(h.insert_tid) + le32(h.delete_tid) + seq![h.command_id] + le32(h.tuple_id.0) + seq![
        h.tuple_id.1,
    ] + seq![h.flags] + seq![h.user_data_start] + if flag_has_null(h.flags) {
        h.null_bitmap
    } else {
        Seq::empty()
    }
}

/// The header that bytes `b` describe for a tuple of `column_count` columns.
pub open spec fn parse_header(b: Seq<u8>, column_count: u8) -> HeaderModel {
    HeaderModel {
        insert_tid: from_le32(b.subrange(0, 4)),
        delete_tid: from_le32(b.subrange(4, 8)),
        command_id: b[8],
        tuple_id: (from_le32(b.subrange(9, 13)), b[13]),
        flags: b[14],
        user_data_start: b[15],
        null_bitmap: if flag_has_null(b[14]) {
            b.subrange(16, 16 + bitmap_size(column_count))
        } else {
            zeros(bitmap_size(column_count))
        },
        column_count,
    }
}

/// A header that serialization can carry: a supported column count, a bitmap of
/// the right size that is empty unless the NULL flag is set, and the payload
/// starting right after the header.
pub open spec fn header_valid(h: HeaderModel) -> bool {
    &&& 1 <= h.column_count <= MAX_COLUMNS
    &&& h.null_bitmap.len() == bitmap_size(h.column_count)
    &&& h.flags <= 1
    &&& !flag_has_null(h.flags) ==> h.null_bitmap == zeros(bitmap_size(h.column_count))
    &&& h.user_data_start == header_len(h.flags, h.column_count)
}

proof fn lemma_bit_test(b: u8, k: u8)
    by (bit_vector)
    requires
        k < 8,
    ensures
        ((b & (1u8 << k)) != 0u8) == ((b >> k) & 1u8 == 1u8),
{
}

proof fn lemma_bit_set(b: u8, k: u8, j: u8)
    by (bit_vector)
    requires
        k < 8,
        j < 8,
    ensures
        ((b | (1u8 << k)) >> j) & 1u8 == if j == k {
            1u8
        } else {
            (b >> j) & 1u8
        },
{
}

proof fn lemma_zero_bits(j: u8)
    by (bit_vector)
    requires
        j < 8,
    ensures
        (0u8 >> j) & 1u8 == 0u8,
{
}

/// Serializing a valid header and parsing it back gives the same header.
pub proof fn lemma_header_round_trip(h: HeaderModel)
    requires
        header_valid(h),
    ensures
        parse_header(header_bytes(h), h.column_count) == h,
        header_bytes(h).len() == header_len(h.flags, h.column_count),
{
    let s = header_bytes(h);
    assert(s.subrange(0, 4) =~= le32(h.insert_tid));
    assert(s.subrange(4, 8) =~= le32(h.delete_tid));
    assert(s.subrange(9, 13) =~= le32(h.tuple_id.0));
    lemma_le32_round_trip(h.insert_tid);
    lemma_le32_round_trip(h.delete_tid);
    lemma_le32_round_trip(h.tuple_id.0);
    assert(s[8] == h.command_id);
    assert(s[13] == h.tuple_id.1);
    assert(s[14] == h.flags);
    assert(s[15] == h.user_data_start);
    if flag_has_null(h.flags) {
        assert(s.subrange(16, 16 + bitmap_size(h.column_count)) =~= h.null_bitmap);
    }
    assert(parse_header(s, h.column_count).null_bitmap =~= h.null_bitmap);
}

/// Bytes that parse to a valid header are exactly the serialization of that header.
pub proof fn lemma_header_parse_serialize(b: Seq<u8>, column_count: u8)
    requires
        b.len() >= 16,
        b.len() == header_len(b[14], column_count),
        header_valid(parse_header(b, column_count)),
    ensures
        header_bytes(parse_header(b, column_count)) == b,
{
    let p = parse_header(b, column_count);
    lemma_from_le32_round_trip(b.subrange(0, 4));
    lemma_from_le32_round_trip(b.subrange(4, 8));
    lemma_from_le32_round_trip(b.subrange(9, 13));
    let tail = if flag_has_null(p.flags) {
        p.null_bitmap
    } else {
        Seq::empty()
    };
    assert(tail =~= b.subrange(16, b.len() as int));
    assert(b =~= b.subrange(0, 4) + b.subrange(4, 8) + seq![b[8]] + b.subrange(9, 13) + seq![b[13]]
        + seq![b[14]] + seq![b[15]] + b.subrange(16, b.len() as int));
}

/// Header serialization is a bijection between valid headers and the byte strings
/// that parse to valid headers, for every column count and null bitmap.
pub proof fn lemma_header_bijection(h: HeaderModel, b: Seq<u8>, column_count: u8)
    ensures
        header_valid(h) ==> parse_header(header_bytes(h), h.column_count) == h,
        b.len() >= 16 && b.len() == header_len(b[14], column_count) && header_valid(
            parse_header(b, column_count),
        ) ==> header_bytes(parse_header(b, column_count)) == b,
{
    if header_valid(h) {
        lemma_header_round_trip(h);
    }
    if b.len() >= 16 && b.len() == header_len(b[14], column_count) && header_valid(
        parse_header(b, column_count),
    ) {
        lemma_header_parse_serialize(b, column_count);
    }
}

fn has_null(flags: u8) -> (r: bool)
    ensures
        r == flag_has_null(flags),
{
    assert(((flags & 1u8) != 0u8) == (flags % 2 == 1)) by (bit_vector);
    (flags & HAS_NULL_FLAG) != 0
}

/// Returns the size in bytes of the null bitmap.
fn null_bitmap_size(column_count: u8) -> (r: u8)
    requires
        column_count >= 1,
    ensures
        r == bitmap_size(column_count),
        1 <= r <= 32,
{
    (column_count - 1) / 8 + 1
}

impl HeapTupleHeader {
    pub open spec fn valid(&self) -> bool {
        header_valid(self@)
    }

    /// Reads a header from the start of `bytes`.
    pub fn from_bytes(bytes: &[u8], column_count: u8) -> (r: Self)
        requires
            1 <= column_count,
            bytes@.len() >= 16,
            bytes@.len() >= header_len(bytes@[14], column_count),
        ensures
            r@ == parse_header(bytes@, column_count),
    {
        let r = Self::from_bytes_at(bytes, 0, column_count);
        assert(bytes@.subrange(0, bytes@.len() as int) =~= bytes@);
        r
    }

    /// Reads a header that starts at position `at` of `data`.
    pub fn from_bytes_at(data: &[u8], at: usize, column_count: u8) -> (r: Self)
        requires
            1 <= column_count,
            at + 16 <= data@.len(),
            at + header_len(data@[at + 14], column_count) <= data@.len(),
        ensures
            r@ == parse_header(data@.subrange(at as int, data@.len() as int), column_count),
    {
        let ghost b = data@.subrange(at as int, data@.len() as int);
        let dl = data.len();
        let insert_tid = read_u32(data, at);
        let delete_tid = read_u32(data, at + 4);
        let command_id = data[at + 8];
        let page_no = read_u32(data, at + 9);
        let slot = data[at + 13];
        let flags = data[at + 14];
        let user_data_start = data[at + 15];
        let size = null_bitmap_size(column_count) as usize;
        let mut null_bitmap: Vec<u8> = Vec::new();
        let mut i: usize = 0;
        let copy = has_null(flags);
        while i < size
            invariant
                0 <= i <= size,
                size == bitmap_size(column_count),
                copy == flag_has_null(flags),
                at + 16 <= dl,
                dl == data@.len(),
                flags == data@[at + 14],
                copy ==> at + 16 + size <= data@.len(),
                copy ==> null_bitmap@ =~= data@.subrange(at + 16, at + 16 + i),
                !copy ==> null_bitmap@ =~= zeros(i as int),
            decreases size - i,
        {
            if copy {
                null_bitmap.push(data[at + 16 + i]);
            } else {
                null_bitmap.push(0);
            }
            i = i + 1;
        }
        proof {
            assert(b.subrange(0, 4) =~= data@.subrange(at as int, at + 4));
            assert(b.subrange(4, 8) =~= data@.subrange(at + 4, at + 8));
            assert(b.subrange(9, 13) =~= data@.subrange(at + 9, at + 13));
            if copy {
                assert(b.subrange(16, 16 + bitmap_size(column_count)) =~= null_bitmap@);
            }
        }
        Self {
            insert_tid,
            delete_tid,
            command_id,
            tuple_id: (page_no, slot),
            flags,
            user_data_start,
            null_bitmap,
            column_count,
        }
    }

    /// A fresh header for `tuple`, inserted by `insert_tid` at command `command_id`
    /// and stored at `tuple_id`.
    pub fn new_tuple(tuple: &Tuple, insert_tid: TransactionId, command_id: u8, tuple_id: TupleId) -> (r:
        Self)
        requires
            1 <= tuple.values@.len() <= MAX_COLUMNS,
        ensures
            r.valid(),
            header_bytes(r@).len() == HeapTupleHeader::required_size_spec(tuple.values@),
            r.insert_tid == insert_tid,
            r.delete_tid == 0,
            r.command_id == command_id,
            r.tuple_id == tuple_id,
            r@.column_count == tuple.values@.len(),
            flag_has_null(r@.flags) == has_null_value(tuple.values@),
            forall|i: int|
                0 <= i < tuple.values@.len() ==> (bit_set(r@.null_bitmap, i) <==> (
                #[trigger] tuple.values@[i]) is Null),
    {
        let n = tuple.values.len();
        let column_count = n as u8;
        let size = null_bitmap_size(column_count) as usize;
        let mut null_bitmap: Vec<u8> = Vec::new();
        let mut k: usize = 0;
        while k < size
            invariant
                0 <= k <= size,
                null_bitmap@ =~= zeros(k as int),
            decreases size - k,
        {
            null_bitmap.push(0);
            k = k + 1;
        }
        let mut flags: u8 = 0;
        let mut column: usize = 0;
        proof {
            assert forall|j: int| 0 <= j < 8 * size implies !#[trigger] bit_set(null_bitmap@, j) by {
                lemma_zero_bits((j % 8) as u8);
            }
        }
        while column < n
            invariant
                n == tuple.values@.len(),
                1 <= n <= MAX_COLUMNS,
                column_count == n,
                size == bitmap_size(column_count),
                0 <= column <= n,
                null_bitmap@.len() == size,
                flags <= 1,
                flags == 0 ==> null_bitmap@ == zeros(size as int),
                (flags == 1) == (exists|j: int| 0 <= j < column && (#[trigger] tuple.values@[j]) is Null),
                forall|j: int|
                    0 <= j < column ==> (bit_set(null_bitmap@, j) <==> (
                    #[trigger] tuple.values@[j]) is Null),
                forall|j: int| column <= j < 8 * size ==> !#[trigger] bit_set(null_bitmap@, j),
            decreases n - column,
        {
            if tuple.values[column].is_null() {
                flags = HAS_NULL_FLAG;
                let byte_index = column / 8;
                let bit = (column % 8) as u8;
                let old_byte = null_bitmap[byte_index];
                let ghost old_bm = null_bitmap@;
                null_bitmap.set(byte_index, old_byte | (1u8 << bit));
                proof {
                    assert forall|j: int| 0 <= j < 8 * size implies #[trigger] bit_set(null_bitmap@, j)
                        == if j == column {
                        true
                    } else {
                        bit_set(old_bm, j)
                    } by {
                        if j / 8 == byte_index as int {
                            lemma_bit_set(old_byte, bit, (j % 8) as u8);
                        }
                    }
                }
            }
            column = column + 1;
        }
        let user_data_start = if has_null(flags) {
            HEADER_CONSTANT_SIZE as u8 + size as u8
        } else {
            HEADER_CONSTANT_SIZE as u8
        };
        let r = Self {
            insert_tid,
            delete_tid: 0,
            command_id,
            tuple_id,
            flags,
            user_data_start,
            null_bitmap,
            column_count,
        };
        proof {
            lemma_header_round_trip(r@);
        }
        r
    }

    /// The serialized bytes of this header.
    pub fn to_bytes(&self) -> (r: Vec<u8>)
        requires
            self.valid(),
        ensures
            r@ == header_bytes(self@),
    {
        let mut out: Vec<u8> = Vec::new();
        let v = [self.insert_tid, self.delete_tid];
        let mut k: usize = 0;
        while k < 2
            invariant
                0 <= k <= 2,
                v@ == seq![self.insert_tid, self.delete_tid],
                out@ =~= if k == 0 {
                    Seq::empty()
                } else if k == 1 {
                    le32(self.insert_tid)
                } else {
                    le32(self.insert_tid) + le32(self.delete_tid)
                },
            decreases 2 - k,
        {
            let u = v[k];
            out.push((u % 256) as u8);
            out.push(((u / 256) % 256) as u8);
            out.push(((u / 65536) % 256) as u8);
            out.push((u / 16777216) as u8);
            k = k + 1;
        }
        out.push(self.command_id);
        let p = self.tuple_id.0;
        out.push((p % 256) as u8);
        out.push(((p / 256) % 256) as u8);
        out.push(((p / 65536) % 256) as u8);
        out.push((p / 16777216) as u8);
        out.push(self.tuple_id.1);
        out.push(self.flags);
        out.push(self.user_data_start);
        let ghost fixed = out@;
        if has_null(self.flags) {
            let mut i: usize = 0;
            while i < self.null_bitmap.len()
                invariant
                    0 <= i <= self.null_bitmap@.len(),
                    out@ =~= fixed + self.null_bitmap@.subrange(0, i as int),
                decreases self.null_bitmap@.len() - i,
            {
                out.push(self.null_bitmap[i]);
                i = i + 1;
            }
            assert(self.null_bitmap@.subrange(0, i as int) =~= self.null_bitmap@);
        }
        assert(out@ =~= header_bytes(self@));
        out
    }

    /// Serializes the header into `buffer` from position `at`.
    pub fn serialize(&self, buffer: &mut Vec<u8>, at: usize)
        requires
            self.valid(),
            at + header_len(self@.flags, self@.column_count) <= old(buffer)@.len(),
        ensures
            final(buffer)@ == splice(old(buffer)@, at as int, header_bytes(self@)),
    {
        let bytes = self.to_bytes();
        proof {
            lemma_header_round_trip(self@);
        }
        write_bytes(buffer, at, bytes.as_slice());
    }

    pub fn user_data_start(&self) -> (r: usize)
        ensures
            r == self.user_data_start,
    {
        self.user_data_start as usize
    }

    pub fn column_count(&self) -> (r: u8)
        ensures
            r == self.column_count,
    {
        self.column_count
    }

    /// Returns whether the tuple contains NULL values.
    pub fn has_null(&self) -> (r: bool)
        ensures
            r == flag_has_null(self.flags),
    {
        has_null(self.flags)
    }

    /// Returns whether column `column` of the tuple is NULL.
    pub fn is_null(&self, column: u8) -> (r: bool)
        requires
            self.valid(),
            column < self@.column_count,
        ensures
            r == bit_set(self@.null_bitmap, column as int),
    {
        let byte = self.null_bitmap[(column / 8) as usize];
        let bit = column % 8;
        let mask: u8 = 1u8 << bit;
        proof {
            lemma_bit_test(byte, bit);
        }
        (byte & mask) != 0
    }

    /// Size of the serialized header of a tuple with these values.
    pub open spec fn required_size_spec(vs: Seq<Value>) -> int {
        HEADER_CONSTANT_SIZE + if has_null_value(vs) {
            bitmap_size(vs.len() as u8)
        } else {
            0
        }
    }

    /// The number of bytes a header of `tuple` occupies when serialized.
    pub fn required_free_space(tuple: &Tuple) -> (r: usize)
        requires
            1 <= tuple.values@.len() <= MAX_COLUMNS,
        ensures
            r == Self::required_size_spec(tuple.values@),
    {
        if tuple.has_null() {
            HEADER_CONSTANT_SIZE + null_bitmap_size(tuple.values.len() as u8) as usize
        } else {
            HEADER_CONSTANT_SIZE
        }
    }

    /// Marks this version as replaced by `delete_tid` with its newer version at `tuple_id`.
    pub fn set_deleted(&mut self, delete_tid: TransactionId, tuple_id: TupleId)
        ensures
            final(self)@ == (HeaderModel { delete_tid, tuple_id, ..old(self)@ }),
    {
        self.delete_tid = delete_tid;
        self.tuple_id = tuple_id;
    }
}

} // verus!
