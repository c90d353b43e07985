use vstd::prelude::*;

use crate::codec::{copy_bytes, lemma_splice, splice};
use crate::common::{DbError, PageNo, TableId, TransactionId, TupleId, MAX_COLUMNS, PAGE_SIZE};
use crate::concurrency::{
    visible, Snapshot, Transaction, TransactionManager, TransactionStatus, INVALID_TRANSACTION_ID,
};
use crate::header::{
    header_bytes, header_len, header_valid, lemma_header_round_trip, parse_header, HeaderModel,
    HeapTupleHeader, HEADER_CONSTANT_SIZE,
};
use crate::heap_tuple::{
    check_tuple, fresh_header, is_tuple_image, lemma_values_same_bytes, parse_heap_tuple,
    payload_stored_at,
    serialize_heap_tuple, tuple_size, values_encodable, values_match_types, values_same,
    MAX_TUPLE_SIZE,
};
use crate::page::{
    add_tuple, empty_page, fits, free_space, lemma_page_add, lemma_page_overwrite, page_add,
    page_slots, page_valid, slot_bytes, slot_count, slot_offset, slot_size, tuple_slot,
    MAX_SLOTS, PAGE_HEADER_SIZE, TUPLE_SLOT_SIZE,
};
use crate::tuple::{values_bytes, Schema, Tuple, TypeId, Value};

verus! {

/// Outcome of an attempt to update or delete a tuple.
#[derive(Clone, Copy, Debug, PartialEq, Eq)]
pub enum HeapTupleUpdateResult {
    /// the tuple can be, or was, changed by the current transaction
    Success,
    /// the current transaction already replaced or deleted it
    SelfUpdated,
    /// a committed transaction deleted it
    Deleted,
    /// a committed transaction replaced it; the newer version is there
    Updated(TupleId),
    /// a running transaction is changing it: wait for that one to end and try again
    BeingModified,
}

/// How an update or delete by `tid` of the version with header `h`, reached as
/// `original_id`, is classified. An id without a recorded final status counts as
/// aborted.
pub open spec fn update_check(
    h: HeaderModel,
    original_id: TupleId,
    tid: TransactionId,
    status: spec_fn(TransactionId) -> TransactionStatus,
) -> HeapTupleUpdateResult {
    if status(h.insert_tid) != TransactionStatus::Committed {
        HeapTupleUpdateResult::Success
    } else if h.delete_tid == INVALID_TRANSACTION_ID {
        HeapTupleUpdateResult::Success
    } else if h.delete_tid == tid {
        HeapTupleUpdateResult::SelfUpdated
    } else {
        match status(h.delete_tid) {
            TransactionStatus::Committed => if h.tuple_id == original_id {
                HeapTupleUpdateResult::Deleted
            } else {
                HeapTupleUpdateResult::Updated(h.tuple_id)
            },
            TransactionStatus::InProgress => HeapTupleUpdateResult::BeingModified,
            TransactionStatus::Aborted | TransactionStatus::Invalid => HeapTupleUpdateResult::Success,
        }
    }
}

/// Of two transactions that try to change the same live version, the first gets
/// `Success`. Once it has marked the version, the second is told to wait while
/// the first runs, and after the first commits it sees `Deleted` (version deleted
/// in place) or `Updated` with the newer version's place; it never gets `Success`.
pub proof fn lemma_first_updater_wins(
    h: HeaderModel,
    original_id: TupleId,
    new_id: TupleId,
    first: TransactionId,
    second: TransactionId,
    running: spec_fn(TransactionId) -> TransactionStatus,
    after_commit: spec_fn(TransactionId) -> TransactionStatus,
)
    requires
        h.delete_tid == INVALID_TRANSACTION_ID,
        running(h.insert_tid) == TransactionStatus::Committed,
        after_commit(h.insert_tid) == TransactionStatus::Committed,
        first != second,
        first != INVALID_TRANSACTION_ID,
        running(first) == TransactionStatus::InProgress,
        after_commit(first) == TransactionStatus::Committed,
    ensures
        update_check(h, original_id, first, running) == HeapTupleUpdateResult::Success,
        update_check(
            HeaderModel { delete_tid: first, tuple_id: new_id, ..h },
            original_id,
            second,
            running,
        ) == HeapTupleUpdateResult::BeingModified,
        update_check(
            HeaderModel { delete_tid: first, tuple_id: new_id, ..h },
            original_id,
            second,
            after_commit,
        ) == if new_id == original_id {
            HeapTupleUpdateResult::Deleted
        } else {
            HeapTupleUpdateResult::Updated(new_id)
        },
{
}

/// Whether the bytes of a slot begin with a complete, valid header.
pub open spec fn slot_header_ok(b: Seq<u8>, column_count: u8) -> bool {
    &&& b.len() >= HEADER_CONSTANT_SIZE
    &&& b.len() >= header_len(b[14], column_count)
    &&& header_valid(parse_header(b, column_count))
}

/// A well-formed heap page whose every slot starts with a valid header.
pub open spec fn heap_page_ok(p: Seq<u8>, column_count: u8) -> bool {
    &&& page_valid(p, HEADER_CONSTANT_SIZE as int)
    &&& forall|i: int|
        0 <= i < slot_count(p) ==> #[trigger] slot_header_ok(slot_bytes(p, i), column_count)
}

/// The slot's payload, after its header, holds values of the column types whose
/// NULLs are those the header's bitmap marks.
pub open spec fn slot_payload_ok(b: Seq<u8>, types: Seq<TypeId>) -> bool {
    let h = parse_header(b, types.len() as u8);
    exists|w: Seq<Value>|
        #[trigger] payload_stored_at(b, h.user_data_start as int, w, types, h.null_bitmap)
}

/// `vs` are the values stored in the slot with bytes `b`: their payload stands
/// after the header, and any values whose payload stands there are the same.
pub open spec fn slot_holds_values(b: Seq<u8>, types: Seq<TypeId>, vs: Seq<Value>) -> bool {
    let h = parse_header(b, types.len() as u8);
    &&& payload_stored_at(b, h.user_data_start as int, vs, types, h.null_bitmap)
    &&& forall|w: Seq<Value>|
        #[trigger] payload_stored_at(b, h.user_data_start as int, w, types, h.null_bitmap)
            ==> values_same(vs, w)
}

/// Every slot of the table holds a well-formed payload.
pub open spec fn all_payloads_ok(pages: Seq<Seq<u8>>, types: Seq<TypeId>) -> bool {
    forall|id: TupleId|
        #[trigger] table_slot(pages, id) is Some ==> slot_payload_ok(table_slot(pages, id)->Some_0, types)
}

/// Payloads stay well formed when only slots `a` and `b` change and those two
/// are well formed.
proof fn lemma_payloads_frame(
    before: Seq<Seq<u8>>,
    after: Seq<Seq<u8>>,
    a: TupleId,
    b: TupleId,
    types: Seq<TypeId>,
)
    requires
        all_payloads_ok(before, types),
        slots_unchanged_except(before, after, a, b),
        table_slot(after, a) is Some ==> slot_payload_ok(table_slot(after, a)->Some_0, types),
        table_slot(after, b) is Some ==> slot_payload_ok(table_slot(after, b)->Some_0, types),
    ensures
        all_payloads_ok(after, types),
{
    assert forall|id: TupleId| #[trigger] table_slot(after, id) is Some implies slot_payload_ok(
        table_slot(after, id)->Some_0,
        types,
    ) by {
        if id != a && id != b {
            assert(table_slot(after, id) == table_slot(before, id));
        }
    }
}

/// The bytes stored under `id`, if that slot exists.
pub open spec fn table_slot(pages: Seq<Seq<u8>>, id: TupleId) -> Option<Seq<u8>> {
    if 1 <= id.0 <= pages.len() && (id.1 as int) < slot_count(pages[id.0 - 1]) {
        Some(slot_bytes(pages[id.0 - 1], id.1 as int))
    } else {
        None
    }
}

/// The header stored under `id`.
pub open spec fn table_header(pages: Seq<Seq<u8>>, id: TupleId, column_count: u8) -> HeaderModel {
    parse_header(table_slot(pages, id)->Some_0, column_count)
}

/// Every slot other than `a` and `b` is as it was.
pub open spec fn slots_unchanged_except(
    before: Seq<Seq<u8>>,
    after: Seq<Seq<u8>>,
    a: TupleId,
    b: TupleId,
) -> bool {
    forall|id: TupleId| id != a && id != b ==> #[trigger] table_slot(after, id) == table_slot(before, id)
}

/// Whether the version stored under `id` is visible in `snap`.
pub open spec fn visible_at(
    pages: Seq<Seq<u8>>,
    column_count: u8,
    snap: Snapshot,
    status: spec_fn(TransactionId) -> TransactionStatus,
    id: TupleId,
) -> bool {
    match table_slot(pages, id) {
        Some(b) => {
            let h = parse_header(b, column_count);
            visible(snap, status, h.insert_tid, h.command_id, h.delete_tid)
        },
        None => false,
    }
}

/// Where a new version of `size` bytes goes: on page index `preferred` if given
/// and it has room, else on the last page if it has room, else as slot 0 of a new
/// page; `None` when that would need a page number that does not fit.
pub open spec fn placement(pages: Seq<Seq<u8>>, preferred: Option<int>, size: int) -> Option<TupleId> {
    if preferred is Some && fits(pages[preferred->Some_0], size) {
        Some(((preferred->Some_0 + 1) as u32, slot_count(pages[preferred->Some_0]) as u8))
    } else if pages.len() > 0 && preferred != Some(pages.len() - 1) && fits(pages.last(), size) {
        Some((pages.len() as u32, slot_count(pages.last()) as u8))
    } else if pages.len() + 1 < u32::MAX {
        Some(((pages.len() + 1) as u32, 0u8))
    } else {
        None
    }
}

/// `a` comes no later than `b` in scan order (page, then slot).
pub open spec fn pos_le(a: (PageNo, u8), b: TupleId) -> bool {
    a.0 < b.0 || (a.0 == b.0 && a.1 <= b.1)
}

proof fn lemma_parse_header_prefix(b: Seq<u8>, c: Seq<u8>, column_count: u8)
    requires
        b.len() >= HEADER_CONSTANT_SIZE,
        b.len() >= header_len(b[14], column_count),
        c.len() >= b.len(),
        c.subrange(0, b.len() as int) == b,
    ensures
        parse_header(c, column_count) == parse_header(b, column_count),
{
    assert(c[14] == b[14]);
    assert(c[8] == b[8]);
    assert(c[13] == b[13]);
    assert(c[15] == b[15]);
    assert(c.subrange(0, 4) =~= b.subrange(0, 4));
    assert(c.subrange(4, 8) =~= b.subrange(4, 8));
    assert(c.subrange(9, 13) =~= b.subrange(9, 13));
    assert(parse_header(c, column_count).null_bitmap =~= parse_header(b, column_count).null_bitmap);
}

/// A freshly serialized version starts with a valid header that reads back as
/// the one written.
proof fn lemma_image_header(b: Seq<u8>, vs: Seq<Value>, it: TransactionId, cid: u8, id: TupleId)
    requires
        is_tuple_image(b, vs, it, cid, id),
    ensures
        slot_header_ok(b, vs.len() as u8),
        fresh_header(parse_header(b, vs.len() as u8), vs, it, cid, id),
        b.len() >= header_bytes(parse_header(b, vs.len() as u8)).len(),
        b.subrange(0, header_bytes(parse_header(b, vs.len() as u8)).len() as int) == header_bytes(
            parse_header(b, vs.len() as u8),
        ),
{
    let h = choose|h: HeaderModel|
        fresh_header(h, vs, it, cid, id) && b == #[trigger] header_bytes(h) + values_bytes(vs);
    lemma_header_round_trip(h);
    let hb = header_bytes(h);
    assert(b.subrange(0, hb.len() as int) =~= hb);
    assert(b[14] == hb[14]);
    lemma_parse_header_prefix(hb, b, h.column_count);
}

/// A freshly serialized version holds its values as payload.
proof fn lemma_image_payload(
    b: Seq<u8>,
    vs: Seq<Value>,
    it: TransactionId,
    cid: u8,
    id: TupleId,
    types: Seq<TypeId>,
)
    requires
        is_tuple_image(b, vs, it, cid, id),
        values_match_types(vs, types),
        values_encodable(vs),
    ensures
        slot_payload_ok(b, types),
{
    let c = vs.len() as u8;
    let h = choose|h: HeaderModel|
        fresh_header(h, vs, it, cid, id) && b == #[trigger] header_bytes(h) + values_bytes(vs);
    lemma_header_round_trip(h);
    let hb = header_bytes(h);
    assert(b.subrange(0, hb.len() as int) =~= hb);
    assert(b[14] == hb[14]);
    lemma_parse_header_prefix(hb, b, c);
    let u = hb.len() as int;
    assert(b.subrange(u, u + values_bytes(vs).len()) =~= values_bytes(vs));
    assert(payload_stored_at(b, u, vs, types, h.null_bitmap));
}

/// Rewriting a slot's header, with its flags and null bitmap kept, keeps its payload.
proof fn lemma_overwrite_payload(b: Seq<u8>, h: HeaderModel, types: Seq<TypeId>)
    requires
        slot_payload_ok(b, types),
        slot_header_ok(b, types.len() as u8),
        header_valid(h),
        h.column_count == types.len() as u8,
        h.flags == parse_header(b, types.len() as u8).flags,
        h.null_bitmap == parse_header(b, types.len() as u8).null_bitmap,
    ensures
        slot_payload_ok(splice(b, 0, header_bytes(h)), types),
{
    let c = types.len() as u8;
    let old_h = parse_header(b, c);
    let w = choose|w: Seq<Value>|
        #[trigger] payload_stored_at(b, old_h.user_data_start as int, w, types, old_h.null_bitmap);
    lemma_header_overwrite(b, h, c);
    let nb = splice(b, 0, header_bytes(h));
    lemma_splice(b, 0, header_bytes(h));
    let u = old_h.user_data_start as int;
    let l = values_bytes(w).len() as int;
    assert(nb.subrange(u, u + l) =~= b.subrange(u, u + l));
    assert(payload_stored_at(nb, u, w, types, h.null_bitmap));
}

/// A payload stored in a slot is stored in its page, at the slot's offset.
proof fn lemma_payload_in_page(
    page: Seq<u8>,
    off: int,
    size: int,
    u: int,
    w: Seq<Value>,
    types: Seq<TypeId>,
    bitmap: Seq<u8>,
)
    requires
        0 <= off,
        0 <= size,
        off + size <= page.len(),
        payload_stored_at(page.subrange(off, off + size), u, w, types, bitmap),
    ensures
        payload_stored_at(page, off + u, w, types, bitmap),
{
    let l = values_bytes(w).len() as int;
    assert(page.subrange(off + u, off + u + l) =~= page.subrange(off, off + size).subrange(u, u + l));
}

/// Overwriting the header of a slot with a valid header of the same length.
proof fn lemma_header_overwrite(b: Seq<u8>, h: HeaderModel, column_count: u8)
    requires
        slot_header_ok(b, column_count),
        header_valid(h),
        h.column_count == column_count,
        h.flags == parse_header(b, column_count).flags,
    ensures
        header_bytes(h).len() <= b.len(),
        slot_header_ok(splice(b, 0, header_bytes(h)), column_count),
        parse_header(splice(b, 0, header_bytes(h)), column_count) == h,
{
    lemma_header_round_trip(h);
    let hb = header_bytes(h);
    let nb = splice(b, 0, hb);
    lemma_splice(b, 0, hb);
    assert(nb.subrange(0, hb.len() as int) =~= hb);
    assert(hb[14] == h.flags);
    lemma_parse_header_prefix(hb, nb, column_count);
}

/// A copy of a heap page after adding the image of a new version.
#[verifier::rlimit(40)]
proof fn lemma_heap_page_add(p: Seq<u8>, b: Seq<u8>, column_count: u8)
    requires
        heap_page_ok(p, column_count),
        fits(p, b.len() as int),
        slot_header_ok(b, column_count),
    ensures
        heap_page_ok(page_add(p, b), column_count),
{
    lemma_page_add(p, b, HEADER_CONSTANT_SIZE as int);
    let q = page_add(p, b);
    assert forall|i: int| 0 <= i < slot_count(q) implies #[trigger] slot_header_ok(
        slot_bytes(q, i),
        column_count,
    ) by {
        if i < slot_count(p) {
            assert(slot_offset(q, i) == slot_offset(p, i));
            assert(slot_bytes(q, i) == slot_bytes(p, i));
        }
    }
}

/// Overwriting the start of slot `s` of page index `k` keeps every page a heap
/// page; that slot reads the new bytes and every other slot keeps its bytes.
proof fn lemma_table_overwrite(before: Seq<Seq<u8>>, k: int, s: int, hb: Seq<u8>, c: u8)
    requires
        0 <= k < before.len(),
        heap_page_ok(before[k], c),
        0 <= s < slot_count(before[k]),
        hb.len() <= slot_size(before[k], s),
        slot_header_ok(splice(slot_bytes(before[k], s), 0, hb), c),
    ensures
        heap_page_ok(splice(before[k], slot_offset(before[k], s), hb), c),
        slot_bytes(splice(before[k], slot_offset(before[k], s), hb), s) == splice(
            slot_bytes(before[k], s),
            0,
            hb,
        ),
        forall|other: TupleId|
            other != ((k + 1) as u32, s as u8) ==> #[trigger] table_slot(
                before.update(k, splice(before[k], slot_offset(before[k], s), hb)),
                other,
            ) == table_slot(before, other),
{
    let p = before[k];
    let q = splice(p, slot_offset(p, s), hb);
    lemma_page_overwrite(p, HEADER_CONSTANT_SIZE as int, s, 0, hb);
    assert(q == splice(p, slot_offset(p, s) + 0, hb));
    assert forall|i: int| 0 <= i < slot_count(q) implies #[trigger] slot_header_ok(
        slot_bytes(q, i),
        c,
    ) by {
        if i != s {
            assert(slot_bytes(q, i) == slot_bytes(p, i));
        }
    }
    let after = before.update(k, q);
    assert forall|other: TupleId| other != ((k + 1) as u32, s as u8) implies #[trigger] table_slot(
        after,
        other,
    ) == table_slot(before, other) by {
        if 1 <= other.0 <= before.len() && other.0 - 1 == k {
            if (other.1 as int) < slot_count(p) {
                assert(slot_bytes(q, other.1 as int) == slot_bytes(p, other.1 as int));
            }
        }
    }
}

/// Tries to place a new version of `tuple` on the page `buffer`, whose number is
/// `page_no`. Returns the slot, or `None` if the page has no room.
fn insert_tuple(
    buffer: &mut Vec<u8>,
    tuple_size: usize,
    page_no: PageNo,
    tuple: &Tuple,
    transaction: &Transaction,
) -> (r: Option<u8>)
    requires
        heap_page_ok(old(buffer)@, tuple.values@.len() as u8),
        1 <= tuple.values@.len() <= MAX_COLUMNS,
        values_encodable(tuple.values@),
        tuple_size == crate::heap_tuple::tuple_size(tuple.values@),
        tuple_size <= MAX_TUPLE_SIZE,
    ensures
        r is Some <==> fits(old(buffer)@, tuple_size as int),
        r is None ==> final(buffer)@ == old(buffer)@,
        r matches Some(s) ==> {
            &&& s == slot_count(old(buffer)@)
            &&& heap_page_ok(final(buffer)@, tuple.values@.len() as u8)
            &&& final(buffer)@ == page_add(old(buffer)@, slot_bytes(final(buffer)@, s as int))
            &&& is_tuple_image(
                slot_bytes(final(buffer)@, s as int),
                tuple.values@,
                transaction.snapshot().tid,
                transaction.snapshot().command_id,
                (page_no, s),
            )
        },
{
    let slots = page_slots(buffer.as_slice());
    if slots as usize >= MAX_SLOTS {
        return None;
    }
    let ts = crate::codec::read_u16(buffer.as_slice(), 2);
    let used = PAGE_HEADER_SIZE + TUPLE_SLOT_SIZE * slots as usize;
    let free = ts as usize - used;
    if tuple_size > free || free - tuple_size < TUPLE_SLOT_SIZE {
        return None;
    }
    let slot = slots as u8;
    let bytes = serialize_heap_tuple(tuple, transaction.tid(), transaction.command_id(), (page_no, slot));
    let ghost old_page = buffer@;
    let r = add_tuple(buffer, bytes.as_slice());
    proof {
        lemma_image_header(bytes@, tuple.values@, transaction.snapshot().tid, transaction.snapshot().command_id, (page_no, slot));
        lemma_page_add(old_page, bytes@, HEADER_CONSTANT_SIZE as int);
        lemma_heap_page_add(old_page, bytes@, tuple.values@.len() as u8);
    }
    r
}

/// A scan over a table in page and slot order, from a position up to a last page.
pub struct HeapTupleIterator {
    curr_page_no: PageNo,
    max_page_no: PageNo,
    curr_slot: u8,
}

/// A table stored as slotted heap pages; page `n` is `pages[n - 1]`.
pub struct Table {
    table_id: TableId,
    schema: Schema,
    types: Vec<TypeId>,
    pages: Vec<Vec<u8>>,
}

impl Table {
    pub closed spec fn pages_view(&self) -> Seq<Seq<u8>> {
        self.pages@.map_values(|p: Vec<u8>| p@)
    }

    pub closed spec fn column_count(&self) -> u8 {
        self.types@.len() as u8
    }

    pub closed spec fn column_types(&self) -> Seq<TypeId> {
        self.types@
    }

    pub closed spec fn spec_table_id(&self) -> TableId {
        self.table_id
    }

    /// The column types follow the schema, there are between one and
    /// `MAX_COLUMNS` of them, page numbers fit, every page is a well-formed heap
    /// page, and every slot's payload holds values of the column types.
    pub closed spec fn wf(&self) -> bool {
        &&& 1 <= self.types@.len() <= MAX_COLUMNS
        &&& self.types@ == self.schema.types()
        &&& self.pages@.len() < u32::MAX
        &&& forall|k: int|
            0 <= k < self.pages@.len() ==> #[trigger] heap_page_ok(
                self.pages@[k]@,
                self.types@.len() as u8,
            )
        &&& all_payloads_ok(self.pages_view(), self.types@)
    }

    pub fn new(table_id: TableId, schema: Schema) -> (r: Self)
        requires
            1 <= schema.columns@.len() <= MAX_COLUMNS,
        ensures
            r.wf(),
            r.pages_view() == Seq::<Seq<u8>>::empty(),
            r.column_types() == schema.types(),
            r.spec_table_id() == table_id,
    {
        let mut types: Vec<TypeId> = Vec::new();
        let mut i: usize = 0;
        while i < schema.columns.len()
            invariant
                0 <= i <= schema.columns@.len(),
                types@ =~= schema.types().subrange(0, i as int),
            decreases schema.columns@.len() - i,
        {
            types.push(schema.columns[i].type_id);
            i = i + 1;
        }
        assert(types@ =~= schema.types());
        let r = Self { table_id, schema, types, pages: Vec::new() };
        assert(r.pages_view() =~= Seq::<Seq<u8>>::empty());
        r
    }

    pub fn schema(&self) -> (r: &Schema)
        requires
            self.wf(),
        ensures
            r.types() == self.column_types(),
    {
        &self.schema
    }

    pub fn table_id(&self) -> (r: TableId)
        ensures
            r == self.spec_table_id(),
    {
        self.table_id
    }

    /// The pages, for writing them out.
    pub fn pages(&self) -> (r: &Vec<Vec<u8>>)
        ensures
            r@.map_values(|p: Vec<u8>| p@) == self.pages_view(),
    {
        &self.pages
    }

    /// Number of the last page, or 0 for an empty table.
    pub fn highest_page_no(&self) -> (r: PageNo)
        requires
            self.wf(),
        ensures
            r == self.pages_view().len(),
    {
        self.pages.len() as PageNo
    }

    /// Checks that a tuple fits the schema and a page; returns the bytes it needs.
    fn check_tuple_size(&self, tuple: &Tuple) -> (r: Result<usize, DbError>)
        requires
            self.wf(),
        ensures
            r is Ok <==> Self::tuple_acceptable(tuple.values@, self.column_types()),
            r matches Ok(n) ==> n == tuple_size(tuple.values@),
            r matches Err(e) ==> e == Self::rejection(tuple.values@, self.column_types()),
    {
        check_tuple(tuple, &self.types)
    }

    /// Whether a tuple with these values can be stored in a table with these columns.
    pub open spec fn tuple_acceptable(vs: Seq<crate::tuple::Value>, types: Seq<TypeId>) -> bool {
        values_match_types(vs, types) && values_encodable(vs) && tuple_size(vs) <= MAX_TUPLE_SIZE
    }

    /// The error for a tuple that cannot be stored.
    pub open spec fn rejection(vs: Seq<crate::tuple::Value>, types: Seq<TypeId>) -> DbError {
        if vs.len() != types.len() {
            DbError::BadColumnCount
        } else if !values_match_types(vs, types) {
            DbError::TypeMismatch
        } else {
            DbError::TupleTooLarge
        }
    }

    /// Adds an empty page; returns its number.
    fn allocate_new_page(&mut self) -> (r: Result<PageNo, DbError>)
        requires
            old(self).wf(),
        ensures
            final(self).wf(),
            final(self).column_types() == old(self).column_types(),
            final(self).spec_table_id() == old(self).spec_table_id(),
            r is Err <==> old(self).pages_view().len() + 1 >= u32::MAX,
            r is Err ==> r == Err::<PageNo, DbError>(DbError::TableFull) && *final(self) == *old(self),
            r matches Ok(n) ==> n == old(self).pages_view().len() + 1 && final(self).pages_view()
                == old(self).pages_view().push(final(self).pages_view()[n - 1]) && slot_count(
                final(self).pages_view()[n - 1],
            ) == 0 && free_space(final(self).pages_view()[n - 1]) == PAGE_SIZE - PAGE_HEADER_SIZE,
    {
        if self.pages.len() + 1 >= u32::MAX as usize {
            return Err(DbError::TableFull);
        }
        let page = empty_page();
        proof {
            crate::codec::lemma_le16_round_trip(PAGE_SIZE as u16);
        }
        let ghost pv = page@;
        self.pages.push(page);
        proof {
            assert(self.pages_view() =~= old(self).pages_view().push(pv));
            assert forall|k: int| 0 <= k < self.pages@.len() implies #[trigger] heap_page_ok(
                self.pages@[k]@,
                self.types@.len() as u8,
            ) by {
                if k < old(self).pages@.len() {
                    assert(self.pages@[k] == old(self).pages@[k]);
                }
            }
            let before = old(self).pages_view();
            let after = self.pages_view();
            assert forall|id: TupleId| #[trigger] table_slot(after, id) is Some implies slot_payload_ok(
                table_slot(after, id)->Some_0,
                self.types@,
            ) by {
                if id.0 <= before.len() {
                    assert(after[id.0 - 1] == before[id.0 - 1]);
                    assert(table_slot(after, id) == table_slot(before, id));
                }
            }
        }
        Ok(self.pages.len() as PageNo)
    }

    /// Page `page_no` of the table.
    fn fetch_page(&self, page_no: PageNo) -> (r: Result<&Vec<u8>, DbError>)
        requires
            self.wf(),
        ensures
            r is Ok <==> 1 <= page_no <= self.pages_view().len(),
            r is Err ==> r == Err::<&Vec<u8>, DbError>(DbError::NoSuchPage),
            r matches Ok(p) ==> p@ == self.pages_view()[page_no - 1] && heap_page_ok(
                p@,
                self.column_count(),
            ),
    {
        if page_no == 0 || page_no as usize > self.pages.len() {
            return Err(DbError::NoSuchPage);
        }
        let k = (page_no - 1) as usize;
        assert(self.pages_view()[k as int] == self.pages@[k as int]@);
        assert(heap_page_ok(self.pages@[k as int]@, self.types@.len() as u8));
        Ok(&self.pages[k])
    }

    /// Where the slot `id` lies: page index, offset and size.
    fn slot_location(&self, id: TupleId) -> (r: Option<(usize, usize, usize)>)
        requires
            self.wf(),
        ensures
            r is Some <==> table_slot(self.pages_view(), id) is Some,
            r matches Some((k, off, size)) ==> {
                &&& k == id.0 - 1
                &&& k < self.pages_view().len()
                &&& off == slot_offset(self.pages_view()[k as int], id.1 as int)
                &&& size == slot_size(self.pages_view()[k as int], id.1 as int)
                &&& off + size <= PAGE_SIZE
            },
    {
        let (page_no, slot) = id;
        let data = match self.fetch_page(page_no) {
            Ok(data) => data,
            Err(_) => {
                return None;
            },
        };
        let k = (page_no - 1) as usize;
        let n = page_slots(data.as_slice());
        if slot as u16 >= n {
            return None;
        }
        let (off, size) = tuple_slot(data.as_slice(), slot);
        Some((k, off as usize, size as usize))
    }

    /// Reads the header of a slot found by `slot_location`.
    fn read_header(&self, k: usize, off: usize, id: Ghost<TupleId>) -> (r: HeapTupleHeader)
        requires
            self.wf(),
            table_slot(self.pages_view(), id@) is Some,
            k == id@.0 - 1,
            off == slot_offset(self.pages_view()[k as int], id@.1 as int),
        ensures
            r@ == table_header(self.pages_view(), id@, self.column_count()),
            r.valid(),
            r@.column_count == self.column_count(),
            r@.user_data_start <= slot_size(self.pages_view()[k as int], id@.1 as int),
    {
        let ghost page = self.pages_view()[k as int];
        let ghost b = slot_bytes(page, id@.1 as int);
        assert(self.pages_view()[k as int] == self.pages@[k as int]@);
        assert(heap_page_ok(page, self.types@.len() as u8));
        assert(slot_header_ok(b, self.types@.len() as u8));
        let data = self.pages[k].as_slice();
        proof {
            assert(data@[off + 14] == b[14]);
            let rest = data@.subrange(off as int, data@.len() as int);
            assert(rest.subrange(0, b.len() as int) =~= b);
            lemma_parse_header_prefix(b, rest, self.types@.len() as u8);
        }
        HeapTupleHeader::from_bytes_at(data, off, self.types.len() as u8)
    }

    /// Writes header `h` over the start of slot `id`.
    #[verifier::rlimit(40)]
    fn overwrite_header(&mut self, k: usize, off: usize, h: &HeapTupleHeader, id: Ghost<TupleId>)
        requires
            old(self).wf(),
            table_slot(old(self).pages_view(), id@) is Some,
            k == id@.0 - 1,
            off == slot_offset(old(self).pages_view()[k as int], id@.1 as int),
            h.valid(),
            h@.column_count == old(self).column_count(),
            h@.flags == table_header(old(self).pages_view(), id@, old(self).column_count()).flags,
            h@.null_bitmap == table_header(
                old(self).pages_view(),
                id@,
                old(self).column_count(),
            ).null_bitmap,
        ensures
            final(self).wf(),
            final(self).column_types() == old(self).column_types(),
            final(self).spec_table_id() == old(self).spec_table_id(),
            final(self).pages_view().len() == old(self).pages_view().len(),
            table_slot(final(self).pages_view(), id@) == Some(
                splice(table_slot(old(self).pages_view(), id@)->Some_0, 0, header_bytes(h@)),
            ),
            table_header(final(self).pages_view(), id@, final(self).column_count()) == h@,
            slots_unchanged_except(old(self).pages_view(), final(self).pages_view(), id@, id@),
    {
        let ghost before = self.pages_view();
        let ghost p = before[k as int];
        let ghost c = self.types@.len() as u8;
        let ghost s = id@.1 as int;
        assert(before[k as int] == self.pages@[k as int]@);
        assert(heap_page_ok(p, c));
        assert(slot_header_ok(slot_bytes(p, s), c));
        proof {
            lemma_header_overwrite(slot_bytes(p, s), h@, c);
        }
        let mut page = copy_bytes(&self.pages[k]);
        h.serialize(&mut page, off);
        let ghost q = page@;
        self.pages.set(k, page);
        proof {
            let after = self.pages_view();
            assert(after =~= before.update(k as int, q));
            lemma_table_overwrite(before, k as int, s, header_bytes(h@), c);
            assert forall|j: int| 0 <= j < self.pages@.len() implies #[trigger] heap_page_ok(
                self.pages@[j]@,
                self.types@.len() as u8,
            ) by {
                assert(self.pages@[j]@ == after[j]);
                if j != k {
                    assert(before[j] == old(self).pages@[j]@);
                }
            }
            assert(table_slot(after, id@) == Some(splice(slot_bytes(p, s), 0, header_bytes(h@))));
            assert(table_slot(before, id@) is Some);
            lemma_overwrite_payload(slot_bytes(p, s), h@, self.types@);
            lemma_payloads_frame(before, after, id@, id@, self.types@);
        }
    }

    /// Places a new version of `tuple` written by `transaction`: on page index
    /// `preferred` if given and it has room, else on the last page, else on a new
    /// page. Returns where it went.
    fn place_new_version(
        &mut self,
        preferred: Option<usize>,
        tuple: &Tuple,
        size: usize,
        transaction: &Transaction,
    ) -> (r: Result<TupleId, DbError>)
        requires
            old(self).wf(),
            Self::tuple_acceptable(tuple.values@, old(self).column_types()),
            size == tuple_size(tuple.values@),
            preferred matches Some(k) ==> k < old(self).pages_view().len(),
        ensures
            final(self).wf(),
            final(self).column_types() == old(self).column_types(),
            final(self).spec_table_id() == old(self).spec_table_id(),
            final(self).pages_view().len() >= old(self).pages_view().len(),
            r is Err ==> r == Err::<TupleId, DbError>(DbError::TableFull) && *final(self) == *old(
                self,
            ),
            r is Ok <==> placement(
                old(self).pages_view(),
                match preferred {
                    Some(k) => Some(k as int),
                    None => None,
                },
                size as int,
            ) is Some,
            r matches Ok(id) ==> {
                &&& Some(id) == placement(
                    old(self).pages_view(),
                    match preferred {
                        Some(k) => Some(k as int),
                        None => None,
                    },
                    size as int,
                )
                &&& table_slot(old(self).pages_view(), id) is None
                &&& table_slot(final(self).pages_view(), id) is Some
                &&& is_tuple_image(
                    table_slot(final(self).pages_view(), id)->Some_0,
                    tuple.values@,
                    transaction.snapshot().tid,
                    transaction.snapshot().command_id,
                    id,
                )
                &&& slots_unchanged_except(old(self).pages_view(), final(self).pages_view(), id, id)
            },
    {
        if let Some(k) = preferred {
            if let Some(s) = self.insert_into_page(k, tuple, size, transaction) {
                return Ok(((k + 1) as PageNo, s));
            }
        }
        let n = self.pages.len();
        if n > 0 {
            let last = n - 1;
            let tried = match preferred {
                Some(k) => k == last,
                None => false,
            };
            if !tried {
                if let Some(s) = self.insert_into_page(last, tuple, size, transaction) {
                    return Ok((n as PageNo, s));
                }
            }
        }
        let page_no = self.allocate_new_page()?;
        let k = (page_no - 1) as usize;
        match self.insert_into_page(k, tuple, size, transaction) {
            Some(s) => Ok((page_no, s)),
            None => {
                proof {
                    assert(false);
                }
                Err(DbError::TableFull)
            },
        }
    }

    /// Tries to place a new version of `tuple` on page index `k`.
    fn insert_into_page(&mut self, k: usize, tuple: &Tuple, size: usize, transaction: &Transaction) -> (r:
        Option<u8>)
        requires
            old(self).wf(),
            Self::tuple_acceptable(tuple.values@, old(self).column_types()),
            size == tuple_size(tuple.values@),
            k < old(self).pages_view().len(),
        ensures
            final(self).wf(),
            final(self).column_types() == old(self).column_types(),
            final(self).spec_table_id() == old(self).spec_table_id(),
            final(self).pages_view().len() == old(self).pages_view().len(),
            r is Some <==> fits(old(self).pages_view()[k as int], size as int),
            r is None ==> *final(self) == *old(self),
            r matches Some(s) ==> s == slot_count(old(self).pages_view()[k as int]),
            r matches Some(s) ==> {
                let id = ((k + 1) as PageNo, s);
                &&& table_slot(old(self).pages_view(), id) is None
                &&& table_slot(final(self).pages_view(), id) is Some
                &&& is_tuple_image(
                    table_slot(final(self).pages_view(), id)->Some_0,
                    tuple.values@,
                    transaction.snapshot().tid,
                    transaction.snapshot().command_id,
                    id,
                )
                &&& slots_unchanged_except(old(self).pages_view(), final(self).pages_view(), id, id)
            },
    {
        let ghost before = self.pages_view();
        let ghost c = self.types@.len() as u8;
        assert(before[k as int] == self.pages@[k as int]@);
        assert(heap_page_ok(before[k as int], c));
        let mut page = copy_bytes(&self.pages[k]);
        let page_no = (k + 1) as PageNo;
        match insert_tuple(&mut page, size, page_no, tuple, transaction) {
            None => None,
            Some(s) => {
                let ghost q = page@;
                self.pages.set(k, page);
                proof {
                    let p = before[k as int];
                    let after = self.pages_view();
                    assert(after =~= before.update(k as int, q));
                    lemma_page_add(p, slot_bytes(q, s as int), HEADER_CONSTANT_SIZE as int);
                    assert forall|j: int| 0 <= j < self.pages@.len() implies #[trigger] heap_page_ok(
                        self.pages@[j]@,
                        self.types@.len() as u8,
                    ) by {
                        assert(self.pages@[j]@ == after[j]);
                        if j != k {
                            assert(before[j] == old(self).pages@[j]@);
                        }
                    }
                    let id = (page_no, s);
                    assert forall|other: TupleId| other != id && other != id implies #[trigger] table_slot(
                        after,
                        other,
                    ) == table_slot(before, other) by {
                        if 1 <= other.0 <= before.len() && other.0 - 1 == k {
                            if (other.1 as int) < slot_count(p) {
                                assert(slot_bytes(q, other.1 as int) == slot_bytes(p, other.1 as int));
                            }
                        }
                    }
                    lemma_image_payload(
                        slot_bytes(q, s as int),
                        tuple.values@,
                        transaction.snapshot().tid,
                        transaction.snapshot().command_id,
                        id,
                        self.types@,
                    );
                    assert(table_slot(after, id) == Some(slot_bytes(q, s as int)));
                    lemma_payloads_frame(before, after, id, id, self.types@);
                }
                Some(s)
            },
        }
    }

    /// Reads the tuple stored at `tuple_id`, whatever its visibility.
    pub fn fetch_tuple(&self, tuple_id: TupleId) -> (r: Result<Tuple, DbError>)
        requires
            self.wf(),
        ensures
            table_slot(self.pages_view(), tuple_id) is None <==> r is Err,
            r is Err ==> r == Err::<Tuple, DbError>(DbError::NoSuchTuple),
            r matches Ok(t) ==> t.tuple_id == tuple_id && slot_holds_values(
                table_slot(self.pages_view(), tuple_id)->Some_0,
                self.column_types(),
                t.values@,
            ),
    {
        match self.slot_location(tuple_id) {
            None => Err(DbError::NoSuchTuple),
            Some((k, off, size)) => {
                let header = self.read_header(k, off, Ghost(tuple_id));
                let values = self.read_values(k, off, size, &header, Ghost(tuple_id));
                Ok(Tuple { values, tuple_id })
            },
        }
    }

    /// Reads the payload of slot `id`, found by `slot_location`, whose header is `header`.
    fn read_values(&self, k: usize, off: usize, size: usize, header: &HeapTupleHeader, id: Ghost<TupleId>) -> (r:
        Vec<Value>)
        requires
            self.wf(),
            table_slot(self.pages_view(), id@) is Some,
            k == id@.0 - 1,
            off == slot_offset(self.pages_view()[k as int], id@.1 as int),
            size == slot_size(self.pages_view()[k as int], id@.1 as int),
            off + size <= PAGE_SIZE,
            header@ == table_header(self.pages_view(), id@, self.column_count()),
            header.valid(),
            header@.column_count == self.column_count(),
            header@.user_data_start <= size,
        ensures
            slot_holds_values(table_slot(self.pages_view(), id@)->Some_0, self.column_types(), r@),
    {
        let ghost page = self.pages_view()[k as int];
        let ghost b = table_slot(self.pages_view(), id@)->Some_0;
        let ghost c = self.types@.len() as u8;
        assert(self.pages_view()[k as int] == self.pages@[k as int]@);
        assert(heap_page_ok(page, c));
        assert(b == page.subrange(off as int, off + size));
        assert(slot_payload_ok(b, self.types@));
        let ghost u = header@.user_data_start as int;
        let ghost w = choose|w: Seq<Value>| #[trigger] payload_stored_at(b, u, w, self.types@, header@.null_bitmap);
        proof {
            lemma_payload_in_page(page, off as int, size as int, u, w, self.types@, header@.null_bitmap);
        }
        let start = off + header.user_data_start();
        match parse_heap_tuple(self.pages[k].as_slice(), start, header, &self.types) {
            Ok(values) => {
                proof {
                    assert forall|v: Seq<Value>|
                        #[trigger] payload_stored_at(b, u, v, self.types@, header@.null_bitmap)
                            implies values_same(values@, v) by {
                        lemma_payload_in_page(page, off as int, size as int, u, v, self.types@, header@.null_bitmap);
                    }
                    assert(values_same(values@, w));
                    lemma_values_same_bytes(values@, w);
                    let l = values_bytes(w).len() as int;
                    assert(b.subrange(u, u + l) =~= page.subrange(off + u, off + u + l));
                    assert(payload_stored_at(b, u, values@, self.types@, header@.null_bitmap));
                }
                values
            },
            Err(_) => {
                proof {
                    assert(false);
                }
                Vec::new()
            },
        }
    }

    /// The header stored at `tuple_id`.
    pub fn fetch_tuple_header(&self, tuple_id: TupleId) -> (r: Result<HeapTupleHeader, DbError>)
        requires
            self.wf(),
        ensures
            table_slot(self.pages_view(), tuple_id) is None <==> r is Err,
            r is Err ==> r == Err::<HeapTupleHeader, DbError>(DbError::NoSuchTuple),
            r matches Ok(h) ==> h@ == table_header(self.pages_view(), tuple_id, self.column_count()),
    {
        match self.slot_location(tuple_id) {
            None => Err(DbError::NoSuchTuple),
            Some((k, off, _size)) => Ok(self.read_header(k, off, Ghost(tuple_id))),
        }
    }

    /// Inserts `tuple` as a new version written by `transaction`.
    pub fn insert_tuple(&mut self, tuple: &Tuple, transaction: &Transaction) -> (r: Result<(), DbError>)
        requires
            old(self).wf(),
        ensures
            final(self).wf(),
            final(self).column_types() == old(self).column_types(),
            final(self).spec_table_id() == old(self).spec_table_id(),
            !Self::tuple_acceptable(tuple.values@, old(self).column_types()) ==> r == Err::<
                (),
                DbError,
            >(Self::rejection(tuple.values@, old(self).column_types())) && *final(self) == *old(
                self,
            ),
            Self::tuple_acceptable(tuple.values@, old(self).column_types()) && r is Err ==> r
                == Err::<(), DbError>(DbError::TableFull) && *final(self) == *old(self),
            r is Ok <==> Self::tuple_acceptable(tuple.values@, old(self).column_types()) && placement(
                old(self).pages_view(),
                None,
                tuple_size(tuple.values@),
            ) is Some,
            r is Ok ==> {
                let id = placement(old(self).pages_view(), None, tuple_size(tuple.values@))->Some_0;
                &&& table_slot(old(self).pages_view(), id) is None
                &&& table_slot(final(self).pages_view(), id) is Some
                &&& is_tuple_image(
                    table_slot(final(self).pages_view(), id)->Some_0,
                    tuple.values@,
                    transaction.snapshot().tid,
                    transaction.snapshot().command_id,
                    id,
                )
                &&& slots_unchanged_except(old(self).pages_view(), final(self).pages_view(), id, id)
            },
    {
        let size = self.check_tuple_size(tuple)?;
        let id = self.place_new_version(None, tuple, size, transaction)?;
        assert(table_slot(self.pages_view(), id) is Some);
        Ok(())
    }

    /// Deletes the version at `tuple_id` for `transaction`, in place: its delete id
    /// becomes the transaction's id and its forward pointer points to itself again,
    /// dropping any pointer an aborted updater left. Returns `BeingModified`
    /// while another running transaction has it marked: the caller waits for that
    /// transaction to end and asks again.
    pub fn delete_tuple(
        &mut self,
        tuple_id: TupleId,
        transaction: &Transaction,
        manager: &TransactionManager,
    ) -> (r: Result<HeapTupleUpdateResult, DbError>)
        requires
            old(self).wf(),
            manager.wf(),
        ensures
            final(self).wf(),
            final(self).column_types() == old(self).column_types(),
            final(self).spec_table_id() == old(self).spec_table_id(),
            table_slot(old(self).pages_view(), tuple_id) is None <==> r is Err,
            r is Err ==> *final(self) == *old(self),
            r is Err ==> r == Err::<HeapTupleUpdateResult, DbError>(DbError::NoSuchTuple),
            r matches Ok(res) ==> {
                let h = table_header(old(self).pages_view(), tuple_id, old(self).column_count());
                &&& res == update_check(
                    h,
                    tuple_id,
                    transaction.snapshot().tid,
                    manager.status_fn(),
                )
                &&& res != HeapTupleUpdateResult::Success ==> *final(self) == *old(self)
                &&& res == HeapTupleUpdateResult::Success ==> {
                    &&& table_header(final(self).pages_view(), tuple_id, final(self).column_count())
                        == (HeaderModel { delete_tid: transaction.snapshot().tid, tuple_id, ..h })
                    &&& table_slot(final(self).pages_view(), tuple_id) == Some(
                        splice(
                            table_slot(old(self).pages_view(), tuple_id)->Some_0,
                            0,
                            header_bytes(
                                HeaderModel { delete_tid: transaction.snapshot().tid, tuple_id, ..h },
                            ),
                        ),
                    )
                    &&& slots_unchanged_except(
                        old(self).pages_view(),
                        final(self).pages_view(),
                        tuple_id,
                        tuple_id,
                    )
                }
            },
    {
        match self.slot_location(tuple_id) {
            None => Err(DbError::NoSuchTuple),
            Some((k, off, _size)) => {
                let mut header = self.read_header(k, off, Ghost(tuple_id));
                let result = heap_tuple_satisfies_update(&header, tuple_id, transaction, manager);
                match result {
                    HeapTupleUpdateResult::Success => {
                        header.set_deleted(transaction.tid(), tuple_id);
                        self.overwrite_header(k, off, &header, Ghost(tuple_id));
                        Ok(HeapTupleUpdateResult::Success)
                    },
                    other => Ok(other),
                }
            },
        }
    }

    /// Replaces the version at `tuple_id` by a new version holding `updated_tuple`,
    /// for `transaction`. The new version goes on the same page if it has room.
    /// Returns `BeingModified` while another running transaction has the old
    /// version marked: the caller waits for that transaction to end and asks again.
    pub fn update_tuple(
        &mut self,
        tuple_id: TupleId,
        updated_tuple: &Tuple,
        transaction: &Transaction,
        manager: &TransactionManager,
    ) -> (r: Result<HeapTupleUpdateResult, DbError>)
        requires
            old(self).wf(),
            manager.wf(),
        ensures
            final(self).wf(),
            final(self).column_types() == old(self).column_types(),
            final(self).spec_table_id() == old(self).spec_table_id(),
            !Self::tuple_acceptable(updated_tuple.values@, old(self).column_types()) ==> r == Err::<
                HeapTupleUpdateResult,
                DbError,
            >(Self::rejection(updated_tuple.values@, old(self).column_types())),
            Self::tuple_acceptable(updated_tuple.values@, old(self).column_types()) && table_slot(
                old(self).pages_view(),
                tuple_id,
            ) is None ==> r == Err::<HeapTupleUpdateResult, DbError>(DbError::NoSuchTuple),
            r is Err ==> *final(self) == *old(self),
            Self::tuple_acceptable(updated_tuple.values@, old(self).column_types()) && table_slot(
                old(self).pages_view(),
                tuple_id,
            ) is Some ==> {
                let res = update_check(
                    table_header(old(self).pages_view(), tuple_id, old(self).column_count()),
                    tuple_id,
                    transaction.snapshot().tid,
                    manager.status_fn(),
                );
                let place = placement(
                    old(self).pages_view(),
                    Some(tuple_id.0 - 1),
                    tuple_size(updated_tuple.values@),
                );
                &&& res != HeapTupleUpdateResult::Success ==> r == Ok::<
                    HeapTupleUpdateResult,
                    DbError,
                >(res)
                &&& res == HeapTupleUpdateResult::Success ==> (r is Ok <==> place is Some)
                &&& res == HeapTupleUpdateResult::Success && place is None ==> r == Err::<
                    HeapTupleUpdateResult,
                    DbError,
                >(DbError::TableFull)
            },
            r matches Ok(res) ==> {
                let h = table_header(old(self).pages_view(), tuple_id, old(self).column_count());
                let new_id = placement(
                    old(self).pages_view(),
                    Some(tuple_id.0 - 1),
                    tuple_size(updated_tuple.values@),
                )->Some_0;
                let new_header = HeaderModel {
                    delete_tid: transaction.snapshot().tid,
                    tuple_id: new_id,
                    ..h
                };
                &&& res == update_check(
                    h,
                    tuple_id,
                    transaction.snapshot().tid,
                    manager.status_fn(),
                )
                &&& res != HeapTupleUpdateResult::Success ==> *final(self) == *old(self)
                &&& res == HeapTupleUpdateResult::Success ==> {
                    &&& new_id != tuple_id
                    &&& table_slot(old(self).pages_view(), new_id) is None
                    &&& table_slot(final(self).pages_view(), new_id) is Some
                    &&& is_tuple_image(
                        table_slot(final(self).pages_view(), new_id)->Some_0,
                        updated_tuple.values@,
                        transaction.snapshot().tid,
                        transaction.snapshot().command_id,
                        new_id,
                    )
                    &&& table_header(final(self).pages_view(), tuple_id, final(self).column_count())
                        == new_header
                    &&& table_slot(final(self).pages_view(), tuple_id) == Some(
                        splice(
                            table_slot(old(self).pages_view(), tuple_id)->Some_0,
                            0,
                            header_bytes(new_header),
                        ),
                    )
                    &&& slots_unchanged_except(
                        old(self).pages_view(),
                        final(self).pages_view(),
                        tuple_id,
                        new_id,
                    )
                }
            },
    {
        let size = self.check_tuple_size(updated_tuple)?;
        match self.slot_location(tuple_id) {
            None => Err(DbError::NoSuchTuple),
            Some((k, off, _size)) => {
                let mut header = self.read_header(k, off, Ghost(tuple_id));
                let result = heap_tuple_satisfies_update(&header, tuple_id, transaction, manager);
                match result {
                    HeapTupleUpdateResult::Success => {
                        let ghost before = self.pages_view();
                        let new_id = self.place_new_version(Some(k), updated_tuple, size, transaction)?;
                        let ghost mid = self.pages_view();
                        assert(table_slot(mid, tuple_id) == table_slot(before, tuple_id));
                        let (k2, off2) = match self.slot_location(tuple_id) {
                            Some((k2, off2, _s)) => (k2, off2),
                            None => {
                                proof {
                                    assert(false);
                                }
                                return Err(DbError::NoSuchTuple);
                            },
                        };
                        header.set_deleted(transaction.tid(), new_id);
                        self.overwrite_header(k2, off2, &header, Ghost(tuple_id));
                        proof {
                            let after = self.pages_view();
                            assert forall|other: TupleId| other != tuple_id && other != new_id implies #[trigger] table_slot(
                                after,
                                other,
                            ) == table_slot(before, other) by {
                                assert(table_slot(after, other) == table_slot(mid, other));
                                assert(table_slot(mid, other) == table_slot(before, other));
                            }
                            assert(table_slot(after, new_id) == table_slot(mid, new_id));
                        }
                        Ok(HeapTupleUpdateResult::Success)
                    },
                    other => Ok(other),
                }
            },
        }
    }

    /// A scan over the pages that exist now.
    pub fn iter(&self) -> (r: HeapTupleIterator)
        requires
            self.wf(),
        ensures
            r.position() == (1u32, 0u8),
            r.limit() == self.pages_view().len(),
    {
        HeapTupleIterator::new(self.pages.len() as PageNo)
    }
}

/// Classifies an attempt by `transaction` to change the version with `header`.
fn heap_tuple_satisfies_update(
    header: &HeapTupleHeader,
    original_id: TupleId,
    transaction: &Transaction,
    manager: &TransactionManager,
) -> (r: HeapTupleUpdateResult)
    requires
        manager.wf(),
    ensures
        r == update_check(
            header@,
            original_id,
            transaction.snapshot().tid,
            manager.status_fn(),
        ),
{
    if manager.get_transaction_status(header.insert_tid) != TransactionStatus::Committed {
        HeapTupleUpdateResult::Success
    } else if header.delete_tid == INVALID_TRANSACTION_ID {
        HeapTupleUpdateResult::Success
    } else if header.delete_tid == transaction.tid() {
        HeapTupleUpdateResult::SelfUpdated
    } else {
        match manager.get_transaction_status(header.delete_tid) {
            TransactionStatus::Committed => {
                if header.tuple_id.0 == original_id.0 && header.tuple_id.1 == original_id.1 {
                    HeapTupleUpdateResult::Deleted
                } else {
                    HeapTupleUpdateResult::Updated(header.tuple_id)
                }
            },
            TransactionStatus::InProgress => HeapTupleUpdateResult::BeingModified,
            TransactionStatus::Aborted | TransactionStatus::Invalid => HeapTupleUpdateResult::Success,
        }
    }
}

/// Every slot from `start` up to, not including, `cursor` holds no visible version.
pub open spec fn scanned_invisible(
    pages: Seq<Seq<u8>>,
    column_count: u8,
    snap: Snapshot,
    status: spec_fn(TransactionId) -> TransactionStatus,
    start: (PageNo, u8),
    cursor: (PageNo, u8),
) -> bool {
    forall|q: TupleId|
        pos_le(start, q) && !pos_le(cursor, q) ==> !#[trigger] visible_at(
            pages,
            column_count,
            snap,
            status,
            q,
        )
}

proof fn lemma_scan_past_page(
    pages: Seq<Seq<u8>>,
    c: u8,
    snap: Snapshot,
    st: spec_fn(TransactionId) -> TransactionStatus,
    start: (PageNo, u8),
    cursor: (PageNo, u8),
)
    requires
        scanned_invisible(pages, c, snap, st, start, cursor),
        1 <= cursor.0 <= pages.len(),
        cursor.0 < u32::MAX,
        cursor.1 >= slot_count(pages[cursor.0 - 1]),
    ensures
        scanned_invisible(pages, c, snap, st, start, ((cursor.0 + 1) as u32, 0u8)),
{
    assert forall|q: TupleId|
        pos_le(start, q) && !pos_le(((cursor.0 + 1) as u32, 0u8), q) implies !#[trigger] visible_at(
            pages,
            c,
            snap,
            st,
            q,
        ) by {
        if pos_le(cursor, q) {
            assert(table_slot(pages, q) is None);
        }
    }
}

proof fn lemma_scan_past_slot(
    pages: Seq<Seq<u8>>,
    c: u8,
    snap: Snapshot,
    st: spec_fn(TransactionId) -> TransactionStatus,
    start: (PageNo, u8),
    cursor: (PageNo, u8),
)
    requires
        scanned_invisible(pages, c, snap, st, start, cursor),
        cursor.1 < 255,
        !visible_at(pages, c, snap, st, (cursor.0, cursor.1)),
    ensures
        scanned_invisible(pages, c, snap, st, start, (cursor.0, (cursor.1 + 1) as u8)),
{
    assert forall|q: TupleId|
        pos_le(start, q) && !pos_le((cursor.0, (cursor.1 + 1) as u8), q) implies !#[trigger] visible_at(
            pages,
            c,
            snap,
            st,
            q,
        ) by {
        if pos_le(cursor, q) {
            assert(q == (cursor.0, cursor.1));
        }
    }
}

proof fn lemma_scan_done(
    pages: Seq<Seq<u8>>,
    c: u8,
    snap: Snapshot,
    st: spec_fn(TransactionId) -> TransactionStatus,
    start: (PageNo, u8),
    cursor: (PageNo, u8),
    limit: PageNo,
)
    requires
        scanned_invisible(pages, c, snap, st, start, cursor),
        cursor.0 > limit || cursor.0 > pages.len(),
    ensures
        forall|q: TupleId|
            pos_le(start, q) && q.0 <= limit ==> !#[trigger] visible_at(pages, c, snap, st, q),
{
    assert forall|q: TupleId| pos_le(start, q) && q.0 <= limit implies !#[trigger] visible_at(
        pages,
        c,
        snap,
        st,
        q,
    ) by {
        if pos_le(cursor, q) {
            assert(table_slot(pages, q) is None);
        }
    }
}

impl HeapTupleIterator {
    pub closed spec fn position(&self) -> (PageNo, u8) {
        (self.curr_page_no, self.curr_slot)
    }

    pub closed spec fn limit(&self) -> PageNo {
        self.max_page_no
    }

    fn new(max_page_no: PageNo) -> (r: Self)
        ensures
            r.position() == (1u32, 0u8),
            r.limit() == max_page_no,
    {
        Self { curr_page_no: 1, max_page_no, curr_slot: 0 }
    }

    /// Returns the next version at or after the current position, up to the last
    /// page the scan was made for, that is visible to `transaction`.
    pub fn fetch_next_tuple(
        &mut self,
        table: &Table,
        transaction: &Transaction,
        manager: &TransactionManager,
    ) -> (r: Result<Option<Tuple>, DbError>)
        requires
            table.wf(),
            manager.wf(),
            old(self).position().0 >= 1,
        ensures
            final(self).limit() == old(self).limit(),
            final(self).position().0 >= 1,
            r matches Ok(Some(t)) ==> {
                let id = t.tuple_id;
                &&& pos_le(old(self).position(), id)
                &&& id.0 <= old(self).limit()
                &&& visible_at(
                    table.pages_view(),
                    table.column_count(),
                    transaction.snapshot(),
                    manager.status_fn(),
                    id,
                )
                &&& forall|q: TupleId|
                    pos_le(old(self).position(), q) && !pos_le((id.0, id.1), q) ==> !#[trigger] visible_at(
                        table.pages_view(),
                        table.column_count(),
                        transaction.snapshot(),
                        manager.status_fn(),
                        q,
                    )
                &&& final(self).position() == (id.0, (id.1 + 1) as u8)
                &&& slot_holds_values(
                    table_slot(table.pages_view(), id)->Some_0,
                    table.column_types(),
                    t.values@,
                )
            },
            r matches Ok(None) ==> forall|q: TupleId|
                pos_le(old(self).position(), q) && q.0 <= old(self).limit() ==> !#[trigger] visible_at(
                    table.pages_view(),
                    table.column_count(),
                    transaction.snapshot(),
                    manager.status_fn(),
                    q,
                ),
            r is Ok,
    {
        let ghost start = self.position();
        let ghost pv = table.pages_view();
        let ghost c = table.column_count();
        let ghost snap = transaction.snapshot();
        let ghost st = manager.status_fn();
        loop
            invariant
                table.wf(),
                manager.wf(),
                pv == table.pages_view(),
                c == table.column_count(),
                snap == transaction.snapshot(),
                st == manager.status_fn(),
                self.max_page_no == old(self).max_page_no,
                start == old(self).position(),
                self.curr_page_no >= 1,
                pos_le(start, (self.curr_page_no, self.curr_slot)),
                scanned_invisible(pv, c, snap, st, start, (self.curr_page_no, self.curr_slot)),
            decreases self.max_page_no - self.curr_page_no + 1, 256 - self.curr_slot,
        {
            if self.curr_page_no > self.max_page_no || self.curr_page_no as usize > table.pages.len() {
                proof {
                    lemma_scan_done(pv, c, snap, st, start, (self.curr_page_no, self.curr_slot), self.max_page_no);
                    assert(start == old(self).position());
                    assert(self.max_page_no == old(self).limit());
                    assert forall|q: TupleId|
                        pos_le(old(self).position(), q) && q.0 <= old(self).limit() implies !#[trigger] visible_at(
                            table.pages_view(),
                            table.column_count(),
                            transaction.snapshot(),
                            manager.status_fn(),
                            q,
                        ) by {
                        assert(!visible_at(pv, c, snap, st, q));
                    }
                }
                return Ok(None);
            }
            let k = (self.curr_page_no - 1) as usize;
            assert(pv[k as int] == table.pages@[k as int]@);
            assert(heap_page_ok(pv[k as int], table.types@.len() as u8));
            let data = table.pages[k].as_slice();
            let slots = page_slots(data);
            if self.curr_slot as u16 >= slots {
                proof {
                    lemma_scan_past_page(pv, c, snap, st, start, (self.curr_page_no, self.curr_slot));
                }
                self.curr_page_no = self.curr_page_no + 1;
                self.curr_slot = 0;
            } else {
                let slot = self.curr_slot;
                let id: TupleId = (self.curr_page_no, slot);
                let (off, size) = tuple_slot(data, slot);
                let header = table.read_header(k, off as usize, Ghost(id));
                let vis = transaction.is_tuple_visible(manager, header.insert_tid, header.command_id, header.delete_tid);
                assert(vis == visible_at(pv, c, snap, st, id));
                if vis {
                    let values = table.read_values(k, off as usize, size as usize, &header, Ghost(id));
                    self.curr_slot = slot + 1;
                    proof {
                        assert(start == old(self).position());
                        assert forall|q: TupleId|
                            pos_le(old(self).position(), q) && !pos_le((id.0, id.1), q) implies !#[trigger] visible_at(
                                table.pages_view(),
                                table.column_count(),
                                transaction.snapshot(),
                                manager.status_fn(),
                                q,
                            ) by {
                            assert(!visible_at(pv, c, snap, st, q));
                        }
                    }
                    return Ok(Some(Tuple { values, tuple_id: id }));
                }
                proof {
                    lemma_scan_past_slot(pv, c, snap, st, start, (self.curr_page_no, self.curr_slot));
                }
                self.curr_slot = slot + 1;
            }
        }
    }
}

} // verus!
