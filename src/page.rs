use vstd::prelude::*;

use crate::codec::{
    from_le16, le16, lemma_le16_round_trip, lemma_splice, read_u16, splice, write_bytes,
    write_u16,
};
use crate::common::PAGE_SIZE;

verus! {

// Slotted page layout: a header of slot count (2 bytes) and start of the tuple
// area (2 bytes); then the slot directory, four bytes per slot (offset, size),
// growing upward; tuple bytes grow downward from the end of the page.
/// Size of the page header.
pub const PAGE_HEADER_SIZE: usize = 4;

/// Size of one slot directory entry.
pub const TUPLE_SLOT_SIZE: usize = 4;

/// Most slots a page may hold, so that every slot number fits a `u8`.
pub const MAX_SLOTS: usize = 255;

pub open spec fn slot_count(p: Seq<u8>) -> int {
    from_le16(p.subrange(0, 2)) as int
}

pub open spec fn tuple_start(p: Seq<u8>) -> int {
    from_le16(p.subrange(2, 4)) as int
}

pub open spec fn slot_offset(p: Seq<u8>, i: int) -> int {
    from_le16(p.subrange(4 + 4 * i, 6 + 4 * i)) as int
}

pub open spec fn slot_size(p: Seq<u8>, i: int) -> int {
    from_le16(p.subrange(6 + 4 * i, 8 + 4 * i)) as int
}

/// The bytes stored in slot `i`.
pub open spec fn slot_bytes(p: Seq<u8>, i: int) -> Seq<u8> {
    p.subrange(slot_offset(p, i), slot_offset(p, i) + slot_size(p, i))
}

/// Bytes left between the slot directory and the tuple area.
pub open spec fn free_space(p: Seq<u8>) -> int {
    tuple_start(p) - (PAGE_HEADER_SIZE + TUPLE_SLOT_SIZE * slot_count(p))
}

/// A well-formed page: the directory and the tuple area do not overlap, every
/// slot lies in the tuple area, holds at least `min_size` bytes, and no two
/// slots share a byte.
pub open spec fn page_valid(p: Seq<u8>, min_size: int) -> bool {
    &&& p.len() == PAGE_SIZE
    &&& slot_count(p) <= MAX_SLOTS
    &&& PAGE_HEADER_SIZE + TUPLE_SLOT_SIZE * slot_count(p) <= tuple_start(p) <= PAGE_SIZE
    &&& forall|i: int|
        0 <= i < slot_count(p) ==> {
            &&& tuple_start(p) <= #[trigger] slot_offset(p, i)
            &&& slot_offset(p, i) + slot_size(p, i) <= PAGE_SIZE
            &&& slot_size(p, i) >= min_size
        }
    &&& forall|i: int, j: int|
        0 <= i < j < slot_count(p) ==> #[trigger] slot_offset(p, i) + slot_size(p, i) <= slot_offset(
            p,
            j,
        ) || #[trigger] slot_offset(p, j) + slot_size(p, j) <= slot_offset(p, i)
}

/// The page after adding slot `slot_count(p)` with bytes `b` below the tuple area.
pub open spec fn page_add(p: Seq<u8>, b: Seq<u8>) -> Seq<u8> {
    let n = slot_count(p);
    let ts = tuple_start(p) - b.len();
    let p1 = splice(p, ts, b);
    let p2 = splice(p1, PAGE_HEADER_SIZE + TUPLE_SLOT_SIZE * n, le16(ts as u16) + le16(b.len() as u16));
    splice(p2, 0, le16((n + 1) as u16) + le16(ts as u16))
}

/// Whether `b` fits as one more tuple on page `p`.
pub open spec fn fits(p: Seq<u8>, len: int) -> bool {
    slot_count(p) < MAX_SLOTS && len + TUPLE_SLOT_SIZE <= free_space(p)
}

proof fn lemma_splice_sub(s: Seq<u8>, at: int, b: Seq<u8>, lo: int, hi: int)
    requires
        0 <= at,
        at + b.len() <= s.len(),
        0 <= lo <= hi <= s.len(),
        hi <= at || at + b.len() <= lo,
    ensures
        splice(s, at, b).subrange(lo, hi) == s.subrange(lo, hi),
{
    lemma_splice(s, at, b);
    assert(splice(s, at, b).subrange(lo, hi) =~= s.subrange(lo, hi));
}

proof fn lemma_splice_inside(s: Seq<u8>, at: int, b: Seq<u8>, lo: int, hi: int)
    requires
        0 <= at,
        at + b.len() <= s.len(),
        at <= lo <= hi <= at + b.len(),
    ensures
        splice(s, at, b).subrange(lo, hi) == b.subrange(lo - at, hi - at),
{
    lemma_splice(s, at, b);
    assert(splice(s, at, b).subrange(lo, hi) =~= b.subrange(lo - at, hi - at));
}

proof fn lemma_splice_len(s: Seq<u8>, at: int, b: Seq<u8>)
    requires
        0 <= at,
        at + b.len() <= s.len(),
    ensures
        splice(s, at, b).len() == s.len(),
{
}

proof fn lemma_page_add_parts(p: Seq<u8>, b: Seq<u8>)
    requires
        p.len() == PAGE_SIZE,
        slot_count(p) < MAX_SLOTS,
        PAGE_HEADER_SIZE + TUPLE_SLOT_SIZE * slot_count(p) <= tuple_start(p) <= PAGE_SIZE,
        b.len() + TUPLE_SLOT_SIZE <= free_space(p),
    ensures
        page_add(p, b).len() == PAGE_SIZE,
        slot_count(page_add(p, b)) == slot_count(p) + 1,
        tuple_start(page_add(p, b)) == tuple_start(p) - b.len(),
        slot_offset(page_add(p, b), slot_count(p)) == tuple_start(p) - b.len(),
        slot_size(page_add(p, b), slot_count(p)) == b.len(),
        slot_bytes(page_add(p, b), slot_count(p)) == b,
{
    let n = slot_count(p);
    let ts = tuple_start(p) - b.len();
    let e = PAGE_HEADER_SIZE + TUPLE_SLOT_SIZE * n;
    let entry = le16(ts as u16) + le16(b.len() as u16);
    let hdr = le16((n + 1) as u16) + le16(ts as u16);
    let p1 = splice(p, ts, b);
    let p2 = splice(p1, e, entry);
    let q = splice(p2, 0, hdr);
    lemma_splice_len(p, ts, b);
    lemma_splice_len(p1, e, entry);
    lemma_splice_len(p2, 0, hdr);
    lemma_le16_round_trip((n + 1) as u16);
    lemma_le16_round_trip(ts as u16);
    lemma_le16_round_trip(b.len() as u16);
    lemma_splice_inside(p2, 0, hdr, 0, 2);
    assert(hdr.subrange(0, 2) =~= le16((n + 1) as u16));
    lemma_splice_inside(p2, 0, hdr, 2, 4);
    assert(hdr.subrange(2, 4) =~= le16(ts as u16));
    lemma_splice_sub(p2, 0, hdr, e, e + 2);
    lemma_splice_inside(p1, e, entry, e, e + 2);
    assert(entry.subrange(0, 2) =~= le16(ts as u16));
    lemma_splice_sub(p2, 0, hdr, e + 2, e + 4);
    lemma_splice_inside(p1, e, entry, e + 2, e + 4);
    assert(entry.subrange(2, 4) =~= le16(b.len() as u16));
    lemma_splice_sub(p2, 0, hdr, ts, ts + b.len());
    lemma_splice_sub(p1, e, entry, ts, ts + b.len());
    lemma_splice_inside(p, ts, b, ts, ts + b.len());
    assert(b.subrange(0, b.len() as int) =~= b);
}

proof fn lemma_page_add_old_slot(p: Seq<u8>, b: Seq<u8>, i: int)
    requires
        p.len() == PAGE_SIZE,
        slot_count(p) < MAX_SLOTS,
        PAGE_HEADER_SIZE + TUPLE_SLOT_SIZE * slot_count(p) <= tuple_start(p) <= PAGE_SIZE,
        b.len() + TUPLE_SLOT_SIZE <= free_space(p),
        0 <= i < slot_count(p),
        tuple_start(p) <= slot_offset(p, i),
        slot_offset(p, i) + slot_size(p, i) <= PAGE_SIZE,
    ensures
        slot_offset(page_add(p, b), i) == slot_offset(p, i),
        slot_size(page_add(p, b), i) == slot_size(p, i),
        slot_bytes(page_add(p, b), i) == slot_bytes(p, i),
{
    let n = slot_count(p);
    let ts = tuple_start(p) - b.len();
    let e = PAGE_HEADER_SIZE + TUPLE_SLOT_SIZE * n;
    let entry = le16(ts as u16) + le16(b.len() as u16);
    let hdr = le16((n + 1) as u16) + le16(ts as u16);
    let p1 = splice(p, ts, b);
    let p2 = splice(p1, e, entry);
    lemma_splice_len(p, ts, b);
    lemma_splice_len(p1, e, entry);
    lemma_splice_sub(p2, 0, hdr, 4 + 4 * i, 6 + 4 * i);
    lemma_splice_sub(p1, e, entry, 4 + 4 * i, 6 + 4 * i);
    lemma_splice_sub(p, ts, b, 4 + 4 * i, 6 + 4 * i);
    lemma_splice_sub(p2, 0, hdr, 6 + 4 * i, 8 + 4 * i);
    lemma_splice_sub(p1, e, entry, 6 + 4 * i, 8 + 4 * i);
    lemma_splice_sub(p, ts, b, 6 + 4 * i, 8 + 4 * i);
    let lo = slot_offset(p, i);
    let hi = lo + slot_size(p, i);
    lemma_splice_sub(p2, 0, hdr, lo, hi);
    lemma_splice_sub(p1, e, entry, lo, hi);
    lemma_splice_sub(p, ts, b, lo, hi);
}

/// Adding a tuple keeps the page well formed; the new slot reads back exactly the
/// bytes written, and every earlier slot keeps its place and its bytes.
pub proof fn lemma_page_add(p: Seq<u8>, b: Seq<u8>, min_size: int)
    requires
        page_valid(p, min_size),
        fits(p, b.len() as int),
        b.len() >= min_size,
    ensures
        page_valid(page_add(p, b), min_size),
        slot_count(page_add(p, b)) == slot_count(p) + 1,
        slot_bytes(page_add(p, b), slot_count(p)) == b,
        forall|i: int|
            0 <= i < slot_count(p) ==> #[trigger] slot_offset(page_add(p, b), i) == slot_offset(p, i)
                && slot_size(page_add(p, b), i) == slot_size(p, i) && slot_bytes(
                page_add(p, b),
                i,
            ) == slot_bytes(p, i),
{
    let n = slot_count(p);
    let q = page_add(p, b);
    lemma_page_add_parts(p, b);
    assert forall|i: int| 0 <= i < n implies #[trigger] slot_offset(q, i) == slot_offset(p, i)
        && slot_size(q, i) == slot_size(p, i) && slot_bytes(q, i) == slot_bytes(p, i) by {
        lemma_page_add_old_slot(p, b, i);
    }
    assert forall|i: int| 0 <= i < slot_count(q) implies {
        &&& tuple_start(q) <= #[trigger] slot_offset(q, i)
        &&& slot_offset(q, i) + slot_size(q, i) <= PAGE_SIZE
        &&& slot_size(q, i) >= min_size
    } by {
        if i < n {
            assert(slot_offset(q, i) == slot_offset(p, i));
        }
    }
    assert forall|i: int, j: int| 0 <= i < j < slot_count(q) implies #[trigger] slot_offset(q, i)
        + slot_size(q, i) <= slot_offset(q, j) || #[trigger] slot_offset(q, j) + slot_size(q, j)
        <= slot_offset(q, i) by {
        assert(slot_offset(q, i) == slot_offset(p, i));
        assert(slot_size(q, i) == slot_size(p, i));
        if j < n {
            assert(slot_offset(q, j) == slot_offset(p, j));
            assert(slot_size(q, j) == slot_size(p, j));
        }
    }
}

/// Overwriting bytes inside slot `k` keeps the page well formed and every slot in
/// place; slot `k` reads the new bytes and every other slot keeps its bytes.
pub proof fn lemma_page_overwrite(p: Seq<u8>, min_size: int, k: int, at: int, b: Seq<u8>)
    requires
        page_valid(p, min_size),
        0 <= k < slot_count(p),
        0 <= at,
        at + b.len() <= slot_size(p, k),
    ensures
        page_valid(splice(p, slot_offset(p, k) + at, b), min_size),
        slot_count(splice(p, slot_offset(p, k) + at, b)) == slot_count(p),
        forall|i: int|
            0 <= i < slot_count(p) ==> #[trigger] slot_offset(splice(p, slot_offset(p, k) + at, b), i)
                == slot_offset(p, i) && slot_size(splice(p, slot_offset(p, k) + at, b), i)
                == slot_size(p, i),
        slot_bytes(splice(p, slot_offset(p, k) + at, b), k) == splice(slot_bytes(p, k), at, b),
        forall|i: int|
            0 <= i < slot_count(p) && i != k ==> #[trigger] slot_bytes(
                splice(p, slot_offset(p, k) + at, b),
                i,
            ) == slot_bytes(p, i),
{
    let w = slot_offset(p, k) + at;
    let q = splice(p, w, b);
    lemma_splice(p, w, b);
    lemma_splice_sub(p, w, b, 0, 2);
    lemma_splice_sub(p, w, b, 2, 4);
    assert forall|i: int| 0 <= i < slot_count(p) implies #[trigger] slot_offset(q, i)
        == slot_offset(p, i) && slot_size(q, i) == slot_size(p, i) by {
        lemma_splice_sub(p, w, b, 4 + 4 * i, 6 + 4 * i);
        lemma_splice_sub(p, w, b, 6 + 4 * i, 8 + 4 * i);
    }
    assert forall|i: int| 0 <= i < slot_count(p) && i != k implies #[trigger] slot_bytes(q, i)
        == slot_bytes(p, i) by {
        assert(slot_offset(p, i) + slot_size(p, i) <= slot_offset(p, k) || slot_offset(p, k)
            + slot_size(p, k) <= slot_offset(p, i));
        lemma_splice_sub(p, w, b, slot_offset(p, i), slot_offset(p, i) + slot_size(p, i));
    }
    assert(slot_bytes(q, k) =~= splice(slot_bytes(p, k), at, b));
    assert forall|i: int, j: int| 0 <= i < j < slot_count(q) implies #[trigger] slot_offset(q, i)
        + slot_size(q, i) <= slot_offset(q, j) || #[trigger] slot_offset(q, j) + slot_size(q, j)
        <= slot_offset(q, i) by {
        assert(slot_offset(q, i) == slot_offset(p, i));
        assert(slot_offset(q, j) == slot_offset(p, j));
    }
}

/// A page with no slots.
pub fn empty_page() -> (r: Vec<u8>)
    ensures
        page_valid(r@, 0),
        slot_count(r@) == 0,
        tuple_start(r@) == PAGE_SIZE,
        forall|m: int| #[trigger] page_valid(r@, m),
{
    let mut data = vec![0u8; PAGE_SIZE as usize];
    write_u16(&mut data, 0, 0);
    write_u16(&mut data, 2, PAGE_SIZE as u16);
    proof {
        let p0 = Seq::new(PAGE_SIZE as nat, |i: int| 0u8);
        lemma_splice(data@, 0, le16(0));
        lemma_le16_round_trip(0);
        lemma_le16_round_trip(PAGE_SIZE as u16);
        assert(data@.subrange(0, 2) =~= le16(0));
        assert(data@.subrange(2, 4) =~= le16(PAGE_SIZE as u16));
    }
    data
}

/// Number of slots on the page.
pub fn page_slots(data: &[u8]) -> (r: u16)
    requires
        data@.len() == PAGE_SIZE,
    ensures
        r == slot_count(data@),
{
    read_u16(data, 0)
}

/// Where slot `slot` stores its bytes: offset and size.
pub fn tuple_slot(data: &[u8], slot: u8) -> (r: (u16, u16))
    requires
        page_valid(data@, 0),
        slot < slot_count(data@),
    ensures
        r.0 == slot_offset(data@, slot as int),
        r.1 == slot_size(data@, slot as int),
{
    let at = PAGE_HEADER_SIZE + TUPLE_SLOT_SIZE * slot as usize;
    (read_u16(data, at), read_u16(data, at + 2))
}

/// Adds `b` as a new slot if it fits; returns the new slot's number.
pub fn add_tuple(page: &mut Vec<u8>, b: &[u8]) -> (r: Option<u8>)
    requires
        page_valid(old(page)@, 0),
    ensures
        r is Some <==> fits(old(page)@, b@.len() as int),
        r matches Some(s) ==> s == slot_count(old(page)@) && final(page)@ == page_add(old(page)@, b@),
        r is None ==> final(page)@ == old(page)@,
{
    let n = read_u16(page.as_slice(), 0);
    let ts = read_u16(page.as_slice(), 2);
    if n as usize >= MAX_SLOTS {
        return None;
    }
    let used = PAGE_HEADER_SIZE + TUPLE_SLOT_SIZE * n as usize;
    let free = ts as usize - used;
    if b.len() > free || free - b.len() < TUPLE_SLOT_SIZE {
        return None;
    }
    let start = ts as usize - b.len();
    write_bytes(page, start, b);
    write_u16(page, used, start as u16);
    write_u16(page, used + 2, b.len() as u16);
    write_u16(page, 0, n + 1);
    write_u16(page, 2, start as u16);
    proof {
        let p = old(page)@;
        let p1 = splice(p, start as int, b@);
        let entry = le16(start as u16) + le16(b@.len() as u16);
        let hdr = le16((n + 1) as u16) + le16(start as u16);
        lemma_splice(p, start as int, b@);
        let pa = splice(p1, used as int, le16(start as u16));
        let pb = splice(pa, used + 2, le16(b@.len() as u16));
        assert(pb =~= splice(p1, used as int, entry));
        let pc = splice(pb, 0, le16((n + 1) as u16));
        let pd = splice(pc, 2, le16(start as u16));
        assert(pd =~= splice(pb, 0, hdr));
    }
    Some(n as u8)
}

} // verus!
