use vstd::prelude::*;

use crate::codec::copy_bytes;
use crate::common::{CommandId, DbError, TransactionId, PAGE_SIZE};
use crate::lock_manager::LockManager;

verus! {

pub const INVALID_TRANSACTION_ID: TransactionId = 0;

pub const BOOTSTRAP_TRANSACTION_ID: TransactionId = 1;

/// First transaction id handed to a user transaction.
pub const FIRST_USER_TRANSACTION_ID: TransactionId = 2;

/// Log pages needed to hold a status for every transaction id.
pub const MAX_LOG_PAGES: usize = 262144;

/// What a transaction sees of others running at the same time.
#[derive(Clone, Copy, Debug, PartialEq, Eq, Structural)]
pub enum IsolationLevel {
    /// The snapshot is taken again before each statement.
    ReadCommitted,
    /// The snapshot is taken once, when the transaction starts.
    RepeatableRead,
}

pub const DEFAULT_ISOLATION_LEVEL: IsolationLevel = IsolationLevel::ReadCommitted;

/// The fate of a transaction id, stored in two bits.
#[derive(Clone, Copy, Debug, PartialEq, Eq, Structural)]
pub enum TransactionStatus {
    /// `00`: no status was ever recorded
    Invalid,
    /// `01`: running; never stored, it follows from the set of running transactions
    InProgress,
    /// `10`
    Aborted,
    /// `11`
    Committed,
}

/// How a transaction handle ended.
#[derive(Clone, Copy, Debug, PartialEq, Eq, Structural)]
pub enum TransactionEnd {
    /// still running
    Running,
    Committed,
    Aborted,
    /// an operation failed: only a rollback is accepted
    ExpectedRollback,
}

pub open spec fn status_from_bits(bits: u8) -> TransactionStatus {
    if bits % 4 == 0 {
        TransactionStatus::Invalid
    } else if bits % 4 == 1 {
        TransactionStatus::InProgress
    } else if bits % 4 == 2 {
        TransactionStatus::Aborted
    } else {
        TransactionStatus::Committed
    }
}

pub open spec fn status_bits(s: TransactionStatus) -> u8 {
    match s {
        TransactionStatus::Invalid => 0,
        TransactionStatus::InProgress => 1,
        TransactionStatus::Aborted => 2,
        TransactionStatus::Committed => 3,
    }
}

impl From<u8> for TransactionStatus {
    fn from(value: u8) -> (r: TransactionStatus) {
        TransactionStatus::from_bits(value)
    }
}

impl vstd::std_specs::convert::FromSpecImpl<u8> for TransactionStatus {
    open spec fn obeys_from_spec() -> bool {
        true
    }

    open spec fn from_spec(v: u8) -> TransactionStatus {
        status_from_bits(v)
    }
}

impl TransactionStatus {
    /// The status that the two low bits of `value` encode.
    pub fn from_bits(value: u8) -> (r: TransactionStatus)
        ensures
            r == status_from_bits(value),
    {
        let b = value % 4;
        if b == 0 {
            TransactionStatus::Invalid
        } else if b == 1 {
            TransactionStatus::InProgress
        } else if b == 2 {
            TransactionStatus::Aborted
        } else {
            TransactionStatus::Committed
        }
    }

    /// The two-bit code of the status.
    pub fn bits(self) -> (r: u8)
        ensures
            r == status_bits(self),
    {
        match self {
            TransactionStatus::Invalid => 0,
            TransactionStatus::InProgress => 1,
            TransactionStatus::Aborted => 2,
            TransactionStatus::Committed => 3,
        }
    }
}

// ---------------------------------------------------------------------------
// The log: four two-bit cells per byte, `PAGE_SIZE` bytes per page.
/// Index of the log page that holds `tid` (page number minus one).
pub open spec fn log_page_index(tid: TransactionId) -> int {
    (tid / 4) as int / PAGE_SIZE as int
}

/// Byte within its page that holds `tid`.
pub open spec fn log_byte_index(tid: TransactionId) -> int {
    (tid / 4) as int % PAGE_SIZE as int
}

/// Bit offset of `tid` within its byte.
pub open spec fn log_shift(tid: TransactionId) -> u8 {
    ((tid % 4) * 2) as u8
}

/// The two bits that the log holds for `tid`; a page that does not exist reads as zeros.
pub open spec fn log_bits(pages: Seq<Seq<u8>>, tid: TransactionId) -> u8 {
    if log_page_index(tid) < pages.len() {
        (pages[log_page_index(tid)][log_byte_index(tid)] >> log_shift(tid)) & 3u8
    } else {
        0
    }
}

pub open spec fn log_status(pages: Seq<Seq<u8>>, tid: TransactionId) -> TransactionStatus {
    status_from_bits(log_bits(pages, tid))
}

/// Every page has `PAGE_SIZE` bytes and there are no more pages than ids need.
pub open spec fn log_shape_ok(pages: Seq<Seq<u8>>) -> bool {
    &&& pages.len() <= MAX_LOG_PAGES
    &&& forall|i: int| 0 <= i < pages.len() ==> (#[trigger] pages[i]).len() == PAGE_SIZE
}

pub open spec fn zero_page() -> Seq<u8> {
    Seq::new(PAGE_SIZE as nat, |i: int| 0u8)
}

/// `pages`, grown with zeroed pages to at least `n` pages.
pub open spec fn log_extend(pages: Seq<Seq<u8>>, n: int) -> Seq<Seq<u8>> {
    if pages.len() >= n {
        pages
    } else {
        pages + Seq::new((n - pages.len()) as nat, |i: int| zero_page())
    }
}

/// The log after OR-ing the code of `status` into the cell of `tid`.
pub open spec fn log_set(pages: Seq<Seq<u8>>, tid: TransactionId, status: TransactionStatus) -> Seq<
    Seq<u8>,
> {
    let ext = log_extend(pages, log_page_index(tid) + 1);
    let p = log_page_index(tid);
    let b = log_byte_index(tid);
    ext.update(p, ext[p].update(b, ext[p][b] | (status_bits(status) << log_shift(tid))))
}

/// Offset, within the four cells of a non-zero byte, of its highest non-zero cell.
pub open spec fn byte_top(b: u8) -> int {
    if b >= 64 {
        3
    } else if b >= 16 {
        2
    } else if b >= 4 {
        1
    } else {
        0
    }
}

/// Offset within a page of the highest non-zero cell among its first `n` bytes, or 0.
pub open spec fn last_nonzero(page: Seq<u8>, n: int) -> int
    decreases n,
{
    if n <= 0 {
        0
    } else if page[n - 1] != 0 {
        4 * (n - 1) + byte_top(page[n - 1])
    } else {
        last_nonzero(page, n - 1)
    }
}

/// The next transaction id after loading a non-empty log: one past the highest id
/// with a recorded status on the last page, and never below the first user id.
pub open spec fn loaded_next_tid(pages: Seq<Seq<u8>>) -> int {
    let base = (pages.len() - 1) * PAGE_SIZE * 4;
    let highest = base + last_nonzero(pages.last(), PAGE_SIZE as int);
    if highest + 1 < FIRST_USER_TRANSACTION_ID {
        FIRST_USER_TRANSACTION_ID as int
    } else if highest + 1 > u32::MAX {
        u32::MAX as int
    } else {
        highest + 1
    }
}

/// The status a freshly loaded manager reports for `tid`.
pub open spec fn status_after_load(pages: Seq<Seq<u8>>, tid: TransactionId) -> TransactionStatus {
    if tid == BOOTSTRAP_TRANSACTION_ID {
        TransactionStatus::Committed
    } else if tid >= loaded_next_tid(pages) {
        TransactionStatus::Invalid
    } else {
        log_status(pages, tid)
    }
}

proof fn lemma_cell_nonzero_top(b: u8, k: u8)
    requires
        k < 4,
        (b >> (k * 2)) & 3u8 != 0,
    ensures
        byte_top(b) >= k,
{
    assert(k == 1 ==> ((b >> (k * 2)) & 3u8 != 0 ==> b >= 4)) by (bit_vector);
    assert(k == 2 ==> ((b >> (k * 2)) & 3u8 != 0 ==> b >= 16)) by (bit_vector);
    assert(k == 3 ==> ((b >> (k * 2)) & 3u8 != 0 ==> b >= 64)) by (bit_vector);
}

proof fn lemma_last_nonzero_bounds(page: Seq<u8>, n: int, j: int)
    requires
        0 <= j < n <= page.len(),
        page[j] != 0,
    ensures
        last_nonzero(page, n) >= 4 * j + byte_top(page[j]),
    decreases n,
{
    if page[n - 1] != 0 {
        if j < n - 1 {
            assert(byte_top(page[j]) <= 3);
        }
    } else {
        lemma_last_nonzero_bounds(page, n - 1, j);
    }
}

proof fn lemma_or_bits(b: u8, s: u8, k: u8)
    requires
        k < 4,
        (b >> (k * 2)) & 3u8 == 0,
        1 <= s <= 3,
    ensures
        ((b | (s << (k * 2))) >> (k * 2)) & 3u8 == s,
        b | (s << (k * 2)) != 0,
{
    assert(((b >> (k * 2)) & 3u8 == 0 && 1 <= s <= 3 && k < 4) ==> ((b | (s << (k * 2))) >> (k
        * 2)) & 3u8 == s) by (bit_vector);
    assert((1 <= s <= 3 && k < 4) ==> b | (s << (k * 2)) != 0) by (bit_vector);
}

/// A status written for `t` into an empty cell is read back after the log is
/// loaded again.
pub proof fn lemma_log_round_trip(pages: Seq<Seq<u8>>, t: TransactionId, status: TransactionStatus)
    requires
        log_shape_ok(pages),
        FIRST_USER_TRANSACTION_ID <= t < u32::MAX,
        status == TransactionStatus::Committed || status == TransactionStatus::Aborted,
        log_bits(pages, t) == 0,
    ensures
        log_shape_ok(log_set(pages, t, status)),
        log_set(pages, t, status).len() >= 1,
        status_after_load(log_set(pages, t, status), t) == status,
        no_running_cells(pages) ==> no_running_cells(log_set(pages, t, status)),
{
    if no_running_cells(pages) {
        assert forall|u: TransactionId| #[trigger] log_bits(log_set(pages, t, status), u) != 1 by {
            lemma_log_set_cells(pages, t, status, u);
            assert(log_bits(pages, u) != 1);
        }
    }
    let p = log_page_index(t);
    let bi = log_byte_index(t);
    let k = (t % 4) as u8;
    assert(p < MAX_LOG_PAGES) by {
        assert(t / 4 <= 1073741823);
    }
    let ext = log_extend(pages, p + 1);
    assert(log_shape_ok(ext)) by {
        assert forall|i: int| 0 <= i < ext.len() implies (#[trigger] ext[i]).len() == PAGE_SIZE by {
            if i >= pages.len() {
                assert(ext[i] == zero_page());
            }
        }
    }
    let q = log_set(pages, t, status);
    let old_byte = ext[p][bi];
    let sb = status_bits(status);
    assert(log_shift(t) == k * 2);
    assert((old_byte >> (k * 2)) & 3u8 == 0) by {
        if p >= pages.len() {
            assert(ext[p] == zero_page());
            assert(old_byte == 0);
            assert((0u8 >> (k * 2)) & 3u8 == 0) by (bit_vector);
        } else {
            assert(ext[p] == pages[p]);
        }
    }
    lemma_or_bits(old_byte, sb, k);
    let new_byte = q[p][bi];
    assert(new_byte == old_byte | (sb << (k * 2)));
    assert(log_bits(q, t) == sb);
    assert(status_from_bits(sb) == status);
    assert(log_shape_ok(q)) by {
        assert forall|i: int| 0 <= i < q.len() implies (#[trigger] q[i]).len() == PAGE_SIZE by {
            if i != p {
                assert(q[i] == ext[i]);
            }
        }
    }
    // t lies below the loaded next id
    let base = (q.len() - 1) * PAGE_SIZE * 4;
    let last = q.last();
    let ti = t as int;
    assert(ti == (ti / 4) * 4 + k as int);
    assert(ti / 4 == p * PAGE_SIZE + bi);
    assert(ti == p * PAGE_SIZE * 4 + 4 * bi + k as int) by (nonlinear_arith)
        requires
            ti == (ti / 4) * 4 + k as int,
            ti / 4 == p * PAGE_SIZE + bi,
    ;
    lemma_last_nonzero_nonneg(last, PAGE_SIZE as int);
    if p == q.len() - 1 {
        assert(last == q[p]);
        lemma_cell_nonzero_top(new_byte, k);
        lemma_last_nonzero_bounds(last, PAGE_SIZE as int, bi);
        assert(base == p * PAGE_SIZE * 4);
        assert(ti <= base + last_nonzero(last, PAGE_SIZE as int));
    } else {
        assert(p + 1 <= q.len() - 1);
        assert(ti <= p * PAGE_SIZE * 4 + 4 * (PAGE_SIZE - 1) + 3);
        assert((p + 1) * PAGE_SIZE * 4 <= base) by (nonlinear_arith)
            requires
                p + 1 <= q.len() - 1,
                base == (q.len() - 1) * PAGE_SIZE * 4,
        ;
    }
    assert(ti < loaded_next_tid(q));
}

/// No byte of the log holds a cell with the code of a running transaction.
pub open spec fn log_bytes_ok(pages: Seq<Seq<u8>>) -> bool {
    forall|p: int, j: int|
        0 <= p < pages.len() && 0 <= j < pages[p].len() ==> #[trigger] byte_cells_ok(pages[p][j])
}

/// No log cell holds the code of a running transaction.
pub open spec fn no_running_cells(pages: Seq<Seq<u8>>) -> bool {
    forall|t: TransactionId| #[trigger] log_bits(pages, t) != 1
}

/// None of the four cells of byte `b` holds `01`.
pub open spec fn byte_cells_ok(b: u8) -> bool {
    &&& b & 3u8 != 1u8
    &&& (b >> 2u8) & 3u8 != 1u8
    &&& (b >> 4u8) & 3u8 != 1u8
    &&& (b >> 6u8) & 3u8 != 1u8
}

proof fn lemma_byte_cells_ok(b: u8, m: u8)
    requires
        byte_cells_ok(b),
        m < 4,
    ensures
        (b >> (m * 2)) & 3u8 != 1u8,
{
    assert((b & 3u8 != 1u8 && (b >> 2u8) & 3u8 != 1u8 && (b >> 4u8) & 3u8 != 1u8 && (b >> 6u8)
        & 3u8 != 1u8 && m < 4) ==> (b >> (m * 2)) & 3u8 != 1u8) by (bit_vector);
}

proof fn lemma_or_cell(b: u8, code: u8, k: u8, m: u8)
    requires
        k < 4,
        m < 4,
        code <= 3,
    ensures
        m != k ==> ((b | (code << (k * 2))) >> (m * 2)) & 3u8 == (b >> (m * 2)) & 3u8,
        m == k ==> ((b | (code << (k * 2))) >> (m * 2)) & 3u8 == ((b >> (m * 2)) & 3u8) | code,
{
    assert((k < 4 && m < 4 && code <= 3 && m != k) ==> ((b | (code << (k * 2))) >> (m * 2)) & 3u8
        == (b >> (m * 2)) & 3u8) by (bit_vector);
    assert((k < 4 && m < 4 && code <= 3 && m == k) ==> ((b | (code << (k * 2))) >> (m * 2)) & 3u8
        == ((b >> (m * 2)) & 3u8) | code) by (bit_vector);
}

/// Writing the cell of `tid` ORs its code into that cell and leaves every other cell alone.
pub proof fn lemma_log_set_cells(pages: Seq<Seq<u8>>, tid: TransactionId, status: TransactionStatus, t: TransactionId)
    requires
        log_shape_ok(pages),
    ensures
        t != tid ==> log_bits(log_set(pages, tid, status), t) == log_bits(pages, t),
        log_bits(log_set(pages, tid, status), tid) == log_bits(pages, tid) | status_bits(status),
        log_bits(pages, tid) == 0 ==> log_bits(log_set(pages, tid, status), tid) == status_bits(
            status,
        ),
        log_shape_ok(log_set(pages, tid, status)),
{
    assert(forall|c: u8| (0u8 | c) == c) by (bit_vector);
    let p = log_page_index(tid);
    assert(p < MAX_LOG_PAGES) by {
        assert(tid / 4 <= 1073741823);
    }
    let ext = log_extend(pages, p + 1);
    let q = log_set(pages, tid, status);
    assert forall|i: int| 0 <= i < ext.len() implies (#[trigger] ext[i]).len() == PAGE_SIZE by {
        if i >= pages.len() {
            assert(ext[i] == zero_page());
        }
    }
    assert forall|i: int| 0 <= i < q.len() implies (#[trigger] q[i]).len() == PAGE_SIZE by {
        if i != p {
            assert(q[i] == ext[i]);
        }
    }
    let code = status_bits(status);
    let k = (tid % 4) as u8;
    assert(log_shift(tid) == k * 2);
    let pt = log_page_index(t);
    let bt = log_byte_index(t);
    let m = (t % 4) as u8;
    assert(log_shift(t) == m * 2);
    // a page that the extension adds reads as zeros, as a missing page does
    if pt < ext.len() && pt >= pages.len() {
        assert(ext[pt] == zero_page());
        assert((0u8 >> (m * 2)) & 3u8 == 0) by (bit_vector);
    }
    if pt == p {
        let b = ext[p][log_byte_index(tid)];
        if pt >= pages.len() {
            assert(b == 0);
        }
        if bt == log_byte_index(tid) {
            lemma_or_cell(b, code, k, m);
            if t != tid {
                assert(m != k);
            }
        }
    }
    if p >= pages.len() {
        assert((0u8 >> (k * 2)) & 3u8 == 0) by (bit_vector);
    }
    lemma_or_cell(ext[p][log_byte_index(tid)], code, k, k);
}

proof fn lemma_log_bytes_ok(pages: Seq<Seq<u8>>)
    requires
        log_shape_ok(pages),
        log_bytes_ok(pages),
    ensures
        no_running_cells(pages),
{
    assert forall|t: TransactionId| #[trigger] log_bits(pages, t) != 1 by {
        let p = log_page_index(t);
        if p < pages.len() {
            let m = (t % 4) as u8;
            assert(log_shift(t) == m * 2);
            assert(byte_cells_ok(pages[p][log_byte_index(t)]));
            lemma_byte_cells_ok(pages[p][log_byte_index(t)], m);
        }
    }
}

/// A cell above the highest non-zero cell of a page is zero.
proof fn lemma_above_last_nonzero(page: Seq<u8>, n: int, j: int, m: u8)
    requires
        0 <= j < n <= page.len(),
        m < 4,
        4 * j + m > last_nonzero(page, n),
    ensures
        (page[j] >> (m * 2)) & 3u8 == 0,
    decreases n,
{
    let b = page[n - 1];
    if b != 0 {
        if j == n - 1 {
            assert((m < 4 && b < 64 && m == 3) ==> (b >> (m * 2)) & 3u8 == 0) by (bit_vector);
            assert((m < 4 && b < 16 && m >= 2) ==> (b >> (m * 2)) & 3u8 == 0) by (bit_vector);
            assert((m < 4 && b < 4 && m >= 1) ==> (b >> (m * 2)) & 3u8 == 0) by (bit_vector);
        }
    } else {
        if j == n - 1 {
            assert((b == 0) ==> (b >> (m * 2)) & 3u8 == 0) by (bit_vector);
        } else {
            lemma_above_last_nonzero(page, n - 1, j, m);
        }
    }
}

/// The highest id with a status on the last page of a non-empty log.
pub open spec fn loaded_highest(pages: Seq<Seq<u8>>) -> int {
    (pages.len() - 1) * PAGE_SIZE * 4 + last_nonzero(pages.last(), PAGE_SIZE as int)
}

/// Every id above the highest one with a status on the last page has an empty cell.
proof fn lemma_cells_above_highest(pages: Seq<Seq<u8>>, t: TransactionId)
    requires
        log_shape_ok(pages),
        pages.len() >= 1,
        t > loaded_highest(pages),
    ensures
        log_bits(pages, t) == 0,
{
    let p = log_page_index(t);
    let bi = log_byte_index(t);
    let m = (t % 4) as u8;
    let ti = t as int;
    assert(ti == (ti / 4) * 4 + m as int);
    assert(ti / 4 == p * PAGE_SIZE + bi);
    assert(ti == p * PAGE_SIZE * 4 + 4 * bi + m as int) by (nonlinear_arith)
        requires
            ti == (ti / 4) * 4 + m as int,
            ti / 4 == p * PAGE_SIZE + bi,
    ;
    lemma_last_nonzero_nonneg(pages.last(), PAGE_SIZE as int);
    let base = (pages.len() - 1) * PAGE_SIZE * 4;
    if p < pages.len() - 1 {
        assert((p + 1) * PAGE_SIZE * 4 <= base) by (nonlinear_arith)
            requires
                p + 1 <= pages.len() - 1,
                base == (pages.len() - 1) * PAGE_SIZE * 4,
        ;
        assert(false);
    } else if p == pages.len() - 1 {
        assert(log_shift(t) == m * 2);
        lemma_above_last_nonzero(pages.last(), PAGE_SIZE as int, bi, m);
    }
}

proof fn lemma_last_nonzero_nonneg(page: Seq<u8>, n: int)
    ensures
        last_nonzero(page, n) >= 0,
    decreases n,
{
    if n > 0 && page[n - 1] == 0 {
        lemma_last_nonzero_nonneg(page, n - 1);
    }
}

// ---------------------------------------------------------------------------
// Visibility
/// What a transaction evaluates visibility against.
pub struct Snapshot {
    /// the transaction's own id
    pub tid: TransactionId,
    /// one past the largest id the snapshot knows of
    pub tid_max: TransactionId,
    /// the transaction's current command
    pub command_id: CommandId,
    /// ids that were running when the snapshot was taken
    pub alive: Set<TransactionId>,
}

/// Whether the tuple version with these header fields is visible in `snap`, when
/// the status of each id is given by `status`.
pub open spec fn visible(
    snap: Snapshot,
    status: spec_fn(TransactionId) -> TransactionStatus,
    insert_tid: TransactionId,
    command_id: CommandId,
    delete_tid: TransactionId,
) -> bool {
    if insert_tid >= snap.tid_max {
        false
    } else {
        match status(insert_tid) {
            TransactionStatus::Invalid | TransactionStatus::Aborted => false,
            TransactionStatus::InProgress => insert_tid == snap.tid && delete_tid
                == INVALID_TRANSACTION_ID && command_id < snap.command_id,
            TransactionStatus::Committed => {
                if snap.alive.contains(insert_tid) {
                    false
                } else if delete_tid == INVALID_TRANSACTION_ID || delete_tid >= snap.tid_max {
                    true
                } else {
                    match status(delete_tid) {
                        TransactionStatus::Invalid | TransactionStatus::Aborted => true,
                        TransactionStatus::InProgress => delete_tid != snap.tid,
                        TransactionStatus::Committed => snap.alive.contains(delete_tid),
                    }
                }
            },
        }
    }
}

/// The statuses agree with the snapshot: its own transaction is running, and no
/// other id below `tid_max` that was not running at snapshot time is in progress.
pub open spec fn snapshot_settled(
    snap: Snapshot,
    status: spec_fn(TransactionId) -> TransactionStatus,
) -> bool {
    &&& status(snap.tid) == TransactionStatus::InProgress
    &&& forall|t: TransactionId|
        t < snap.tid_max && t != snap.tid && !snap.alive.contains(t) ==> #[trigger] status(t)
            != TransactionStatus::InProgress
}

/// `later` is reachable from `earlier`: running ids may have ended, nothing else changed.
pub open spec fn status_advances(
    earlier: spec_fn(TransactionId) -> TransactionStatus,
    later: spec_fn(TransactionId) -> TransactionStatus,
) -> bool {
    forall|t: TransactionId|
        #[trigger] earlier(t) == later(t) || (earlier(t) == TransactionStatus::InProgress && (
        later(t) == TransactionStatus::Committed || later(t) == TransactionStatus::Aborted))
}

/// Visibility is stable within one snapshot: while other transactions commit or
/// abort, a version that was visible stays visible and one that was not stays hidden.
pub proof fn lemma_visibility_consistent(
    snap: Snapshot,
    earlier: spec_fn(TransactionId) -> TransactionStatus,
    later: spec_fn(TransactionId) -> TransactionStatus,
    insert_tid: TransactionId,
    command_id: CommandId,
    delete_tid: TransactionId,
)
    requires
        snapshot_settled(snap, earlier),
        status_advances(earlier, later),
        later(snap.tid) == TransactionStatus::InProgress,
    ensures
        visible(snap, earlier, insert_tid, command_id, delete_tid) == visible(
            snap,
            later,
            insert_tid,
            command_id,
            delete_tid,
        ),
{
    let e_i = earlier(insert_tid);
    let l_i = later(insert_tid);
    let e_d = earlier(delete_tid);
    let l_d = later(delete_tid);
    if insert_tid < snap.tid_max && insert_tid != snap.tid && !snap.alive.contains(insert_tid) {
        assert(e_i != TransactionStatus::InProgress);
        assert(e_i == l_i);
    }
    if delete_tid < snap.tid_max && delete_tid != snap.tid && !snap.alive.contains(delete_tid) {
        assert(e_d != TransactionStatus::InProgress);
        assert(e_d == l_d);
    }
}

/// An insert committed before the snapshot (below `tid_max`, not running then) is
/// visible; one that was still running, or started later, is not.
pub proof fn lemma_committed_insert_visibility(
    snap: Snapshot,
    status: spec_fn(TransactionId) -> TransactionStatus,
    insert_tid: TransactionId,
    command_id: CommandId,
)
    requires
        status(insert_tid) == TransactionStatus::Committed,
    ensures
        insert_tid < snap.tid_max && !snap.alive.contains(insert_tid) ==> visible(
            snap,
            status,
            insert_tid,
            command_id,
            INVALID_TRANSACTION_ID,
        ),
        insert_tid >= snap.tid_max || snap.alive.contains(insert_tid) ==> !visible(
            snap,
            status,
            insert_tid,
            command_id,
            INVALID_TRANSACTION_ID,
        ),
{
}

/// After a committed update, exactly one of the two versions is visible: the old
/// version (inserted by `insert_tid`, replaced by `update_tid`) or the new one
/// (inserted by `update_tid`), for any snapshot that saw the old version's insert.
pub proof fn lemma_committed_update_single_version(
    snap: Snapshot,
    status: spec_fn(TransactionId) -> TransactionStatus,
    insert_tid: TransactionId,
    old_command_id: CommandId,
    update_tid: TransactionId,
    new_command_id: CommandId,
)
    requires
        status(insert_tid) == TransactionStatus::Committed,
        insert_tid < snap.tid_max,
        !snap.alive.contains(insert_tid),
        status(update_tid) == TransactionStatus::Committed,
        update_tid != INVALID_TRANSACTION_ID,
    ensures
        visible(snap, status, insert_tid, old_command_id, update_tid) != visible(
            snap,
            status,
            update_tid,
            new_command_id,
            INVALID_TRANSACTION_ID,
        ),
{
}

// ---------------------------------------------------------------------------
/// Per-session state of one transaction: its id, isolation level, command counter
/// and snapshot.
pub struct Transaction {
    tid: TransactionId,
    isolation_level: IsolationLevel,
    tid_max: TransactionId,
    command_id: CommandId,
    auto_commit: bool,
    end: TransactionEnd,
    alive_tids: Vec<TransactionId>,
}

/// Allocates ids, knows which transactions run, and keeps the status log.
pub struct TransactionManager {
    log: Vec<Vec<u8>>,
    pub lock_manager: LockManager,
    next_tid: TransactionId,
    alive_tids: Vec<TransactionId>,
}

fn contains_tid(v: &Vec<TransactionId>, t: TransactionId) -> (r: bool)
    ensures
        r == v@.contains(t),
{
    let mut i: usize = 0;
    while i < v.len()
        invariant
            0 <= i <= v@.len(),
            forall|k: int| 0 <= k < i ==> v@[k] != t,
        decreases v@.len() - i,
    {
        if v[i] == t {
            return true;
        }
        i = i + 1;
    }
    false
}

fn copy_tids(v: &Vec<TransactionId>) -> (r: Vec<TransactionId>)
    ensures
        r@ == v@,
{
    let mut r: Vec<TransactionId> = Vec::new();
    let mut i: usize = 0;
    while i < v.len()
        invariant
            0 <= i <= v@.len(),
            r@ =~= v@.subrange(0, i as int),
        decreases v@.len() - i,
    {
        r.push(v[i]);
        i = i + 1;
    }
    assert(r@ =~= v@);
    r
}

impl Transaction {
    /// The snapshot this transaction currently evaluates visibility against.
    pub closed spec fn snapshot(&self) -> Snapshot {
        Snapshot {
            tid: self.tid,
            tid_max: self.tid_max,
            command_id: self.command_id,
            alive: self.alive_tids@.to_set(),
        }
    }

    pub closed spec fn spec_end(&self) -> TransactionEnd {
        self.end
    }

    pub closed spec fn spec_isolation_level(&self) -> IsolationLevel {
        self.isolation_level
    }

    pub closed spec fn spec_auto_commit(&self) -> bool {
        self.auto_commit
    }

    /// Returns its own transaction id.
    pub fn tid(&self) -> (r: TransactionId)
        ensures
            r == self.snapshot().tid,
    {
        self.tid
    }

    /// Returns its own isolation level.
    pub fn isolation_level(&self) -> (r: IsolationLevel)
        ensures
            r == self.spec_isolation_level(),
    {
        self.isolation_level
    }

    /// Returns the current command id.
    pub fn command_id(&self) -> (r: CommandId)
        ensures
            r == self.snapshot().command_id,
    {
        self.command_id
    }

    /// Whether this transaction commits by itself after its one statement.
    pub fn auto_commit(&self) -> (r: bool)
        ensures
            r == self.spec_auto_commit(),
    {
        self.auto_commit
    }

    /// Whether `other` has ended, so that a wait for it is over. `other` holds
    /// the lock on its own id until it commits or aborts.
    pub fn wait_for_transaction_to_end(&self, manager: &TransactionManager, other: TransactionId) -> (r:
        bool)
        ensures
            r == !manager.locks().holds_transaction_lock(other),
    {
        manager.lock_manager.lock_transaction(other, crate::lock_manager::LockMode::Shared)
    }

    /// Commits the transaction. Allowed only while it runs.
    pub fn commit(&mut self, manager: &mut TransactionManager) -> (r: Result<(), DbError>)
        requires
            old(manager).wf(),
        ensures
            final(manager).wf(),
            old(self).spec_end() == TransactionEnd::Running <==> r is Ok,
            old(self).spec_end() == TransactionEnd::Committed ==> r == Err::<(), DbError>(
                DbError::AlreadyCommitted,
            ),
            old(self).spec_end() == TransactionEnd::Aborted ==> r == Err::<(), DbError>(
                DbError::CommitAfterAbort,
            ),
            old(self).spec_end() == TransactionEnd::ExpectedRollback ==> r == Err::<(), DbError>(
                DbError::RollbackExpected,
            ),
            r is Ok ==> final(self).spec_end() == TransactionEnd::Committed && final(manager).ended(
                *old(manager),
                old(self).snapshot().tid,
                TransactionStatus::Committed,
            ),
            r is Ok && old(manager).alive().contains(old(self).snapshot().tid) ==> final(manager).status(old(self).snapshot().tid) == TransactionStatus::Committed,
            r is Ok ==> forall|t: TransactionId|
                t != old(self).snapshot().tid ==> #[trigger] final(manager).status(t) == old(manager).status(t),
            r is Err ==> *final(self) == *old(self) && *final(manager) == *old(manager),
            final(self).snapshot() == old(self).snapshot(),
    {
        match self.end {
            TransactionEnd::Running => {
                manager.change_transaction_status(self.tid, TransactionStatus::Committed);
                self.end = TransactionEnd::Committed;
                Ok(())
            },
            TransactionEnd::Committed => Err(DbError::AlreadyCommitted),
            TransactionEnd::Aborted => Err(DbError::CommitAfterAbort),
            TransactionEnd::ExpectedRollback => Err(DbError::RollbackExpected),
        }
    }

    /// Aborts the transaction. Allowed while it runs or when a rollback is expected.
    pub fn abort(&mut self, manager: &mut TransactionManager) -> (r: Result<(), DbError>)
        requires
            old(manager).wf(),
        ensures
            final(manager).wf(),
            (old(self).spec_end() == TransactionEnd::Running || old(self).spec_end()
                == TransactionEnd::ExpectedRollback) <==> r is Ok,
            old(self).spec_end() == TransactionEnd::Committed ==> r == Err::<(), DbError>(
                DbError::AbortAfterCommit,
            ),
            old(self).spec_end() == TransactionEnd::Aborted ==> r == Err::<(), DbError>(
                DbError::AlreadyAborted,
            ),
            r is Ok ==> final(self).spec_end() == TransactionEnd::Aborted && final(manager).ended(
                *old(manager),
                old(self).snapshot().tid,
                TransactionStatus::Aborted,
            ),
            r is Ok && old(manager).alive().contains(old(self).snapshot().tid) ==> final(manager).status(old(self).snapshot().tid) == TransactionStatus::Aborted,
            r is Ok ==> forall|t: TransactionId|
                t != old(self).snapshot().tid ==> #[trigger] final(manager).status(t) == old(manager).status(t),
            r is Err ==> *final(self) == *old(self) && *final(manager) == *old(manager),
            final(self).snapshot() == old(self).snapshot(),
    {
        match self.end {
            TransactionEnd::Running | TransactionEnd::ExpectedRollback => {
                manager.change_transaction_status(self.tid, TransactionStatus::Aborted);
                self.end = TransactionEnd::Aborted;
                Ok(())
            },
            TransactionEnd::Committed => Err(DbError::AbortAfterCommit),
            TransactionEnd::Aborted => Err(DbError::AlreadyAborted),
        }
    }

    /// An operation failed: from now on only a rollback is accepted. Has no
    /// effect on a transaction that already ended.
    pub fn expect_rollback(&mut self)
        ensures
            old(self).spec_end() == TransactionEnd::Running ==> final(self).spec_end()
                == TransactionEnd::ExpectedRollback,
            old(self).spec_end() != TransactionEnd::Running ==> final(self).spec_end() == old(
                self,
            ).spec_end(),
            final(self).snapshot() == old(self).snapshot(),
            final(self).spec_isolation_level() == old(self).spec_isolation_level(),
            final(self).spec_auto_commit() == old(self).spec_auto_commit(),
    {
        if self.end == TransactionEnd::Running {
            self.end = TransactionEnd::ExpectedRollback;
        }
    }

    pub fn is_rollback_expected(&self) -> (r: bool)
        ensures
            r == (self.spec_end() == TransactionEnd::ExpectedRollback),
    {
        self.end == TransactionEnd::ExpectedRollback
    }

    /// Returns whether the transaction has committed or aborted.
    pub fn has_ended(&self) -> (r: bool)
        ensures
            r == (self.spec_end() == TransactionEnd::Committed || self.spec_end()
                == TransactionEnd::Aborted),
    {
        match self.end {
            TransactionEnd::Running | TransactionEnd::ExpectedRollback => false,
            TransactionEnd::Committed | TransactionEnd::Aborted => true,
        }
    }

    /// Whether the tuple version with these header fields is visible to this transaction.
    pub fn is_tuple_visible(
        &self,
        manager: &TransactionManager,
        insert_tid: TransactionId,
        command_id: CommandId,
        delete_tid: TransactionId,
    ) -> (r: bool)
        requires
            manager.wf(),
        ensures
            r == visible(
                self.snapshot(),
                manager.status_fn(),
                insert_tid,
                command_id,
                delete_tid,
            ),
    {
        if insert_tid >= self.tid_max {
            return false;
        }
        match manager.get_transaction_status(insert_tid) {
            TransactionStatus::Invalid | TransactionStatus::Aborted => false,
            TransactionStatus::InProgress => {
                if insert_tid == self.tid {
                    delete_tid == INVALID_TRANSACTION_ID && self.command_id > command_id
                } else {
                    false
                }
            },
            TransactionStatus::Committed => {
                if contains_tid(&self.alive_tids, insert_tid) {
                    false
                } else if delete_tid == INVALID_TRANSACTION_ID || delete_tid >= self.tid_max {
                    true
                } else {
                    match manager.get_transaction_status(delete_tid) {
                        TransactionStatus::Invalid | TransactionStatus::Aborted => true,
                        TransactionStatus::InProgress => delete_tid != self.tid,
                        TransactionStatus::Committed => contains_tid(&self.alive_tids, delete_tid),
                    }
                }
            },
        }
    }
}

impl TransactionManager {
    /// Internal consistency: the log is well shaped, the next id is at least the
    /// first user id, and every running id was handed out before.
    pub closed spec fn wf(&self) -> bool {
        &&& log_shape_ok(self.log_view())
        &&& self.next_tid >= FIRST_USER_TRANSACTION_ID
        &&& forall|i: int|
            0 <= i < self.alive_tids@.len() ==> FIRST_USER_TRANSACTION_ID <= #[trigger] self.alive_tids@[i]
                < self.next_tid
        &&& no_running_cells(self.log_view())
        &&& forall|t: TransactionId|
            (self.alive_tids@.contains(t) || t >= self.next_tid) ==> #[trigger] log_bits(
                self.log_view(),
                t,
            ) == 0
    }

    /// What the internal consistency of a manager means: the next id is at least
    /// the first user id; the bootstrap id never runs; running ids were handed
    /// out; the cells of running ids and of ids not yet handed out are empty; no
    /// cell holds the code of a running transaction; so the bootstrap id counts
    /// as committed and ids not yet handed out as invalid.
    pub proof fn lemma_wf_facts(&self)
        requires
            self.wf(),
        ensures
            self.spec_next_tid() >= FIRST_USER_TRANSACTION_ID,
            !self.alive().contains(BOOTSTRAP_TRANSACTION_ID),
            forall|t: TransactionId|
                #[trigger] self.alive().contains(t) ==> FIRST_USER_TRANSACTION_ID <= t
                    < self.spec_next_tid(),
            forall|t: TransactionId|
                (self.alive().contains(t) || t >= self.spec_next_tid()) ==> #[trigger] log_bits(
                    self.log_view(),
                    t,
                ) == 0,
            no_running_cells(self.log_view()),
            self.status(BOOTSTRAP_TRANSACTION_ID) == TransactionStatus::Committed,
            forall|t: TransactionId|
                t >= self.spec_next_tid() ==> #[trigger] self.status(t) == TransactionStatus::Invalid,
    {
        assert forall|t: TransactionId| #[trigger] self.alive().contains(t) implies FIRST_USER_TRANSACTION_ID <= t
            < self.spec_next_tid() by {
            let i = choose|i: int| 0 <= i < self.alive_tids@.len() && self.alive_tids@[i] == t;
        }
        assert forall|t: TransactionId|
            (self.alive().contains(t) || t >= self.spec_next_tid()) implies #[trigger] log_bits(
                self.log_view(),
                t,
            ) == 0 by {
            if self.alive().contains(t) {
                assert(self.alive_tids@.contains(t));
            }
        }
        assert(!self.alive().contains(BOOTSTRAP_TRANSACTION_ID));
        assert forall|t: TransactionId| t >= self.spec_next_tid() implies #[trigger] self.status(t)
            == TransactionStatus::Invalid by {
            assert(!self.alive().contains(t));
        }
    }

    /// The log pages as byte sequences.
    pub closed spec fn log_view(&self) -> Seq<Seq<u8>> {
        self.log@.map_values(|p: Vec<u8>| p@)
    }

    /// The lock table.
    pub closed spec fn locks(&self) -> LockManager {
        self.lock_manager
    }

    /// The next id that will be handed out.
    pub closed spec fn spec_next_tid(&self) -> TransactionId {
        self.next_tid
    }

    /// The ids of running transactions.
    pub closed spec fn alive(&self) -> Set<TransactionId> {
        self.alive_tids@.to_set()
    }

    /// The status of `tid`: running ids are in progress, the bootstrap id counts as
    /// committed, ids not yet handed out are invalid, the rest is in the log.
    pub open spec fn status(&self, tid: TransactionId) -> TransactionStatus {
        if self.alive().contains(tid) {
            TransactionStatus::InProgress
        } else if tid == BOOTSTRAP_TRANSACTION_ID {
            TransactionStatus::Committed
        } else if tid >= self.spec_next_tid() {
            TransactionStatus::Invalid
        } else {
            log_status(self.log_view(), tid)
        }
    }

    /// `status` as a function.
    pub open spec fn status_fn(&self) -> spec_fn(TransactionId) -> TransactionStatus {
        |t: TransactionId| self.status(t)
    }

    /// `self` is `before` after `tid` ended with `status`: it no longer runs, its
    /// status is in the log if it was running (so the bootstrap id is never
    /// logged), and its locks are free.
    pub open spec fn ended(&self, before: TransactionManager, tid: TransactionId, status: TransactionStatus) -> bool {
        &&& self.alive() == before.alive().remove(tid)
        &&& self.spec_next_tid() == before.spec_next_tid()
        &&& self.log_view() == if before.alive().contains(tid) {
            log_set(before.log_view(), tid, status)
        } else {
            before.log_view()
        }
        &&& forall|t: TransactionId|
            self.locks().holds_transaction_lock(t) == (
            before.locks().holds_transaction_lock(t) && t != tid)
        &&& self.locks().tuple_locks() == before.locks().tuple_locks().filter(
            |l: crate::lock_manager::TupleLock| l.holder != tid,
        )
    }

    /// Opens the transaction manager over the pages of the status log. With
    /// `bootstrap` a new, empty log is started; otherwise the log is loaded and
    /// the next id follows the highest recorded status on its last page.
    pub fn new(log: Vec<Vec<u8>>, bootstrap: bool) -> (r: Result<Self, DbError>)
        ensures
            bootstrap ==> (r is Ok <==> log@.len() == 0),
            bootstrap && log@.len() != 0 ==> r == Err::<Self, DbError>(DbError::LogAlreadyExists),
            bootstrap && r is Ok ==> r->Ok_0.spec_next_tid() == FIRST_USER_TRANSACTION_ID,
            !bootstrap && r is Ok ==> log@.len() != 0 && log_shape_ok(
                log@.map_values(|p: Vec<u8>| p@),
            ) && no_running_cells(log@.map_values(|p: Vec<u8>| p@)) && loaded_highest(
                log@.map_values(|p: Vec<u8>| p@),
            ) < u32::MAX,
            !bootstrap && log@.len() != 0 && log_shape_ok(log@.map_values(|p: Vec<u8>| p@))
                && log_bytes_ok(log@.map_values(|p: Vec<u8>| p@)) && loaded_highest(
                log@.map_values(|p: Vec<u8>| p@),
            ) < u32::MAX ==> r is Ok,
            !bootstrap && log@.len() == 0 ==> r == Err::<Self, DbError>(DbError::EmptyLog),
            !bootstrap && r is Ok ==> r->Ok_0.spec_next_tid() == loaded_next_tid(
                log@.map_values(|p: Vec<u8>| p@),
            ),
            r matches Ok(m) ==> {
                &&& m.wf()
                &&& m.log_view() == log@.map_values(|p: Vec<u8>| p@)
                &&& m.alive() == Set::<TransactionId>::empty()
                &&& forall|t: TransactionId| !m.locks().holds_transaction_lock(t)
                &&& m.locks().tuple_locks() == Seq::<crate::lock_manager::TupleLock>::empty()
            },
            !bootstrap && r is Ok ==> forall|t: TransactionId|
                r->Ok_0.status(t) == status_after_load(log@.map_values(|p: Vec<u8>| p@), t),
    {
        let mut this = TransactionManager {
            log,
            lock_manager: LockManager::new(),
            next_tid: FIRST_USER_TRANSACTION_ID,
            alive_tids: Vec::new(),
        };
        assert(this.alive_tids@.to_set() =~= Set::<TransactionId>::empty());
        if bootstrap {
            if this.log.len() != 0 {
                return Err(DbError::LogAlreadyExists);
            }
            assert(log_shape_ok(this.log_view()));
            Ok(this)
        } else {
            match this.load_transaction_log() {
                Ok(()) => {
                    proof {
                        assert forall|t: TransactionId|
                            this.status(t) == status_after_load(this.log_view(), t) by {
                            assert(!this.alive().contains(t));
                        }
                    }
                    Ok(this)
                },
                Err(e) => Err(e),
            }
        }
    }

    /// Reads the last log page and sets the next id one past the highest id that
    /// has a status there. Used once, at startup.
    fn load_transaction_log(&mut self) -> (r: Result<(), DbError>)
        requires
            old(self).next_tid == FIRST_USER_TRANSACTION_ID,
            old(self).alive_tids@.len() == 0,
        ensures
            r is Ok ==> old(self).log@.len() != 0 && log_shape_ok(old(self).log_view())
                && no_running_cells(old(self).log_view()) && loaded_highest(old(self).log_view())
                < u32::MAX,
            old(self).log@.len() != 0 && log_shape_ok(old(self).log_view()) && log_bytes_ok(
                old(self).log_view(),
            ) && loaded_highest(old(self).log_view()) < u32::MAX ==> r is Ok,
            old(self).log@.len() == 0 ==> r == Err::<(), DbError>(DbError::EmptyLog),
            final(self).log == old(self).log,
            final(self).lock_manager == old(self).lock_manager,
            final(self).alive_tids == old(self).alive_tids,
            r is Ok ==> final(self).next_tid == loaded_next_tid(old(self).log_view()),
            r is Ok ==> final(self).wf(),
    {
        let n = self.log.len();
        if n == 0 {
            return Err(DbError::EmptyLog);
        }
        if n > MAX_LOG_PAGES {
            return Err(DbError::LogTooLarge);
        }
        let mut i: usize = 0;
        while i < n
            invariant
                n == self.log@.len(),
                0 <= i <= n,
                forall|k: int| 0 <= k < i ==> (#[trigger] self.log@[k])@.len() == PAGE_SIZE,
            decreases n - i,
        {
            if self.log[i].len() != PAGE_SIZE as usize {
                proof {
                    assert(self.log_view()[i as int] == self.log@[i as int]@);
                }
                return Err(DbError::MalformedData);
            }
            i = i + 1;
        }
        assert(log_shape_ok(self.log_view())) by {
            assert forall|k: int| 0 <= k < self.log_view().len() implies (
            #[trigger] self.log_view()[k]).len() == PAGE_SIZE by {
                assert(self.log_view()[k] == self.log@[k]@);
            }
        }
        let mut k: usize = 0;
        while k < n
            invariant
                n == self.log@.len(),
                0 <= k <= n,
                log_shape_ok(self.log_view()),
                forall|p: int, j: int|
                    0 <= p < k && 0 <= j < self.log_view()[p].len() ==> #[trigger] byte_cells_ok(
                        self.log_view()[p][j],
                    ),
            decreases n - k,
        {
            let page = &self.log[k];
            assert(page@ == self.log_view()[k as int]);
            let mut j: usize = 0;
            while j < page.len()
                invariant
                    n == self.log@.len(),
                    0 <= k < n,
                    page@ == self.log_view()[k as int],
                    0 <= j <= page@.len(),
                    forall|q: int| 0 <= q < j ==> #[trigger] byte_cells_ok(page@[q]),
                decreases page@.len() - j,
            {
                let b = page[j];
                if !((b & 3) != 1 && ((b >> 2) & 3) != 1 && ((b >> 4) & 3) != 1 && ((b >> 6) & 3)
                    != 1) {
                    proof {
                        assert(!byte_cells_ok(self.log_view()[k as int][j as int]));
                    }
                    return Err(DbError::MalformedData);
                }
                j = j + 1;
            }
            k = k + 1;
        }
        proof {
            lemma_log_bytes_ok(self.log_view());
        }
        let last = &self.log[n - 1];
        assert(last@ == self.log_view().last());
        let tid_offset: u64 = (n as u64 - 1) * (PAGE_SIZE as u64) * 4;
        let mut highest: u64 = tid_offset;
        let mut offset: usize = 0;
        while offset < PAGE_SIZE as usize
            invariant
                last@.len() == PAGE_SIZE,
                0 <= offset <= PAGE_SIZE,
                tid_offset == (n - 1) * PAGE_SIZE * 4,
                n <= MAX_LOG_PAGES,
                highest == tid_offset + last_nonzero(last@, offset as int),
                0 <= last_nonzero(last@, offset as int) <= 4 * offset,
            decreases PAGE_SIZE - offset,
        {
            let b = last[offset];
            let o = offset as u64;
            highest = if b >= 64 {
                tid_offset + 4 * o + 3
            } else if b >= 16 {
                tid_offset + 4 * o + 2
            } else if b >= 4 {
                tid_offset + 4 * o + 1
            } else if b > 0 {
                tid_offset + 4 * o
            } else {
                highest
            };
            offset = offset + 1;
        }
        assert(highest == loaded_highest(self.log_view()));
        if highest >= u32::MAX as u64 {
            return Err(DbError::LogTooLarge);
        }
        let next: u64 = highest + 1;
        self.next_tid = if next < FIRST_USER_TRANSACTION_ID as u64 {
            FIRST_USER_TRANSACTION_ID
        } else {
            next as u32
        };
        proof {
            assert forall|t: TransactionId|
                (self.alive_tids@.contains(t) || t >= self.next_tid) implies #[trigger] log_bits(
                    self.log_view(),
                    t,
                ) == 0 by {
                lemma_cells_above_highest(self.log_view(), t);
            }
        }
        Ok(())
    }

    /// Status of `tid`.
    pub fn get_transaction_status(&self, tid: TransactionId) -> (r: TransactionStatus)
        requires
            self.wf(),
        ensures
            r == self.status(tid),
    {
        if contains_tid(&self.alive_tids, tid) {
            return TransactionStatus::InProgress;
        }
        if tid == BOOTSTRAP_TRANSACTION_ID {
            return TransactionStatus::Committed;
        }
        if tid >= self.next_tid {
            return TransactionStatus::Invalid;
        }
        match self.get_page(tid) {
            None => TransactionStatus::Invalid,
            Some(data) => {
                let page_pos = ((tid / 4) % PAGE_SIZE) as usize;
                let shift = ((tid % 4) * 2) as u8;
                let byte = data[page_pos];
                TransactionStatus::from_bits((byte >> shift) & 3)
            },
        }
    }

    /// The log page that holds the status of `tid`, if it exists yet; a page
    /// that does not exist reads as all `Invalid`.
    fn get_page(&self, tid: TransactionId) -> (r: Option<&Vec<u8>>)
        requires
            self.wf(),
        ensures
            r is Some <==> log_page_index(tid) < self.log_view().len(),
            r matches Some(p) ==> p@ == self.log_view()[log_page_index(tid)] && p@.len() == PAGE_SIZE,
    {
        let page = ((tid / 4) / PAGE_SIZE) as usize;
        if page >= self.log.len() {
            return None;
        }
        assert(self.log_view()[page as int] == self.log@[page as int]@);
        Some(&self.log[page])
    }

    pub fn start_transaction(&mut self, isolation_level: Option<IsolationLevel>) -> (r: Result<
        Transaction,
        DbError,
    >)
        requires
            old(self).wf(),
        ensures
            final(self).wf(),
            Self::started(
                *old(self),
                *final(self),
                r,
                false,
                match isolation_level {
                    Some(l) => l,
                    None => DEFAULT_ISOLATION_LEVEL,
                },
            ),
    {
        let level = match isolation_level {
            Some(l) => l,
            None => DEFAULT_ISOLATION_LEVEL,
        };
        self.create_transaction(false, level)
    }

    /// Starts a transaction for a single statement, which commits by itself.
    pub fn start_implicit_transaction(&mut self) -> (r: Result<Transaction, DbError>)
        requires
            old(self).wf(),
        ensures
            final(self).wf(),
            Self::started(*old(self), *final(self), r, true, DEFAULT_ISOLATION_LEVEL),
    {
        self.create_transaction(true, DEFAULT_ISOLATION_LEVEL)
    }

    /// What starting a transaction does: it fails, changing nothing, exactly when
    /// the ids are used up; otherwise the next id runs, holds its lock, and its
    /// snapshot holds the running ids (itself included) and ends right after it.
    pub open spec fn started(
        before: TransactionManager,
        after: TransactionManager,
        r: Result<Transaction, DbError>,
        auto_commit: bool,
        level: IsolationLevel,
    ) -> bool {
        &&& (r is Err <==> before.spec_next_tid() == u32::MAX)
        &&& r is Err ==> r == Err::<Transaction, DbError>(DbError::TransactionIdsExhausted) && after
            == before
        &&& r matches Ok(t) ==> {
            &&& t.snapshot().tid == before.spec_next_tid()
            &&& t.snapshot().tid_max == before.spec_next_tid() + 1
            &&& t.snapshot().command_id == 0
            &&& t.snapshot().alive == after.alive()
            &&& t.spec_end() == TransactionEnd::Running
            &&& t.spec_auto_commit() == auto_commit
            &&& t.spec_isolation_level() == level
            &&& after.spec_next_tid() == before.spec_next_tid() + 1
            &&& after.alive() == before.alive().insert(t.snapshot().tid)
            &&& after.log_view() == before.log_view()
            &&& forall|u: TransactionId|
                after.locks().holds_transaction_lock(u) == (
                before.locks().holds_transaction_lock(u) || u == t.snapshot().tid)
            &&& after.locks().tuple_locks() == before.locks().tuple_locks()
        }
    }

    /// A transaction started after `x` committed sees the versions `x` inserted
    /// and did not delete.
    pub proof fn lemma_started_after_commit_sees_insert(
        before: TransactionManager,
        after: TransactionManager,
        r: Result<Transaction, DbError>,
        auto_commit: bool,
        level: IsolationLevel,
        x: TransactionId,
        command_id: CommandId,
    )
        requires
            before.wf(),
            Self::started(before, after, r, auto_commit, level),
            r is Ok,
            before.status(x) == TransactionStatus::Committed,
        ensures
            visible(r->Ok_0.snapshot(), after.status_fn(), x, command_id, INVALID_TRANSACTION_ID),
    {
        let t = r->Ok_0;
        let tid = before.spec_next_tid();
        assert(!before.alive().contains(x));
        assert(x < tid);
        assert(!after.alive().contains(x));
        assert(after.status(x) == TransactionStatus::Committed);
        assert(after.status_fn()(x) == TransactionStatus::Committed);
    }

    /// The snapshot of a transaction just started is settled: it runs itself,
    /// and every other id below its bound that was not running has ended.
    pub proof fn lemma_started_snapshot_settled(
        before: TransactionManager,
        after: TransactionManager,
        r: Result<Transaction, DbError>,
        auto_commit: bool,
        level: IsolationLevel,
    )
        requires
            before.wf(),
            after.wf(),
            Self::started(before, after, r, auto_commit, level),
            r is Ok,
        ensures
            snapshot_settled(r->Ok_0.snapshot(), after.status_fn()),
    {
        let snap = r->Ok_0.snapshot();
        assert(after.alive().contains(snap.tid));
        assert forall|t: TransactionId|
            t < snap.tid_max && t != snap.tid && !snap.alive.contains(t) implies #[trigger] after.status_fn()(
                t,
            ) != TransactionStatus::InProgress by {
            after.lemma_wf_facts();
            if t != BOOTSTRAP_TRANSACTION_ID && t < after.spec_next_tid() {
                assert(log_bits(after.log_view(), t) != 1);
                assert(forall|x: u8, y: u8| (x >> y) & 3u8 <= 3u8) by (bit_vector);
                assert(log_bits(after.log_view(), t) <= 3);
            }
        }
    }

    /// Ending a transaction only moves statuses forward: a running id may become
    /// committed or aborted, and no other status changes.
    pub proof fn lemma_end_advances(
        before: TransactionManager,
        after: TransactionManager,
        tid: TransactionId,
        status: TransactionStatus,
    )
        requires
            before.wf(),
            after.ended(before, tid, status),
            status == TransactionStatus::Committed || status == TransactionStatus::Aborted,
        ensures
            status_advances(before.status_fn(), after.status_fn()),
    {
        before.lemma_wf_facts();
        assert forall|t: TransactionId|
            #[trigger] before.status_fn()(t) == after.status_fn()(t) || (before.status_fn()(t)
                == TransactionStatus::InProgress && (after.status_fn()(t)
                == TransactionStatus::Committed || after.status_fn()(t)
                == TransactionStatus::Aborted)) by {
            lemma_log_set_cells(before.log_view(), tid, status, t);
            if t == tid && before.alive().contains(tid) {
                assert(log_bits(before.log_view(), tid) == 0);
                assert(!after.alive().contains(tid));
            }
        }
    }

    fn create_transaction(&mut self, auto_commit: bool, isolation_level: IsolationLevel) -> (r:
        Result<Transaction, DbError>)
        requires
            old(self).wf(),
        ensures
            final(self).wf(),
            Self::started(*old(self), *final(self), r, auto_commit, isolation_level),
    {
        if self.next_tid == u32::MAX {
            return Err(DbError::TransactionIdsExhausted);
        }
        let tid = self.next_tid;
        self.next_tid = tid + 1;
        // cannot wrap: tid is below u32::MAX
        let tid_max = tid + 1;
        self.alive_tids.push(tid);
        self.lock_manager.start_transaction(tid);
        let alive_tids = copy_tids(&self.alive_tids);
        proof {
            assert(self.alive_tids@.to_set() =~= old(self).alive_tids@.to_set().insert(tid)) by {
                assert(self.alive_tids@ == old(self).alive_tids@.push(tid));
                assert forall|u: TransactionId| #[trigger]
                    self.alive_tids@.contains(u) == (old(self).alive_tids@.contains(u) || u
                        == tid) by {
                    if old(self).alive_tids@.contains(u) {
                        let k = choose|k: int|
                            0 <= k < old(self).alive_tids@.len() && old(self).alive_tids@[k] == u;
                        assert(self.alive_tids@[k] == u);
                    }
                    if u == tid {
                        assert(self.alive_tids@[self.alive_tids@.len() - 1] == u);
                    }
                    if self.alive_tids@.contains(u) {
                        let k = choose|k: int|
                            0 <= k < self.alive_tids@.len() && self.alive_tids@[k] == u;
                        if k < old(self).alive_tids@.len() {
                            assert(old(self).alive_tids@[k] == u);
                        }
                    }
                }
            }
            assert forall|i: int| 0 <= i < self.alive_tids@.len() implies FIRST_USER_TRANSACTION_ID
                <= #[trigger] self.alive_tids@[i] < self.next_tid by {
                if i < old(self).alive_tids@.len() {
                    assert(self.alive_tids@[i] == old(self).alive_tids@[i]);
                }
            }
        }
        Ok(
            Transaction {
                tid,
                isolation_level,
                tid_max,
                command_id: 0,
                auto_commit,
                end: TransactionEnd::Running,
                alive_tids,
            },
        )
    }

    /// Called before each statement: counts the command and, under read
    /// committed, takes a fresh snapshot.
    pub fn refresh_transaction(&self, transaction: &mut Transaction) -> (r: Result<(), DbError>)
        ensures
            r is Err <==> old(transaction).snapshot().command_id == u8::MAX,
            r is Err ==> r == Err::<(), DbError>(DbError::TooManyStatements) && *final(transaction)
                == *old(transaction),
            r is Ok ==> {
                &&& final(transaction).snapshot().command_id == old(transaction).snapshot().command_id + 1
                &&& final(transaction).snapshot().tid == old(transaction).snapshot().tid
                &&& final(transaction).spec_end() == old(transaction).spec_end()
                &&& final(transaction).spec_isolation_level() == old(transaction).spec_isolation_level()
                &&& final(transaction).spec_auto_commit() == old(transaction).spec_auto_commit()
                &&& old(transaction).spec_isolation_level() == IsolationLevel::RepeatableRead ==> (
                final(transaction).snapshot().alive == old(transaction).snapshot().alive
                    && final(transaction).snapshot().tid_max == old(transaction).snapshot().tid_max)
                &&& old(transaction).spec_isolation_level() == IsolationLevel::ReadCommitted ==> (
                final(transaction).snapshot().alive == self.alive()
                    && final(transaction).snapshot().tid_max == self.spec_next_tid())
            },
    {
        if transaction.command_id == u8::MAX {
            return Err(DbError::TooManyStatements);
        }
        transaction.command_id = transaction.command_id + 1;
        if transaction.isolation_level == IsolationLevel::RepeatableRead {
            return Ok(());
        }
        transaction.alive_tids = copy_tids(&self.alive_tids);
        transaction.tid_max = self.next_tid;
        Ok(())
    }

    /// A transaction for the bootstrap process only: id 1, sees every id.
    pub fn bootstrap(&mut self) -> (r: Transaction)
        requires
            old(self).wf(),
        ensures
            final(self).wf(),
            r.snapshot().tid == BOOTSTRAP_TRANSACTION_ID,
            r.snapshot().tid_max == u32::MAX,
            r.snapshot().command_id == 0,
            r.snapshot().alive == Set::<TransactionId>::empty(),
            r.spec_end() == TransactionEnd::Running,
            !r.spec_auto_commit(),
            r.spec_isolation_level() == DEFAULT_ISOLATION_LEVEL,
            final(self).alive() == old(self).alive(),
            final(self).log_view() == old(self).log_view(),
            final(self).spec_next_tid() == old(self).spec_next_tid(),
            forall|u: TransactionId|
                final(self).locks().holds_transaction_lock(u) == (
                old(self).locks().holds_transaction_lock(u) || u == BOOTSTRAP_TRANSACTION_ID),
    {
        self.lock_manager.start_transaction(BOOTSTRAP_TRANSACTION_ID);
        let r = Transaction {
            tid: BOOTSTRAP_TRANSACTION_ID,
            tid_max: u32::MAX,
            isolation_level: DEFAULT_ISOLATION_LEVEL,
            command_id: 0,
            auto_commit: false,
            end: TransactionEnd::Running,
            alive_tids: Vec::new(),
        };
        assert(r.alive_tids@.to_set() =~= Set::<TransactionId>::empty());
        r
    }

    /// The pages of the status log, for writing them out.
    pub fn log_pages(&self) -> (r: &Vec<Vec<u8>>)
        ensures
            r@.map_values(|p: Vec<u8>| p@) == self.log_view(),
    {
        &self.log
    }

    /// Records that `tid` ended with `new_status`: it leaves the running set
    /// first, then its status is OR-ed into the log, then its lock is released.
    fn change_transaction_status(&mut self, tid: TransactionId, new_status: TransactionStatus)
        requires
            old(self).wf(),
            new_status == TransactionStatus::Committed || new_status == TransactionStatus::Aborted,
        ensures
            final(self).wf(),
            final(self).ended(*old(self), tid, new_status),
            old(self).alive().contains(tid) ==> final(self).status(tid) == new_status,
            forall|t: TransactionId| t != tid ==> #[trigger] final(self).status(t) == old(self).status(t),
    {
        let ghost before = *self;
        let was_running = contains_tid(&self.alive_tids, tid);
        let mut kept: Vec<TransactionId> = Vec::new();
        let mut i: usize = 0;
        while i < self.alive_tids.len()
            invariant
                *self == before,
                0 <= i <= self.alive_tids@.len(),
                forall|k: int|
                    0 <= k < self.alive_tids@.len() ==> FIRST_USER_TRANSACTION_ID
                        <= #[trigger] self.alive_tids@[k] < self.next_tid,
                forall|k: int|
                    0 <= k < kept@.len() ==> FIRST_USER_TRANSACTION_ID <= #[trigger] kept@[k]
                        < self.next_tid,
                forall|t: TransactionId|
                    kept@.contains(t) == (self.alive_tids@.subrange(0, i as int).contains(t) && t
                        != tid),
            decreases self.alive_tids@.len() - i,
        {
            let t = self.alive_tids[i];
            let ghost prev = kept@;
            if t != tid {
                kept.push(t);
            }
            proof {
                let pre = self.alive_tids@.subrange(0, i as int);
                let post = self.alive_tids@.subrange(0, i + 1);
                assert(post =~= pre.push(t));
                assert forall|u: TransactionId|
                    kept@.contains(u) == (post.contains(u) && u != tid) by {
                    if kept@.contains(u) {
                        let k = choose|k: int| 0 <= k < kept@.len() && kept@[k] == u;
                        if k < prev.len() {
                            assert(prev[k] == u);
                            assert(prev.contains(u));
                            let j = choose|j: int| 0 <= j < pre.len() && pre[j] == u;
                            assert(post[j] == u);
                        } else {
                            assert(post[i as int] == u);
                        }
                    }
                    if post.contains(u) && u != tid {
                        let j = choose|j: int| 0 <= j < post.len() && post[j] == u;
                        if j < i {
                            assert(pre[j] == u);
                            assert(prev.contains(u));
                            let k = choose|k: int| 0 <= k < prev.len() && prev[k] == u;
                            assert(kept@[k] == u);
                        } else {
                            assert(kept@[kept@.len() - 1] == u);
                        }
                    }
                }
            }
            i = i + 1;
        }
        assert(self.alive_tids@.subrange(0, i as int) =~= self.alive_tids@);
        self.alive_tids = kept;
        assert(self.alive() =~= before.alive().remove(tid));
        assert(before.alive_tids@.to_set().contains(tid) == before.alive_tids@.contains(tid));
        proof {
            assert forall|t: TransactionId| #[trigger] self.alive_tids@.contains(t) implies before.alive_tids@.contains(t) by {
                assert(self.alive().contains(t));
            }
            assert(!self.alive_tids@.contains(tid)) by {
                assert(!self.alive().contains(tid));
            }
            assert forall|t: TransactionId|
                (self.alive_tids@.contains(t) || t >= self.next_tid) implies #[trigger] log_bits(
                    self.log_view(),
                    t,
                ) == 0 by {
                if self.alive_tids@.contains(t) {
                    assert(before.alive_tids@.contains(t));
                }
            }
        }
        if was_running {
            proof {
                let k = choose|k: int| 0 <= k < before.alive_tids@.len() && before.alive_tids@[k] == tid;
                assert(log_bits(before.log_view(), tid) == 0);
            }
            self.write_status(tid, new_status);
        }
        self.lock_manager.end_transaction(tid);
        proof {
            assert forall|t: TransactionId| t != tid implies #[trigger] self.status(t) == before.status(t) by {
                lemma_log_set_cells(before.log_view(), tid, new_status, t);
                assert(self.alive().contains(t) == before.alive().contains(t));
            }
            if was_running {
                lemma_log_set_cells(before.log_view(), tid, new_status, tid);
                let k = choose|k: int| 0 <= k < before.alive_tids@.len() && before.alive_tids@[k] == tid;
                assert(tid >= FIRST_USER_TRANSACTION_ID && tid < self.next_tid);
                assert(!self.alive().contains(tid));
            }
        }
    }

    /// OR-s the code of `status` into the log cell of `tid`, adding zeroed pages as needed.
    fn write_status(&mut self, tid: TransactionId, status: TransactionStatus)
        requires
            old(self).wf(),
            tid < old(self).next_tid,
            !old(self).alive_tids@.contains(tid),
            log_bits(old(self).log_view(), tid) == 0,
            status == TransactionStatus::Committed || status == TransactionStatus::Aborted,
        ensures
            final(self).wf(),
            final(self).log_view() == log_set(old(self).log_view(), tid, status),
            final(self).next_tid == old(self).next_tid,
            final(self).alive_tids == old(self).alive_tids,
            final(self).lock_manager == old(self).lock_manager,
    {
        let ghost before = self.log_view();
        let page = ((tid / 4) / PAGE_SIZE) as usize;
        assert(page < MAX_LOG_PAGES) by {
            assert(tid / 4 <= 1073741823);
        }
        while self.log.len() <= page
            invariant
                page < MAX_LOG_PAGES,
                page == log_page_index(tid),
                log_shape_ok(self.log_view()),
                self.log_view().len() <= page + 1 ==> self.log_view() == log_extend(
                    before,
                    self.log_view().len() as int,
                ),
                self.log_view().len() >= before.len(),
                self.log_view().len() > page + 1 ==> self.log_view() == before,
                self.next_tid == old(self).next_tid,
                self.alive_tids == old(self).alive_tids,
                self.lock_manager == old(self).lock_manager,
                self.next_tid >= FIRST_USER_TRANSACTION_ID,
                forall|i: int|
                    0 <= i < self.alive_tids@.len() ==> FIRST_USER_TRANSACTION_ID
                        <= #[trigger] self.alive_tids@[i] < self.next_tid,
                log_shape_ok(before),
                before == old(self).log_view(),
                no_running_cells(before),
                forall|t: TransactionId|
                    (self.alive_tids@.contains(t) || t >= self.next_tid) ==> #[trigger] log_bits(
                        before,
                        t,
                    ) == 0,
                tid < self.next_tid,
                !self.alive_tids@.contains(tid),
                log_bits(before, tid) == 0,
            decreases page + 1 - self.log@.len(),
        {
            let ghost prev = self.log_view();
            let z = vec![0u8; PAGE_SIZE as usize];
            assert(z@ =~= zero_page());
            self.log.push(z);
            proof {
                assert(self.log_view() =~= prev.push(zero_page()));
                assert(log_extend(before, self.log_view().len() as int) =~= log_extend(
                    before,
                    prev.len() as int,
                ).push(zero_page()));
                assert forall|k: int| 0 <= k < self.log_view().len() implies (
                #[trigger] self.log_view()[k]).len() == PAGE_SIZE by {
                    if k < prev.len() {
                        assert(self.log_view()[k] == prev[k]);
                    }
                }
            }
        }
        let ghost ext = self.log_view();
        assert(ext == log_extend(before, page + 1));
        let page_pos = ((tid / 4) % PAGE_SIZE) as usize;
        let shift = ((tid % 4) * 2) as u8;
        assert(self.log_view()[page as int] == self.log@[page as int]@);
        let mut data = copy_bytes(&self.log[page]);
        let b = data[page_pos];
        let code = status.bits();
        assert(code <= 3 && shift <= 6);
        data.set(page_pos, b | (code << shift));
        self.log.set(page, data);
        proof {
            assert(self.log_view() =~= ext.update(
                page as int,
                ext[page as int].update(page_pos as int, b | (code << shift)),
            ));
            let after = self.log_view();
            assert forall|t: TransactionId| #[trigger] log_bits(after, t) != 1 by {
                lemma_log_set_cells(before, tid, status, t);
                assert(log_bits(before, t) != 1);
            }
            assert forall|t: TransactionId|
                (self.alive_tids@.contains(t) || t >= self.next_tid) implies #[trigger] log_bits(
                    after,
                    t,
                ) == 0 by {
                lemma_log_set_cells(before, tid, status, t);
            }
        }
    }
}

} // verus!
