use vstd::prelude::*;

use crate::common::{TableId, TransactionId, TupleId};

verus! {

/// The two lock modes.
#[derive(Clone, Copy, Debug, PartialEq, Eq, Structural)]
pub enum LockMode {
    Shared,
    Exclusive,
}

/// Name of a tuple lock: the table and the tuple in it.
pub type TupleKey = (TableId, TupleId);

/// One granted tuple lock.
#[derive(Clone, Copy, Debug, PartialEq, Eq, Structural)]
pub struct TupleLock {
    pub table_id: TableId,
    pub page_no: u32,
    pub slot: u8,
    pub holder: TransactionId,
    pub mode: LockMode,
}

impl TupleLock {
    pub open spec fn key(self) -> TupleKey {
        (self.table_id, (self.page_no, self.slot))
    }
}

/// Table of named locks: each running transaction holds an exclusive lock on its
/// own id, and writers take shared or exclusive locks on tuples.
///
/// Nothing here blocks: an acquisition that would have to wait is refused, and
/// the caller waits and asks again.
pub struct LockManager {
    transaction_locks: Vec<TransactionId>,
    tuple_locks: Vec<TupleLock>,
}

/// Whether a lock of `mode` on `key` for `holder` is compatible with the granted locks.
pub open spec fn tuple_lock_grantable(
    locks: Seq<TupleLock>,
    key: TupleKey,
    mode: LockMode,
    holder: TransactionId,
) -> bool {
    forall|i: int|
        0 <= i < locks.len() && (#[trigger] locks[i]).key() == key && locks[i].holder != holder
            ==> mode == LockMode::Shared && locks[i].mode == LockMode::Shared
}

impl LockManager {
    /// Whether `tid` holds its own transaction lock.
    pub closed spec fn holds_transaction_lock(&self, tid: TransactionId) -> bool {
        self.transaction_locks@.contains(tid)
    }

    /// The granted tuple locks.
    pub closed spec fn tuple_locks(&self) -> Seq<TupleLock> {
        self.tuple_locks@
    }

    pub fn new() -> (r: LockManager)
        ensures
            forall|t: TransactionId| !r.holds_transaction_lock(t),
            r.tuple_locks() == Seq::<TupleLock>::empty(),
    {
        LockManager { transaction_locks: Vec::new(), tuple_locks: Vec::new() }
    }

    /// `tid` takes the exclusive lock on its own id, held for its whole life.
    pub fn start_transaction(&mut self, tid: TransactionId)
        ensures
            forall|t: TransactionId|
                final(self).holds_transaction_lock(t) == (old(self).holds_transaction_lock(t) || t
                    == tid),
            final(self).tuple_locks() == old(self).tuple_locks(),
    {
        self.transaction_locks.push(tid);
        proof {
            assert forall|t: TransactionId|
                self.holds_transaction_lock(t) == (old(self).holds_transaction_lock(t) || t
                    == tid) by {
                if old(self).transaction_locks@.contains(t) {
                    let i = choose|i: int|
                        0 <= i < old(self).transaction_locks@.len()
                            && old(self).transaction_locks@[i] == t;
                    assert(self.transaction_locks@[i] == t);
                }
                if t == tid {
                    assert(self.transaction_locks@[self.transaction_locks@.len() - 1] == t);
                }
            }
        }
    }

    /// `tid` ends: its own lock and every tuple lock it holds are released.
    pub fn end_transaction(&mut self, tid: TransactionId)
        ensures
            forall|t: TransactionId|
                final(self).holds_transaction_lock(t) == (old(self).holds_transaction_lock(t) && t
                    != tid),
            final(self).tuple_locks() == old(self).tuple_locks().filter(
                |l: TupleLock| l.holder != tid,
            ),
    {
        let mut kept: Vec<TransactionId> = Vec::new();
        let mut i: usize = 0;
        while i < self.transaction_locks.len()
            invariant
                0 <= i <= self.transaction_locks@.len(),
                forall|t: TransactionId|
                    kept@.contains(t) == (self.transaction_locks@.subrange(0, i as int).contains(t)
                        && t != tid),
            decreases self.transaction_locks@.len() - i,
        {
            let t = self.transaction_locks[i];
            let ghost before = kept@;
            if t != tid {
                kept.push(t);
            }
            proof {
                let pre = self.transaction_locks@.subrange(0, i as int);
                let post = self.transaction_locks@.subrange(0, i + 1);
                assert(post =~= pre.push(t));
                assert forall|u: TransactionId|
                    kept@.contains(u) == (post.contains(u) && u != tid) by {
                    if kept@.contains(u) {
                        let k = choose|k: int| 0 <= k < kept@.len() && kept@[k] == u;
                        if k < before.len() {
                            assert(before[k] == u);
                            assert(before.contains(u));
                            let j = choose|j: int| 0 <= j < pre.len() && pre[j] == u;
                            assert(post[j] == u);
                        } else {
                            assert(post[i as int] == u);
                        }
                    }
                    if post.contains(u) && u != tid {
                        let j = choose|j: int| 0 <= j < post.len() && post[j] == u;
                        if j < i {
                            assert(pre[j] == u);
                            assert(before.contains(u));
                            let k = choose|k: int| 0 <= k < before.len() && before[k] == u;
                            assert(kept@[k] == u);
                        } else {
                            assert(kept@[kept@.len() - 1] == u);
                        }
                    }
                }
            }
            i = i + 1;
        }
        assert(self.transaction_locks@.subrange(0, i as int) =~= self.transaction_locks@);
        self.transaction_locks = kept;
        let mut kept_locks: Vec<TupleLock> = Vec::new();
        let mut j: usize = 0;
        while j < self.tuple_locks.len()
            invariant
                0 <= j <= self.tuple_locks@.len(),
                kept_locks@ == self.tuple_locks@.subrange(0, j as int).filter(
                    |l: TupleLock| l.holder != tid,
                ),
            decreases self.tuple_locks@.len() - j,
        {
            let l = self.tuple_locks[j];
            proof {
                let pre = self.tuple_locks@.subrange(0, j as int);
                assert(self.tuple_locks@.subrange(0, j + 1) =~= pre.push(l));
                pre.lemma_filter_push(l, |l: TupleLock| l.holder != tid);
            }
            if l.holder != tid {
                kept_locks.push(l);
            }
            j = j + 1;
        }
        assert(self.tuple_locks@.subrange(0, j as int) =~= self.tuple_locks@);
        self.tuple_locks = kept_locks;
    }

    /// Whether `tid` still holds its own lock.
    pub fn is_transaction_locked(&self, tid: TransactionId) -> (r: bool)
        ensures
            r == self.holds_transaction_lock(tid),
    {
        let mut i: usize = 0;
        while i < self.transaction_locks.len()
            invariant
                0 <= i <= self.transaction_locks@.len(),
                forall|k: int| 0 <= k < i ==> self.transaction_locks@[k] != tid,
            decreases self.transaction_locks@.len() - i,
        {
            if self.transaction_locks[i] == tid {
                return true;
            }
            i = i + 1;
        }
        false
    }

    /// A shared lock on `other`'s id is granted once `other` has ended; until
    /// then it is refused and the caller waits.
    pub fn lock_transaction(&self, other: TransactionId, mode: LockMode) -> (r: bool)
        ensures
            r == !self.holds_transaction_lock(other),
    {
        !self.is_transaction_locked(other)
    }

    /// Asks for a lock of `mode` on `key` for `holder`. It is granted, and
    /// recorded, when no other holder has the tuple in a conflicting mode.
    pub fn lock_tuple(&mut self, key: TupleKey, mode: LockMode, holder: TransactionId) -> (r: bool)
        ensures
            r == tuple_lock_grantable(old(self).tuple_locks(), key, mode, holder),
            r ==> final(self).tuple_locks() == old(self).tuple_locks().push(
                (TupleLock { table_id: key.0, page_no: key.1.0, slot: key.1.1, holder, mode }),
            ),
            !r ==> final(self).tuple_locks() == old(self).tuple_locks(),
            forall|t: TransactionId|
                final(self).holds_transaction_lock(t) == old(self).holds_transaction_lock(t),
    {
        let mut i: usize = 0;
        while i < self.tuple_locks.len()
            invariant
                0 <= i <= self.tuple_locks@.len(),
                forall|k: int|
                    0 <= k < i && (#[trigger] self.tuple_locks@[k]).key() == key
                        && self.tuple_locks@[k].holder != holder ==> mode == LockMode::Shared
                        && self.tuple_locks@[k].mode == LockMode::Shared,
            decreases self.tuple_locks@.len() - i,
        {
            let l = self.tuple_locks[i];
            if l.table_id == key.0 && l.page_no == key.1.0 && l.slot == key.1.1 && l.holder
                != holder {
                let shared = match (mode, l.mode) {
                    (LockMode::Shared, LockMode::Shared) => true,
                    _ => false,
                };
                if !shared {
                    return false;
                }
            }
            i = i + 1;
        }
        self.tuple_locks.push(
            TupleLock { table_id: key.0, page_no: key.1.0, slot: key.1.1, holder, mode },
        );
        true
    }

    /// Releases every lock that `holder` has on `key`.
    pub fn unlock_tuple(&mut self, key: TupleKey, holder: TransactionId)
        ensures
            final(self).tuple_locks() == old(self).tuple_locks().filter(
                |l: TupleLock| !(l.key() == key && l.holder == holder),
            ),
            forall|t: TransactionId|
                final(self).holds_transaction_lock(t) == old(self).holds_transaction_lock(t),
    {
        let mut kept_locks: Vec<TupleLock> = Vec::new();
        let mut j: usize = 0;
        while j < self.tuple_locks.len()
            invariant
                0 <= j <= self.tuple_locks@.len(),
                kept_locks@ == self.tuple_locks@.subrange(0, j as int).filter(
                    |l: TupleLock| !(l.key() == key && l.holder == holder),
                ),
            decreases self.tuple_locks@.len() - j,
        {
            let l = self.tuple_locks[j];
            proof {
                let pre = self.tuple_locks@.subrange(0, j as int);
                assert(self.tuple_locks@.subrange(0, j + 1) =~= pre.push(l));
                pre.lemma_filter_push(l, |l: TupleLock| !(l.key() == key && l.holder == holder));
            }
            if !(l.table_id == key.0 && l.page_no == key.1.0 && l.slot == key.1.1 && l.holder
                == holder) {
                kept_locks.push(l);
            }
            j = j + 1;
        }
        assert(self.tuple_locks@.subrange(0, j as int) =~= self.tuple_locks@);
        self.tuple_locks = kept_locks;
    }
}

} // verus!
