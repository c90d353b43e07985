use erdb::common::PAGE_SIZE;
use erdb::concurrency::{IsolationLevel, TransactionManager, TransactionStatus};
use erdb::common::DbError;

#[test]
fn can_bootstrap_and_load_logs() {
    let mut transaction_manager = TransactionManager::new(Vec::new(), true).unwrap();

    let mut t1 = transaction_manager.start_transaction(None).unwrap();
    assert_eq!(t1.tid(), 2);
    assert_eq!(
        transaction_manager.get_transaction_status(t1.tid()),
        TransactionStatus::InProgress
    );
    t1.commit(&mut transaction_manager).unwrap();
    assert_eq!(
        transaction_manager.get_transaction_status(t1.tid()),
        TransactionStatus::Committed
    );

    let mut t2 = transaction_manager.start_transaction(None).unwrap();
    assert_eq!(t2.tid(), 3);
    assert_eq!(
        transaction_manager.get_transaction_status(t2.tid()),
        TransactionStatus::InProgress
    );
    t2.abort(&mut transaction_manager).unwrap();
    assert_eq!(
        transaction_manager.get_transaction_status(t2.tid()),
        TransactionStatus::Aborted
    );

    // fill at least a page of the transaction log
    for _ in 0..4 * PAGE_SIZE {
        let mut t = transaction_manager.start_transaction(None).unwrap();
        if t.tid() % 5 == 0 {
            t.abort(&mut transaction_manager).unwrap();
        } else {
            t.commit(&mut transaction_manager).unwrap();
        }
    }

    let log = transaction_manager.log_pages().clone();
    let mut transaction_manager = TransactionManager::new(log, false).unwrap();

    for tid in 4..=(4 * PAGE_SIZE + 3) {
        if tid % 5 == 0 {
            assert_eq!(
                transaction_manager.get_transaction_status(tid),
                TransactionStatus::Aborted
            );
        } else {
            assert_eq!(
                transaction_manager.get_transaction_status(tid),
                TransactionStatus::Committed
            );
        }
    }

    let t = transaction_manager.start_transaction(None).unwrap();
    assert_eq!(t.tid(), 4 * PAGE_SIZE + 4);
}

#[test]
fn reload_keeps_committed_and_aborted_status() {
    let mut tm = TransactionManager::new(Vec::new(), true).unwrap();
    let mut a = tm.start_transaction(None).unwrap();
    let mut b = tm.start_transaction(None).unwrap();
    a.commit(&mut tm).unwrap();
    b.abort(&mut tm).unwrap();
    let reopened = TransactionManager::new(tm.log_pages().clone(), false).unwrap();
    assert_eq!(reopened.get_transaction_status(2), TransactionStatus::Committed);
    assert_eq!(reopened.get_transaction_status(3), TransactionStatus::Aborted);
    assert_eq!(reopened.get_transaction_status(4), TransactionStatus::Invalid);
}

#[test]
fn loading_an_empty_log_fails() {
    assert_eq!(TransactionManager::new(Vec::new(), false).err(), Some(DbError::EmptyLog));
}

#[test]
fn bootstrap_over_an_existing_log_fails() {
    let pages = vec![vec![0u8; PAGE_SIZE as usize]];
    assert_eq!(TransactionManager::new(pages, true).err(), Some(DbError::LogAlreadyExists));
}

#[test]
fn loading_a_malformed_log_page_fails() {
    let pages = vec![vec![0u8; 10]];
    assert_eq!(TransactionManager::new(pages, false).err(), Some(DbError::MalformedData));
}

#[test]
fn next_tid_after_loading_counts_cells_not_bytes() {
    // byte 3 of the first page holds tids 12..15; tid 13 committed (bits 2-3)
    let mut page = vec![0u8; PAGE_SIZE as usize];
    page[3] = 0b0000_1100;
    let mut tm = TransactionManager::new(vec![page], false).unwrap();
    assert_eq!(tm.get_transaction_status(13), TransactionStatus::Committed);
    let t = tm.start_transaction(None).unwrap();
    assert_eq!(t.tid(), 14);
}

#[test]
fn bootstrap_transaction_counts_as_committed() {
    let mut tm = TransactionManager::new(Vec::new(), true).unwrap();
    let t = tm.bootstrap();
    assert_eq!(t.tid(), 1);
    assert_eq!(tm.get_transaction_status(1), TransactionStatus::Committed);
    assert_eq!(tm.get_transaction_status(0), TransactionStatus::Invalid);
    assert_eq!(tm.get_transaction_status(2), TransactionStatus::Invalid);
}

#[test]
fn commit_and_abort_follow_the_end_state() {
    let mut tm = TransactionManager::new(Vec::new(), true).unwrap();
    let mut t = tm.start_transaction(None).unwrap();
    assert!(!t.has_ended());
    t.commit(&mut tm).unwrap();
    assert!(t.has_ended());
    assert_eq!(t.commit(&mut tm), Err(DbError::AlreadyCommitted));
    assert_eq!(t.abort(&mut tm), Err(DbError::AbortAfterCommit));

    let mut u = tm.start_transaction(None).unwrap();
    u.abort(&mut tm).unwrap();
    assert_eq!(u.abort(&mut tm), Err(DbError::AlreadyAborted));
    assert_eq!(u.commit(&mut tm), Err(DbError::CommitAfterAbort));

    let mut v = tm.start_transaction(None).unwrap();
    v.expect_rollback();
    assert!(v.is_rollback_expected());
    assert!(!v.has_ended());
    assert_eq!(v.commit(&mut tm), Err(DbError::RollbackExpected));
    v.abort(&mut tm).unwrap();
    assert_eq!(tm.get_transaction_status(v.tid()), TransactionStatus::Aborted);
}

#[test]
fn implicit_transactions_commit_automatically() {
    let mut tm = TransactionManager::new(Vec::new(), true).unwrap();
    let t = tm.start_implicit_transaction().unwrap();
    assert!(t.auto_commit());
    assert_eq!(t.isolation_level(), IsolationLevel::ReadCommitted);
    let u = tm.start_transaction(Some(IsolationLevel::RepeatableRead)).unwrap();
    assert!(!u.auto_commit());
    assert_eq!(u.isolation_level(), IsolationLevel::RepeatableRead);
}

#[test]
fn the_256th_statement_fails() {
    let mut tm = TransactionManager::new(Vec::new(), true).unwrap();
    let mut t = tm.start_transaction(None).unwrap();
    for i in 0..255u32 {
        tm.refresh_transaction(&mut t).unwrap();
        assert_eq!(t.command_id() as u32, i + 1);
    }
    assert_eq!(tm.refresh_transaction(&mut t), Err(DbError::TooManyStatements));
    assert_eq!(t.command_id(), 255);
}

#[test]
fn own_writes_are_visible_only_to_later_statements() {
    let mut tm = TransactionManager::new(Vec::new(), true).unwrap();
    let mut t = tm.start_transaction(None).unwrap();
    let tid = t.tid();
    assert!(!t.is_tuple_visible(&tm, tid, 0, 0));
    tm.refresh_transaction(&mut t).unwrap();
    assert!(t.is_tuple_visible(&tm, tid, 0, 0));
    // our own pending delete hides it
    assert!(!t.is_tuple_visible(&tm, tid, 0, tid));
}

#[test]
fn visibility_is_stable_while_others_commit() {
    let mut tm = TransactionManager::new(Vec::new(), true).unwrap();
    let mut writer = tm.start_transaction(None).unwrap();
    let reader = tm.start_transaction(Some(IsolationLevel::RepeatableRead)).unwrap();
    let w = writer.tid();
    let before = reader.is_tuple_visible(&tm, w, 0, 0);
    writer.commit(&mut tm).unwrap();
    let after = reader.is_tuple_visible(&tm, w, 0, 0);
    assert!(!before);
    assert_eq!(before, after);
}

#[test]
fn committed_insert_is_visible_to_later_transactions_only() {
    let mut tm = TransactionManager::new(Vec::new(), true).unwrap();
    let mut writer = tm.start_transaction(None).unwrap();
    let mut repeatable = tm.start_transaction(Some(IsolationLevel::RepeatableRead)).unwrap();
    let mut read_committed = tm.start_transaction(None).unwrap();
    let w = writer.tid();
    writer.commit(&mut tm).unwrap();
    let later = tm.start_transaction(None).unwrap();
    assert!(later.is_tuple_visible(&tm, w, 0, 0));
    assert!(!repeatable.is_tuple_visible(&tm, w, 0, 0));
    assert!(!read_committed.is_tuple_visible(&tm, w, 0, 0));
    // the next statement refreshes only the read committed snapshot
    tm.refresh_transaction(&mut repeatable).unwrap();
    tm.refresh_transaction(&mut read_committed).unwrap();
    assert!(!repeatable.is_tuple_visible(&tm, w, 0, 0));
    assert!(read_committed.is_tuple_visible(&tm, w, 0, 0));
}

#[test]
fn committed_update_shows_exactly_one_version() {
    let mut tm = TransactionManager::new(Vec::new(), true).unwrap();
    let mut inserter = tm.start_transaction(None).unwrap();
    let i = inserter.tid();
    inserter.commit(&mut tm).unwrap();
    let old_snapshot = tm.start_transaction(None).unwrap();
    let mut updater = tm.start_transaction(None).unwrap();
    let u = updater.tid();
    updater.commit(&mut tm).unwrap();
    let new_snapshot = tm.start_transaction(None).unwrap();
    for t in [&old_snapshot, &new_snapshot] {
        let old_version = t.is_tuple_visible(&tm, i, 0, u);
        let new_version = t.is_tuple_visible(&tm, u, 0, 0);
        assert!(old_version != new_version);
    }
    assert!(old_snapshot.is_tuple_visible(&tm, i, 0, u));
    assert!(new_snapshot.is_tuple_visible(&tm, u, 0, 0));
}

#[test]
fn waiting_ends_when_the_other_transaction_ends() {
    let mut tm = TransactionManager::new(Vec::new(), true).unwrap();
    let mut a = tm.start_transaction(None).unwrap();
    let b = tm.start_transaction(None).unwrap();
    assert!(!b.wait_for_transaction_to_end(&tm, a.tid()));
    a.commit(&mut tm).unwrap();
    assert!(b.wait_for_transaction_to_end(&tm, a.tid()));
}

#[test]
fn status_codes_use_two_bits() {
    assert_eq!(TransactionStatus::from_bits(0), TransactionStatus::Invalid);
    assert_eq!(TransactionStatus::from_bits(1), TransactionStatus::InProgress);
    assert_eq!(TransactionStatus::from_bits(2), TransactionStatus::Aborted);
    assert_eq!(TransactionStatus::from_bits(3), TransactionStatus::Committed);
    assert_eq!(TransactionStatus::from(0b11u8), TransactionStatus::Committed);
    assert_eq!(TransactionStatus::from(0b10u8), TransactionStatus::Aborted);
    assert_eq!(TransactionStatus::Committed.bits(), 3);
    assert_eq!(TransactionStatus::Aborted.bits(), 2);
}

#[test]
fn log_holding_a_running_code_is_rejected() {
    let mut page = vec![0u8; PAGE_SIZE as usize];
    // tid 6: byte 1, bits 4-5 hold 01
    page[1] = 0b0001_0000;
    assert_eq!(TransactionManager::new(vec![page], false).err(), Some(DbError::MalformedData));
}

#[test]
fn commit_changes_only_its_own_status() {
    let mut tm = TransactionManager::new(Vec::new(), true).unwrap();
    let mut a = tm.start_transaction(None).unwrap();
    let b = tm.start_transaction(None).unwrap();
    a.commit(&mut tm).unwrap();
    assert_eq!(tm.get_transaction_status(a.tid()), TransactionStatus::Committed);
    assert_eq!(tm.get_transaction_status(b.tid()), TransactionStatus::InProgress);
    assert_eq!(tm.get_transaction_status(1), TransactionStatus::Committed);
}
