use erdb::header::HeapTupleHeader;
use erdb::lock_manager::{LockManager, LockMode};
use erdb::page::{add_tuple, empty_page, page_slots, tuple_slot};
use erdb::tuple::{Tuple, Value};

#[test]
fn header_round_trips_for_every_bitmap_shape() {
    for columns in [1usize, 7, 8, 9, 33, 64] {
        for pattern in 0..4u32 {
            let values: Vec<Value> = (0..columns)
                .map(|i| {
                    if (i as u32 + pattern) % 3 == 0 && pattern != 0 {
                        Value::Null
                    } else {
                        Value::Integer(i as i32)
                    }
                })
                .collect();
            let tuple = Tuple::new(values.clone());
            let header = HeapTupleHeader::new_tuple(&tuple, 77, 3, (5, 9));
            let bytes = header.to_bytes();
            assert_eq!(bytes.len(), HeapTupleHeader::required_free_space(&tuple));
            let parsed = HeapTupleHeader::from_bytes(&bytes, columns as u8);
            assert_eq!(parsed.insert_tid, 77);
            assert_eq!(parsed.delete_tid, 0);
            assert_eq!(parsed.command_id, 3);
            assert_eq!(parsed.tuple_id, (5, 9));
            assert_eq!(parsed.has_null(), values.iter().any(|v| *v == Value::Null));
            assert_eq!(parsed.user_data_start(), bytes.len());
            for (i, v) in values.iter().enumerate() {
                assert_eq!(parsed.is_null(i as u8), *v == Value::Null);
            }
            assert_eq!(parsed.to_bytes(), bytes);
        }
    }
}

#[test]
fn header_layout_is_little_endian() {
    let tuple = Tuple::new(vec![Value::Null, Value::Integer(1)]);
    let header = HeapTupleHeader::new_tuple(&tuple, 0x0102_0304, 9, (0x0a0b_0c0d, 4));
    let bytes = header.to_bytes();
    assert_eq!(
        bytes,
        vec![4, 3, 2, 1, 0, 0, 0, 0, 9, 0x0d, 0x0c, 0x0b, 0x0a, 4, 1, 17, 1]
    );
}

#[test]
fn slot_reads_back_the_bytes_written() {
    let mut page = empty_page();
    assert_eq!(page_slots(&page), 0);
    let first: Vec<u8> = (0..20u8).collect();
    let second: Vec<u8> = (100..140u8).collect();
    assert_eq!(add_tuple(&mut page, &first), Some(0));
    assert_eq!(add_tuple(&mut page, &second), Some(1));
    assert_eq!(page_slots(&page), 2);
    let (off, size) = tuple_slot(&page, 0);
    assert_eq!(&page[off as usize..(off + size) as usize], &first[..]);
    let (off, size) = tuple_slot(&page, 1);
    assert_eq!(&page[off as usize..(off + size) as usize], &second[..]);
    let huge = vec![0u8; 5000];
    assert_eq!(add_tuple(&mut page, &huge), None);
}

#[test]
fn tuple_locks_conflict_only_with_other_holders() {
    let mut locks = LockManager::new();
    locks.start_transaction(2);
    assert!(!locks.lock_transaction(2, LockMode::Shared));
    assert!(locks.lock_tuple((1, (1, 0)), LockMode::Exclusive, 2));
    assert!(!locks.lock_tuple((1, (1, 0)), LockMode::Shared, 3));
    assert!(locks.lock_tuple((1, (1, 1)), LockMode::Shared, 3));
    assert!(locks.lock_tuple((1, (1, 1)), LockMode::Shared, 4));
    assert!(!locks.lock_tuple((1, (1, 1)), LockMode::Exclusive, 2));
    locks.unlock_tuple((1, (1, 1)), 3);
    locks.unlock_tuple((1, (1, 1)), 4);
    assert!(locks.lock_tuple((1, (1, 1)), LockMode::Exclusive, 2));
    locks.end_transaction(2);
    assert!(locks.lock_transaction(2, LockMode::Shared));
    assert!(locks.lock_tuple((1, (1, 0)), LockMode::Exclusive, 3));
}
