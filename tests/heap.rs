use erdb::common::DbError;
use erdb::concurrency::{Transaction, TransactionManager};
use erdb::table::{HeapTupleUpdateResult, Table};
use erdb::tuple::{ColumnDefinition, Schema, Tuple, TypeId, Value};

fn scan(table: &Table, transaction: &Transaction, manager: &TransactionManager) -> Vec<Tuple> {
    let mut iter = table.iter();
    let mut out = Vec::new();
    while let Some(t) = iter.fetch_next_tuple(table, transaction, manager).unwrap() {
        out.push(t);
    }
    out
}

fn number_schema() -> Schema {
    Schema::new(vec![ColumnDefinition::new(TypeId::Integer, "number".to_owned(), 0, true)])
}

fn pseudo_random(seed: u32) -> u32 {
    seed.wrapping_mul(1_103_515_245).wrapping_add(12_345)
}

fn some_string(seed: u32) -> String {
    let length = 5 + (pseudo_random(seed) % 15) as usize;
    let alphabet = b"abcdefghijklmnopqrstuvwxyzABCDEFGHIJKLMNOPQRSTUVWXYZ0123456789";
    (0..length)
        .map(|k| alphabet[(pseudo_random(seed + k as u32) % 62) as usize] as char)
        .collect()
}

#[test]
fn basic_test() {
    let mut tm = TransactionManager::new(Vec::new(), true).unwrap();
    let schema = Schema::new(vec![
        ColumnDefinition::new(TypeId::Integer, "non_null_integer".to_owned(), 0, true),
        ColumnDefinition::new(TypeId::Text, "non_null_text".to_owned(), 1, true),
        ColumnDefinition::new(TypeId::Boolean, "non_null_boolean".to_owned(), 2, true),
        ColumnDefinition::new(TypeId::Integer, "nullable_integer".to_owned(), 3, true),
    ]);
    let mut table = Table::new(1, schema.clone());

    let tuples = (0..10)
        .map(|i| {
            let r = pseudo_random(i as u32);
            let values = vec![
                Value::Integer(i),
                Value::String(some_string(i as u32)),
                Value::Boolean(r % 2 == 0),
                if r % 3 == 0 { Value::Null } else { Value::Integer(r as i32) },
            ];
            Tuple::new(values)
        })
        .collect::<Vec<_>>();

    let mut transaction = tm.start_transaction(None).unwrap();
    for tuple in &tuples {
        table.insert_tuple(tuple, &transaction).unwrap();
    }
    transaction.commit(&mut tm).unwrap();

    let transaction = tm.start_transaction(None).unwrap();
    let collected_tuples = scan(&table, &transaction, &tm);
    assert_eq!(tuples.len(), collected_tuples.len());
    for (tuple, original) in collected_tuples.iter().zip(tuples.iter()) {
        assert_eq!(tuple.values().len(), schema.columns().len());
        assert_eq!(tuple.values, original.values);
    }
}

#[test]
fn can_delete_tuple() {
    let mut tm = TransactionManager::new(Vec::new(), true).unwrap();
    let mut table = Table::new(1, number_schema());
    let tuple = Tuple::new(vec![Value::Integer(42)]);

    let mut insert_transaction = tm.start_transaction(None).unwrap();
    table.insert_tuple(&tuple, &insert_transaction).unwrap();
    insert_transaction.commit(&mut tm).unwrap();

    let mut delete_transaction = tm.start_transaction(None).unwrap();
    let result = table.delete_tuple((1, 0), &delete_transaction, &tm).unwrap();
    assert_eq!(result, HeapTupleUpdateResult::Success);
    delete_transaction.commit(&mut tm).unwrap();

    let select_transaction = tm.start_transaction(None).unwrap();
    assert_eq!(scan(&table, &select_transaction, &tm).len(), 0);
}

#[test]
fn can_delete_tuple_if_previous_transaction_aborted_delete() {
    let mut tm = TransactionManager::new(Vec::new(), true).unwrap();
    let mut table = Table::new(1, number_schema());
    let tuple = Tuple::new(vec![Value::Integer(42)]);

    let mut insert_transaction = tm.start_transaction(None).unwrap();
    table.insert_tuple(&tuple, &insert_transaction).unwrap();
    insert_transaction.commit(&mut tm).unwrap();

    let mut first = tm.start_transaction(None).unwrap();
    let result = table.delete_tuple((1, 0), &first, &tm).unwrap();
    assert_eq!(result, HeapTupleUpdateResult::Success);

    let second = tm.start_transaction(None).unwrap();
    assert_eq!(
        table.delete_tuple((1, 0), &second, &tm).unwrap(),
        HeapTupleUpdateResult::BeingModified
    );
    let other = table.fetch_tuple_header((1, 0)).unwrap().delete_tid;
    assert!(!second.wait_for_transaction_to_end(&tm, other));

    first.abort(&mut tm).unwrap();
    assert!(second.wait_for_transaction_to_end(&tm, other));
    let result = table.delete_tuple((1, 0), &second, &tm).unwrap();
    assert_eq!(result, HeapTupleUpdateResult::Success);
}

#[test]
fn already_deleted_tuple_does_not_need_any_action() {
    let mut tm = TransactionManager::new(Vec::new(), true).unwrap();
    let mut table = Table::new(1, number_schema());
    let tuple = Tuple::new(vec![Value::Integer(42)]);

    let mut insert_transaction = tm.start_transaction(None).unwrap();
    table.insert_tuple(&tuple, &insert_transaction).unwrap();
    insert_transaction.commit(&mut tm).unwrap();

    let mut first = tm.start_transaction(None).unwrap();
    let result = table.delete_tuple((1, 0), &first, &tm).unwrap();
    assert_eq!(result, HeapTupleUpdateResult::Success);

    let second = tm.start_transaction(None).unwrap();
    assert_eq!(
        table.delete_tuple((1, 0), &second, &tm).unwrap(),
        HeapTupleUpdateResult::BeingModified
    );

    first.commit(&mut tm).unwrap();
    let result = table.delete_tuple((1, 0), &second, &tm).unwrap();
    assert_eq!(result, HeapTupleUpdateResult::Deleted);
}

#[test]
fn can_update_tuple() {
    let mut tm = TransactionManager::new(Vec::new(), true).unwrap();
    let mut table = Table::new(1, number_schema());
    let tuple = Tuple::new(vec![Value::Integer(21)]);

    let mut insert_transaction = tm.start_transaction(None).unwrap();
    table.insert_tuple(&tuple, &insert_transaction).unwrap();
    insert_transaction.commit(&mut tm).unwrap();

    let mut update_transaction = tm.start_transaction(None).unwrap();
    let updated_tuple = Tuple::new(vec![Value::Integer(42)]);
    let result = table.update_tuple((1, 0), &updated_tuple, &update_transaction, &tm).unwrap();
    assert_eq!(result, HeapTupleUpdateResult::Success);
    update_transaction.commit(&mut tm).unwrap();

    let select_transaction = tm.start_transaction(None).unwrap();
    let tuples = scan(&table, &select_transaction, &tm);
    assert_eq!(tuples.len(), 1);
    assert_eq!(tuples[0].values[0], Value::Integer(42));
}

#[test]
fn trying_to_update_updated_tuple_results_in_updated_location() {
    let mut tm = TransactionManager::new(Vec::new(), true).unwrap();
    let mut table = Table::new(1, number_schema());
    let tuple = Tuple::new(vec![Value::Integer(17)]);

    let mut insert_transaction = tm.start_transaction(None).unwrap();
    table.insert_tuple(&tuple, &insert_transaction).unwrap();
    insert_transaction.commit(&mut tm).unwrap();

    let mut update_transaction = tm.start_transaction(None).unwrap();
    let updated_tuple = Tuple::new(vec![Value::Integer(21)]);
    let result = table.update_tuple((1, 0), &updated_tuple, &update_transaction, &tm).unwrap();
    assert_eq!(result, HeapTupleUpdateResult::Success);
    update_transaction.commit(&mut tm).unwrap();

    let mut update_transaction = tm.start_transaction(None).unwrap();
    let updated_tuple = Tuple::new(vec![Value::Integer(42)]);
    let result = table.update_tuple((1, 0), &updated_tuple, &update_transaction, &tm).unwrap();
    assert_eq!(result, HeapTupleUpdateResult::Updated((1, 1)));
    update_transaction.commit(&mut tm).unwrap();
    // the original version was not touched
    assert_eq!(table.fetch_tuple((1, 0)).unwrap().values[0], Value::Integer(17));
}

#[test]
fn first_of_two_updaters_wins() {
    let mut tm = TransactionManager::new(Vec::new(), true).unwrap();
    let mut table = Table::new(1, number_schema());
    let mut setup = tm.start_transaction(None).unwrap();
    table.insert_tuple(&Tuple::new(vec![Value::Integer(1)]), &setup).unwrap();
    setup.commit(&mut tm).unwrap();

    let mut first = tm.start_transaction(None).unwrap();
    let second = tm.start_transaction(None).unwrap();
    let a = Tuple::new(vec![Value::Integer(2)]);
    let b = Tuple::new(vec![Value::Integer(3)]);
    assert_eq!(table.update_tuple((1, 0), &a, &first, &tm).unwrap(), HeapTupleUpdateResult::Success);
    assert_eq!(
        table.update_tuple((1, 0), &b, &second, &tm).unwrap(),
        HeapTupleUpdateResult::BeingModified
    );
    first.commit(&mut tm).unwrap();
    assert_eq!(
        table.update_tuple((1, 0), &b, &second, &tm).unwrap(),
        HeapTupleUpdateResult::Updated((1, 1))
    );
}

#[test]
fn own_update_is_reported_as_self_updated() {
    let mut tm = TransactionManager::new(Vec::new(), true).unwrap();
    let mut table = Table::new(1, number_schema());
    let mut setup = tm.start_transaction(None).unwrap();
    table.insert_tuple(&Tuple::new(vec![Value::Integer(1)]), &setup).unwrap();
    setup.commit(&mut tm).unwrap();
    let t = tm.start_transaction(None).unwrap();
    assert_eq!(table.delete_tuple((1, 0), &t, &tm).unwrap(), HeapTupleUpdateResult::Success);
    assert_eq!(table.delete_tuple((1, 0), &t, &tm).unwrap(), HeapTupleUpdateResult::SelfUpdated);
}

#[test]
fn older_snapshot_keeps_seeing_the_old_version() {
    let mut tm = TransactionManager::new(Vec::new(), true).unwrap();
    let mut table = Table::new(1, number_schema());
    let mut setup = tm.start_transaction(None).unwrap();
    table.insert_tuple(&Tuple::new(vec![Value::Integer(5)]), &setup).unwrap();
    setup.commit(&mut tm).unwrap();

    let old_reader = tm.start_transaction(None).unwrap();
    let mut updater = tm.start_transaction(None).unwrap();
    table.update_tuple((1, 0), &Tuple::new(vec![Value::Integer(6)]), &updater, &tm).unwrap();
    updater.commit(&mut tm).unwrap();
    let new_reader = tm.start_transaction(None).unwrap();

    let seen_old = scan(&table, &old_reader, &tm);
    assert_eq!(seen_old.len(), 1);
    assert_eq!(seen_old[0].values[0], Value::Integer(5));
    assert_eq!(seen_old[0].tuple_id, (1, 0));
    let seen_new = scan(&table, &new_reader, &tm);
    assert_eq!(seen_new.len(), 1);
    assert_eq!(seen_new[0].values[0], Value::Integer(6));
    assert_eq!(seen_new[0].tuple_id, (1, 1));
}

#[test]
fn uncommitted_insert_is_seen_by_own_later_statement_only() {
    let mut tm = TransactionManager::new(Vec::new(), true).unwrap();
    let mut table = Table::new(1, number_schema());
    let mut t = tm.start_transaction(None).unwrap();
    let other = tm.start_transaction(None).unwrap();
    table.insert_tuple(&Tuple::new(vec![Value::Integer(9)]), &t).unwrap();
    assert_eq!(scan(&table, &t, &tm).len(), 0);
    tm.refresh_transaction(&mut t).unwrap();
    assert_eq!(scan(&table, &t, &tm).len(), 1);
    assert_eq!(scan(&table, &other, &tm).len(), 0);
}

#[test]
fn stored_values_read_back_unchanged() {
    let mut tm = TransactionManager::new(Vec::new(), true).unwrap();
    let schema = Schema::new(vec![
        ColumnDefinition::new(TypeId::Text, "a".to_owned(), 0, true),
        ColumnDefinition::new(TypeId::Integer, "b".to_owned(), 1, true),
        ColumnDefinition::new(TypeId::Boolean, "c".to_owned(), 2, true),
    ]);
    let mut table = Table::new(7, schema);
    let t = tm.start_transaction(None).unwrap();
    let values = vec![Value::String("héllo wörld".to_owned()), Value::Null, Value::Boolean(true)];
    table.insert_tuple(&Tuple::new(values.clone()), &t).unwrap();
    let negative = vec![Value::String(String::new()), Value::Integer(-4), Value::Null];
    table.insert_tuple(&Tuple::new(negative.clone()), &t).unwrap();
    assert_eq!(table.fetch_tuple((1, 0)).unwrap().values, values);
    assert_eq!(table.fetch_tuple((1, 1)).unwrap().values, negative);
    let header = table.fetch_tuple_header((1, 1)).unwrap();
    assert_eq!(header.insert_tid, t.tid());
    assert_eq!(header.delete_tid, 0);
    assert_eq!(header.tuple_id, (1, 1));
    assert!(header.has_null());
    assert!(!header.is_null(0));
    assert!(!header.is_null(1));
    assert!(header.is_null(2));
}

#[test]
fn rejected_tuples_change_nothing() {
    let mut tm = TransactionManager::new(Vec::new(), true).unwrap();
    let mut table = Table::new(1, number_schema());
    let t = tm.start_transaction(None).unwrap();
    assert_eq!(
        table.insert_tuple(&Tuple::new(vec![Value::Integer(1), Value::Integer(2)]), &t),
        Err(DbError::BadColumnCount)
    );
    assert_eq!(
        table.insert_tuple(&Tuple::new(vec![Value::Boolean(true)]), &t),
        Err(DbError::TypeMismatch)
    );
    let text = Schema::new(vec![ColumnDefinition::new(TypeId::Text, "t".to_owned(), 0, true)]);
    let mut text_table = Table::new(2, text);
    let long = Value::String("x".repeat(3000));
    assert_eq!(text_table.insert_tuple(&Tuple::new(vec![long]), &t), Err(DbError::TupleTooLarge));
    assert_eq!(table.highest_page_no(), 0);
    assert_eq!(text_table.highest_page_no(), 0);
    assert_eq!(table.fetch_tuple((1, 0)).err(), Some(DbError::NoSuchTuple));
    assert_eq!(table.delete_tuple((1, 0), &t, &tm), Err(DbError::NoSuchTuple));
}

#[test]
fn largest_tuple_is_accepted_and_pages_fill_up() {
    let mut tm = TransactionManager::new(Vec::new(), true).unwrap();
    let text = Schema::new(vec![ColumnDefinition::new(TypeId::Text, "t".to_owned(), 0, true)]);
    let mut table = Table::new(2, text);
    let t = tm.start_transaction(None).unwrap();
    // header 16 bytes, length prefix 2 bytes
    let largest = Value::String("y".repeat(2048 - 18));
    table.insert_tuple(&Tuple::new(vec![largest.clone()]), &t).unwrap();
    let too_large = Value::String("y".repeat(2048 - 17));
    assert_eq!(table.insert_tuple(&Tuple::new(vec![too_large]), &t), Err(DbError::TupleTooLarge));
    assert_eq!(table.highest_page_no(), 1);
    // two of them do not fit one page
    table.insert_tuple(&Tuple::new(vec![largest]), &t).unwrap();
    assert_eq!(table.highest_page_no(), 2);
    assert_eq!(table.fetch_tuple((2, 0)).unwrap().tuple_id, (2, 0));
}

#[test]
fn update_moves_to_another_page_when_full() {
    let mut tm = TransactionManager::new(Vec::new(), true).unwrap();
    let text = Schema::new(vec![ColumnDefinition::new(TypeId::Text, "t".to_owned(), 0, true)]);
    let mut table = Table::new(2, text);
    let mut t = tm.start_transaction(None).unwrap();
    let big = Value::String("z".repeat(2000));
    table.insert_tuple(&Tuple::new(vec![big.clone()]), &t).unwrap();
    table.insert_tuple(&Tuple::new(vec![big.clone()]), &t).unwrap();
    t.commit(&mut tm).unwrap();
    let u = tm.start_transaction(None).unwrap();
    assert_eq!(
        table.update_tuple((1, 0), &Tuple::new(vec![big]), &u, &tm).unwrap(),
        HeapTupleUpdateResult::Success
    );
    assert_eq!(table.highest_page_no(), 2);
    let header = table.fetch_tuple_header((1, 0)).unwrap();
    assert_eq!(header.delete_tid, u.tid());
    assert_eq!(header.tuple_id, (2, 0));
}

#[test]
fn delete_after_an_aborted_update_points_to_itself() {
    let mut tm = TransactionManager::new(Vec::new(), true).unwrap();
    let mut table = Table::new(1, number_schema());
    let mut setup = tm.start_transaction(None).unwrap();
    table.insert_tuple(&Tuple::new(vec![Value::Integer(1)]), &setup).unwrap();
    setup.commit(&mut tm).unwrap();

    let mut updater = tm.start_transaction(None).unwrap();
    let result = table.update_tuple((1, 0), &Tuple::new(vec![Value::Integer(2)]), &updater, &tm).unwrap();
    assert_eq!(result, HeapTupleUpdateResult::Success);
    updater.abort(&mut tm).unwrap();
    assert_eq!(table.fetch_tuple_header((1, 0)).unwrap().tuple_id, (1, 1));

    let mut deleter = tm.start_transaction(None).unwrap();
    assert_eq!(table.delete_tuple((1, 0), &deleter, &tm).unwrap(), HeapTupleUpdateResult::Success);
    let header = table.fetch_tuple_header((1, 0)).unwrap();
    assert_eq!(header.delete_tid, deleter.tid());
    assert_eq!(header.tuple_id, (1, 0));
    deleter.commit(&mut tm).unwrap();

    let late = tm.start_transaction(None).unwrap();
    assert_eq!(table.delete_tuple((1, 0), &late, &tm).unwrap(), HeapTupleUpdateResult::Deleted);
    assert_eq!(table.fetch_tuple((1, 0)).unwrap().values, vec![Value::Integer(1)]);
}
