use test_reactor::handles::{HandleError, HandleTable, Owner};
use test_reactor::types::Passing;

#[test]
fn insert_hands_out_dense_indices() {
    let mut table: HandleTable<&str> = HandleTable::new();
    assert_eq!(table.insert(1, Owner::Host, "a"), Ok(0));
    assert_eq!(table.insert(1, Owner::Host, "b"), Ok(1));
    assert_eq!(table.insert(2, Owner::Guest, "c"), Ok(2));
    assert_eq!(table.capacity_used(), 3);
}

#[test]
fn borrow_any_number_of_times_then_take_once() {
    let mut table: HandleTable<String> = HandleTable::new();
    let handle = table.insert(7, Owner::Host, "pipe".to_string()).unwrap();
    for _ in 0..5 {
        assert_eq!(table.borrow(handle, 7), Ok(&"pipe".to_string()));
    }
    assert!(table.contains(handle));
    assert_eq!(table.take(handle, 7), Ok("pipe".to_string()));
    assert_eq!(table.take(handle, 7), Err(HandleError::InvalidHandle));
    assert_eq!(table.borrow(handle, 7), Err(HandleError::InvalidHandle));
    assert!(!table.contains(handle));
}

#[test]
fn remove_invalidates_a_handle() {
    let mut table: HandleTable<u8> = HandleTable::new();
    let handle = table.insert(3, Owner::Host, 9).unwrap();
    assert_eq!(table.remove(handle), Ok(()));
    assert_eq!(table.borrow(handle, 3), Err(HandleError::InvalidHandle));
    assert_eq!(table.take(handle, 3), Err(HandleError::InvalidHandle));
    assert_eq!(table.remove(handle), Err(HandleError::InvalidHandle));
}

#[test]
fn tag_is_an_equality_test() {
    let mut table: HandleTable<u8> = HandleTable::new();
    let handle = table.insert(3, Owner::Host, 9).unwrap();
    assert_eq!(table.borrow(handle, 4), Err(HandleError::TypeMismatch));
    assert_eq!(table.take(handle, 2), Err(HandleError::TypeMismatch));
    assert_eq!(table.replace(handle, 0, 1), Err(HandleError::TypeMismatch));
    assert_eq!(table.borrow(handle, 3), Ok(&9));
    assert_eq!(table.take(handle, 3), Ok(9));
}

#[test]
fn freed_indices_are_reused_last_freed_first() {
    let mut table: HandleTable<u8> = HandleTable::new();
    for value in 0..4u8 {
        table.insert(1, Owner::Host, value).unwrap();
    }
    assert_eq!(table.take(1, 1), Ok(1));
    assert_eq!(table.remove(3), Ok(()));
    assert_eq!(table.insert(1, Owner::Host, 30), Ok(3));
    assert_eq!(table.insert(1, Owner::Host, 10), Ok(1));
    assert_eq!(table.insert(1, Owner::Host, 40), Ok(4));
    assert_eq!(table.borrow(3, 1), Ok(&30));
    assert_eq!(table.borrow(1, 1), Ok(&10));
    assert_eq!(table.borrow(0, 1), Ok(&0));
    assert_eq!(table.borrow(2, 1), Ok(&2));
}

#[test]
fn replace_swaps_the_payload_in_place() {
    let mut table: HandleTable<String> = HandleTable::new();
    let handle = table.insert(5, Owner::Guest, "old".to_string()).unwrap();
    assert_eq!(table.replace(handle, 5, "new".to_string()), Ok("old".to_string()));
    assert_eq!(table.borrow(handle, 5), Ok(&"new".to_string()));
    assert_eq!(table.replace(9, 5, "x".to_string()), Err(HandleError::InvalidHandle));
    assert_eq!(table.capacity_used(), 1);
}

#[test]
fn handles_out_of_range_are_invalid() {
    let mut table: HandleTable<u8> = HandleTable::new();
    assert_eq!(table.borrow(0, 0), Err(HandleError::InvalidHandle));
    assert_eq!(table.take(u32::MAX, 0), Err(HandleError::InvalidHandle));
    assert_eq!(table.remove(17), Err(HandleError::InvalidHandle));
    assert!(!table.contains(0));
}

#[test]
fn borrowed_handle_stays_in_the_table() {
    let mut table: HandleTable<String> = HandleTable::new();
    let handle = table.insert(4, Owner::Host, "sink".to_string()).unwrap();
    assert_eq!(table.lower_handle(handle, 4, Passing::Borrowed), Ok(None));
    assert_eq!(table.lower_handle(handle, 4, Passing::Borrowed), Ok(None));
    assert_eq!(table.borrow(handle, 4), Ok(&"sink".to_string()));
    assert_eq!(table.lower_handle(handle, 5, Passing::Borrowed), Err(HandleError::TypeMismatch));
    assert_eq!(table.lower_handle(9, 4, Passing::Borrowed), Err(HandleError::InvalidHandle));
}

#[test]
fn owning_handle_is_taken_at_lowering() {
    let mut table: HandleTable<String> = HandleTable::new();
    let handle = table.insert(4, Owner::Host, "sink".to_string()).unwrap();
    assert_eq!(table.lower_handle(handle, 5, Passing::Owning), Err(HandleError::TypeMismatch));
    assert_eq!(table.lower_handle(handle, 4, Passing::Owning), Ok(Some("sink".to_string())));
    assert_eq!(table.lower_handle(handle, 4, Passing::Owning), Err(HandleError::InvalidHandle));
    assert!(!table.contains(handle));
    assert_eq!(table.insert(4, Owner::Guest, "back".to_string()), Ok(handle));
}
