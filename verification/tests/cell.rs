use ecs_core::cell::{BorrowCell, ThreadId, ThreadReq, MAX_SHARED};
use ecs_core::error::Borrow;

const MAIN: ThreadId = ThreadId(1);
const OTHER: ThreadId = ThreadId(2);

#[test]
fn second_exclusive_borrow_is_refused() {
    let mut cell = BorrowCell::new(0u32);
    let first = cell.try_borrow_mut(MAIN);
    let second = cell.try_borrow_mut(OTHER);
    assert_eq!(first, Ok(()));
    assert_eq!(second, Err(Borrow::Unique));
    assert!(cell.is_exclusive());
    cell.release_mut();
    assert!(cell.is_free());
    assert_eq!(cell.try_borrow_mut(OTHER), Ok(()));
}

#[test]
fn shared_borrows_count_up_and_down() {
    let mut cell = BorrowCell::new(5u8);
    assert_eq!(cell.try_borrow(MAIN), Ok(()));
    assert_eq!(cell.try_borrow(OTHER), Ok(()));
    assert_eq!(cell.shared_count(), 2);
    assert_eq!(cell.try_borrow_mut(MAIN), Err(Borrow::Shared));
    cell.release();
    assert_eq!(cell.shared_count(), 1);
    cell.release();
    assert!(cell.is_free());
    cell.release();
    assert!(cell.is_free());
    assert_eq!(*cell.get(), 5);
}

#[test]
fn exclusive_borrow_refuses_shared() {
    let mut cell = BorrowCell::new(());
    assert_eq!(cell.try_borrow_mut(MAIN), Ok(()));
    assert_eq!(cell.try_borrow(MAIN), Err(Borrow::Unique));
    assert_eq!(cell.can_borrow(false, MAIN), Err(Borrow::Unique));
    assert_eq!(cell.shared_count(), 0);
}

#[test]
fn shared_counter_overflows_at_its_maximum() {
    let mut cell = BorrowCell::new(());
    for _ in 0..MAX_SHARED {
        assert_eq!(cell.try_borrow(MAIN), Ok(()));
    }
    assert_eq!(cell.shared_count(), 32767);
    assert_eq!(cell.try_borrow(MAIN), Err(Borrow::CountOverflow));
    assert_eq!(cell.shared_count(), 32767);
}

#[test]
fn pinned_cell_refuses_other_threads_first() {
    let mut cell = BorrowCell::with_requirement(1u8, ThreadReq::PinnedTo(MAIN), OTHER);
    assert_eq!(cell.try_borrow(OTHER), Err(Borrow::WrongThread));
    assert_eq!(cell.try_borrow_mut(OTHER), Err(Borrow::WrongThread));
    assert_eq!(cell.try_borrow_mut(MAIN), Ok(()));
    assert_eq!(cell.try_borrow_mut(OTHER), Err(Borrow::WrongThread));
    assert_eq!(cell.try_borrow(OTHER), Err(Borrow::WrongThread));
    assert_eq!(cell.try_borrow(MAIN), Err(Borrow::Unique));
}

#[test]
fn sync_only_cell_shares_with_every_thread() {
    let mut cell = BorrowCell::with_requirement(1u8, ThreadReq::Sync, MAIN);
    assert_eq!(cell.try_borrow(OTHER), Ok(()));
    assert_eq!(cell.try_borrow_mut(OTHER), Err(Borrow::WrongThread));
    assert_eq!(cell.try_borrow_mut(MAIN), Err(Borrow::Shared));
    cell.release();
    assert_eq!(cell.try_borrow_mut(MAIN), Ok(()));
}

#[test]
fn unpinned_requirements_admit_every_thread() {
    for req in [ThreadReq::Any, ThreadReq::Send, ThreadReq::SendAndSync] {
        let mut cell = BorrowCell::with_requirement(1u8, req, MAIN);
        assert_eq!(cell.try_borrow_mut(OTHER), Ok(()));
        cell.release_mut();
        assert_eq!(cell.try_borrow(OTHER), Ok(()));
    }
}

#[test]
fn value_can_be_changed_and_unwrapped() {
    let mut cell = BorrowCell::new(1u8);
    *cell.get_mut() = 2;
    assert_eq!(cell.into_inner(), 2);
}
