use asahi::error::Error;
use asahi::xarray::{flags, XArray};

#[test]
fn set_get_replace_remove() {
    let mut xa: XArray<String> = XArray::new(flags::ALLOC1).unwrap();
    assert!(xa.get(3).is_none());
    xa.set(3, "three".to_string()).unwrap();
    assert_eq!(xa.get(3).unwrap().borrow(), "three");
    assert_eq!(xa.replace(3, "drei".to_string()), Ok(Some("three".to_string())));
    assert_eq!(xa.replace(9, "nine".to_string()), Ok(None));
    assert_eq!(xa.get(3).unwrap().borrow(), "drei");
    assert_eq!(xa.remove(3), Some("drei".to_string()));
    assert_eq!(xa.remove(3), None);
    assert!(xa.get(3).is_none());
    assert_eq!(xa.get(9).unwrap().borrow(), "nine");
}

#[test]
fn allocation_starts_at_one_with_alloc1() {
    let mut xa: XArray<u32> = XArray::new(flags::ALLOC1).unwrap();
    assert_eq!(xa.allocate(Some(10)), Ok(1));
    assert_eq!(xa.allocate(Some(20)), Ok(2));
    assert_eq!(xa.remove(1), Some(10));
    assert_eq!(xa.allocate(Some(30)), Ok(1));
    assert_eq!(*xa.get(1).unwrap().borrow(), 30);
}

#[test]
fn allocation_starts_at_zero_with_alloc() {
    let mut xa: XArray<u32> = XArray::new(flags::ALLOC).unwrap();
    assert_eq!(xa.allocate(Some(10)), Ok(0));
    xa.set(1, 11).unwrap();
    assert_eq!(xa.allocate(Some(12)), Ok(2));
}

#[test]
fn allocation_within_limits() {
    let mut xa: XArray<u32> = XArray::new(flags::ALLOC).unwrap();
    assert_eq!(xa.alloc_limits(Some(1), 5, 6), Ok(5));
    assert_eq!(xa.alloc_limits(Some(2), 5, 6), Ok(6));
    assert_eq!(xa.alloc_limits(Some(3), 5, 6), Err(Error::Busy));
    assert_eq!(xa.alloc_limits(Some(3), 7, 6), Err(Error::Busy));
    assert_eq!(xa.alloc_limits(Some(3), u32::MAX, u32::MAX), Ok(u32::MAX as usize));
}

#[test]
fn allocation_needs_free_tracking() {
    let mut xa: XArray<u32> = XArray::new(0).unwrap();
    assert_eq!(xa.allocate(Some(1)), Err(Error::InvalidArgument));
    assert_eq!(xa.reserve().err(), Some(Error::InvalidArgument));
    xa.set(0, 5).unwrap();
    assert_eq!(*xa.get(0).unwrap().borrow(), 5);
}

#[test]
fn reservation_then_store() {
    let mut xa: XArray<u64> = XArray::new(flags::ALLOC1).unwrap();
    let r = xa.reserve().unwrap();
    assert_eq!(r.index(), 1);
    assert!(xa.get(1).is_none());
    // The reserved index is not handed out again.
    let r2 = xa.reserve_limits(1, 10).unwrap();
    assert_eq!(r2.index(), 2);
    assert_eq!(r.store(&mut xa, 77), Ok(1));
    assert_eq!(*xa.get(1).unwrap().borrow(), 77);
    r2.release(&mut xa);
    assert_eq!(xa.allocate(Some(5)), Ok(2));
}

#[test]
fn removing_a_reservation_frees_it() {
    let mut xa: XArray<u64> = XArray::new(flags::ALLOC1).unwrap();
    let r = xa.reserve().unwrap();
    assert_eq!(xa.remove(r.index()), None);
    assert_eq!(xa.reserve().unwrap().index(), 1);
}
