use vm_device::bus::{BusRange, Error};

#[test]
fn range_zero_size_always_fails() {
    assert_eq!(BusRange::new(0, 0), Err(Error::InvalidRange));
    assert_eq!(BusRange::new(0x1000, 0), Err(Error::InvalidRange));
    assert_eq!(BusRange::new(u64::MAX, 0), Err(Error::InvalidRange));
}

#[test]
fn range_overflow_fails() {
    // The last address would be past the end of the address space.
    assert_eq!(BusRange::new(u64::MAX, 2), Err(Error::InvalidRange));
    assert_eq!(BusRange::new(2, u64::MAX), Err(Error::InvalidRange));
    // With base 1 the last address is exactly u64::MAX: still valid.
    assert!(BusRange::new(1, u64::MAX).is_ok());
}

#[test]
fn range_at_edge_of_address_space_is_valid() {
    // A one-byte access at the very last valid address is supported.
    let r = BusRange::new(u64::MAX, 1).unwrap();
    assert_eq!(r.base(), u64::MAX);
    assert_eq!(r.last(), u64::MAX);

    let r = BusRange::new(0, u64::MAX).unwrap();
    assert_eq!(r.base(), 0);
    assert_eq!(r.last(), u64::MAX - 1);
}

#[test]
fn range_last_is_base_plus_size_minus_one() {
    let r = BusRange::new(0x1000, 0x100).unwrap();
    assert_eq!(r.base(), 0x1000);
    assert_eq!(r.size(), 0x100);
    assert_eq!(r.last(), 0x10FF);
}

#[test]
fn range_unit_is_size_one() {
    let r = BusRange::unit(0x42);
    assert_eq!(r.base(), 0x42);
    assert_eq!(r.size(), 1);
    assert_eq!(r.last(), 0x42);
}

#[test]
fn range_equality_goes_by_base_address_only() {
    // Ranges are ordered and compared by base alone; interval identity is
    // checked separately by the bus.
    let a = BusRange::new(10, 5).unwrap();
    let b = BusRange::new(10, 7).unwrap();
    let c = BusRange::new(11, 5).unwrap();
    assert_eq!(a, b);
    assert_ne!(a, c);
}

#[test]
fn range_overlap_is_interval_intersection() {
    let a = BusRange::new(10, 10).unwrap(); // [10, 19]
    let b = BusRange::new(15, 10).unwrap(); // [15, 24]
    let c = BusRange::new(20, 5).unwrap(); // [20, 24]
    assert!(a.overlaps(&b));
    assert!(b.overlaps(&a));
    assert!(!a.overlaps(&c));
    assert!(!c.overlaps(&a));
    assert!(b.overlaps(&c));
    // A range overlaps itself and anything it contains.
    assert!(a.overlaps(&a));
    assert!(a.overlaps(&BusRange::unit(12)));
}
