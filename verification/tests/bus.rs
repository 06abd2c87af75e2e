use vm_device::bus::{Bus, BusRange, Error};

#[test]
fn bus_lookup_hits_only_the_covering_range() {
    let mut bus: Bus<u32> = Bus::new();
    bus.register(BusRange::new(0x1000, 0x100).unwrap(), 7).unwrap();

    // Every address inside [0x1000, 0x10FF] finds the entry.
    for addr in [0x1000u64, 0x1001, 0x1080, 0x10FF] {
        let (range, device) = bus.device(addr).unwrap();
        assert_eq!(range.base(), 0x1000);
        assert_eq!(range.size(), 0x100);
        assert_eq!(*device, 7);
    }

    // Addresses outside every registered range find nothing.
    assert!(bus.device(0x0FFF).is_none());
    assert!(bus.device(0x1100).is_none());
    assert!(bus.device(0).is_none());
    assert!(bus.device(u64::MAX).is_none());
}

#[test]
fn bus_lookup_with_several_ranges() {
    let mut bus: Bus<u32> = Bus::new();
    // Register out of base order; lookup must still work.
    bus.register(BusRange::new(0x200, 0x10).unwrap(), 2).unwrap();
    bus.register(BusRange::new(0x000, 0x10).unwrap(), 0).unwrap();
    bus.register(BusRange::new(0x100, 0x10).unwrap(), 1).unwrap();

    assert_eq!(*bus.device(0x005).unwrap().1, 0);
    assert_eq!(*bus.device(0x10F).unwrap().1, 1);
    assert_eq!(*bus.device(0x20A).unwrap().1, 2);
    assert!(bus.device(0x010).is_none());
    assert!(bus.device(0x0FF).is_none());
    assert!(bus.device(0x210).is_none());
}

#[test]
fn bus_register_rejects_overlap_and_keeps_bus_unchanged() {
    let mut bus: Bus<u32> = Bus::new();
    bus.register(BusRange::new(0x100, 0x100).unwrap(), 1).unwrap();

    // Overlapping registrations fail, whatever device they carry.
    assert_eq!(
        bus.register(BusRange::new(0x1FF, 0x10).unwrap(), 2),
        Err(Error::DeviceOverlap)
    );
    assert_eq!(
        bus.register(BusRange::new(0x0FF, 2).unwrap(), 3),
        Err(Error::DeviceOverlap)
    );
    assert_eq!(
        bus.register(BusRange::new(0x150, 1).unwrap(), 4),
        Err(Error::DeviceOverlap)
    );

    // The bus still holds exactly the original association.
    assert_eq!(*bus.device(0x150).unwrap().1, 1);
    assert!(bus.device(0x0FF).is_none());
    assert!(bus.device(0x200).is_none());
}

#[test]
fn bus_adjacent_ranges_do_not_overlap() {
    let mut bus: Bus<u32> = Bus::new();
    // [0, 9] and [10, 19] are adjacent, not overlapping.
    bus.register(BusRange::new(0, 10).unwrap(), 1).unwrap();
    bus.register(BusRange::new(10, 10).unwrap(), 2).unwrap();
    assert_eq!(*bus.device(9).unwrap().1, 1);
    assert_eq!(*bus.device(10).unwrap().1, 2);

    // [0, 10] and [10, 19] overlap at address 10.
    let mut bus2: Bus<u32> = Bus::new();
    bus2.register(BusRange::new(10, 10).unwrap(), 2).unwrap();
    assert_eq!(
        bus2.register(BusRange::new(0, 11).unwrap(), 1),
        Err(Error::DeviceOverlap)
    );
}

#[test]
fn bus_deregister_uncovered_address_is_a_noop() {
    let mut bus: Bus<u32> = Bus::new();
    assert!(bus.deregister(0x1000).is_none());

    bus.register(BusRange::new(0x1000, 0x100).unwrap(), 1).unwrap();
    assert!(bus.deregister(0x0FFF).is_none());
    assert!(bus.deregister(0x1100).is_none());
    // The registration is untouched.
    assert!(bus.device(0x1000).is_some());
}

#[test]
fn bus_deregister_removes_exactly_the_covering_range() {
    let mut bus: Bus<u32> = Bus::new();
    bus.register(BusRange::new(0x1000, 0x100).unwrap(), 1).unwrap();
    bus.register(BusRange::new(0x2000, 0x100).unwrap(), 2).unwrap();

    // Deregistering by any covered address removes that one association.
    let (range, device) = bus.deregister(0x1080).unwrap();
    assert_eq!(range.base(), 0x1000);
    assert_eq!(range.size(), 0x100);
    assert_eq!(device, 1);

    // A subsequent lookup at any address within it returns nothing.
    assert!(bus.device(0x1000).is_none());
    assert!(bus.device(0x1080).is_none());
    assert!(bus.device(0x10FF).is_none());
    // The other association is untouched.
    assert_eq!(*bus.device(0x2000).unwrap().1, 2);
}

#[test]
fn bus_check_access_requires_whole_access_to_fit() {
    let mut bus: Bus<u32> = Bus::new();
    bus.register(BusRange::new(0x1000, 0x100).unwrap(), 1).unwrap();

    // The whole access fits: succeed with the range and the device.
    let (range, device) = bus.check_access(0x1000, 0x100).unwrap();
    assert_eq!(range.base(), 0x1000);
    assert_eq!(*device, 1);
    assert!(bus.check_access(0x10FF, 1).is_ok());
    assert!(bus.check_access(0x1080, 0x80).is_ok());

    // Starts inside but extends past the end: rejected, never truncated.
    assert_eq!(bus.check_access(0x1080, 0x81), Err(Error::DeviceNotFound));
    assert_eq!(bus.check_access(0x10FF, 2), Err(Error::DeviceNotFound));
    // Starts outside every range.
    assert_eq!(bus.check_access(0x1100, 1), Err(Error::DeviceNotFound));
    assert_eq!(bus.check_access(0x0FFF, 1), Err(Error::DeviceNotFound));
}

#[test]
fn bus_check_access_zero_length_is_invalid() {
    let mut bus: Bus<u32> = Bus::new();
    bus.register(BusRange::new(0x1000, 0x100).unwrap(), 1).unwrap();
    assert_eq!(bus.check_access(0x1000, 0), Err(Error::InvalidRange));
}

#[test]
fn bus_check_access_overflowing_probe_is_invalid() {
    let mut bus: Bus<u32> = Bus::new();
    bus.register(BusRange::new(u64::MAX - 0xFF, 0x100).unwrap(), 1).unwrap();
    // A one-byte access at the last address is fine...
    assert!(bus.check_access(u64::MAX, 1).is_ok());
    // ...but a probe whose last address overflows is invalid.
    assert_eq!(bus.check_access(u64::MAX, 2), Err(Error::InvalidRange));
}

#[test]
fn bus_device_mut_gives_mutable_access() {
    let mut bus: Bus<u32> = Bus::new();
    bus.register(BusRange::new(0x1000, 0x100).unwrap(), 1).unwrap();

    let (range, device) = bus.device_mut(0x1010).unwrap();
    assert_eq!(range.base(), 0x1000);
    *device = 99;

    assert_eq!(*bus.device(0x1010).unwrap().1, 99);
    assert!(bus.device_mut(0x2000).is_none());
}

#[test]
fn bus_same_device_value_under_two_ranges() {
    let mut bus: Bus<u32> = Bus::new();
    bus.register(BusRange::new(0, 10).unwrap(), 5).unwrap();
    bus.register(BusRange::new(100, 10).unwrap(), 5).unwrap();

    let (r1, d1) = bus.device(5).unwrap();
    assert_eq!((r1.base(), *d1), (0, 5));
    let (r2, d2) = bus.device(105).unwrap();
    assert_eq!((r2.base(), *d2), (100, 5));
}
