use vm_device::resources::{DeviceResources, MsiIrqType, Resource, ResourceConstraint};

fn sample_resources() -> DeviceResources {
    let mut resources = DeviceResources::new();
    resources.append(Resource::GuestAddressRange { base: 0x1000, size: 0x100 });
    resources.append(Resource::LegacyIrq(5));
    resources.append(Resource::MsiIrq { ty: MsiIrqType::PciMsi, base: 32, size: 2 });
    resources.append(Resource::MsiIrq { ty: MsiIrqType::PciMsix, base: 48, size: 4 });
    resources.append(Resource::MsiIrq { ty: MsiIrqType::GenericMsi, base: 64, size: 1 });
    resources.append(Resource::MacAddresss(String::from("de:ad:be:ef:00:01")));
    resources.append(Resource::KvmMemSlot(9));
    resources.append(Resource::GuestAddressRange { base: 0x3000, size: 0x20 });
    resources.append(Resource::KvmMemSlot(11));
    resources
}

#[test]
fn resources_mmio_address_ranges_in_order() {
    let resources = sample_resources();
    assert_eq!(
        resources.get_mmio_address_ranges(),
        vec![(0x1000, 0x100), (0x3000, 0x20)]
    );
    assert_eq!(DeviceResources::new().get_mmio_address_ranges(), Vec::new());
}

#[test]
fn resources_first_legacy_irq() {
    let resources = sample_resources();
    assert_eq!(resources.get_legacy_irq(), Some(5));
    assert_eq!(DeviceResources::new().get_legacy_irq(), None);
}

#[test]
fn resources_msi_irqs_by_type() {
    let resources = sample_resources();
    assert_eq!(resources.get_pci_msi_irqs(), Some((32, 2)));
    assert_eq!(resources.get_pci_msix_irqs(), Some((48, 4)));
    assert_eq!(resources.get_generic_msi_irqs(), Some((64, 1)));

    let mut only_msix = DeviceResources::new();
    only_msix.append(Resource::MsiIrq { ty: MsiIrqType::PciMsix, base: 8, size: 1 });
    assert_eq!(only_msix.get_pci_msi_irqs(), None);
    assert_eq!(only_msix.get_pci_msix_irqs(), Some((8, 1)));
    assert_eq!(only_msix.get_generic_msi_irqs(), None);
}

#[test]
fn resources_kvm_mem_slots_in_order() {
    let resources = sample_resources();
    assert_eq!(resources.get_kvm_mem_slots(), vec![9, 11]);
    assert_eq!(DeviceResources::new().get_kvm_mem_slots(), Vec::<u32>::new());
}

#[test]
fn resources_first_mac_address() {
    let resources = sample_resources();
    assert_eq!(resources.get_mac_address(), Some(String::from("de:ad:be:ef:00:01")));
    assert_eq!(DeviceResources::new().get_mac_address(), None);
}

#[test]
fn resources_get_all_resources_keeps_everything() {
    let resources = sample_resources();
    let all = resources.get_all_resources();
    assert_eq!(all.len(), 9);
    assert!(matches!(all[0], Resource::GuestAddressRange { base: 0x1000, size: 0x100 }));
    assert!(matches!(all[1], Resource::LegacyIrq(5)));
    assert!(matches!(all[8], Resource::KvmMemSlot(11)));
}

#[test]
fn constraint_constructors_carry_their_fields() {
    assert!(matches!(
        ResourceConstraint::new_pio(16),
        ResourceConstraint::PioAddress { range: None, align: 1, size: 16 }
    ));
    assert!(matches!(
        ResourceConstraint::pio_with_constraints(16, Some((0x80, 0xFF)), 4),
        ResourceConstraint::PioAddress { range: Some((0x80, 0xFF)), align: 4, size: 16 }
    ));
    assert!(matches!(
        ResourceConstraint::new_mmio(0x1000),
        ResourceConstraint::MmioAddress { range: None, align: 0x1000, size: 0x1000 }
    ));
    assert!(matches!(
        ResourceConstraint::mmio_with_constraints(0x100, Some((0, 0xFFFF)), 0x10),
        ResourceConstraint::MmioAddress { range: Some((0, 0xFFFF)), align: 0x10, size: 0x100 }
    ));
    assert!(matches!(
        ResourceConstraint::new_legacy_irq(Some(11)),
        ResourceConstraint::LegacyIrq { irq: Some(11) }
    ));
    assert!(matches!(
        ResourceConstraint::new_kvm_mem_slot(4, Some(2)),
        ResourceConstraint::KvmMemSlot { slot: Some(2), size: 4 }
    ));
}
