//! Structs to manage device resources.
//!
//! The high level flow of resource management among the VMM, the device
//! manager, and the device is as below:
//! 1) the VMM creates a new device object.
//! 2) the VMM asks the new device object for its resource constraints.
//! 3) the VMM allocates resources for the device object according to resource
//!    constraints.
//! 4) the VMM passes the allocated resources to the device object.
//! 5) the VMM registers the new device onto corresponding device managers
//!    according the allocated resources.

use vstd::prelude::*;

verus! {

/// Enumeration describing a device's resource constraints.
pub enum ResourceConstraint {
    /// Constraint for an IO Port address range.
    PioAddress {
        /// Allocating resource within the range [`min`, `max`] if specified.
        range: Option<(u16, u16)>,
        /// Alignment for the allocated address.
        align: u16,
        /// Size for the allocated address range.
        size: u16,
    },
    /// Constraint for a Memory Mapped IO address range.
    MmioAddress {
        /// Allocating resource within the range [`min`, `max`] if specified.
        range: Option<(u64, u64)>,
        /// Alignment for the allocated address.
        align: u64,
        /// Size for the allocated address range.
        size: u64,
    },
    /// Constraint for a legacy IRQ.
    LegacyIrq {
        /// Reserving the pre-allocated IRQ if it's specified.
        irq: Option<u32>,
    },
    /// Constraint for PCI MSI IRQs.
    PciMsiIrq {
        /// Number of Irqs to allocate.
        size: u32,
    },
    /// Constraint for PCI MSIx IRQs.
    PciMsixIrq {
        /// Number of Irqs to allocate.
        size: u32,
    },
    /// Constraint for generic IRQs.
    GenericIrq {
        /// Number of Irqs to allocate.
        size: u32,
    },
    /// Constraint for KVM mem_slot indexes to map memory into the guest.
    KvmMemSlot {
        /// Allocating kvm memory slots starting from the index `slot` if
        /// specified.
        slot: Option<u32>,
        /// Number of slots to allocate.
        size: u32,
    },
}

impl ResourceConstraint {
    /// Create a new PIO address constraint object with default configuration.
    pub fn new_pio(size: u16) -> (r: Self)
        ensures
            r == (ResourceConstraint::PioAddress { range: None, align: 1u16, size }),
    {
        ResourceConstraint::PioAddress { range: None, align: 0x1, size }
    }

    /// Create a new PIO address constraint object.
    pub fn pio_with_constraints(size: u16, range: Option<(u16, u16)>, align: u16) -> (r: Self)
        ensures
            r == (ResourceConstraint::PioAddress { range, align, size }),
    {
        ResourceConstraint::PioAddress { range, align, size }
    }

    /// Create a new MMIO address constraint object with default configuration.
    pub fn new_mmio(size: u64) -> (r: Self)
        ensures
            r == (ResourceConstraint::MmioAddress { range: None, align: 0x1000u64, size }),
    {
        ResourceConstraint::MmioAddress { range: None, align: 0x1000, size }
    }

    /// Create a new MMIO address constraint object.
    pub fn mmio_with_constraints(size: u64, range: Option<(u64, u64)>, align: u64) -> (r: Self)
        ensures
            r == (ResourceConstraint::MmioAddress { range, align, size }),
    {
        ResourceConstraint::MmioAddress { range, align, size }
    }

    /// Create a new legacy IRQ constraint object.
    ///
    /// Allocating the pre-allocated legacy Irq `irq` if specified.
    pub fn new_legacy_irq(irq: Option<u32>) -> (r: Self)
        ensures
            r == (ResourceConstraint::LegacyIrq { irq }),
    {
        ResourceConstraint::LegacyIrq { irq }
    }

    /// Create a new KVM memory slot constraint object.
    ///
    /// Allocating kvm memory slots starting from the index `slot` if
    /// specified.
    pub fn new_kvm_mem_slot(size: u32, slot: Option<u32>) -> (r: Self)
        ensures
            r == (ResourceConstraint::KvmMemSlot { slot, size }),
    {
        ResourceConstraint::KvmMemSlot { slot, size }
    }
}

/// Type of Message Signaled Interrupt
#[derive(Clone, Copy, Eq, PartialEq, Structural)]
pub enum MsiIrqType {
    /// PCI MSI IRQ numbers.
    PciMsi,
    /// PCI MSIx IRQ numbers.
    PciMsix,
    /// Generic MSI IRQ numbers.
    GenericMsi,
}

/// Enumeration for device resources.
#[derive(Clone)]
pub enum Resource {
    /// Memory Mapped IO address range.
    GuestAddressRange {
        /// Base guest address of the range.
        base: u64,
        /// Size of the range, in addresses.
        size: u64,
    },
    /// Legacy IRQ number.
    LegacyIrq(u32),
    /// Message Signaled Interrupt
    MsiIrq {
        /// Kind of message signaled interrupt.
        ty: MsiIrqType,
        /// First IRQ number of the block.
        base: u32,
        /// Number of IRQ numbers in the block.
        size: u32,
    },
    /// Network Interface Card MAC address.
    MacAddresss(String),
    /// KVM memslot index.
    KvmMemSlot(u32),
}

/// The (base, size) pairs of the address-range resources in `s`, in order.
pub open spec fn mmio_address_ranges(s: Seq<Resource>) -> Seq<(u64, u64)>
    decreases s.len(),
{
    if s.len() == 0 {
        Seq::empty()
    } else {
        let rest = mmio_address_ranges(s.drop_last());
        match s.last() {
            Resource::GuestAddressRange { base, size } => rest.push((base, size)),
            _ => rest,
        }
    }
}

/// The first legacy IRQ number in `s`, if any.
pub open spec fn first_legacy_irq(s: Seq<Resource>) -> Option<u32>
    decreases s.len(),
{
    if s.len() == 0 {
        None
    } else {
        match s[0] {
            Resource::LegacyIrq(irq) => Some(irq),
            _ => first_legacy_irq(s.drop_first()),
        }
    }
}

/// The (base IRQ, count) of the first MSI IRQ resource in `s` of the given
/// type, if any.
pub open spec fn first_msi_irqs(s: Seq<Resource>, ty: MsiIrqType) -> Option<(u32, u32)>
    decreases s.len(),
{
    if s.len() == 0 {
        None
    } else {
        match s[0] {
            Resource::MsiIrq { ty: t, base, size } => if t == ty {
                Some((base, size))
            } else {
                first_msi_irqs(s.drop_first(), ty)
            },
            _ => first_msi_irqs(s.drop_first(), ty),
        }
    }
}

/// The KVM memory slot indexes in `s`, in order.
pub open spec fn kvm_mem_slots(s: Seq<Resource>) -> Seq<u32>
    decreases s.len(),
{
    if s.len() == 0 {
        Seq::empty()
    } else {
        let rest = kvm_mem_slots(s.drop_last());
        match s.last() {
            Resource::KvmMemSlot(index) => rest.push(index),
            _ => rest,
        }
    }
}

/// The characters of the first MAC address resource in `s`, if any.
pub open spec fn first_mac_address(s: Seq<Resource>) -> Option<Seq<char>>
    decreases s.len(),
{
    if s.len() == 0 {
        None
    } else {
        match s[0] {
            Resource::MacAddresss(addr) => Some(addr@),
            _ => first_mac_address(s.drop_first()),
        }
    }
}

/// Newtype to store a set of device resources.
#[derive(Default, Clone)]
pub struct DeviceResources(Vec<Resource>);

impl View for DeviceResources {
    type V = Seq<Resource>;

    closed spec fn view(&self) -> Seq<Resource> {
        self.0@
    }
}

impl DeviceResources {
    /// Create a container object to store device resources.
    pub fn new() -> (r: Self)
        ensures
            r@ == Seq::<Resource>::empty(),
    {
        DeviceResources(Vec::new())
    }

    /// Append a device resource to the container object.
    pub fn append(&mut self, entry: Resource)
        ensures
            final(self)@ == old(self)@.push(entry),
    {
        self.0.push(entry);
    }

    /// Get the Memory Mapped IO address resources.
    pub fn get_mmio_address_ranges(&self) -> (r: Vec<(u64, u64)>)
        ensures
            r@ == mmio_address_ranges(self@),
    {
        let mut vec: Vec<(u64, u64)> = Vec::new();
        let mut i: usize = 0;
        while i < self.0.len()
            invariant
                i <= self@.len(),
                vec@ == mmio_address_ranges(self@.take(i as int)),
            decreases self@.len() - i,
        {
            match &self.0[i] {
                Resource::GuestAddressRange { base, size } => {
                    vec.push((*base, *size));
                },
                _ => {},
            }
            proof {
                assert(self@.take(i as int + 1).drop_last() =~= self@.take(i as int));
                assert(self@.take(i as int + 1).last() == self@[i as int]);
            }
            i += 1;
        }
        proof {
            assert(self@.take(self@.len() as int) =~= self@);
        }
        vec
    }

    /// Get the first legacy interrupt number(IRQ).
    pub fn get_legacy_irq(&self) -> (r: Option<u32>)
        ensures
            r == first_legacy_irq(self@),
    {
        let mut i: usize = 0;
        proof {
            assert(self@.skip(0) =~= self@);
        }
        while i < self.0.len()
            invariant
                i <= self@.len(),
                first_legacy_irq(self@) == first_legacy_irq(self@.skip(i as int)),
            decreases self@.len() - i,
        {
            proof {
                assert(self@.skip(i as int)[0] == self@[i as int]);
                assert(self@.skip(i as int).drop_first() =~= self@.skip(i as int + 1));
            }
            match &self.0[i] {
                Resource::LegacyIrq(irq) => {
                    return Some(*irq);
                },
                _ => {},
            }
            i += 1;
        }
        proof {
            assert(self@.skip(self@.len() as int) =~= Seq::<Resource>::empty());
        }
        None
    }

    /// Get information about the first PCI MSI interrupt resource.
    pub fn get_pci_msi_irqs(&self) -> (r: Option<(u32, u32)>)
        ensures
            r == first_msi_irqs(self@, MsiIrqType::PciMsi),
    {
        self.get_msi_irqs(MsiIrqType::PciMsi)
    }

    /// Get information about the first PCI MSIx interrupt resource.
    pub fn get_pci_msix_irqs(&self) -> (r: Option<(u32, u32)>)
        ensures
            r == first_msi_irqs(self@, MsiIrqType::PciMsix),
    {
        self.get_msi_irqs(MsiIrqType::PciMsix)
    }

    /// Get information about the first Generic MSI interrupt resource.
    pub fn get_generic_msi_irqs(&self) -> (r: Option<(u32, u32)>)
        ensures
            r == first_msi_irqs(self@, MsiIrqType::GenericMsi),
    {
        self.get_msi_irqs(MsiIrqType::GenericMsi)
    }

    fn get_msi_irqs(&self, ty: MsiIrqType) -> (r: Option<(u32, u32)>)
        ensures
            r == first_msi_irqs(self@, ty),
    {
        let mut i: usize = 0;
        proof {
            assert(self@.skip(0) =~= self@);
        }
        while i < self.0.len()
            invariant
                i <= self@.len(),
                first_msi_irqs(self@, ty) == first_msi_irqs(self@.skip(i as int), ty),
            decreases self@.len() - i,
        {
            proof {
                assert(self@.skip(i as int)[0] == self@[i as int]);
                assert(self@.skip(i as int).drop_first() =~= self@.skip(i as int + 1));
            }
            match &self.0[i] {
                Resource::MsiIrq { ty: msi_type, base, size } => {
                    if ty == *msi_type {
                        return Some((*base, *size));
                    }
                },
                _ => {},
            }
            i += 1;
        }
        proof {
            assert(self@.skip(self@.len() as int) =~= Seq::<Resource>::empty());
        }
        None
    }

    /// Get the KVM memory slots to map memory into the guest.
    pub fn get_kvm_mem_slots(&self) -> (r: Vec<u32>)
        ensures
            r@ == kvm_mem_slots(self@),
    {
        let mut vec: Vec<u32> = Vec::new();
        let mut i: usize = 0;
        while i < self.0.len()
            invariant
                i <= self@.len(),
                vec@ == kvm_mem_slots(self@.take(i as int)),
            decreases self@.len() - i,
        {
            match &self.0[i] {
                Resource::KvmMemSlot(index) => {
                    vec.push(*index);
                },
                _ => {},
            }
            proof {
                assert(self@.take(i as int + 1).drop_last() =~= self@.take(i as int));
                assert(self@.take(i as int + 1).last() == self@[i as int]);
            }
            i += 1;
        }
        proof {
            assert(self@.take(self@.len() as int) =~= self@);
        }
        vec
    }

    /// Get the first resource information for NIC MAC address.
    pub fn get_mac_address(&self) -> (r: Option<String>)
        ensures
            match r {
                Some(mac) => first_mac_address(self@) == Some(mac@),
                None => first_mac_address(self@) is None,
            },
    {
        let mut i: usize = 0;
        proof {
            assert(self@.skip(0) =~= self@);
        }
        while i < self.0.len()
            invariant
                i <= self@.len(),
                first_mac_address(self@) == first_mac_address(self@.skip(i as int)),
            decreases self@.len() - i,
        {
            proof {
                assert(self@.skip(i as int)[0] == self@[i as int]);
                assert(self@.skip(i as int).drop_first() =~= self@.skip(i as int + 1));
            }
            match &self.0[i] {
                Resource::MacAddresss(addr) => {
                    return Some(addr.clone());
                },
                _ => {},
            }
            i += 1;
        }
        proof {
            assert(self@.skip(self@.len() as int) =~= Seq::<Resource>::empty());
        }
        None
    }

    /// Get immutable reference to all the resources.
    pub fn get_all_resources(&self) -> (r: &[Resource])
        ensures
            r@ == self@,
    {
        self.0.as_slice()
    }
}

} // verus!
