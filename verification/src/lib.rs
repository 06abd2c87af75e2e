//! Address-space dispatch for a virtual-machine device model.
//!
//! A bus maps disjoint intervals (ranges) of a flat `u64` address space to
//! device handles and routes memory-mapped I/O accesses to the correct handle
//! with the correct device-relative offset. A single device can be registered
//! with multiple ranges, but no two ranges can overlap, regardless of their
//! device associations.

use vstd::prelude::*;

pub mod bus;
pub mod device_manager;
pub mod resources;

verus! {

use std::sync::Arc;

/// Capability interface the bus requires of every registered device.
///
/// `base` is the base address of the registered range that was hit (so a
/// device registered under several ranges can tell which one), and `offset`
/// is the address of the access relative to that base. The device must only
/// touch `data` and must not fail in a way observable to the caller.
pub trait VirtioMmioDevice {
    /// Handle a read of `data.len()` bytes at `offset` within the range
    /// starting at `base`, filling `data`.
    fn virtio_mmio_read(&self, base: u64, offset: u64, data: &mut Vec<u8>);

    /// Handle a write of the bytes in `data` at `offset` within the range
    /// starting at `base`.
    fn virtio_mmio_write(&self, base: u64, offset: u64, data: &[u8]);
}

/// Same capability as [`VirtioMmioDevice`], for devices that need exclusive
/// access to mutate their state instead of managing their own interior
/// synchronization.
pub trait MutVirtioMmioDevice {
    /// Handle a read of `data.len()` bytes at `offset` within the range
    /// starting at `base`, filling `data`.
    fn virtio_mmio_read(&mut self, base: u64, offset: u64, data: &mut Vec<u8>);

    /// Handle a write of the bytes in `data` at `offset` within the range
    /// starting at `base`.
    fn virtio_mmio_write(&mut self, base: u64, offset: u64, data: &[u8]);
}

impl<T: VirtioMmioDevice> VirtioMmioDevice for Arc<T> {
    fn virtio_mmio_read(&self, base: u64, offset: u64, data: &mut Vec<u8>) {
        (**self).virtio_mmio_read(base, offset, data);
    }

    fn virtio_mmio_write(&self, base: u64, offset: u64, data: &[u8]) {
        (**self).virtio_mmio_write(base, offset, data);
    }
}

} // verus!
